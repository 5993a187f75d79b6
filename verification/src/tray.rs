//! The system-tray menu: which command each menu item stands for.

use vstd::prelude::*;
use crate::text::str_eq;

verus! {

/// What a tray menu item asks for.
#[derive(Clone, Copy, PartialEq, Eq, Structural, Debug)]
pub enum TrayCommand {
    /// Show the Settings window.
    OpenSettings,
    /// Snap the ring back to its default corner.
    ResetRing,
    /// Quit Keyport.
    Quit,
    /// An item this menu does not know.
    Ignore,
}

/// The command of the tray menu item with identifier `id`: `settings`,
/// `reset` and `quit` are the menu's items; any other identifier is ignored.
pub fn tray_command(id: &str) -> (c: TrayCommand)
    ensures
        c == (if id@ == "settings"@ {
            TrayCommand::OpenSettings
        } else if id@ == "reset"@ {
            TrayCommand::ResetRing
        } else if id@ == "quit"@ {
            TrayCommand::Quit
        } else {
            TrayCommand::Ignore
        }),
{
    if str_eq(id, "settings") {
        TrayCommand::OpenSettings
    } else if str_eq(id, "reset") {
        TrayCommand::ResetRing
    } else if str_eq(id, "quit") {
        TrayCommand::Quit
    } else {
        TrayCommand::Ignore
    }
}

} // verus!
