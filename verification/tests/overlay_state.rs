use keyport::overlay::{dismisses_entry, entry_corner, Mode};

#[test]
fn mode_starts_idle() {
    assert!(Mode::default() == Mode::Idle);
}

#[test]
fn entry_corner_grows_toward_centre() {
    assert_eq!(entry_corner(true, true), "br");
    assert_eq!(entry_corner(true, false), "bl");
    assert_eq!(entry_corner(false, true), "tr");
    assert_eq!(entry_corner(false, false), "tl");
}

#[test]
fn focus_loss_dismisses_only_entry() {
    assert!(dismisses_entry(Mode::Entry, false));
    assert!(!dismisses_entry(Mode::Entry, true));
    assert!(!dismisses_entry(Mode::Idle, false));
    assert!(!dismisses_entry(Mode::Launch, false));
}

use keyport::tray::{tray_command, TrayCommand};

#[test]
fn tray_menu_items() {
    assert!(tray_command("settings") == TrayCommand::OpenSettings);
    assert!(tray_command("reset") == TrayCommand::ResetRing);
    assert!(tray_command("quit") == TrayCommand::Quit);
    assert!(tray_command("Quit") == TrayCommand::Ignore);
    assert!(tray_command("") == TrayCommand::Ignore);
}
