//! The overlay window's state: which of its three layouts the ring window is
//! in, and the choices of the key-entry layout that do not depend on
//! measurements.

use vstd::prelude::*;

verus! {

/// The layout of the ring window: the small idle window, the grown key-entry
/// window, or the fullscreen launch overlay.
#[derive(Clone, Copy, PartialEq, Eq, Structural, Debug)]
pub enum Mode {
    Idle,
    Entry,
    Launch,
}

impl Default for Mode {
    /// The ring starts idle.
    fn default() -> (m: Self)
        ensures
            m == Mode::Idle,
    {
        Mode::Idle
    }
}

/// The two-letter code of the screen corner the key-entry window grows from:
/// `b`/`t` for a ring in the bottom/top half of the monitor, then `r`/`l` for
/// the right/left half.
pub open spec fn corner_code(bottom: bool, right: bool) -> Seq<char> {
    if bottom {
        if right {
            "br"@
        } else {
            "bl"@
        }
    } else if right {
        "tr"@
    } else {
        "tl"@
    }
}

/// The corner the key-entry window grows from, so that it grows toward the
/// centre of the screen: `bottom` and `right` tell in which half of the monitor
/// the ring stands.
pub fn entry_corner(bottom: bool, right: bool) -> (c: String)
    ensures
        c@ == corner_code(bottom, right),
{
    if bottom {
        if right {
            "br".to_owned()
        } else {
            "bl".to_owned()
        }
    } else if right {
        "tr".to_owned()
    } else {
        "tl".to_owned()
    }
}

/// Whether losing focus dismisses the key box: exactly when the window is
/// showing the key-entry layout.
pub fn dismisses_entry(mode: Mode, focused: bool) -> (r: bool)
    ensures
        r == (!focused && mode == Mode::Entry),
{
    !focused && mode == Mode::Entry
}

} // verus!
