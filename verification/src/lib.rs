//! Keyport's core logic: shortcut keys and their store, the parsing of
//! desktop entries and of the shell's application list, the ordering of the
//! installed-apps list, and the launch decisions.

pub mod text;
pub mod paths;
pub mod config;
pub mod launcher;
pub mod apps;
pub mod listing;
pub mod overlay;
pub mod tray;
