use keyport::launcher::{desktop_exec, launch_desktop_entry, open_target, strip_field_codes, LaunchAction, Platform};

#[test]
fn strip_field_codes_drops_codes() {
    assert_eq!(strip_field_codes("firefox %u"), "firefox");
    assert_eq!(strip_field_codes("code --new-window %F"), "code --new-window");
    assert_eq!(strip_field_codes("app %i %c %k --x"), "app    --x");
}

#[test]
fn strip_field_codes_keeps_literal_percent() {
    assert_eq!(strip_field_codes("echo 100%%"), "echo 100%");
    assert_eq!(strip_field_codes("%%"), "%");
}

#[test]
fn strip_field_codes_trailing_percent_and_trim() {
    assert_eq!(strip_field_codes("  run %"), "run");
    assert_eq!(strip_field_codes("plain command  "), "plain command");
    assert_eq!(strip_field_codes(""), "");
}

#[test]
fn desktop_exec_reads_main_group() {
    let text = "[Desktop Entry]\nName=Files\nExec=nautilus --new-window %U\n[Desktop Action new]\nExec=other\n";
    assert_eq!(desktop_exec(text), Some("nautilus --new-window".to_string()));
}

#[test]
fn desktop_exec_ignores_other_groups() {
    let text = "[Desktop Action x]\nExec=wrong\n[Desktop Entry]\nName=A\n[Other]\nExec=also wrong\n";
    assert_eq!(desktop_exec(text), None);
    assert_eq!(desktop_exec("Exec=nothing\n"), None);
    assert_eq!(desktop_exec(""), None);
}

#[test]
fn desktop_exec_trims_and_handles_crlf() {
    let text = "  [Desktop Entry]  \r\n   Exec=  gimp %f  \r\n";
    assert_eq!(desktop_exec(text), Some("gimp".to_string()));
}

#[test]
fn open_target_blank_is_refused() {
    for p in [Platform::Windows, Platform::Linux, Platform::Other] {
        match open_target("folder", "   ", p) {
            Err(e) => assert_eq!(e, "Shortcut has no target."),
            Ok(_) => panic!("blank target accepted"),
        }
    }
}

#[test]
fn open_target_windows_uses_explorer() {
    match open_target("app", "C:\\Apps\\x.lnk", Platform::Windows) {
        Ok(LaunchAction::Run(sp)) => {
            assert_eq!(sp.program, "explorer.exe");
            assert_eq!(sp.args, vec!["C:\\Apps\\x.lnk".to_string()]);
        }
        _ => panic!("expected explorer"),
    }
}

#[test]
fn open_target_linux_desktop_app_reads_entry() {
    match open_target("app", "/usr/share/applications/gimp.desktop", Platform::Linux) {
        Ok(LaunchAction::ReadDesktopEntry(p)) => assert_eq!(p, "/usr/share/applications/gimp.desktop"),
        _ => panic!("expected a desktop entry read"),
    }
    // A folder ending in ".desktop" is still opened with xdg-open.
    match open_target("folder", "/home/me/x.desktop", Platform::Linux) {
        Ok(LaunchAction::Run(sp)) => {
            assert_eq!(sp.program, "xdg-open");
            assert_eq!(sp.failure_prefix, "Failed to launch (is xdg-utils installed?): ");
        }
        _ => panic!("expected xdg-open"),
    }
}

#[test]
fn open_target_other_platform_refused() {
    match open_target("web", "https://example.com", Platform::Other) {
        Err(e) => assert_eq!(e, "Keyport supports Windows and Linux only."),
        Ok(_) => panic!("expected refusal"),
    }
}

#[test]
fn launch_desktop_entry_runs_exec_through_shell() {
    let sp = launch_desktop_entry("/a/gimp.desktop", Some("[Desktop Entry]\nExec=gimp-2.10 %U\n"));
    assert_eq!(sp.program, "sh");
    assert_eq!(sp.args, vec!["-c".to_string(), "gimp-2.10".to_string()]);
    assert_eq!(sp.failure_prefix, "Failed to launch: ");
}

#[test]
fn launch_desktop_entry_falls_back_to_xdg_open() {
    let sp = launch_desktop_entry("/a/gimp.desktop", None);
    assert_eq!(sp.program, "xdg-open");
    assert_eq!(sp.args, vec!["/a/gimp.desktop".to_string()]);
    let sp = launch_desktop_entry("/a/gimp.desktop", Some("[Desktop Entry]\nName=Gimp\n"));
    assert_eq!(sp.program, "xdg-open");
}
