use keyport::apps::{has_any_ext, has_ext, is_fs_path, is_real_app, parse_apps_folder, parse_desktop_name, AppEntry};
use keyport::listing::{finalize, list_installed, list_linux, list_windows, Discovered};

fn app(name: &str, path: &str) -> AppEntry {
    AppEntry { name: name.to_string(), path: path.to_string() }
}

fn names(list: &[AppEntry]) -> Vec<String> {
    list.iter().map(|a| a.name.clone()).collect()
}

#[test]
fn desktop_name_of_visible_application() {
    let text = "[Desktop Entry]\nType=Application\nName=Firefox\nName=Other\nExec=firefox\n";
    assert_eq!(parse_desktop_name(text), Some("Firefox".to_string()));
}

#[test]
fn desktop_name_assumes_application_and_trims() {
    assert_eq!(parse_desktop_name("[Desktop Entry]\n  Name=  Text Editor  \n"), Some("Text Editor".to_string()));
}

#[test]
fn desktop_name_hidden_entries() {
    assert_eq!(parse_desktop_name("[Desktop Entry]\nName=A\nNoDisplay=true\n"), None);
    assert_eq!(parse_desktop_name("[Desktop Entry]\nName=A\nHidden= TRUE \n"), None);
    assert_eq!(parse_desktop_name("[Desktop Entry]\nName=A\nNoDisplay=false\n"), Some("A".to_string()));
}

#[test]
fn desktop_name_non_application() {
    assert_eq!(parse_desktop_name("[Desktop Entry]\nName=A\nType=Link\n"), None);
    assert_eq!(parse_desktop_name("[Desktop Entry]\nName=A\nType=application\n"), Some("A".to_string()));
}

#[test]
fn desktop_name_only_main_group_counts() {
    let text = "Name=Before\n[Desktop Entry]\nExec=x\n[Desktop Action a]\nName=Action\nNoDisplay=true\n";
    assert_eq!(parse_desktop_name(text), None);
    let text = "[Desktop Entry]\nName=Main\n[Desktop Action a]\nNoDisplay=true\n";
    assert_eq!(parse_desktop_name(text), Some("Main".to_string()));
    assert_eq!(parse_desktop_name("Name=No group\n"), None);
}

#[test]
fn real_app_filter() {
    assert!(is_real_app("Firefox"));
    assert!(is_real_app("Visual Studio Code"));
    assert!(!is_real_app("Uninstall Foo"));
    assert!(!is_real_app("Foo README"));
    assert!(!is_real_app("License Agreement"));
    assert!(is_real_app("My License"));
    assert!(!is_real_app("HELP center"));
    assert!(!is_real_app("Python 3.12 Manuals"));
    assert!(!is_real_app("Release Notes"));
    assert!(!is_real_app("Foo on the Web"));
    assert!(!is_real_app("Vendor Website"));
    assert!(!is_real_app("Documentation"));
}

#[test]
fn fs_path_detection() {
    assert!(is_fs_path("C:\\Program Files\\app.exe"));
    assert!(is_fs_path("d:/tools/x.exe"));
    assert!(is_fs_path("\\\\server\\share\\x.exe"));
    assert!(!is_fs_path("Microsoft.WindowsCalculator_8wekyb3d8bbwe!App"));
    assert!(!is_fs_path("1:\\x"));
    assert!(!is_fs_path("C:"));
    assert!(!is_fs_path("\\x"));
}

#[test]
fn extension_checks() {
    assert!(has_any_ext("/docs/readme.TXT", &["html", "txt"]));
    assert!(!has_any_ext("/apps/tool.exe", &["html", "txt"]));
    assert!(!has_any_ext("/apps/noext", &["html", "txt"]));
    assert!(has_ext("/usr/share/applications/firefox.Desktop", "desktop"));
    assert!(!has_ext("/usr/share/applications/firefox.desktop.bak", "desktop"));
    assert!(!has_ext("/usr/share/applications/desktop", "desktop"));
}

#[test]
fn apps_folder_listing() {
    let text = "/opt/tool.exe|Tool\r\n\r\nnot a line\r\n/opt/readme.txt|Readme\r\n  Microsoft.Calc!App | Calculator \r\n|NoPath\r\n/x|   \r\n";
    let got = parse_apps_folder(text);
    // Only drive-letter and UNC paths count as filesystem paths; anything else
    // is launched through the shell, whatever its extension.
    assert_eq!(got.len(), 3);
    assert_eq!(got[0].name, "Tool");
    assert_eq!(got[0].path, "shell:AppsFolder\\/opt/tool.exe");
    assert_eq!(got[1].name, "Readme");
    assert_eq!(got[1].path, "shell:AppsFolder\\/opt/readme.txt");
    assert_eq!(got[2].name, "Calculator");
    assert_eq!(got[2].path, "shell:AppsFolder\\Microsoft.Calc!App");
}

#[test]
fn apps_folder_filesystem_paths() {
    let text = "C:/Apps/tool.exe|Tool\nC:/Docs/guide.pdf|Guide\nC:/Docs/page.HTM|Page\n";
    let got = parse_apps_folder(text);
    assert_eq!(names(&got), vec!["Tool"]);
    assert_eq!(got[0].path, "C:/Apps/tool.exe");
}

#[test]
fn finalize_sorts_case_insensitively_and_dedups() {
    let mut list = vec![
        app("zoom", "/z"),
        app("Firefox", "/f1"),
        app("alpha", "/a"),
        app("FIREFOX", "/f2"),
        app("Beta", "/b"),
        app("firefox", "/f3"),
    ];
    finalize(&mut list);
    assert_eq!(names(&list), vec!["alpha", "Beta", "Firefox", "zoom"]);
    // The first of equal names (in input order) is the one kept.
    assert_eq!(list[2].path, "/f1");
}

#[test]
fn finalize_empty_and_single() {
    let mut list: Vec<AppEntry> = Vec::new();
    finalize(&mut list);
    assert!(list.is_empty());
    let mut list = vec![app("Only", "/o")];
    finalize(&mut list);
    assert_eq!(names(&list), vec!["Only"]);
}

#[test]
fn finalize_is_stable_for_equal_keys() {
    let mut list = vec![app("b", "/1"), app("a", "/2"), app("a", "/3")];
    finalize(&mut list);
    assert_eq!(names(&list), vec!["a", "b"]);
    assert_eq!(list[0].path, "/2");
}

#[test]
fn windows_list_filters_and_falls_back() {
    let shell = vec![app("Zed", "/z"), app("Uninstall Zed", "/u"), app("atom", "/a")];
    let start = vec![app("Never", "/n")];
    let got = list_windows(shell, start);
    assert_eq!(names(&got), vec!["atom", "Zed"]);
    let got = list_windows(Vec::new(), vec![app("Paint", "/p"), app("Paint Help", "/h")]);
    assert_eq!(names(&got), vec!["Paint"]);
}

#[test]
fn linux_list_does_not_filter_names() {
    let got = list_linux(vec![app("Help", "/h.desktop"), app("editor", "/e.desktop"), app("Editor", "/e2.desktop")]);
    assert_eq!(names(&got), vec!["editor", "Help"]);
}

#[test]
fn installed_list_per_platform() {
    let got = list_installed(Discovered::Linux { desktop_entries: vec![app("b", "/b"), app("a", "/a")] });
    assert_eq!(names(&got), vec!["a", "b"]);
    let got = list_installed(Discovered::Windows { from_shell: vec![app("Readme", "/r")], from_start_menu: Vec::new() });
    assert!(got.is_empty());
    assert!(list_installed(Discovered::Unsupported).is_empty());
}

#[test]
fn finalize_drops_non_ascii_case_duplicates() {
    let mut list = vec![app("é", "/1"), app("b", "/2"), app("É", "/3")];
    finalize(&mut list);
    assert_eq!(names(&list), vec!["b", "é"]);
    assert_eq!(list[1].path, "/1");
}

#[test]
fn finalize_drops_every_case_duplicate() {
    let mut list = vec![app("Zed", "/1"), app("ZED", "/2"), app("alpha", "/3"), app("zed", "/4")];
    finalize(&mut list);
    assert_eq!(names(&list), vec!["alpha", "Zed"]);
}

#[test]
fn extension_checks_on_windows_style_and_upper_case() {
    assert!(has_any_ext("C:\\Docs\\Guide.PDF", &["pdf", "md"]));
    assert!(has_ext("/usr/share/applications/org.gnome.Maps.DESKTOP", "desktop"));
}

#[test]
fn apps_folder_windows_listing() {
    let text = "C:\\Tools\\app.exe|Tool\r\n{6D809377-6AF0-444B-8957-A3773F02200E}\\Vendor\\tool.exe|Vendor Tool\r\nMicrosoft.WindowsCalculator_8wekyb3d8bbwe!App|Calculator\r\nC:\\Docs\\Guide.PDF|Guide\r\n\r\nno separator\r\n|Nameless\r\n";
    let got = parse_apps_folder(text);
    assert_eq!(got.len(), 3);
    assert_eq!((got[0].name.as_str(), got[0].path.as_str()), ("Tool", "C:\\Tools\\app.exe"));
    assert_eq!(
        (got[1].name.as_str(), got[1].path.as_str()),
        ("Vendor Tool", "shell:AppsFolder\\{6D809377-6AF0-444B-8957-A3773F02200E}\\Vendor\\tool.exe")
    );
    assert_eq!(
        (got[2].name.as_str(), got[2].path.as_str()),
        ("Calculator", "shell:AppsFolder\\Microsoft.WindowsCalculator_8wekyb3d8bbwe!App")
    );
}

use keyport::apps::{walk_entry, within_depth, WalkStep, DESKTOP_SCAN_DEPTH, LNK_SCAN_DEPTH};

#[test]
fn directory_walk_steps() {
    assert!(walk_entry(true, "/usr/share/applications/kde", "desktop") == WalkStep::Descend);
    assert!(walk_entry(false, "/usr/share/applications/gimp.desktop", "desktop") == WalkStep::Consider);
    assert!(walk_entry(false, "/usr/share/applications/mimeinfo.cache", "desktop") == WalkStep::Skip);
    assert!(within_depth(4, DESKTOP_SCAN_DEPTH));
    assert!(!within_depth(5, DESKTOP_SCAN_DEPTH));
    assert!(within_depth(6, LNK_SCAN_DEPTH));
    assert!(!within_depth(7, LNK_SCAN_DEPTH));
}

use keyport::apps::xdg_data_dirs;

#[test]
fn xdg_data_dirs_drops_empty_pieces() {
    assert_eq!(xdg_data_dirs("/usr/local/share:/usr/share"), vec!["/usr/local/share", "/usr/share"]);
    assert_eq!(xdg_data_dirs("::/a::/b:"), vec!["/a", "/b"]);
    assert!(xdg_data_dirs("").is_empty());
    assert!(xdg_data_dirs(":::").is_empty());
}
