use keyport::config::{add_shortcut, delete_shortcut, open_shortcut, validate_key, Shortcut};
use keyport::launcher::{LaunchAction, Platform};

fn sc(key: &str, kind: &str, target: &str, label: &str) -> Shortcut {
    Shortcut {
        key: key.to_string(),
        kind: kind.to_string(),
        target: target.to_string(),
        label: label.to_string(),
    }
}

fn keys(list: &[Shortcut]) -> Vec<String> {
    list.iter().map(|s| s.key.clone()).collect()
}

#[test]
fn validate_key_accepts_lowercase_and_digits() {
    assert_eq!(validate_key("a4g56"), Ok(()));
    assert_eq!(validate_key("docs1"), Ok(()));
    assert_eq!(validate_key("00000"), Ok(()));
}

#[test]
fn validate_key_rejects_wrong_length() {
    let msg = "Key must be exactly 5 characters.".to_string();
    assert_eq!(validate_key("abcd"), Err(msg.clone()));
    assert_eq!(validate_key("abcdef"), Err(msg.clone()));
    assert_eq!(validate_key(""), Err(msg));
}

#[test]
fn validate_key_rejects_bad_characters() {
    let msg = "Key may only contain lowercase letters (a-z) and digits (0-9).".to_string();
    assert_eq!(validate_key("Abcde"), Err(msg.clone()));
    assert_eq!(validate_key("ab de"), Err(msg.clone()));
    assert_eq!(validate_key("ab-de"), Err(msg.clone()));
    // Five characters, counted as characters rather than bytes.
    assert_eq!(validate_key("ééééé"), Err(msg));
}

#[test]
fn add_shortcut_normalises_and_appends() {
    let mut list = vec![sc("web01", "web", "https://example.com", "Example")];
    let r = add_shortcut(&mut list, "  SPOT5 ", "app", "  /usr/share/applications/spotify.desktop ", "  Spotify ");
    assert_eq!(r, Ok(()));
    assert_eq!(list.len(), 2);
    assert_eq!(list[1].key, "spot5");
    assert_eq!(list[1].kind, "app");
    assert_eq!(list[1].target, "/usr/share/applications/spotify.desktop");
    assert_eq!(list[1].label, "Spotify");
}

#[test]
fn add_shortcut_label_falls_back_to_file_stem() {
    let mut list = Vec::new();
    assert_eq!(add_shortcut(&mut list, "cv001", "file", "/home/me/docs/resume.pdf", "   "), Ok(()));
    assert_eq!(list[0].label, "resume");
    assert_eq!(add_shortcut(&mut list, "proj7", "folder", "/home/me/projects", ""), Ok(()));
    assert_eq!(list[1].label, "projects");
}

#[test]
fn add_shortcut_errors_leave_list_unchanged() {
    let mut list = vec![sc("docs1", "folder", "/home/me/docs", "docs")];
    assert_eq!(
        add_shortcut(&mut list, "doc", "folder", "/tmp", ""),
        Err("Key must be exactly 5 characters.".to_string())
    );
    assert_eq!(
        add_shortcut(&mut list, "do_s1", "folder", "/tmp", ""),
        Err("Key may only contain lowercase letters (a-z) and digits (0-9).".to_string())
    );
    assert_eq!(
        add_shortcut(&mut list, "tmp01", "drive", "/tmp", ""),
        Err("Shortcut kind must be 'folder', 'app', 'file', or 'web'.".to_string())
    );
    assert_eq!(
        add_shortcut(&mut list, "tmp01", "folder", "   ", ""),
        Err("Please choose a folder, app, or file, or enter a website URL first.".to_string())
    );
    assert_eq!(
        add_shortcut(&mut list, " DOCS1", "folder", "/tmp", ""),
        Err("The key 'docs1' is already in use.".to_string())
    );
    assert_eq!(keys(&list), vec!["docs1".to_string()]);
}

#[test]
fn key_order_matters() {
    let mut list = Vec::new();
    assert_eq!(add_shortcut(&mut list, "a4g56", "web", "https://a.example", ""), Ok(()));
    assert_eq!(add_shortcut(&mut list, "4ag56", "web", "https://b.example", ""), Ok(()));
    assert_eq!(add_shortcut(&mut list, "56g4a", "web", "https://c.example", ""), Ok(()));
    assert_eq!(keys(&list), vec!["a4g56", "4ag56", "56g4a"]);
}

#[test]
fn delete_shortcut_removes_only_that_key() {
    let mut list = vec![
        sc("aaaaa", "web", "https://a", "a"),
        sc("bbbbb", "web", "https://b", "b"),
        sc("ccccc", "web", "https://c", "c"),
    ];
    delete_shortcut(&mut list, "bbbbb");
    assert_eq!(keys(&list), vec!["aaaaa", "ccccc"]);
    delete_shortcut(&mut list, "zzzzz");
    assert_eq!(keys(&list), vec!["aaaaa", "ccccc"]);
}

#[test]
fn delete_undoes_add() {
    let mut list = vec![sc("aaaaa", "web", "https://a", "a")];
    let before = keys(&list);
    assert_eq!(add_shortcut(&mut list, "bbbbb", "folder", "/srv", ""), Ok(()));
    delete_shortcut(&mut list, "bbbbb");
    assert_eq!(keys(&list), before);
    assert_eq!(list[0].target, "https://a");
}

#[test]
fn added_shortcut_is_found_again() {
    let mut list = vec![sc("aaaaa", "web", "https://a", "a")];
    assert_eq!(add_shortcut(&mut list, "mail0", "web", "https://mail.example", "Mail"), Ok(()));
    match open_shortcut(&list, "mail0", Platform::Linux) {
        Ok(LaunchAction::Run(sp)) => {
            assert_eq!(sp.program, "xdg-open");
            assert_eq!(sp.args, vec!["https://mail.example".to_string()]);
        }
        _ => panic!("expected xdg-open"),
    }
}

#[test]
fn open_shortcut_unknown_key() {
    let list = vec![sc("aaaaa", "web", "https://a", "a")];
    match open_shortcut(&list, "zzzzz", Platform::Linux) {
        Err(e) => assert_eq!(e, "No shortcut for key 'zzzzz'."),
        Ok(_) => panic!("expected an error"),
    }
}

#[test]
fn deleted_shortcut_is_not_found() {
    let mut list = vec![sc("aaaaa", "web", "https://a", "a"), sc("bbbbb", "web", "https://b", "b")];
    delete_shortcut(&mut list, "aaaaa");
    assert!(open_shortcut(&list, "aaaaa", Platform::Windows).is_err());
    match open_shortcut(&list, "bbbbb", Platform::Windows) {
        Ok(LaunchAction::Run(sp)) => {
            assert_eq!(sp.program, "explorer.exe");
            assert_eq!(sp.args, vec!["https://b".to_string()]);
            assert_eq!(sp.failure_prefix, "Failed to launch: ");
        }
        _ => panic!("expected explorer"),
    }
}

#[test]
fn open_shortcut_first_match_wins() {
    let list = vec![sc("aaaaa", "web", "https://first", "a"), sc("aaaaa", "web", "https://second", "a")];
    match open_shortcut(&list, "aaaaa", Platform::Linux) {
        Ok(LaunchAction::Run(sp)) => assert_eq!(sp.args, vec!["https://first".to_string()]),
        _ => panic!("expected xdg-open"),
    }
}

#[test]
fn add_shortcut_label_is_folder_name() {
    let mut list = Vec::new();
    assert_eq!(add_shortcut(&mut list, "  DOCS1 ", "folder", "  /home/me/Documents ", ""), Ok(()));
    assert_eq!(list[0].key, "docs1");
    assert_eq!(list[0].target, "/home/me/Documents");
    assert_eq!(list[0].label, "Documents");
}
