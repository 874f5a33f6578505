use krill_file_drop::paths::{
    contacts_path, copy_file_to_clipboard, downloads_dir, open_path, path_to_file_uri, state_dir,
};
use krill_file_drop::received::{
    list_received_files, unix_millis, FoundEntry, FoundMeta, ReceivedFile,
};

fn some(s: &str) -> Option<String> {
    Some(s.to_string())
}

fn entry(name: &str, modified: Option<u128>, is_file: bool) -> FoundEntry {
    FoundEntry {
        path: format!("/d/{name}"),
        name: some(name),
        meta: Some(FoundMeta { is_file, size: name.len() as u64, modified }),
    }
}

#[test]
fn received_files_go_below_the_download_directory() {
    assert_eq!(downloads_dir(some("/dl"), some("/home/me")), "/dl/krill-file-drop");
    assert_eq!(downloads_dir(None, some("/home/me")), "/home/me/Downloads/krill-file-drop");
    assert_eq!(downloads_dir(None, None), "./krill-file-drop");
    assert_eq!(downloads_dir(some(""), None), "krill-file-drop");
}

#[test]
fn state_goes_below_the_state_directory() {
    assert_eq!(state_dir(some("/st"), some("/home/me")), "/st/krill-file-drop");
    assert_eq!(state_dir(None, some("/home/me")), "/home/me/.local/state/krill-file-drop");
    assert_eq!(state_dir(None, None), "./krill-file-drop");
    assert_eq!(
        contacts_path(None, some("/home/me/")),
        "/home/me/.local/state/krill-file-drop/contacts.json"
    );
}

#[test]
fn file_uris_escape_what_is_not_plain() {
    assert_eq!(path_to_file_uri("/home/me/a-b_c.d~e"), "file:///home/me/a-b_c.d~e");
    assert_eq!(path_to_file_uri("/photo (2).jpg"), "file:///photo%20%282%29.jpg");
    assert_eq!(path_to_file_uri("/caf\u{e9}"), "file:///caf%C3%A9");
    assert_eq!(path_to_file_uri("/100%"), "file:///100%25");
    assert_eq!(path_to_file_uri("/\u{7f}\n"), "file:///%7F%0A");
    assert_eq!(path_to_file_uri(""), "file://");
}

#[test]
fn different_paths_have_different_uris() {
    let paths = ["/a b", "/a%20b", "/a+b", "/A b", "/a\u{a0}b", "/a/b"];
    for (i, a) in paths.iter().enumerate() {
        let uri = path_to_file_uri(a);
        for c in uri["file://".len()..].chars() {
            assert!(c.is_ascii_alphanumeric() || "-._~/%".contains(c));
        }
        for b in &paths[..i] {
            assert_ne!(uri, path_to_file_uri(b));
        }
    }
}

#[test]
fn files_are_handed_to_the_desktop() {
    let open = open_path("/d/a b");
    assert_eq!(open.program, "xdg-open");
    assert_eq!(open.args, vec!["/d/a b"]);
    let wayland = copy_file_to_clipboard("/d/a b", true);
    assert_eq!(wayland.command.program, "wl-copy");
    assert_eq!(wayland.command.args, vec!["--type", "text/uri-list"]);
    assert_eq!(wayland.input, "file:///d/a%20b");
    assert_eq!(wayland.spawn_error, "spawning wl-copy (install wl-clipboard?)");
    let x11 = copy_file_to_clipboard("/d/a b", false);
    assert_eq!(x11.command.program, "xclip");
    assert_eq!(x11.command.args, vec!["-selection", "clipboard", "-t", "text/uri-list"]);
    assert_eq!(x11.input, "file:///d/a%20b");
    assert_eq!(x11.spawn_error, "spawning xclip (install xclip?)");
}

#[test]
fn times_are_counted_in_milliseconds() {
    assert_eq!(unix_millis(None), 0);
    assert_eq!(unix_millis(Some(0)), 0);
    assert_eq!(unix_millis(Some(1700000000123)), 1700000000123);
    assert_eq!(unix_millis(Some(u64::MAX as u128 + 3)), 2);
}

#[test]
fn received_files_are_listed_newest_first() {
    let entries = vec![
        entry("old", Some(10), true),
        entry("dir", Some(99), false),
        entry("new", Some(30), true),
        entry("first of two", Some(20), true),
        entry("second of two", Some(20), true),
        entry("unknown", None, true),
        FoundEntry { path: "/d/gone".to_string(), name: some("gone"), meta: None },
        FoundEntry {
            path: "/d/..".to_string(),
            name: None,
            meta: Some(FoundMeta { is_file: true, size: 1, modified: Some(50) }),
        },
    ];
    let listed = list_received_files(&entries);
    let names: Vec<&str> = listed.iter().map(|f| f.name.as_str()).collect();
    assert_eq!(names, vec!["new", "first of two", "second of two", "old", "unknown"]);
    assert_eq!(
        listed[0],
        ReceivedFile {
            name: "new".to_string(),
            size: 3,
            modified: 30,
            path: "/d/new".to_string(),
        }
    );
    assert_eq!(listed[4].modified, 0);
    assert!(list_received_files(&Vec::new()).is_empty());
}

#[test]
fn listing_keeps_every_file() {
    let times = [5u128, 3, 9, 3, 7, 9, 1, 5, 3];
    let entries: Vec<FoundEntry> =
        times.iter().enumerate().map(|(i, t)| entry(&format!("f{i}"), Some(*t), true)).collect();
    let listed = list_received_files(&entries);
    let mut expected: Vec<(String, u64)> =
        times.iter().enumerate().map(|(i, t)| (format!("f{i}"), *t as u64)).collect();
    expected.sort_by(|a, b| b.1.cmp(&a.1));
    let got: Vec<(String, u64)> = listed.into_iter().map(|f| (f.name, f.modified)).collect();
    assert_eq!(got, expected);
}
