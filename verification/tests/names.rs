use krill_file_drop::names::{
    file_name_of, join, numbered_name, plain_name_of, sanitize_name, split_name, stamped_name,
    unique_path,
};

fn all_of(dir: &str, name: &str, up_to: u32) -> Vec<String> {
    let mut out = vec![join(dir, name)];
    for n in 2..=up_to {
        out.push(join(dir, &numbered_name(name, n)));
    }
    out
}

#[test]
fn a_name_is_split_at_its_last_dot() {
    assert_eq!(split_name("photo.jpg"), ("photo", "jpg"));
    assert_eq!(split_name("a.tar.gz"), ("a.tar", "gz"));
    assert_eq!(split_name("README"), ("README", ""));
    assert_eq!(split_name(".bashrc"), (".bashrc", ""));
    assert_eq!(split_name("..x"), (".", "x"));
    assert_eq!(split_name("ends."), ("ends", ""));
    assert_eq!(split_name("caf\u{e9}.p\u{f1}g"), ("caf\u{e9}", "p\u{f1}g"));
    assert_eq!(split_name(""), ("", ""));
}

#[test]
fn splitting_keeps_the_name() {
    for name in ["photo.jpg", "a.tar.gz", "README", ".bashrc", "ends.", "..x", "x."] {
        let (stem, extension) = split_name(name);
        if extension.is_empty() {
            assert!(name == stem || name == format!("{stem}."));
        } else {
            assert_eq!(name, format!("{stem}.{extension}"));
        }
        assert!(!extension.contains('.'));
    }
}

#[test]
fn names_are_numbered_and_stamped_behind_the_stem() {
    assert_eq!(numbered_name("photo.jpg", 2), "photo (2).jpg");
    assert_eq!(numbered_name("README", 17), "README (17)");
    assert_eq!(numbered_name(".bashrc", 3), ".bashrc (3)");
    assert_eq!(numbered_name("ends.", 2), "ends (2)");
    assert_eq!(stamped_name("photo.jpg", 1700000000000), "photo.1700000000000.jpg");
    assert_eq!(stamped_name("README", 0), "README.0");
}

#[test]
fn numbered_names_are_all_different() {
    let names = all_of("", "photo.jpg", 999);
    for (i, a) in names.iter().enumerate() {
        for b in &names[..i] {
            assert_ne!(a, b);
        }
    }
}

#[test]
fn directories_and_names_are_joined() {
    let samples = [
        ("/tmp", "x"),
        ("/tmp/", "x"),
        ("", "x"),
        ("/tmp", "/etc/passwd"),
        ("/tmp", ""),
        (".", "a/b"),
        ("/", "x"),
    ];
    for (dir, name) in samples {
        let expected = std::path::Path::new(dir).join(name);
        assert_eq!(join(dir, name), expected.to_str().unwrap(), "{dir:?} {name:?}");
    }
    assert_eq!(join("/tmp", "x"), "/tmp/x");
    assert_eq!(join("/tmp", "/etc/passwd"), "/etc/passwd");
}

#[test]
fn the_last_component_is_found() {
    let samples = [
        "a", "/a", "a/", "a//", "a/.", "a/./", "a/..", "..", ".", "/", "", "./", "../.", "a/b.c",
        "...", "a/...", ".hidden", "a/..b", "./.", "a/./.", "/..", "x/..//", "caf\u{e9}/\u{1F980}",
    ];
    for path in samples {
        let expected = std::path::Path::new(path).file_name().map(|s| s.to_str().unwrap().to_string());
        assert_eq!(file_name_of(path), expected, "{path:?}");
    }
    assert_eq!(file_name_of("/d/photo (2).jpg"), Some("photo (2).jpg".to_string()));
    assert_eq!(file_name_of("/d/.."), None);
}

#[test]
fn a_free_name_stays() {
    assert_eq!(
        unique_path("/d", "photo.jpg", 5, |_: &str| false),
        Some("/d/photo.jpg".to_string())
    );
}

#[test]
fn a_taken_name_gets_the_first_free_number() {
    let files = ["/d/photo.jpg"];
    assert_eq!(
        unique_path("/d", "photo.jpg", 5, |p: &str| files.contains(&p)).unwrap(),
        "/d/photo (2).jpg"
    );
    let files = ["/d/photo.jpg", "/d/photo (2).jpg", "/d/photo (4).jpg"];
    assert_eq!(
        unique_path("/d", "photo.jpg", 5, |p: &str| files.contains(&p)).unwrap(),
        "/d/photo (3).jpg"
    );
}

#[test]
fn the_last_number_is_999() {
    let files = all_of("/d", "a.b", 998);
    let path = unique_path("/d", "a.b", 5, |p: &str| files.iter().any(|f| f == p));
    assert_eq!(path, Some("/d/a (999).b".to_string()));
}

#[test]
fn a_time_stamp_settles_a_name_without_free_numbers() {
    let files = all_of("/d", "a.b", 999);
    let path = unique_path("/d", "a.b", 1700000000000, |p: &str| files.iter().any(|f| f == p));
    let path = path.unwrap();
    assert_eq!(path, "/d/a.1700000000000.b");
    assert!(!files.contains(&path));
    let files = all_of("/d", "README", 999);
    let path = unique_path("/d", "README", 7, |p: &str| files.iter().any(|f| f == p));
    assert_eq!(path, Some("/d/README.7".to_string()));
}

#[test]
fn a_file_is_turned_away_where_every_name_is_taken() {
    let mut files = all_of("/d", "a.b", 999);
    files.push("/d/a.5.b".to_string());
    assert_eq!(unique_path("/d", "a.b", 5, |p: &str| files.iter().any(|f| f == p)), None);
    let path = unique_path("/d", "a.b", 6, |p: &str| files.iter().any(|f| f == p));
    assert_eq!(path, Some("/d/a.6.b".to_string()));
    assert_eq!(unique_path("/d", "x", 5, |_: &str| true), None);
}

#[test]
fn no_file_lands_on_another() {
    let mut files: Vec<String> = Vec::new();
    for _ in 0..999 {
        let path = unique_path("/d", "photo.jpg", 5, |p: &str| files.iter().any(|f| f == p));
        let path = path.unwrap();
        assert!(!files.contains(&path));
        files.push(path);
    }
    assert_eq!(files[0], "/d/photo.jpg");
    assert_eq!(files[998], "/d/photo (999).jpg");
}

#[test]
fn a_name_without_separators_lands_in_the_directory() {
    for name in ["photo.jpg", ".bashrc", "a b", "\\", "ends."] {
        for taken in [0, 3, 999] {
            let files = all_of("/d", name, taken);
            let path = unique_path("/d", name, 5, |p: &str| taken > 0 && files.iter().any(|f| f == p));
            let path = path.unwrap();
            let landed = path.strip_prefix("/d/").unwrap();
            assert!(!landed.contains('/'));
            assert!(!landed.is_empty() && landed != "." && landed != "..");
        }
    }
}

#[test]
fn only_the_final_component_of_an_upload_counts() {
    assert_eq!(sanitize_name("../../evil.txt"), "evil.txt");
    assert_eq!(sanitize_name("C:\\Users\\me\\photo.jpg"), "photo.jpg");
    assert_eq!(sanitize_name("/etc/passwd"), "passwd");
    assert_eq!(sanitize_name("mixed/sep\\name"), "name");
    assert_eq!(sanitize_name("  spaced name.txt \n"), "spaced name.txt");
    assert_eq!(sanitize_name("photo.jpg"), "photo.jpg");
}

#[test]
fn an_upload_always_has_a_name() {
    for raw in ["", " ", ".", "..", "a/", "a/..", "a\\.", "/", "\\", "x/ .. "] {
        assert_eq!(sanitize_name(raw), "upload", "{raw:?}");
    }
    assert_eq!(sanitize_name("..."), "...");
}

#[test]
fn an_offered_name_is_kept_behind_its_last_slash() {
    for name in ["photo.jpg", " photo.jpg ", "a\\b.txt", "...", ".hidden", "\\"] {
        assert_eq!(plain_name_of(name), name);
    }
    assert_eq!(plain_name_of("/tmp/evil.txt"), "evil.txt");
    assert_eq!(plain_name_of("../../evil.txt"), "evil.txt");
    assert_eq!(plain_name_of("a/ b "), " b ");
    for name in ["", ".", "..", "/", "a/", "a/..", "./."] {
        assert_eq!(plain_name_of(name), "file", "{name:?}");
    }
}

#[test]
fn a_clean_name_is_left_alone() {
    for raw in ["../../evil.txt", " a ", "", "..", "a/b\\c", "photo (2).jpg"] {
        let once = sanitize_name(raw);
        assert_eq!(sanitize_name(&once), once);
    }
}
