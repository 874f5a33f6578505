use krill_file_drop::upload::{
    qr_svg, strip_prologue, ReceivedUpload, ServerInfo, Upload, UploadError, UploadServer,
};

/// Takes one file in, chunk by chunk, into a directory that holds `files`.
fn post_file(
    files: &mut Vec<(String, Vec<u8>)>,
    dir: &str,
    name: Option<&str>,
    body: &[u8],
) -> Option<ReceivedUpload> {
    let mut upload = Upload::begin(name.map(|n| n.to_string()), dir, 1700000000000, |p: &str| {
        files.iter().any(|f| f.0 == p)
    })
    .unwrap()?;
    let mut written: Vec<u8> = Vec::new();
    for chunk in body.chunks(64 * 1024) {
        written.extend_from_slice(chunk);
        upload.on_chunk(chunk.len());
        assert_eq!(upload.received(), written.len() as u64);
    }
    files.push((upload.destination().to_string(), written));
    Some(upload.finish())
}

#[test]
fn streams_large_file_and_never_overwrites() {
    let dir = "/tmp/krill-upload-test-1";
    let mut files: Vec<(String, Vec<u8>)> = Vec::new();
    let mut server: UploadServer<&str> = UploadServer::default();
    let info = server.start(40999, "127.0.0.1", "handle").unwrap();
    assert!(info.qr_svg.starts_with("<svg"));
    assert_eq!(info.url, "http://127.0.0.1:40999/");

    let big = vec![0xABu8; 5 * 1024 * 1024];
    let mut got: Vec<ReceivedUpload> = Vec::new();
    got.extend(post_file(&mut files, dir, Some("photo.jpg"), &big));
    got.extend(post_file(&mut files, dir, Some("photo.jpg"), b"second"));
    got.extend(post_file(&mut files, dir, Some("../../evil.txt"), b"x"));

    assert_eq!(got.len(), 3);
    assert_eq!(got[0].name, "photo.jpg");
    assert_eq!(got[0].size, big.len() as u64);
    assert_eq!(files[0].0, got[0].path);
    assert_eq!(files[0].1, big);
    assert_eq!(got[1].name, "photo (2).jpg");
    assert_eq!(got[2].name, "evil.txt");
    assert!(std::path::Path::new(&got[2].path).starts_with(dir));

    assert_eq!(server.stop(), Some("handle"));
    assert!(server.info().is_none());
}

#[test]
fn a_field_without_a_file_name_is_passed_over() {
    let mut files = Vec::new();
    assert_eq!(post_file(&mut files, "/d", None, b"text"), None);
    assert!(files.is_empty());
}

#[test]
fn an_upload_without_a_free_name_is_refused() {
    let refused = Upload::begin(Some("photo.jpg".to_string()), "/d", 5, |_: &str| true);
    assert_eq!(refused.err(), Some(UploadError::NoFreeName));
    assert!(Upload::begin(None, "/d", 5, |_: &str| true).unwrap().is_none());
    assert_eq!(UploadError::NoFreeName.message(), "no free name");
}

#[test]
fn uploads_stay_in_their_directory() {
    let mut files = Vec::new();
    for name in ["/etc/passwd", "..", "", "a\\b", "../x/../y", "/", " . "] {
        let got = post_file(&mut files, "/d", Some(name), b"x").unwrap();
        assert_eq!(got.path, format!("/d/{}", got.name));
        assert!(!got.name.contains('/'));
    }
    let paths: Vec<&str> = files.iter().map(|f| f.0.as_str()).collect();
    assert_eq!(
        paths,
        vec![
            "/d/passwd", "/d/upload", "/d/upload (2)", "/d/b", "/d/y", "/d/upload (3)",
            "/d/upload (4)",
        ]
    );
}

#[test]
fn starting_twice_changes_nothing() {
    let mut server: UploadServer<u8> = UploadServer::default();
    assert_eq!(server.info(), None);
    let first = server.start(8080, "10.0.0.2", 1).unwrap();
    assert_eq!(server.start(9090, "10.0.0.3", 2), Ok(first.clone()));
    assert_eq!(server.info(), Some(first));
    assert_eq!(server.stop(), Some(1));
    assert_eq!(server.stop(), None);
    let again: ServerInfo = server.start(9090, "10.0.0.3", 2).unwrap();
    assert_eq!(again.url, "http://10.0.0.3:9090/");
}

#[test]
fn a_qr_code_is_an_svg_element_in_two_colours() {
    let svg = qr_svg("http://10.0.0.2:8080/").unwrap();
    assert!(svg.starts_with("<svg"));
    assert!(svg.ends_with("</svg>"));
    assert!(!svg.contains("<?xml"));
    assert!(svg.contains("#30343F"));
    assert!(svg.contains("#FAFAFF"));
    assert_ne!(svg, qr_svg("http://10.0.0.3:8080/").unwrap());
}

#[test]
fn an_address_that_makes_no_qr_code_is_refused() {
    let long = "x".repeat(8000);
    assert_eq!(qr_svg(&long), Err(UploadError::DataTooLong));
    assert_eq!(UploadError::DataTooLong.message(), "data too long");
    let mut server: UploadServer<u8> = UploadServer::default();
    assert_eq!(server.start(80, &long, 1), Err(UploadError::DataTooLong));
    assert_eq!(server.info(), None);
    assert_eq!(server.stop(), None);
}

#[test]
fn the_prologue_of_a_drawing_is_dropped() {
    assert_eq!(strip_prologue("<?xml?><svg a><svg/>"), "<svg a><svg/>");
    assert_eq!(strip_prologue("<svg>"), "<svg>");
    assert_eq!(strip_prologue("<sv <s<svg"), "<svg");
    assert_eq!(strip_prologue("no drawing <sv"), "no drawing <sv");
    assert_eq!(strip_prologue(""), "");
}
