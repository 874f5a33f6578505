use krill_file_drop::frame::{body_length, frame_header, read_framed, write_framed, FrameError};

#[test]
fn a_frame_is_length_and_body() {
    assert_eq!(write_framed(b"hi"), Ok(vec![2, 0, 0, 0, b'h', b'i']));
    assert_eq!(write_framed(b""), Ok(vec![0, 0, 0, 0]));
    assert_eq!(frame_header(0x01020304), Ok([4, 3, 2, 1]));
    assert_eq!(frame_header(258), Ok(258u32.to_le_bytes()));
    assert_eq!(body_length([4, 3, 2, 1], u32::MAX), Ok(0x01020304));
}

#[test]
fn reading_a_frame_gives_back_its_body() {
    for n in [0usize, 1, 255, 256, 65536] {
        let body = vec![7u8; n];
        let mut stream = write_framed(&body).unwrap();
        stream.extend_from_slice(b"more");
        assert_eq!(read_framed(&stream, n as u32), Ok(body.clone()));
        assert_eq!(read_framed(&stream, u32::MAX), Ok(body));
    }
}

#[test]
fn a_long_frame_is_refused_by_its_header() {
    let stream = write_framed(&[0u8; 1025]).unwrap();
    let refused = FrameError::OverLimit { len: 1025, max: 1024 };
    assert_eq!(read_framed(&stream, 1024), Err(refused));
    assert_eq!(read_framed(&stream[..4], 1024), Err(refused));
    assert_eq!(body_length([1, 4, 0, 0], 1024), Err(refused));
    assert_eq!(refused.message(), "frame length 1025 over limit 1024");
}

#[test]
fn a_cut_frame_is_refused() {
    let stream = write_framed(b"body").unwrap();
    for cut in 0..stream.len() {
        let expected = if cut < 4 { FrameError::Length } else { FrameError::Body };
        assert_eq!(read_framed(&stream[..cut], 1024), Err(expected));
    }
    assert_eq!(FrameError::Length.message(), "reading length");
    assert_eq!(FrameError::Body.message(), "reading body");
}

#[test]
fn a_body_beyond_the_header_is_too_large() {
    if usize::BITS > 32 {
        assert_eq!(frame_header(u32::MAX as usize), Ok([255, 255, 255, 255]));
        assert_eq!(frame_header(u32::MAX as usize + 1), Err(FrameError::TooLarge));
    }
    assert_eq!(FrameError::TooLarge.message(), "frame too large");
}
