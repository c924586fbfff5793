use nadeshiko::chunked::{end_chunk, make_chunk, ChunkedBody};

#[test]
fn chunk_framing() {
    assert_eq!(make_chunk(b"hello"), b"5\r\nhello\r\n".to_vec());
    assert_eq!(make_chunk(&[b'a'; 26]), [b"1a\r\n".as_slice(), &[b'a'; 26], b"\r\n"].concat());
    assert_eq!(make_chunk(&[0u8; 4096]).len(), 4 + 2 + 4096 + 2);
    assert_eq!(&make_chunk(&[0u8; 4096])[..5], b"1000\r");
}

#[test]
fn body_gathered_then_ended() {
    let mut body = ChunkedBody::new(8);
    assert_eq!(body.write(b"abc"), (3, None));
    assert_eq!(body.flush(), Some(b"3\r\nabc\r\n".to_vec()));
    body.sent();
    assert_eq!(body.flush(), None);
    assert_eq!(body.write(b"0123456789"), (8, Some(b"8\r\n01234567\r\n".to_vec())));
    body.sent();
    assert_eq!(body.write(b"89"), (2, None));
    assert_eq!(body.flush(), Some(b"2\r\n89\r\n".to_vec()));
    assert_eq!(end_chunk(), b"0\r\n\r\n".to_vec());
}

#[test]
fn unsent_bytes_are_offered_again() {
    let mut body = ChunkedBody::new(4);
    assert_eq!(body.write(b"abcdef"), (4, Some(b"4\r\nabcd\r\n".to_vec())));
    // the send failed: nothing is confirmed, so the same chunk comes back
    assert_eq!(body.write(b"ef"), (0, Some(b"4\r\nabcd\r\n".to_vec())));
    assert_eq!(body.flush(), Some(b"4\r\nabcd\r\n".to_vec()));
    body.sent();
    assert_eq!(body.flush(), None);
    assert_eq!(body.write(b"ef"), (2, None));
    assert_eq!(body.flush(), Some(b"2\r\nef\r\n".to_vec()));
}

#[test]
fn empty_body_has_nothing_to_flush() {
    let body = ChunkedBody::new(8);
    assert_eq!(body.flush(), None);
}
