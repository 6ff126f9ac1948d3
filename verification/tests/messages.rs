use tetris::networking::{decode_text, encode_text, response_text, DecodeTextError, ResponseText};

#[test]
fn base64_text_round_trip() {
    assert_eq!(encode_text("hello"), "aGVsbG8=");
    assert_eq!(decode_text("aGVsbG8="), Ok(String::from("hello")));
    assert_eq!(decode_text(&encode_text("{\"x\":1}")), Ok(String::from("{\"x\":1}")));
}

#[test]
fn decode_text_errors() {
    assert_eq!(decode_text("not base64!"), Err(DecodeTextError::NotBase64));
    assert_eq!(decode_text("//4="), Err(DecodeTextError::NotUtf8));
}

#[test]
fn response_waits_until_done_with_bytes() {
    assert!(matches!(response_text(false, Some(b"aGk=".to_vec())), ResponseText::Waiting));
    assert!(matches!(response_text(true, None), ResponseText::Waiting));
    assert!(matches!(response_text(true, Some(Vec::new())), ResponseText::Waiting));
}

#[test]
fn response_text_stops_at_zero_and_trims() {
    match response_text(true, Some(b"  aGk=\n\0garbage".to_vec())) {
        ResponseText::Text(t) => assert_eq!(t, "aGk="),
        _ => panic!("expected text"),
    }
    match response_text(true, Some(b"plain".to_vec())) {
        ResponseText::Text(t) => assert_eq!(t, "plain"),
        _ => panic!("expected text"),
    }
    assert!(matches!(response_text(true, Some(vec![0xff, 0xfe, 0])), ResponseText::NotText));
    match response_text(true, Some(vec![b'a', 0, 0xff])) {
        ResponseText::Text(t) => assert_eq!(t, "a"),
        _ => panic!("expected text"),
    }
}
