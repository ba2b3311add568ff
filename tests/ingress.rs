use std::io::Write;

use darwin_bridge::ingress::{ack_id, content_length, decode_frame_text, is_blank, parse_header_line};

fn gzip(text: &str) -> Vec<u8> {
    let mut enc = flate2::write::GzEncoder::new(Vec::new(), flate2::Compression::default());
    enc.write_all(text.as_bytes()).unwrap();
    enc.finish().unwrap()
}

#[test]
fn frame_text_strips_namespaces() {
    let body = gzip("<ns5:Pport><ns12:uR/></ns5:Pport>");
    assert_eq!(decode_frame_text(&body).as_deref(), Some("<Pport><uR/></Pport>"));
}

#[test]
fn empty_or_plain_body_gives_nothing() {
    assert_eq!(decode_frame_text(&[]), None);
    assert_eq!(decode_frame_text(b"<Pport/>"), None);
}

#[test]
fn header_lines_are_trimmed_and_keys_lowercased() {
    assert_eq!(
        parse_header_line("  Content-Length : 12 \r\n"),
        Some(("content-length".to_string(), "12".to_string()))
    );
    assert_eq!(parse_header_line("destination:/topic/a:b\n"), Some(("destination".to_string(), "/topic/a:b".to_string())));
    assert_eq!(parse_header_line("no separator\n"), None);
    assert!(is_blank(" \r\n"));
    assert!(!is_blank("MESSAGE\n"));
    assert_eq!(content_length("content-length", "42"), Some(42));
    assert_eq!(content_length("content-length", "x"), None);
    assert_eq!(content_length("message-id", "42"), None);
}

#[test]
fn ack_prefers_ack_header() {
    assert_eq!(ack_id(Some("a".to_string()), Some("m".to_string())).as_deref(), Some("a"));
    assert_eq!(ack_id(None, Some("m".to_string())).as_deref(), Some("m"));
    assert_eq!(ack_id(None, None), None);
}
