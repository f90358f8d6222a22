use be_core::lsp::frame::{decode_frame, encode_frame, FrameError};
use be_core::lsp::message::{message_kind, version_ok, MessageKind};
use be_core::lsp::position::{decode_column, encode_column, PositionEncoding};
use be_core::lsp::router::{Incoming, PendingRequests, Reaction};

#[test]
fn frame_has_header_and_content() {
    let framed = encode_frame(b"{}");
    assert_eq!(framed, b"Content-Length: 2\r\n\r\n{}".to_vec());
}

#[test]
fn frame_reads_back() {
    let content = br#"{"jsonrpc":"2.0","id":1,"result":null}"#;
    let mut buf = encode_frame(content);
    buf.extend_from_slice(b"Content-Length: 5\r\n");
    let (start, len) = decode_frame(&buf).unwrap().unwrap();
    assert_eq!(&buf[start..start + len], &content[..]);
    assert_eq!(start, "Content-Length: 38\r\n\r\n".len());
}

#[test]
fn frame_waits_for_the_rest() {
    assert_eq!(decode_frame(b"Content-Length: 10\r\n"), Ok(None));
    assert_eq!(decode_frame(b"Content-Length: 10\r\n\r\n12345"), Ok(None));
    assert_eq!(decode_frame(b""), Ok(None));
    // A header that names no length gives nothing.
    assert_eq!(decode_frame(b"Content-Type: x\r\n\r\n{}"), Ok(None));
}

#[test]
fn frame_tolerates_spaces_and_other_headers() {
    let buf = b"Content-Type: application/json\r\n  Content-Length :  3  \r\n\r\nabcdef";
    let (start, len) = decode_frame(buf).unwrap().unwrap();
    assert_eq!(&buf[start..start + len], b"abc");
}

#[test]
fn frame_rejects_a_bad_length() {
    assert_eq!(decode_frame(b"Content-Length: x1\r\n\r\n"), Err(FrameError::InvalidContentLength));
    assert_eq!(decode_frame(b"Content-Length: -1\r\n\r\n"), Err(FrameError::InvalidContentLength));
}

#[test]
fn message_kinds() {
    // version_ok, method, id, params, result, error
    assert_eq!(message_kind(true, true, true, true, false, false), Some(MessageKind::Request));
    assert_eq!(message_kind(true, true, false, false, false, false), Some(MessageKind::Notification));
    assert_eq!(message_kind(true, false, true, false, true, false), Some(MessageKind::Response));
    assert_eq!(message_kind(true, false, true, false, false, true), Some(MessageKind::Error));
    assert_eq!(message_kind(true, false, true, false, true, true), None);
    assert_eq!(message_kind(false, true, true, false, false, false), None);
}

#[test]
fn jsonrpc_version() {
    assert!(version_ok(None));
    assert!(version_ok(Some("2.0")));
    assert!(!version_ok(Some("1.0")));
    assert!(!version_ok(Some("2.0 ")));
}

#[test]
fn utf16_columns() {
    // 'é' is one UTF-16 unit and two UTF-8 bytes; '😀' is two and four.
    let line = "aé😀b";
    assert_eq!(decode_column(PositionEncoding::Utf16, line, 0), 0);
    assert_eq!(decode_column(PositionEncoding::Utf16, line, 2), 3);
    assert_eq!(decode_column(PositionEncoding::Utf16, line, 4), 7);
    // A column inside a surrogate pair stops before the character.
    assert_eq!(decode_column(PositionEncoding::Utf16, line, 3), 3);
    // Past the end: the whole line.
    assert_eq!(decode_column(PositionEncoding::Utf16, line, 99), 8);
    assert_eq!(decode_column(PositionEncoding::Utf8, line, 99), 99);
}

#[test]
fn columns_round_trip() {
    let prefix = "aé😀";
    let c16 = encode_column(PositionEncoding::Utf16, prefix);
    assert_eq!(c16, 4);
    assert_eq!(decode_column(PositionEncoding::Utf16, "aé😀xyz", c16), prefix.len());
    let c8 = encode_column(PositionEncoding::Utf8, prefix);
    assert_eq!(c8, 7);
    assert_eq!(decode_column(PositionEncoding::Utf8, "aé😀xyz", c8), prefix.len());
}

#[test]
fn replies_complete_waiting_requests_once() {
    let mut pending: PendingRequests<&str> = PendingRequests::new();
    pending.sent(1, "first");
    pending.sent(2, "second");
    assert!(pending.is_waiting(1));
    assert!(matches!(pending.receive(Incoming::Response { id: 1 }), Reaction::Complete("first")));
    assert!(!pending.is_waiting(1));
    assert!(matches!(pending.receive(Incoming::Response { id: 1 }), Reaction::Unexpected));
    assert!(matches!(pending.receive(Incoming::Error { id: 2 }), Reaction::Failed { id: 2 }));
    assert!(!pending.is_waiting(2));
    assert!(matches!(pending.receive(Incoming::Request { id: 9 }), Reaction::Answer { id: 9 }));
    assert!(matches!(pending.receive(Incoming::Notification), Reaction::Handle));
}
