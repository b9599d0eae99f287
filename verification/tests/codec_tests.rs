//! Tests for the HTTP/1.1 head codec, the chunked decoder, and the
//! WebSocket frame parser.

use cheddar_core::codec::{
    decode_chunked, derive_body_directive, parse_head, scan_head, BodyDirective, ChunkedOutcome,
    HeadScan, MAX_HEAD_BYTES,
};
use cheddar_core::method::HttpMethod;
use cheddar_core::request::{from_head, RequestBodyKind, RequestError, MAX_REQUEST_BODY_BYTES};
use cheddar_core::target::RequestScheme;
use cheddar_core::websocket::{
    extract_message, parse_frame_header, unmask_payload, MessageDirection, WebSocketOpcode,
    MAX_WS_CAPTURE_BYTES,
};

fn headers(pairs: &[(&str, &str)]) -> Vec<(String, String)> {
    pairs
        .iter()
        .map(|(a, b)| (a.to_string(), b.to_string()))
        .collect()
}

#[test]
fn scan_head_finds_terminator() {
    let buf = b"GET /test HTTP/1.1\r\nHost: 127.0.0.1\r\n\r\nrest";
    match scan_head(buf) {
        HeadScan::Complete(p) => assert_eq!(p, buf.len() - 4),
        other => panic!("expected complete head, got {:?}", other),
    }
}

#[test]
fn scan_head_needs_more_on_partial_input() {
    let buf = b"GET /test HTTP/1.1\r\nHost: 127.0.0.1\r\n";
    assert!(matches!(scan_head(buf), HeadScan::NeedMore));
}

#[test]
fn head_over_cap_is_rejected() {
    let mut buf = vec![b'a'; MAX_HEAD_BYTES + 1];
    buf[0] = b'G';
    assert!(matches!(scan_head(&buf), HeadScan::TooLarge));
}

#[test]
fn parse_head_reads_request_line_and_headers() {
    let raw = b"GET /test HTTP/1.1\r\nHost: 127.0.0.1\r\nContent-Length: 0\r\n\r\n";
    let head = parse_head(raw).expect("head parses");
    assert_eq!(head.f0, "GET");
    assert_eq!(head.f1, "/test");
    assert_eq!(head.f2, "HTTP/1.1");
    assert_eq!(head.headers.len(), 2);
    assert_eq!(head.headers[0].0, "Host");
    assert_eq!(head.headers[0].1, "127.0.0.1");
    assert_eq!(head.headers[1].0, "Content-Length");
    assert_eq!(head.headers[1].1, "0");
}

#[test]
fn parse_head_rejects_missing_spaces() {
    assert!(parse_head(b"GET/test\r\n\r\n").is_none());
    assert!(parse_head(b"\r\n\r\n").is_none());
}

#[test]
fn parse_head_trims_header_values() {
    let raw = b"GET / HTTP/1.1\r\nHost:   spaced.example   \r\n\r\n";
    let head = parse_head(raw).expect("head parses");
    assert_eq!(head.headers[0].1, "spaced.example");
}

#[test]
fn decode_chunked_body_decodes_payload_bytes() {
    let body = b"4\r\nRust\r\n6\r\nProxy!\r\n0\r\n\r\n";
    match decode_chunked(body, MAX_REQUEST_BODY_BYTES) {
        ChunkedOutcome::Done { payload, consumed } => {
            assert_eq!(payload, b"RustProxy!".to_vec());
            assert_eq!(consumed, body.len());
        }
        other => panic!("chunked body should decode, got {:?}", other),
    }
}

#[test]
fn decode_chunked_needs_more_without_terminator() {
    let body = b"4\r\nRust\r\n";
    assert!(matches!(
        decode_chunked(body, MAX_REQUEST_BODY_BYTES),
        ChunkedOutcome::NeedMore
    ));
}

#[test]
fn decode_chunked_rejects_bad_size_line() {
    let body = b"zz\r\nRust\r\n0\r\n\r\n";
    assert!(matches!(
        decode_chunked(body, MAX_REQUEST_BODY_BYTES),
        ChunkedOutcome::Malformed
    ));
}

#[test]
fn chunked_body_over_cap_is_too_large() {
    // two chunks of 16 bytes against a 24-byte budget
    let body = b"10\r\nAAAAAAAAAAAAAAAA\r\n10\r\nAAAAAAAAAAAAAAAA\r\n0\r\n\r\n";
    assert!(matches!(decode_chunked(body, 24), ChunkedOutcome::TooLarge));
}

#[test]
fn content_length_over_cap_gives_too_large() {
    let hs = headers(&[("Content-Length", "33554433")]);
    assert_eq!(
        derive_body_directive(&hs, MAX_REQUEST_BODY_BYTES),
        BodyDirective::TooLarge
    );
}

#[test]
fn body_directive_prefers_oversize_over_chunked() {
    let hs = headers(&[
        ("Transfer-Encoding", "chunked"),
        ("Content-Length", "999999999999"),
    ]);
    assert_eq!(
        derive_body_directive(&hs, MAX_REQUEST_BODY_BYTES),
        BodyDirective::TooLarge
    );
}

#[test]
fn body_directive_reads_fixed_and_chunked() {
    let hs = headers(&[("Content-Length", "42")]);
    assert_eq!(
        derive_body_directive(&hs, MAX_REQUEST_BODY_BYTES),
        BodyDirective::Fixed(42)
    );
    let hs = headers(&[("transfer-encoding", "Chunked")]);
    assert_eq!(
        derive_body_directive(&hs, MAX_REQUEST_BODY_BYTES),
        BodyDirective::Chunked
    );
    let hs = headers(&[("Content-Length", "not-a-number")]);
    assert_eq!(
        derive_body_directive(&hs, MAX_REQUEST_BODY_BYTES),
        BodyDirective::NoBody
    );
}

#[test]
fn from_head_resolves_absolute_target() {
    let raw = b"GET http://127.0.0.1:8080/test HTTP/1.1\r\nHost: 127.0.0.1\r\nContent-Length: 0\r\n\r\n";
    let head = parse_head(raw).expect("head parses");
    let req = from_head(head, RequestScheme::Http, Vec::new()).expect("request resolves");
    assert_eq!(req.method, HttpMethod::Get);
    assert_eq!(req.scheme, "http");
    assert_eq!(req.host, "127.0.0.1");
    assert_eq!(req.port, 8080);
    assert_eq!(req.path, "/test");
    assert!(matches!(req.body_kind, RequestBodyKind::ContentLength { length: 0 }));
}

#[test]
fn from_head_uses_host_header_for_origin_form() {
    let raw = b"GET /secure HTTP/1.1\r\nHost: example.com\r\nContent-Length: 0\r\n\r\n";
    let head = parse_head(raw).expect("head parses");
    let req = from_head(head, RequestScheme::Https, Vec::new()).expect("request resolves");
    assert_eq!(req.scheme, "https");
    assert_eq!(req.host, "example.com");
    assert_eq!(req.port, 443);
    assert_eq!(req.path, "/secure");
}

#[test]
fn from_head_rejects_missing_host() {
    let raw = b"GET /x HTTP/1.1\r\nAccept: */*\r\n\r\n";
    let head = parse_head(raw).expect("head parses");
    assert_eq!(
        from_head(head, RequestScheme::Http, Vec::new()).unwrap_err(),
        RequestError::MissingHost
    );
}

#[test]
fn from_head_handles_connect() {
    let raw = b"CONNECT example.com:443 HTTP/1.1\r\nHost: example.com:443\r\n\r\n";
    let head = parse_head(raw).expect("head parses");
    let req = from_head(head, RequestScheme::Http, Vec::new()).expect("request resolves");
    assert_eq!(req.method, HttpMethod::Connect);
    assert_eq!(req.scheme, "https");
    assert_eq!(req.host, "example.com");
    assert_eq!(req.port, 443);
    assert_eq!(req.path, "/");
}

#[test]
fn parse_frame_header_reads_lengths() {
    // small unmasked text frame, fin set
    let h = parse_frame_header(&[0x81, 0x05]).expect("header parses");
    assert!(h.fin);
    assert_eq!(h.opcode, WebSocketOpcode::Text);
    assert!(!h.masked);
    assert_eq!(h.payload_len, 5);
    assert_eq!(h.header_len, 2);

    // 16-bit extended length
    let h = parse_frame_header(&[0x82, 126, 0x01, 0x00]).expect("header parses");
    assert_eq!(h.opcode, WebSocketOpcode::Binary);
    assert_eq!(h.payload_len, 256);
    assert_eq!(h.header_len, 4);

    // masked frame carries a key
    let h = parse_frame_header(&[0x89, 0x83, 1, 2, 3, 4]).expect("header parses");
    assert_eq!(h.opcode, WebSocketOpcode::Ping);
    assert!(h.masked);
    assert_eq!(h.mask_key, Some([1, 2, 3, 4]));
    assert_eq!(h.header_len, 6);
}

#[test]
fn parse_frame_header_rejects_reserved_opcode() {
    assert!(parse_frame_header(&[0x83, 0x00]).is_none());
}

#[test]
fn unmask_payload_applies_key() {
    let mut data = vec![0x10, 0x20, 0x30, 0x40, 0x50];
    unmask_payload(&mut data, [1, 2, 3, 4]);
    assert_eq!(data, vec![0x11, 0x22, 0x33, 0x44, 0x51]);
}

#[test]
fn extract_message_unmasks_and_counts() {
    // masked text frame "Hi" with key 0x00s is identity; use a real key
    let key = [0xAA, 0xBB, 0xCC, 0xDD];
    let payload = [b'H' ^ 0xAA, b'i' ^ 0xBB];
    let frame = vec![0x81, 0x82, key[0], key[1], key[2], key[3], payload[0], payload[1]];
    let (msg, consumed) =
        extract_message(&frame, "conn-1", MessageDirection::ClientToServer).expect("complete");
    assert_eq!(consumed, frame.len());
    assert_eq!(msg.payload, b"Hi".to_vec());
    assert_eq!(msg.payload_length, 2);
    assert_eq!(msg.opcode, WebSocketOpcode::Text);
    assert!(msg.is_final);
}

#[test]
fn extract_message_caps_captured_payload() {
    let len = MAX_WS_CAPTURE_BYTES + 10;
    let mut frame = vec![0x82, 127];
    frame.extend_from_slice(&(len as u64).to_be_bytes());
    frame.extend(std::iter::repeat(7u8).take(len));
    let (msg, consumed) =
        extract_message(&frame, "conn-big", MessageDirection::ServerToClient).expect("complete");
    assert_eq!(consumed, frame.len());
    assert_eq!(msg.payload.len(), MAX_WS_CAPTURE_BYTES);
    assert_eq!(msg.payload_length, len as u64);
}

#[test]
fn extract_message_waits_for_full_frame() {
    let frame = [0x81u8, 0x05, b'a', b'b'];
    assert!(extract_message(&frame, "conn", MessageDirection::ClientToServer).is_none());
}
