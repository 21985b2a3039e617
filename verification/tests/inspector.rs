use myco::inspector::endpoint::{
    json_list_body, json_version_body, reply, session_action, session_id_from_bytes, Reply,
    SessionAction,
};
use myco::inspector::frames::{decode_frame, encode_frame, Frame, FrameParse, FrameReader, ProtocolError, ReadResult};
use myco::inspector::http::{
    accept_key, empty_response, find_head_end, handshake_response, json_response, parse_head,
    scan_request, HeadScan,
};

#[test]
fn accept_key_matches_rfc_6455_example() {
    // The worked example from RFC 6455 §1.3.
    assert_eq!(accept_key("dGhlIHNhbXBsZSBub25jZQ=="), "s3pPLMBiTxaQ9kYGzzhZRbK+xOo=");
}

#[test]
fn parses_request_line_and_headers() {
    let req = parse_head("GET /json/list HTTP/1.1\r\nHost: localhost\r\nUpgrade: websocket").unwrap();
    assert_eq!(req.method, "GET");
    assert_eq!(req.path, "/json/list");
    assert_eq!(req.header("host"), Some("localhost"));
    // Header lookup must be case-insensitive.
    assert_eq!(req.header("UPGRADE"), Some("websocket"));
    assert_eq!(req.header("missing"), None);
}

#[test]
fn detects_websocket_upgrade() {
    let head = "GET /ws/abc HTTP/1.1\r\n\
                Connection: keep-alive, Upgrade\r\n\
                Upgrade: websocket\r\n\
                Sec-WebSocket-Key: dGhlIHNhbXBsZSBub25jZQ==";
    assert!(parse_head(head).unwrap().is_websocket_upgrade());

    // Missing the key means we cannot complete the handshake.
    let head = "GET /ws/abc HTTP/1.1\r\nConnection: Upgrade\r\nUpgrade: websocket";
    assert!(!parse_head(head).unwrap().is_websocket_upgrade());
}

#[test]
fn finds_head_boundary() {
    // "GET / HTTP/1.1" is 14 bytes, so the CRLFCRLF starts at index 14.
    assert_eq!(find_head_end(b"GET / HTTP/1.1\r\n\r\nbody"), Some(14));
    assert_eq!(find_head_end(b"GET / HTTP/1.1\r\n"), None);
}

#[test]
fn request_line_needs_method_and_path() {
    assert!(parse_head("GET").is_none());
    assert!(parse_head("   ").is_none());
    let req = parse_head("  POST   /x  extra\r\nbad line\r\nA:  b : c  ").unwrap();
    assert_eq!(req.method, "POST");
    assert_eq!(req.path, "/x");
    assert_eq!(req.header("a"), Some("b : c"));
    assert_eq!(req.headers.len(), 1);
}

#[test]
fn first_header_of_a_name_wins() {
    let req = parse_head("GET / HTTP/1.1\r\nX-A: one\r\nx-a: two").unwrap();
    assert_eq!(req.header("X-a"), Some("one"));
}

#[test]
fn upgrade_needs_websocket_value() {
    let head = "GET / HTTP/1.1\r\nConnection: Upgrade\r\nUpgrade: h2c\r\nSec-WebSocket-Key: k";
    assert!(!parse_head(head).unwrap().is_websocket_upgrade());
    let head = "GET / HTTP/1.1\r\nConnection: close\r\nUpgrade: WebSocket\r\nSec-WebSocket-Key: k";
    assert!(!parse_head(head).unwrap().is_websocket_upgrade());
    let head = "GET / HTTP/1.1\r\nConnection: UPGRADE\r\nUpgrade: WebSocket\r\nSec-WebSocket-Key: k";
    assert!(parse_head(head).unwrap().is_websocket_upgrade());
}

#[test]
fn json_response_counts_body_bytes() {
    let r = json_response("{\"é\":1}");
    let text = String::from_utf8(r).unwrap();
    assert_eq!(
        text,
        "HTTP/1.1 200 OK\r\nContent-Type: application/json\r\nContent-Length: 8\r\n\
         Access-Control-Allow-Origin: *\r\nAccess-Control-Allow-Headers: content-type\r\n\
         Access-Control-Allow-Methods: GET, POST, OPTIONS\r\nConnection: close\r\n\r\n{\"é\":1}"
    );
}

#[test]
fn empty_response_has_status_and_no_body() {
    let text = String::from_utf8(empty_response("404 Not Found")).unwrap();
    assert_eq!(
        text,
        "HTTP/1.1 404 Not Found\r\nContent-Length: 0\r\n\
         Access-Control-Allow-Origin: *\r\nAccess-Control-Allow-Headers: content-type\r\n\
         Access-Control-Allow-Methods: GET, POST, OPTIONS\r\nConnection: close\r\n\r\n"
    );
}

#[test]
fn handshake_carries_accept_key() {
    let text = String::from_utf8(handshake_response("dGhlIHNhbXBsZSBub25jZQ==")).unwrap();
    assert_eq!(
        text,
        "HTTP/1.1 101 Switching Protocols\r\nUpgrade: websocket\r\nConnection: Upgrade\r\n\
         Sec-WebSocket-Accept: s3pPLMBiTxaQ9kYGzzhZRbK+xOo=\r\n\r\n"
    );
}

#[test]
fn scan_waits_then_completes() {
    match scan_request(b"GET / HTTP/1.1\r\nHost: h\r\n") {
        HeadScan::Incomplete => {}
        _ => panic!("expected incomplete"),
    }
    match scan_request(b"GET /json HTTP/1.1\r\nHost: h\r\n\r\n\x81\x00") {
        HeadScan::Complete { request, leftover } => {
            let request = request.unwrap();
            assert_eq!(request.path, "/json");
            assert_eq!(leftover, vec![0x81u8, 0x00]);
        }
        _ => panic!("expected complete"),
    }
    let big = vec![b'a'; 16385];
    match scan_request(&big) {
        HeadScan::TooLarge => {}
        _ => panic!("expected too large"),
    }
    let exactly = vec![b'a'; 16384];
    match scan_request(&exactly) {
        HeadScan::Incomplete => {}
        _ => panic!("expected incomplete at the cap"),
    }
}

#[test]
fn frame_roundtrip_small_medium_large() {
    for len in [0usize, 5, 125, 126, 300, 65535, 65536, 70000] {
        let data: Vec<u8> = (0..len).map(|i| (i % 251) as u8).collect();
        let bytes = encode_frame(&Frame::Binary(data.clone()));
        match decode_frame(&bytes) {
            FrameParse::Complete { fin, opcode, payload, consumed } => {
                assert!(fin);
                assert_eq!(opcode, 2);
                assert_eq!(payload, data);
                assert_eq!(consumed, bytes.len());
            }
            _ => panic!("expected a complete frame for length {}", len),
        }
    }
}

#[test]
fn frame_header_layout() {
    assert_eq!(encode_frame(&Frame::Close), vec![0x88, 0x00]);
    assert_eq!(encode_frame(&Frame::Text("hi".to_string())), vec![0x81, 0x02, b'h', b'i']);
    let b = encode_frame(&Frame::Binary(vec![0u8; 300]));
    assert_eq!(&b[..4], &[0x82, 126, 0x01, 0x2C]);
    let b = encode_frame(&Frame::Binary(vec![0u8; 65536]));
    assert_eq!(&b[..10], &[0x82, 127, 0, 0, 0, 0, 0, 1, 0, 0]);
}

#[test]
fn masked_client_frame_is_unmasked() {
    // "Hello" masked with 37 fa 21 3d, from RFC 6455 §5.7.
    let bytes = [0x81, 0x85, 0x37, 0xfa, 0x21, 0x3d, 0x7f, 0x9f, 0x4d, 0x51, 0x58];
    let mut reader = FrameReader::new(bytes.to_vec());
    match reader.next_message() {
        ReadResult::Message(Frame::Text(t)) => assert_eq!(t, "Hello"),
        _ => panic!("expected text"),
    }
}

#[test]
fn reader_waits_for_more_bytes() {
    let bytes = [0x81, 0x85, 0x37, 0xfa, 0x21, 0x3d, 0x7f, 0x9f, 0x4d, 0x51, 0x58];
    let mut reader = FrameReader::new(bytes[..4].to_vec());
    assert!(matches!(reader.next_message(), ReadResult::NeedMore));
    reader.feed(&bytes[4..]);
    match reader.next_message() {
        ReadResult::Message(Frame::Text(t)) => assert_eq!(t, "Hello"),
        _ => panic!("expected text"),
    }
    assert!(matches!(reader.next_message(), ReadResult::NeedMore));
}

#[test]
fn fragments_reassemble_around_a_ping() {
    // "Hel" (text, no FIN), ping "p", "lo" (continuation, FIN); unmasked.
    let mut bytes = vec![0x01, 0x03, b'H', b'e', b'l'];
    bytes.extend_from_slice(&[0x89, 0x01, b'p']);
    bytes.extend_from_slice(&[0x80, 0x02, b'l', b'o']);
    let mut reader = FrameReader::new(bytes);
    match reader.next_message() {
        ReadResult::Message(Frame::Ping(p)) => assert_eq!(p, b"p".to_vec()),
        _ => panic!("expected ping first"),
    }
    match reader.next_message() {
        ReadResult::Message(Frame::Text(t)) => assert_eq!(t, "Hello"),
        _ => panic!("expected the reassembled text"),
    }
}

#[test]
fn protocol_errors() {
    let cases: Vec<(Vec<u8>, ProtocolError)> = vec![
        (vec![0x80, 0x00], ProtocolError::OrphanContinuation),
        (vec![0x83, 0x00], ProtocolError::UnknownOpcode),
        (vec![0x09, 0x00], ProtocolError::MalformedControl),
        (vec![0x89, 0x7e, 0x00, 0x7e], ProtocolError::MalformedControl),
        (vec![0x82, 0x7f, 0, 0, 0, 0, 0x04, 0, 0, 1], ProtocolError::PayloadTooLarge),
        (vec![0x81, 0x02, 0xc3, 0x28], ProtocolError::InvalidUtf8),
        (vec![0x01, 0x01, b'a', 0x01, 0x01, b'b'], ProtocolError::InterleavedData),
    ];
    for (bytes, expected) in cases {
        let mut reader = FrameReader::new(bytes);
        match reader.next_message() {
            ReadResult::Failed(e) => assert_eq!(e, expected),
            _ => panic!("expected {:?}", expected),
        }
    }
    assert_eq!(ProtocolError::InvalidUtf8.message(), "text frame is not valid UTF-8");
    assert_eq!(ProtocolError::PayloadTooLarge.message(), "payload exceeds maximum size");
}

#[test]
fn what_is_written_is_read_back() {
    let mut bytes = encode_frame(&Frame::Text("ping → pong".to_string()));
    bytes.extend(encode_frame(&Frame::Pong(vec![1, 2, 3])));
    let mut reader = FrameReader::new(bytes);
    match reader.next_message() {
        ReadResult::Message(Frame::Text(t)) => assert_eq!(t, "ping → pong"),
        _ => panic!("expected text"),
    }
    match reader.next_message() {
        ReadResult::Message(Frame::Pong(p)) => assert_eq!(p, vec![1, 2, 3]),
        _ => panic!("expected pong"),
    }
}

#[test]
fn endpoint_routes() {
    let sid = "abc";
    let get = |head: &str| reply(&parse_head(head).unwrap(), 9229, sid);
    match get("OPTIONS /json HTTP/1.1") {
        Reply::Respond(b) => assert!(String::from_utf8(b).unwrap().starts_with("HTTP/1.1 204 No Content\r\n")),
        _ => panic!(),
    }
    match get("POST /json HTTP/1.1") {
        Reply::Respond(b) => assert!(String::from_utf8(b).unwrap().starts_with("HTTP/1.1 405 Method Not Allowed\r\n")),
        _ => panic!(),
    }
    match get("GET /json/version HTTP/1.1") {
        Reply::Respond(b) => assert!(String::from_utf8(b).unwrap().ends_with(&json_version_body())),
        _ => panic!(),
    }
    match get("GET /json HTTP/1.1") {
        Reply::Respond(b) => assert!(String::from_utf8(b).unwrap().ends_with(&json_list_body(9229, sid))),
        _ => panic!(),
    }
    match get("GET /ws/abc HTTP/1.1\r\nConnection: Upgrade\r\nUpgrade: websocket\r\nSec-WebSocket-Key: dGhlIHNhbXBsZSBub25jZQ==") {
        Reply::Upgrade(b) => assert!(String::from_utf8(b).unwrap().contains("s3pPLMBiTxaQ9kYGzzhZRbK+xOo=")),
        _ => panic!(),
    }
    match get("GET /ws/other HTTP/1.1\r\nConnection: Upgrade\r\nUpgrade: websocket\r\nSec-WebSocket-Key: k") {
        Reply::Respond(b) => assert!(String::from_utf8(b).unwrap().starts_with("HTTP/1.1 404 Not Found\r\n")),
        _ => panic!(),
    }
}

#[test]
fn discovery_bodies() {
    assert_eq!(
        json_list_body(9229, "abc"),
        "[{\"description\":\"Myco JavaScript Runtime\",\"devtoolsFrontendUrl\":\"devtools://devtools/bundled/js_app.html?experiments=true&v8only=true&ws=127.0.0.1:9229/ws/abc\",\"id\":\"abc\",\"title\":\"Myco JavaScript Runtime\",\"type\":\"myco\",\"url\":\"file://\",\"webSocketDebuggerUrl\":\"ws://127.0.0.1:9229/ws/abc\"}]"
    );
    assert!(json_version_body().starts_with("{\"Browser\":\"Myco JavaScript Runtime/1.0.0\""));
}

#[test]
fn session_ids_are_hex() {
    assert_eq!(session_id_from_bytes(&[0x00, 0x0f, 0xa5, 0xff]), "000fa5ff");
    let id = myco::inspector::endpoint::random_session_id();
    assert_eq!(id.len(), 32);
    assert!(id.chars().all(|c| c.is_ascii_hexdigit() && !c.is_ascii_uppercase()));
}

#[test]
fn session_actions() {
    assert!(matches!(session_action(Frame::Text("x".into())), SessionAction::Forward(t) if t == "x"));
    assert!(matches!(session_action(Frame::Ping(vec![7])), SessionAction::Send(Frame::Pong(p)) if p == vec![7]));
    assert!(matches!(session_action(Frame::Close), SessionAction::Close));
    assert!(matches!(session_action(Frame::Binary(vec![])), SessionAction::Ignore));
    assert!(matches!(session_action(Frame::Pong(vec![])), SessionAction::Ignore));
}
