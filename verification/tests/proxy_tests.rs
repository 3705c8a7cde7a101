use hypergate::net::{parse_network, PeerAddress};
use hypergate::proxy::{
    body_limit_message, classify, connection_header_names, header_text, hop_by_hop_header, is_event_stream,
    is_websocket_upgrade, next_forwarded, parse_u64, prepare_forwarded_headers, request_body_should_stream,
    request_body_too_large, request_header_blocked, response_header_blocked, version_answer, HeaderField, ProxyReply,
    VersionAnswer,
    DEFAULT_MAX_REQUEST_BODY_BYTES,
};
use hypergate::request::RequestKind;

fn field(name: &str, value: &str) -> HeaderField {
    HeaderField { name: name.to_owned(), value: value.as_bytes().to_vec() }
}

fn value_of(headers: &[HeaderField], name: &str) -> Option<String> {
    headers.iter().find(|h| h.name == name).map(|h| String::from_utf8(h.value.clone()).expect("text value"))
}

fn ipv4(a: u8, b: u8, c: u8, d: u8) -> PeerAddress {
    PeerAddress { is_v6: false, address: u128::from(u32::from_be_bytes([a, b, c, d])) }
}

#[test]
fn internal_proxy_error_hides_diagnostics() {
    let reply = ProxyReply::BadGateway;
    assert_eq!(reply.status(), 502);
    assert_eq!(reply.body(), "service temporarily unavailable\n");
    assert!(!reply.body().contains("127.0.0.1:9102"));
}

#[test]
fn response_headers_preserve_end_to_end_semantics() {
    let headers = vec![field("connection", "keep-alive, x-internal")];
    let connection_headers = connection_header_names(&headers);
    assert!(!response_header_blocked("set-cookie", &connection_headers, false));
    assert!(!response_header_blocked("location", &connection_headers, false));
    assert!(!response_header_blocked("content-length", &connection_headers, false));
    assert!(response_header_blocked("connection", &connection_headers, false));
    assert!(response_header_blocked("x-internal", &connection_headers, false));
}

#[test]
fn forwarded_headers_respect_trusted_proxy_boundary() {
    let mut direct = vec![field("x-forwarded-for", "203.0.113.10"), field("cf-connecting-ip", "203.0.113.10")];
    prepare_forwarded_headers(&mut direct, &ipv4(198, 51, 100, 8), "198.51.100.8", &Vec::new());
    assert_eq!(value_of(&direct, "x-forwarded-for").as_deref(), Some("198.51.100.8"));
    assert!(value_of(&direct, "cf-connecting-ip").is_none());

    let mut proxied = vec![field("x-forwarded-for", "203.0.113.10")];
    let trusted = vec![parse_network("127.0.0.0/8").expect("trusted network")];
    prepare_forwarded_headers(&mut proxied, &ipv4(127, 0, 0, 1), "127.0.0.1", &trusted);
    assert_eq!(value_of(&proxied, "x-forwarded-for").as_deref(), Some("203.0.113.10"));
}

#[test]
fn forwarded_headers_fill_proto_and_host() {
    let mut headers = vec![field("host", "example.test"), field("forwarded", "for=1.2.3.4"), field("x-real-ip", "1.2.3.4")];
    prepare_forwarded_headers(&mut headers, &ipv4(10, 0, 0, 7), "10.0.0.7", &Vec::new());
    assert_eq!(value_of(&headers, "x-forwarded-for").as_deref(), Some("10.0.0.7"));
    assert_eq!(value_of(&headers, "x-forwarded-proto").as_deref(), Some("http"));
    assert_eq!(value_of(&headers, "x-forwarded-host").as_deref(), Some("example.test"));
    assert!(value_of(&headers, "forwarded").is_none());
    assert!(value_of(&headers, "x-real-ip").is_none());
    assert_eq!(value_of(&headers, "host").as_deref(), Some("example.test"));
}

#[test]
fn connection_names_are_trimmed_and_validated() {
    let headers = vec![
        field("connection", " Upgrade ,x-one,,bad name"),
        field("x-other", "keep"),
        field("connection", "x-two"),
    ];
    let names = connection_header_names(&headers);
    assert!(names.contains(&"upgrade".to_owned()));
    assert!(names.contains(&"x-one".to_owned()));
    assert!(names.contains(&"x-two".to_owned()));
    assert!(!names.iter().any(|n| n.is_empty() || n.contains(' ')));
}

#[test]
fn hop_by_hop_rules() {
    let none: Vec<String> = Vec::new();
    for name in ["connection", "te", "trailer", "transfer-encoding", "upgrade", "proxy-authorization", "Keep-Alive"] {
        assert!(hop_by_hop_header(name, &none, false), "{name}");
    }
    assert!(!hop_by_hop_header("connection", &none, true));
    assert!(!hop_by_hop_header("upgrade", &none, true));
    assert!(hop_by_hop_header("te", &none, true));
    assert!(!hop_by_hop_header("content-type", &none, false));
    assert!(request_header_blocked("host", &none, false));
    assert!(!response_header_blocked("host", &none, false));
}

#[test]
fn header_text_requires_visible_bytes() {
    assert_eq!(header_text(&b"text/plain; q=1".to_vec()).as_deref(), Some("text/plain; q=1"));
    assert_eq!(header_text(&b"tab\there".to_vec()).as_deref(), Some("tab\there"));
    assert!(header_text(&vec![b'a', 0x7f]).is_none());
    assert!(header_text(&vec![0xc3, 0xa9]).is_none());
}

#[test]
fn websocket_and_event_stream_detection() {
    assert!(is_websocket_upgrade(&vec![field("upgrade", "WebSocket")]));
    assert!(!is_websocket_upgrade(&vec![field("upgrade", "h2c")]));
    assert!(is_event_stream(&vec![field("content-type", "text/event-stream; charset=utf-8")]));
    assert!(!is_event_stream(&vec![field("content-type", "text/html")]));
    assert!(!is_event_stream(&Vec::new()));
    assert_eq!(classify(&vec![field("upgrade", "websocket")]), RequestKind::Stream);
    assert_eq!(classify(&vec![field("accept", "text/html, text/event-stream")]), RequestKind::Stream);
    assert_eq!(classify(&vec![field("accept", "application/json")]), RequestKind::Unary);
}

#[test]
fn parse_u64_accepts_plain_digits() {
    assert_eq!(parse_u64("0"), Some(0));
    assert_eq!(parse_u64("+42"), Some(42));
    assert_eq!(parse_u64("18446744073709551615"), Some(u64::MAX));
    assert_eq!(parse_u64("18446744073709551616"), None);
    assert_eq!(parse_u64(""), None);
    assert_eq!(parse_u64("+"), None);
    assert_eq!(parse_u64("-1"), None);
    assert_eq!(parse_u64("12a"), None);
}

#[test]
fn body_limits_follow_declared_length() {
    let big = vec![field("content-length", "2048")];
    assert!(request_body_too_large(&big, 1024));
    assert!(!request_body_too_large(&big, 4096));
    assert!(!request_body_too_large(&vec![field("content-length", "oops")], 1));
    assert!(request_body_should_stream("GET", &big));
    assert!(request_body_should_stream("GET", &vec![field("transfer-encoding", "chunked")]));
    assert!(request_body_should_stream("POST", &Vec::new()));
    assert!(!request_body_should_stream("GET", &vec![field("content-length", "0")]));
    assert_eq!(next_forwarded(3, 3, 6), Some(6));
    assert_eq!(next_forwarded(3, 4, 6), None);
    assert_eq!(next_forwarded(u64::MAX, 1, u64::MAX), None);
    assert_eq!(DEFAULT_MAX_REQUEST_BODY_BYTES, 64 * 1024 * 1024);
}

#[test]
fn payload_too_large_reply() {
    assert_eq!(body_limit_message(1024), "request body exceeds limit: 1024 bytes");
    assert_eq!(ProxyReply::PayloadTooLarge.status(), 413);
}

#[test]
fn version_answer_orders_outcomes() {
    assert!(version_answer(true, false, false, 0) == VersionAnswer::PayloadTooLarge);
    assert!(version_answer(true, true, true, 101) == VersionAnswer::PayloadTooLarge);
    assert!(version_answer(false, false, true, 0) == VersionAnswer::Failed);
    assert!(version_answer(false, true, true, 101) == VersionAnswer::Tunnel);
    assert!(version_answer(false, true, false, 101) == VersionAnswer::Respond);
    assert!(version_answer(false, true, true, 200) == VersionAnswer::Respond);
}

#[test]
fn connection_names_respect_header_name_limit() {
    let long = "x".repeat(65536);
    let exact = "y".repeat(65535);
    let headers = vec![field("connection", &format!("{long}, {exact}, Set-Cookie"))];
    let names = connection_header_names(&headers);
    assert!(!names.contains(&long));
    assert!(names.contains(&exact));
    assert!(names.contains(&"set-cookie".to_owned()));
}
