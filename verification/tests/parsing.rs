use transcript_disclosure::errors::Rule;
use transcript_disclosure::http::{parse_request, parse_response, DocKind};
use transcript_disclosure::json::JsonKind;

fn bytes(s: &str) -> Vec<u8> {
    s.as_bytes().to_vec()
}

#[test]
fn request_parses_with_headers_in_any_order() {
    let text = "GET /a HTTP/1.1\r\nConnection: close\r\nHost: example.com\r\n\r\n";
    let d = parse_request(bytes(text)).unwrap();
    assert_eq!(d.kind, DocKind::Request);
    assert_eq!(d.headers.len(), 2);
    let h0 = d.headers[0];
    assert_eq!(&text.as_bytes()[h0.name_span.start..h0.name_span.end], b"Connection");
    assert_eq!(&text.as_bytes()[h0.value_span.start..h0.value_span.end], b"close");
    let h1 = d.headers[1];
    assert_eq!(&text.as_bytes()[h1.name_span.start..h1.name_span.end], b"Host");
    assert_eq!(&text.as_bytes()[h1.value_span.start..h1.value_span.end], b"example.com");
    assert!(d.body_span.is_none());
}

#[test]
fn request_keeps_duplicate_headers_as_separate_nodes() {
    let text = "GET / HTTP/1.1\r\nAccept: a\r\nAccept: b\r\n\r\n";
    let d = parse_request(bytes(text)).unwrap();
    assert_eq!(d.headers.len(), 2);
    let v0 = d.headers[0].value_span;
    let v1 = d.headers[1].value_span;
    assert_eq!(&text.as_bytes()[v0.start..v0.end], b"a");
    assert_eq!(&text.as_bytes()[v1.start..v1.end], b"b");
}

#[test]
fn request_value_whitespace_is_trimmed() {
    let text = "GET / HTTP/1.1\r\nHost:   padded.example  \r\n\r\n";
    let d = parse_request(bytes(text)).unwrap();
    let v = d.headers[0].value_span;
    assert_eq!(&text.as_bytes()[v.start..v.end], b"padded.example");
}

#[test]
fn parsing_identical_bytes_twice_gives_identical_documents() {
    let text = "GET /a HTTP/1.1\r\nHost: example.com\r\n\r\n";
    let d1 = parse_request(bytes(text)).unwrap();
    let d2 = parse_request(bytes(text)).unwrap();
    assert_eq!(d1, d2);
    let resp = "HTTP/1.1 200 OK\r\n\r\n{\"a\":1}";
    let r1 = parse_response(bytes(resp)).unwrap();
    let r2 = parse_response(bytes(resp)).unwrap();
    assert_eq!(r1, r2);
}

#[test]
fn malformed_request_line_is_rejected() {
    assert!(parse_request(bytes("GET /a\r\nHost: x\r\n\r\n")).is_err());
    assert!(parse_request(bytes(" GET /a HTTP/1.1\r\n\r\n")).is_err());
    assert!(parse_request(bytes("GET /a HTTQ/1.1\r\n\r\n")).is_err());
    assert!(parse_request(bytes("")).is_err());
}

#[test]
fn bare_line_feed_in_headers_is_rejected() {
    assert!(parse_request(bytes("GET / HTTP/1.1\r\nHost: x\n\r\n")).is_err());
}

#[test]
fn missing_final_empty_line_is_rejected() {
    assert!(parse_request(bytes("GET / HTTP/1.1\r\nHost: x\r\n")).is_err());
}

#[test]
fn response_without_body_parses() {
    let d = parse_response(bytes("HTTP/1.1 204 No Content\r\nServer: t\r\n\r\n")).unwrap();
    assert_eq!(d.kind, DocKind::Response);
    assert!(d.body.is_empty());
    assert!(d.body_span.is_none());
    let code = d.code_span.unwrap();
    assert_eq!(code.start, 9);
    assert_eq!(code.end, 12);
}

#[test]
fn response_status_line_without_reason_parses() {
    let d = parse_response(bytes("HTTP/1.1 200\r\n\r\n")).unwrap();
    assert!(d.headers.is_empty());
}

#[test]
fn response_json_body_builds_positioned_tree() {
    let text = "HTTP/1.1 200 OK\r\n\r\n{\"a\":[1,true,null],\"b\":{\"c\":\"x\"}}";
    let d = parse_response(bytes(text)).unwrap();
    let buf = text.as_bytes();
    // Root object, then: array under "a" with three items, object under
    // "b" with one string member.
    assert_eq!(d.body.len(), 7);
    let root = d.body[0];
    assert_eq!(root.kind, JsonKind::Object);
    assert_eq!(root.depth, 0);
    assert_eq!(&buf[root.span.start..root.span.end], "{\"a\":[1,true,null],\"b\":{\"c\":\"x\"}}".as_bytes());
    let arr = d.body[1];
    assert_eq!(arr.kind, JsonKind::Array);
    assert_eq!(arr.depth, 1);
    let ks = arr.key_span.unwrap();
    assert_eq!(&buf[ks.start..ks.end], b"a");
    assert_eq!(&buf[arr.span.start..arr.span.end], b"[1,true,null]");
    assert_eq!(d.body[2].kind, JsonKind::Number);
    assert_eq!(d.body[3].kind, JsonKind::Bool);
    assert_eq!(d.body[4].kind, JsonKind::Null);
    assert_eq!(d.body[2].depth, 2);
    let inner = d.body[5];
    assert_eq!(inner.kind, JsonKind::Object);
    let text_node = d.body[6];
    assert_eq!(text_node.kind, JsonKind::Text);
    assert_eq!(&buf[text_node.span.start..text_node.span.end], b"\"x\"");
}

#[test]
fn every_node_span_lies_inside_the_buffer() {
    let text = "HTTP/1.1 200 OK\r\nServer: t\r\n\r\n{\"k\":\"a\\\"b\",\"n\":-1.5e2,\"w\":[{},[]]}";
    let d = parse_response(bytes(text)).unwrap();
    for n in &d.body {
        assert!(n.span.start < n.span.end);
        assert!(n.span.end <= text.len());
        if let Some(ks) = n.key_span {
            assert!(ks.start <= ks.end);
            assert!(ks.end <= text.len());
        }
    }
    for h in &d.headers {
        assert!(h.name_span.start < h.name_span.end);
        assert!(h.value_span.end <= text.len());
    }
}

#[test]
fn dangling_value_fails_parsing_with_structured_error() {
    let text = "HTTP/1.1 200 OK\r\n\r\n{\"state\": }";
    let e = parse_response(bytes(text)).unwrap_err();
    assert_eq!(e.rule, Rule::Body);
    assert!(e.pos <= text.len());
}

#[test]
fn non_json_body_fails_parsing() {
    assert!(parse_response(bytes("HTTP/1.1 200 OK\r\n\r\nhello")).is_err());
    assert!(parse_response(bytes("HTTP/1.1 200 OK\r\n\r\n{\"a\":1} trailing")).is_err());
    assert!(parse_response(bytes("HTTP/1.1 200 OK\r\n\r\n{\"a\":1")).is_err());
}

#[test]
fn json_escapes_and_numbers_parse() {
    let ok = [
        "{\"k\":\"a\\n\\t\\\\\\\"z\"}",
        "{\"k\":\"\\u00e9\"}",
        "{\"k\":0}",
        "{\"k\":-0.5}",
        "{\"k\":1e9}",
        "{\"k\":1.25E-3}",
        "[\"lone\"]",
        "\"just a string\"",
        "42",
        "   {\"k\":1}  ",
    ];
    for body in ok {
        let text = format!("HTTP/1.1 200 OK\r\n\r\n{}", body);
        assert!(parse_response(text.into_bytes()).is_ok(), "should parse: {}", body);
    }
    let bad = [
        "{\"k\":\"unterminated}",
        "{\"k\":\"bad\\q\"}",
        "{\"k\":01a}",
        "{\"k\":+1}",
        "{\"k\":1.}",
        "{\"k\":.5}",
        "{k:1}",
        "{\"k\" 1}",
        "{\"k\":1,}",
        "{,}",
    ];
    for body in bad {
        let text = format!("HTTP/1.1 200 OK\r\n\r\n{}", body);
        assert!(parse_response(text.into_bytes()).is_err(), "should fail: {}", body);
    }
}
