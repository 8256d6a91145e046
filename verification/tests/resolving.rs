use transcript_disclosure::http::{parse_request, parse_response};
use transcript_disclosure::resolve::{keypath_from_bytes, Keypath};
use transcript_disclosure::span::Span;

fn bytes(s: &str) -> Vec<u8> {
    s.as_bytes().to_vec()
}

fn kp(path: &str) -> Keypath {
    keypath_from_bytes(&bytes(path))
}

#[test]
fn keypath_splitting_on_dots() {
    assert_eq!(kp("host").segments, vec![b"host".to_vec()]);
    assert_eq!(
        kp("recipient.account").segments,
        vec![b"recipient".to_vec(), b"account".to_vec()]
    );
    assert_eq!(kp("a.b.c").segments, vec![b"a".to_vec(), b"b".to_vec(), b"c".to_vec()]);
    assert_eq!(kp("a..b").segments, vec![b"a".to_vec(), b"".to_vec(), b"b".to_vec()]);
    assert_eq!(kp("").segments, vec![b"".to_vec()]);
}

#[test]
fn excluded_host_resolves_to_exactly_its_value_span() {
    // Scenario: the caller keeps the host hidden; the resolver returns the
    // span of `example.com` and nothing else.
    let text = "GET /a HTTP/1.1\r\nHost: example.com\r\nConnection: close\r\n\r\n";
    let d = parse_request(bytes(text)).unwrap();
    let rs = d.resolve_keypaths(&vec![], &vec![kp("host")]);
    let start = text.find("example.com").unwrap();
    assert_eq!(rs.spans, vec![Span { start, end: start + "example.com".len() }]);
}

#[test]
fn header_name_matching_is_case_insensitive() {
    let text = "GET / HTTP/1.1\r\nHoSt: example.com\r\n\r\n";
    let d = parse_request(bytes(text)).unwrap();
    let rs = d.resolve_keypaths(&vec![kp("hOST")], &vec![]);
    assert_eq!(rs.spans.len(), 1);
    let sp = rs.spans[0];
    assert_eq!(&text.as_bytes()[sp.start..sp.end], b"example.com");
}

#[test]
fn three_response_fields_resolve_to_three_disjoint_spans() {
    // Scenario: state, amount and recipient.account each contribute the
    // span of their value text, quotes excluded.
    let text = "HTTP/1.1 200 OK\r\n\r\n{\"state\":\"done\",\"amount\":\"10.00\",\"recipient\":{\"account\":\"123\"}}";
    let d = parse_response(bytes(text)).unwrap();
    let rs = d.resolve_keypaths(
        &vec![kp("state"), kp("amount"), kp("recipient.account")],
        &vec![],
    );
    assert_eq!(rs.spans.len(), 3);
    let texts: Vec<&[u8]> = rs
        .spans
        .iter()
        .map(|sp| &text.as_bytes()[sp.start..sp.end])
        .collect();
    assert_eq!(texts, vec![b"done".as_slice(), b"10.00".as_slice(), b"123".as_slice()]);
    for w in rs.spans.windows(2) {
        assert!(w[0].end <= w[1].start, "spans overlap or are out of order");
    }
}

#[test]
fn resolution_is_order_independent() {
    let text = "HTTP/1.1 200 OK\r\n\r\n{\"state\":\"done\",\"amount\":\"10.00\",\"recipient\":{\"account\":\"123\"}}";
    let d = parse_response(bytes(text)).unwrap();
    let ab = d.resolve_keypaths(&vec![kp("state"), kp("amount")], &vec![]);
    let ba = d.resolve_keypaths(&vec![kp("amount"), kp("state")], &vec![]);
    assert_eq!(ab, ba);
    let spread = d.resolve_keypaths(&vec![kp("state")], &vec![kp("amount")]);
    assert_eq!(ab, spread);
}

#[test]
fn absent_keypath_contributes_nothing_and_is_no_error() {
    let text = "HTTP/1.1 200 OK\r\n\r\n{\"state\":\"done\"}";
    let d = parse_response(bytes(text)).unwrap();
    let rs = d.resolve_keypaths(&vec![kp("missing"), kp("state"), kp("a.b.c")], &vec![]);
    assert_eq!(rs.spans.len(), 1);
    let sp = rs.spans[0];
    assert_eq!(&text.as_bytes()[sp.start..sp.end], b"done");
    let empty = d.resolve_keypaths(&vec![kp("missing")], &vec![]);
    assert!(empty.spans.is_empty());
}

#[test]
fn descending_through_a_non_object_contributes_nothing() {
    // Scenario: recipient resolves to a string, so recipient.account
    // cannot descend; no range, no error.
    let text = "HTTP/1.1 200 OK\r\n\r\n{\"recipient\":\"flat\"}";
    let d = parse_response(bytes(text)).unwrap();
    let rs = d.resolve_keypaths(&vec![kp("recipient.account")], &vec![]);
    assert!(rs.spans.is_empty());
}

#[test]
fn body_field_matching_is_case_sensitive() {
    let text = "HTTP/1.1 200 OK\r\n\r\n{\"State\":\"done\"}";
    let d = parse_response(bytes(text)).unwrap();
    assert!(d.resolve_keypaths(&vec![kp("state")], &vec![]).spans.is_empty());
    assert_eq!(d.resolve_keypaths(&vec![kp("State")], &vec![]).spans.len(), 1);
}

#[test]
fn bare_segment_checks_headers_before_body() {
    let text = "HTTP/1.1 200 OK\r\nstate: header-value\r\n\r\n{\"state\":\"body-value\"}";
    let d = parse_response(bytes(text)).unwrap();
    let rs = d.resolve_keypaths(&vec![kp("state")], &vec![]);
    assert_eq!(rs.spans.len(), 1);
    let sp = rs.spans[0];
    assert_eq!(&text.as_bytes()[sp.start..sp.end], b"header-value");
}

#[test]
fn nested_object_members_do_not_shadow_sibling_lookups() {
    // The direct member is found even when a deeper subtree holds the
    // same key earlier in document order.
    let text = "HTTP/1.1 200 OK\r\n\r\n{\"a\":{\"b\":{\"c\":\"deep\"}},\"c\":\"shallow\"}";
    let d = parse_response(bytes(text)).unwrap();
    let rs = d.resolve_keypaths(&vec![kp("c")], &vec![]);
    assert_eq!(rs.spans.len(), 1);
    let sp = rs.spans[0];
    assert_eq!(&text.as_bytes()[sp.start..sp.end], b"shallow");
}

#[test]
fn non_string_values_contribute_their_whole_token() {
    let text = "HTTP/1.1 200 OK\r\n\r\n{\"n\":-1.5e2,\"t\":true,\"z\":null,\"arr\":[1,2],\"obj\":{\"x\":1}}";
    let d = parse_response(bytes(text)).unwrap();
    let cases: [(&str, &[u8]); 5] = [
        ("n", b"-1.5e2"),
        ("t", b"true"),
        ("z", b"null"),
        ("arr", b"[1,2]"),
        ("obj", b"{\"x\":1}"),
    ];
    for (path, expected) in cases {
        let rs = d.resolve_keypaths(&vec![kp(path)], &vec![]);
        assert_eq!(rs.spans.len(), 1, "path {}", path);
        let sp = rs.spans[0];
        assert_eq!(&text.as_bytes()[sp.start..sp.end], expected, "path {}", path);
    }
}

#[test]
fn duplicate_headers_resolve_to_the_first_match() {
    let text = "GET / HTTP/1.1\r\nAccept: first\r\nAccept: second\r\n\r\n";
    let d = parse_request(bytes(text)).unwrap();
    let rs = d.resolve_keypaths(&vec![kp("accept")], &vec![]);
    assert_eq!(rs.spans.len(), 1);
    let sp = rs.spans[0];
    assert_eq!(&text.as_bytes()[sp.start..sp.end], b"first");
}

#[test]
fn overlapping_contributions_merge_into_one_canonical_span() {
    // The same field named twice contributes one canonical range.
    let text = "HTTP/1.1 200 OK\r\n\r\n{\"state\":\"done\"}";
    let d = parse_response(bytes(text)).unwrap();
    let rs = d.resolve_keypaths(&vec![kp("state"), kp("state")], &vec![kp("state")]);
    assert_eq!(rs.spans.len(), 1);
}
