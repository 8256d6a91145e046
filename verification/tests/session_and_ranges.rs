use transcript_disclosure::errors::Errors;
use transcript_disclosure::events::{encode_frame, frame_len, frame_len_bytes, MessageType};
use transcript_disclosure::session::{
    check_status, default_policy, disclosure_ranges, validate_connection_params,
};
use transcript_disclosure::span::{merge, Span};

fn bytes(s: &str) -> Vec<u8> {
    s.as_bytes().to_vec()
}

#[test]
fn merge_sorts_and_fuses_overlapping_and_adjacent_spans() {
    let spans = vec![
        Span { start: 10, end: 12 },
        Span { start: 0, end: 3 },
        Span { start: 12, end: 15 },
        Span { start: 1, end: 2 },
        Span { start: 5, end: 5 },
    ];
    let rs = merge(&spans, 100).unwrap();
    assert_eq!(rs.spans, vec![Span { start: 0, end: 3 }, Span { start: 10, end: 15 }]);
    for w in rs.spans.windows(2) {
        assert!(w[0].end <= w[1].start);
    }
}

#[test]
fn merge_rejects_inverted_and_out_of_bounds_spans() {
    let inverted = vec![Span { start: 4, end: 2 }];
    match merge(&inverted, 100) {
        Err(Errors::InvalidRange(sp)) => assert_eq!(sp, Span { start: 4, end: 2 }),
        other => panic!("expected a range error, got {:?}", other),
    }
    let beyond = vec![Span { start: 0, end: 101 }];
    assert!(merge(&beyond, 100).is_err());
    assert!(merge(&vec![Span { start: 0, end: 100 }], 100).is_ok());
}

#[test]
fn frame_length_round_trips() {
    let b = frame_len_bytes(0x0102_0304);
    assert_eq!(b, vec![4, 3, 2, 1]);
    assert_eq!(frame_len(b[0], b[1], b[2], b[3]), 0x0102_0304);
    assert_eq!(frame_len(0, 0, 0, 0), 0);
    assert_eq!(frame_len(255, 255, 255, 255), u32::MAX);
}

#[test]
fn frames_carry_a_little_endian_length_prefix() {
    let payload = bytes("{\"logging\":\"ok\"}");
    let f = encode_frame(&payload).unwrap();
    assert_eq!(f.len(), 4 + payload.len());
    assert_eq!(f[0] as usize, payload.len());
    assert_eq!(&f[1..4], &[0, 0, 0]);
    assert_eq!(&f[4..], payload.as_slice());
}

#[test]
fn parser_capacity_is_plainly_huge() {
    assert!(transcript_disclosure::json::max_message_capacity() > 1 << 40);
}

#[test]
fn message_types_have_their_tags() {
    assert_eq!(MessageType::Message.tag(), "Message");
    assert_eq!(MessageType::Logging.tag(), "Logging");
}

#[test]
fn connection_params_require_https_and_a_host() {
    assert_eq!(
        validate_connection_params(None, Some(bytes("x")), None),
        Err(Errors::InvalidScheme)
    );
    assert_eq!(
        validate_connection_params(Some(bytes("http")), Some(bytes("x")), None),
        Err(Errors::InvalidScheme)
    );
    assert_eq!(
        validate_connection_params(Some(bytes("https")), None, Some(8443)),
        Err(Errors::MissingAuthority)
    );
    assert_eq!(
        validate_connection_params(Some(bytes("https")), Some(bytes("api.example.com")), None),
        Ok((bytes("api.example.com"), 443))
    );
    assert_eq!(
        validate_connection_params(Some(bytes("https")), Some(bytes("api.example.com")), Some(8443)),
        Ok((bytes("api.example.com"), 8443))
    );
}

#[test]
fn only_a_200_status_continues_the_session() {
    assert!(check_status(200).is_ok());
    assert_eq!(check_status(404), Err(Errors::UnexpectedStatus));
    assert_eq!(check_status(301), Err(Errors::UnexpectedStatus));
}

#[test]
fn default_policy_names_the_expected_fields() {
    let p = default_policy();
    assert!(p.sent_allowlist.is_empty());
    assert_eq!(p.sent_denylist.len(), 1);
    assert_eq!(p.sent_denylist[0].segments, vec![b"host".to_vec()]);
    let paths: Vec<Vec<Vec<u8>>> =
        p.recv_allowlist.iter().map(|k| k.segments.clone()).collect();
    assert_eq!(
        paths,
        vec![
            vec![b"state".to_vec()],
            vec![b"comment".to_vec()],
            vec![b"currency".to_vec()],
            vec![b"amount".to_vec()],
            vec![b"recipient".to_vec(), b"account".to_vec()],
            vec![b"recipient".to_vec(), b"username".to_vec()],
            vec![b"recipient".to_vec(), b"code".to_vec()],
            vec![b"beneficiary".to_vec(), b"account".to_vec()],
        ]
    );
    assert!(p.recv_denylist.is_empty());
}

#[test]
fn a_session_resolves_both_directions_under_the_default_policy() {
    let sent = "GET /a HTTP/1.1\r\nHost: example.com\r\nConnection: close\r\n\r\n";
    let recv = "HTTP/1.1 200 OK\r\n\r\n{\"state\":\"done\",\"amount\":\"10.00\",\"recipient\":{\"account\":\"123\"}}";
    let policy = default_policy();
    let (sr, rr) = disclosure_ranges(bytes(sent), bytes(recv), &policy).unwrap();
    assert_eq!(sr.spans.len(), 1);
    let hs = sr.spans[0];
    assert_eq!(&sent.as_bytes()[hs.start..hs.end], b"example.com");
    let texts: Vec<&[u8]> = rr
        .spans
        .iter()
        .map(|sp| &recv.as_bytes()[sp.start..sp.end])
        .collect();
    assert_eq!(texts, vec![b"done".as_slice(), b"10.00".as_slice(), b"123".as_slice()]);
}

#[test]
fn a_session_aborts_on_the_first_parse_failure() {
    let good_sent = "GET /a HTTP/1.1\r\nHost: example.com\r\n\r\n";
    let good_recv = "HTTP/1.1 200 OK\r\n\r\n{\"state\":\"done\"}";
    let policy = default_policy();
    match disclosure_ranges(bytes("broken"), bytes(good_recv), &policy) {
        Err(Errors::ParseRequest(_)) => {},
        other => panic!("expected a request parse error, got {:?}", other),
    }
    match disclosure_ranges(bytes(good_sent), bytes("HTTP/1.1 200 OK\r\n\r\n{\"state\": }"), &policy) {
        Err(Errors::ParseResponse(pe)) => assert!(pe.pos <= good_recv.len() + 20),
        other => panic!("expected a response parse error, got {:?}", other),
    }
}

#[test]
fn error_messages_are_stable_strings() {
    assert_eq!(Errors::InvalidScheme.message(), "invalid scheme");
    assert!(!Errors::UnexpectedStatus.message().is_empty());
    assert!(!Errors::FailedToReadSizeFromExtension.message().is_empty());
    assert!(!Errors::FailedToReadMessageFromExtension.message().is_empty());
}
