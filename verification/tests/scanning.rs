use sentry_tunnel::dsn::parse_descriptor;
use sentry_tunnel::envelope::SentryEnvelope;
use sentry_tunnel::scanner::{scan_envelope_lines, split_lines, BodyError, LINE_BUDGET};
use sentry_tunnel::text::safe_text_view;
use sentry_tunnel::tunnel::{first_forwarded_value, resolve_client_addr};

#[test]
fn text_prefix_is_bounded_and_safe_iff_whole() {
    let all_text = b"hello \xc3\xa9 world".to_vec();
    let (p, safe) = safe_text_view(&all_text);
    assert_eq!(p, all_text.len());
    assert!(safe);

    let mut broken = all_text.clone();
    broken.push(0xff);
    broken.push(b'a');
    let (p, safe) = safe_text_view(&broken);
    assert_eq!(p, all_text.len());
    assert!(!safe);

    let (p, safe) = safe_text_view(&Vec::new());
    assert_eq!(p, 0);
    assert!(safe);
}

#[test]
fn truncated_multibyte_sequences_end_the_prefix() {
    // A three-byte encoding cut short after two bytes.
    let v = vec![b'a', 0xe2, 0x82];
    let (p, safe) = safe_text_view(&v);
    assert_eq!(p, 1);
    assert!(!safe);
    // Overlong two-byte encoding of '/'.
    let v = vec![0xc0, 0xaf];
    let (p, _) = safe_text_view(&v);
    assert_eq!(p, 0);
    // Surrogate range is not valid text.
    let v = vec![0xed, 0xa0, 0x80];
    let (p, _) = safe_text_view(&v);
    assert_eq!(p, 0);
}

#[test]
fn lines_split_on_newlines_and_drop_carriage_returns() {
    let v = b"ab\r\ncd\n\nef".to_vec();
    let lines = split_lines(&v, v.len());
    let expect: Vec<Vec<u8>> = vec![b"ab".to_vec(), b"cd".to_vec(), Vec::new(), b"ef".to_vec()];
    assert_eq!(lines, expect);
    // A final line without a break keeps a trailing carriage return.
    let lines = split_lines(&v, 3);
    assert_eq!(lines, vec![b"ab\r".to_vec()]);
}

#[test]
fn first_matching_line_wins_whatever_follows() {
    let body = b"{}\n{\"other\":1}\n{\"dsn\":\"https://KEY@host.example/42\"}\n{\"dsn\":\"https://OTHER@elsewhere.example/7\"}\ngarbage not json".to_vec();
    let env = SentryEnvelope::try_new_from_body(body, "c".to_string()).unwrap();
    assert_eq!(env.dsn.host, "host.example");
    assert_eq!(env.dsn.public_key, "KEY");
    assert_eq!(env.dsn.project_id, 42);
}

#[test]
fn key_within_budget_is_found_despite_later_binary_bytes() {
    let mut body = b"{\"dsn\":\"https://KEY@host.example/42\"}\n".to_vec();
    body.extend_from_slice(&[0x00, 0xff, 0x9c, 0x01]);
    let env = SentryEnvelope::try_new_from_body(body, "c".to_string()).unwrap();
    assert_eq!(env.dsn.project_id, 42);
}

#[test]
fn key_past_the_line_budget_is_never_reached() {
    let mut body = Vec::new();
    for _ in 0..LINE_BUDGET {
        body.extend_from_slice(b"{}\n");
    }
    body.extend_from_slice(b"{\"dsn\":\"https://KEY@host.example/42\"}\n");
    let r = SentryEnvelope::try_new_from_body(body, "c".to_string());
    assert_eq!(r.unwrap_err(), BodyError::LineBudgetExceeded);
}

#[test]
fn sixty_empty_objects_fail_at_the_budget() {
    let mut body = Vec::new();
    for _ in 0..60 {
        body.extend_from_slice(b"{}\n");
    }
    let r = SentryEnvelope::try_new_from_body(body, "c".to_string());
    assert_eq!(r.unwrap_err(), BodyError::LineBudgetExceeded);
}

#[test]
fn the_budget_boundary_is_exact() {
    // A descriptor on the fiftieth line (the last one examined) is found.
    let mut body = Vec::new();
    for _ in 0..(LINE_BUDGET - 1) {
        body.extend_from_slice(b"{}\n");
    }
    body.extend_from_slice(b"{\"dsn\":\"https://KEY@host.example/42\"}\n");
    let env = SentryEnvelope::try_new_from_body(body, "c".to_string()).unwrap();
    assert_eq!(env.dsn.project_id, 42);

    // Exactly fifty keyless lines exhaust the budget.
    let mut body = Vec::new();
    for _ in 0..LINE_BUDGET {
        body.extend_from_slice(b"{}\n");
    }
    let r = SentryEnvelope::try_new_from_body(body, "c".to_string());
    assert_eq!(r.unwrap_err(), BodyError::LineBudgetExceeded);

    // One line fewer, and it is the lines that ran out, not the budget.
    let mut body = Vec::new();
    for _ in 0..(LINE_BUDGET - 1) {
        body.extend_from_slice(b"{}\n");
    }
    let r = SentryEnvelope::try_new_from_body(body, "c".to_string());
    assert_eq!(r.unwrap_err(), BodyError::KeyAbsent);
}

#[test]
fn an_empty_body_has_no_key() {
    let r = SentryEnvelope::try_new_from_body(Vec::new(), "c".to_string());
    assert_eq!(r.unwrap_err(), BodyError::KeyAbsent);
}

#[test]
fn running_out_of_lines_reports_the_key_absent() {
    let r = SentryEnvelope::try_new_from_body(b"{}\n{}\n{}".to_vec(), "c".to_string());
    assert_eq!(r.unwrap_err(), BodyError::KeyAbsent);
}

#[test]
fn a_malformed_line_fails_immediately() {
    let r = SentryEnvelope::try_new_from_body(b"{}\nnot json\n{}".to_vec(), "c".to_string());
    assert_eq!(r.unwrap_err(), BodyError::MalformedHeaderLine);
}

#[test]
fn a_non_string_dsn_value_is_rejected() {
    let r = SentryEnvelope::try_new_from_body(b"{\"dsn\": 42}".to_vec(), "c".to_string());
    assert_eq!(r.unwrap_err(), BodyError::KeyPresentButNotString);
}

#[test]
fn an_unparseable_descriptor_is_rejected() {
    let r = SentryEnvelope::try_new_from_body(b"{\"dsn\": \"not a url\"}".to_vec(), "c".to_string());
    assert_eq!(r.unwrap_err(), BodyError::DescriptorUnparseable);
    // A well-formed URL whose project identifier is not numeric.
    let r = SentryEnvelope::try_new_from_body(
        b"{\"dsn\": \"https://KEY@host.example/abc\"}".to_vec(),
        "c".to_string(),
    );
    assert_eq!(r.unwrap_err(), BodyError::DescriptorUnparseable);
}

#[test]
fn scanning_lines_directly_matches_the_envelope_result() {
    let lines: Vec<Vec<u8>> = vec![
        b"{}".to_vec(),
        b"{\"dsn\":\"http://K@h.example:8888/9\"}".to_vec(),
    ];
    let d = scan_envelope_lines(&lines).unwrap();
    assert_eq!(d.host, "h.example");
    assert_eq!(d.public_key, "K");
    assert_eq!(d.project_id, 9);
    assert_eq!(d.api_url, "http://h.example:8888/api/9/envelope/");
}

#[test]
fn descriptor_parsing_fails_as_a_unit() {
    assert!(parse_descriptor("https://KEY@host.example/42").is_some());
    assert!(parse_descriptor("https://@host.example/42").is_none());
    assert!(parse_descriptor("https://KEY@host.example/").is_none());
    assert!(parse_descriptor("ftp://KEY@host.example/42").is_none());
    assert!(parse_descriptor("").is_none());
}

#[test]
fn the_first_forwarded_entry_is_used_when_trusted() {
    assert_eq!(first_forwarded_value(" 1.2.3.4 , 5.6.7.8"), "1.2.3.4");
    assert_eq!(first_forwarded_value("1.2.3.4"), "1.2.3.4");
    assert_eq!(first_forwarded_value("  "), "");
    assert_eq!(first_forwarded_value(""), "");
    let h = "9.8.7.6, 1.1.1.1".to_string();
    assert_eq!(
        resolve_client_addr(true, Some(&h), "peer".to_string()),
        "9.8.7.6"
    );
    assert_eq!(
        resolve_client_addr(false, Some(&h), "peer".to_string()),
        "peer"
    );
    assert_eq!(resolve_client_addr(true, None, "peer".to_string()), "peer");
}
