use sentry_tunnel::envelope::{envelope_content_type, BodyLogRepr, SentryEnvelope};
use sentry_tunnel::gate::{check_content_length, parse_u64_decimal, parse_u64_digits, HeaderError};
use sentry_tunnel::scanner::BodyError;
use sentry_tunnel::tunnel::{process_envelope, TunnelError};

fn body_three_lines() -> Vec<u8> {
    b"{\"dsn\":\"https://KEY@host.example/42\"}\n{}\n{}".to_vec()
}

fn hosts(list: &[&str]) -> Vec<String> {
    list.iter().map(|s| s.to_string()).collect()
}

#[test]
fn forwarded_when_host_and_project_allowed() {
    let env = process_envelope(
        body_three_lines(),
        "1.2.3.4".to_string(),
        &hosts(&["host.example"]),
        &vec![42],
    )
    .expect("envelope should be accepted");
    assert_eq!(env.dsn.host, "host.example");
    assert_eq!(env.dsn.public_key, "KEY");
    assert_eq!(env.dsn.project_id, 42);
    assert_eq!(env.dsn.api_url, "https://host.example/api/42/envelope/");
    assert!(env.is_safe);
}

#[test]
fn project_not_in_allow_list_is_rejected() {
    let r = process_envelope(
        body_three_lines(),
        "1.2.3.4".to_string(),
        &hosts(&["host.example"]),
        &vec![7],
    );
    assert_eq!(r.unwrap_err(), TunnelError::Body(BodyError::ProjectNotAllowed));
}

#[test]
fn host_not_in_allow_list_is_rejected() {
    let r = process_envelope(
        body_three_lines(),
        "1.2.3.4".to_string(),
        &hosts(&["other.example"]),
        &vec![42],
    );
    assert_eq!(r.unwrap_err(), TunnelError::Header(HeaderError::InvalidHost));
}

#[test]
fn project_check_wins_when_both_fail() {
    let r = process_envelope(
        body_three_lines(),
        "1.2.3.4".to_string(),
        &hosts(&["other.example"]),
        &vec![7],
    );
    assert_eq!(r.unwrap_err(), TunnelError::Body(BodyError::ProjectNotAllowed));
}

#[test]
fn host_match_is_byte_for_byte() {
    let r = process_envelope(
        body_three_lines(),
        "1.2.3.4".to_string(),
        &hosts(&["Host.Example"]),
        &vec![42],
    );
    assert_eq!(r.unwrap_err(), TunnelError::Header(HeaderError::InvalidHost));
}

#[test]
fn missing_content_length_is_rejected_before_any_body() {
    assert_eq!(
        check_content_length(None),
        Err(HeaderError::MissingContentLength)
    );
}

#[test]
fn content_length_over_the_bound_is_rejected() {
    let v = b"10000001".to_vec();
    assert_eq!(check_content_length(Some(&v)), Err(HeaderError::ContentIsTooBig));
    let v = b"10000000".to_vec();
    assert_eq!(check_content_length(Some(&v)), Ok(10_000_000));
}

#[test]
fn unparseable_content_length_is_rejected() {
    let v = b"12ab".to_vec();
    assert_eq!(
        check_content_length(Some(&v)),
        Err(HeaderError::CouldNotParseContentLength)
    );
    let v = b"".to_vec();
    assert_eq!(
        check_content_length(Some(&v)),
        Err(HeaderError::CouldNotParseContentLength)
    );
    let v = b"99999999999999999999999".to_vec();
    assert_eq!(
        check_content_length(Some(&v)),
        Err(HeaderError::CouldNotParseContentLength)
    );
}

#[test]
fn decimal_parsing_accepts_a_leading_plus_sign_once() {
    assert_eq!(parse_u64_decimal(b"+123"), Some(123));
    assert_eq!(parse_u64_decimal(b"123"), Some(123));
    assert_eq!(parse_u64_decimal(b"++1"), None);
    assert_eq!(parse_u64_decimal(b"+"), None);
    assert_eq!(parse_u64_decimal(b"18446744073709551615"), Some(u64::MAX));
    assert_eq!(parse_u64_decimal(b"18446744073709551616"), None);
    assert_eq!(parse_u64_digits(b"+123"), None);
    assert_eq!(parse_u64_digits(b"123"), Some(123));
}

#[test]
fn forwarded_body_is_the_raw_buffer_even_when_unsafe() {
    let mut body = body_three_lines();
    body.push(b'\n');
    body.extend_from_slice(&[0xff, 0xfe, 0x00, 0x80]);
    let raw = body.clone();
    let env = process_envelope(
        body,
        "1.2.3.4".to_string(),
        &hosts(&["host.example"]),
        &vec![42],
    )
    .expect("routing reads only the text prefix");
    assert!(!env.is_safe);
    assert!(env.text_prefix_len < raw.len());
    let req = env.build_forward_request();
    assert_eq!(req.body, raw);
    assert_eq!(
        req.url,
        "https://host.example/api/42/envelope/?sentry_key=KEY"
    );
    assert_eq!(req.x_forwarded_for, "1.2.3.4");
}

#[test]
fn envelope_content_type_names_the_format() {
    assert_eq!(envelope_content_type(), "application/x-sentry-envelope");
}

#[test]
fn log_representation_follows_the_safety_flag() {
    let env = SentryEnvelope::try_new_from_body(body_three_lines(), "c".to_string()).unwrap();
    assert_eq!(env.log_body_repr(), BodyLogRepr::FullText);

    let mut body = body_three_lines();
    body.extend_from_slice(&[0xff, 0xff]);
    let env = SentryEnvelope::try_new_from_body(body, "c".to_string()).unwrap();
    assert_eq!(env.log_body_repr(), BodyLogRepr::ByteCount);
}

#[test]
fn error_messages_are_human_readable() {
    assert_eq!(
        HeaderError::MissingContentLength.message(),
        "Missing content length header."
    );
    assert_eq!(
        HeaderError::CouldNotParseContentLength.message(),
        "could not parse content length header."
    );
    assert_eq!(BodyError::ProjectNotAllowed.message(), "Unauthorized project ID.");
}
