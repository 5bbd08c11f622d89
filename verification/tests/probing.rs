use chunkdl::prepare_download;
use chunkdl::probe::{accepts_byte_ranges, evaluate_probe, parse_content_length, ProbeError};

#[test]
fn probe_server_error_status() {
    let r = evaluate_probe("http://example.com/f".to_string(), 404, None, None);
    match r {
        Err(ProbeError::Server(code)) => assert_eq!(code, 404),
        _ => panic!("expected a server error"),
    }
}

#[test]
fn probe_reads_headers() {
    let r = evaluate_probe(
        "http://example.com/f".to_string(),
        200,
        Some(b"bytes".to_vec()),
        Some(b"1000".to_vec()),
    )
    .unwrap();
    assert_eq!(r.total_size, 1000);
    assert!(r.supports_ranges);
    assert_eq!(r.url, "http://example.com/f");
}

#[test]
fn probe_missing_headers_default() {
    let r = evaluate_probe("u".to_string(), 204, None, None).unwrap();
    assert_eq!(r.total_size, 0);
    assert!(!r.supports_ranges);
}

#[test]
fn content_length_parses_digits() {
    assert_eq!(parse_content_length(&Some(b"1234".to_vec())), 1234);
    assert_eq!(
        parse_content_length(&Some(b"18446744073709551615".to_vec())),
        u64::MAX
    );
}

#[test]
fn content_length_malformed_counts_as_zero() {
    assert_eq!(parse_content_length(&None), 0);
    assert_eq!(parse_content_length(&Some(b"".to_vec())), 0);
    assert_eq!(parse_content_length(&Some(b"12a4".to_vec())), 0);
    assert_eq!(parse_content_length(&Some(b"-5".to_vec())), 0);
    assert_eq!(
        parse_content_length(&Some(b"18446744073709551616".to_vec())),
        0
    );
    assert_eq!(
        parse_content_length(&Some(b"99999999999999999999999".to_vec())),
        0
    );
}

#[test]
fn accept_ranges_must_be_exactly_bytes() {
    assert!(accepts_byte_ranges(&Some(b"bytes".to_vec())));
    assert!(!accepts_byte_ranges(&Some(b"none".to_vec())));
    assert!(!accepts_byte_ranges(&Some(b"Bytes".to_vec())));
    assert!(!accepts_byte_ranges(&Some(b"bytes ".to_vec())));
    assert!(!accepts_byte_ranges(&None));
}

#[test]
fn unsupported_ranges_stop_before_any_plan() {
    let r = evaluate_probe("u".to_string(), 200, Some(b"none".to_vec()), Some(b"1000".to_vec()))
        .unwrap();
    assert!(!r.supports_ranges);
    let d = prepare_download(&r, 500);
    assert_eq!(d.unwrap_err(), ProbeError::RangeUnsupported);
}

#[test]
fn supported_ranges_yield_the_plan() {
    let r = evaluate_probe("u".to_string(), 200, Some(b"bytes".to_vec()), Some(b"1000".to_vec()))
        .unwrap();
    let p = prepare_download(&r, 3).unwrap();
    assert_eq!(p.len(), 3);
    assert_eq!(p[2].end_byte, 999);
}

#[test]
fn whole_gate_refuses_before_planning() {
    let r = chunkdl::probe_and_prepare(
        "u".to_string(),
        500,
        Some(b"bytes".to_vec()),
        Some(b"10".to_vec()),
        3,
    );
    assert_eq!(r.unwrap_err(), ProbeError::Server(500));

    let r = chunkdl::probe_and_prepare(
        "u".to_string(),
        200,
        Some(b"none".to_vec()),
        Some(b"10".to_vec()),
        3,
    );
    assert_eq!(r.unwrap_err(), ProbeError::RangeUnsupported);

    let (resource, plan) = chunkdl::probe_and_prepare(
        "u".to_string(),
        200,
        Some(b"bytes".to_vec()),
        Some(b"10".to_vec()),
        3,
    )
    .unwrap();
    assert_eq!(resource.total_size, 10);
    assert_eq!(plan.len(), 3);
    assert_eq!(plan[2].end_byte, 9);
}
