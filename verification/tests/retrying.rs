use chunkdl::fetcher::{range_header_value, record_attempt, retry_start, should_attempt};

#[test]
fn success_on_final_attempt_is_fetched() {
    let max_retries = 3;
    let mut s = retry_start(max_retries);
    for _ in 0..max_retries - 1 {
        assert!(should_attempt(&s));
        record_attempt(&mut s, false);
    }
    assert!(should_attempt(&s));
    record_attempt(&mut s, true);
    assert!(s.succeeded);
    assert!(s.finished);
    assert_eq!(s.attempts_failed, max_retries - 1);
}

#[test]
fn first_attempt_success_stops_retrying() {
    let mut s = retry_start(3);
    record_attempt(&mut s, true);
    assert!(s.succeeded);
    assert!(!should_attempt(&s));
    assert_eq!(s.attempts_failed, 0);
}

#[test]
fn exhausted_budget_is_failed() {
    let mut s = retry_start(3);
    while should_attempt(&s) {
        record_attempt(&mut s, false);
    }
    assert!(s.finished);
    assert!(!s.succeeded);
    assert_eq!(s.attempts_failed, 3);
}

#[test]
fn zero_budget_never_attempts() {
    let s = retry_start(0);
    assert!(!should_attempt(&s));
    assert!(!s.succeeded);
}

#[test]
fn range_header_spells_the_bounds() {
    assert_eq!(range_header_value(0, 332), b"bytes=0-332".to_vec());
    assert_eq!(range_header_value(333, 665), b"bytes=333-665".to_vec());
    assert_eq!(
        range_header_value(0, u64::MAX),
        b"bytes=0-18446744073709551615".to_vec()
    );
}
