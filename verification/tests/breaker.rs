//! The circuit breaker on its own.

use aggregator::clock::Nanos;
use aggregator::dex::circuit_breaker::{
    CircuitBreaker, DEFAULT_FAILURE_THRESHOLD, DEFAULT_RECOVERY_TIMEOUT,
};

const SECOND: Nanos = 1_000_000_000;

#[test]
fn it_starts_closed() {
    let mut breaker = CircuitBreaker::default();
    assert_eq!(breaker.current_state(), "closed");
    assert_eq!(breaker.failure_count(), 0);
    assert!(breaker.allow_request());
    assert_eq!(DEFAULT_FAILURE_THRESHOLD, 5);
    assert_eq!(DEFAULT_RECOVERY_TIMEOUT, 10 * SECOND);
}

#[test]
fn it_opens_at_the_threshold() {
    let mut breaker = CircuitBreaker::new(3, 10 * SECOND);
    breaker.record_failure_at(1);
    breaker.record_failure_at(2);
    assert_eq!(breaker.current_state(), "closed");
    assert!(breaker.allow_request_at(2));
    breaker.record_failure_at(3);
    assert_eq!(breaker.current_state(), "open");
    assert_eq!(breaker.failure_count(), 3);
    assert!(!breaker.allow_request_at(3));
    assert!(!breaker.allow_request_at(3 + 10 * SECOND - 1));
    assert_eq!(breaker.current_state(), "open");
    assert!(breaker.allow_request_at(3 + 10 * SECOND));
    assert_eq!(breaker.current_state(), "half-open");
    assert!(breaker.allow_request_at(3 + 10 * SECOND));
}

#[test]
fn only_failures_in_a_row_count() {
    let mut breaker = CircuitBreaker::new(3, 10 * SECOND);
    for now in 0..20 {
        breaker.record_failure_at(now);
        breaker.record_failure_at(now);
        breaker.record_success_at(now);
        assert_eq!(breaker.failure_count(), 0);
    }
    assert_eq!(breaker.current_state(), "closed");
}

#[test]
fn a_success_closes_it_and_a_failure_opens_it_again() {
    let mut breaker = CircuitBreaker::new(1, 10);
    breaker.record_failure_at(100);
    assert!(breaker.allow_request_at(110));
    breaker.record_failure_at(115);
    assert_eq!(breaker.current_state(), "open");
    assert_eq!(breaker.failure_count(), 2);
    assert!(!breaker.allow_request_at(124));
    assert!(breaker.allow_request_at(125));
    breaker.record_success_at(126);
    assert_eq!(breaker.current_state(), "closed");
    assert_eq!(breaker.failure_count(), 0);
}

#[test]
fn what_is_recorded_while_open_does_not_change_the_state() {
    let mut breaker = CircuitBreaker::new(1, 10);
    breaker.record_failure_at(100);
    breaker.record_failure_at(108);
    assert_eq!(breaker.failure_count(), 2);
    breaker.record_success_at(109);
    assert_eq!(breaker.current_state(), "open");
    assert_eq!(breaker.failure_count(), 0);
    // The wait counts from when the circuit opened.
    assert!(breaker.allow_request_at(110));
}

#[test]
fn a_threshold_of_zero_opens_with_the_first_failure() {
    let mut breaker = CircuitBreaker::new(0, 10);
    assert!(breaker.allow_request_at(0));
    breaker.record_failure_at(0);
    assert_eq!(breaker.current_state(), "open");
}

#[test]
fn it_reads_its_clock() {
    let mut breaker = CircuitBreaker::new(2, 1000 * SECOND);
    breaker.record_failure();
    breaker.record_success();
    breaker.record_failure();
    assert!(breaker.allow_request());
    breaker.record_failure();
    assert!(!breaker.allow_request());
    assert_eq!(breaker.current_state(), "open");

    // Without a wait an open circuit is tried again at once.
    let mut impatient = CircuitBreaker::new(1, 0);
    impatient.record_failure();
    assert!(impatient.allow_request());
    assert_eq!(impatient.current_state(), "half-open");
    impatient.record_success();
    assert_eq!(impatient.current_state(), "closed");
}

#[test]
fn a_short_wait_passes() {
    let mut breaker = CircuitBreaker::new(1, 1_000_000);
    breaker.record_failure();
    let mut rounds = 0u64;
    while !breaker.allow_request() && rounds < 1_000_000_000 {
        rounds += 1;
    }
    assert_eq!(breaker.current_state(), "half-open");
}

#[test]
fn refused_requests_and_late_records_do_not_put_the_wait_off() {
    let mut breaker = CircuitBreaker::new(2, 100);
    breaker.record_failure_at(10);
    breaker.record_failure_at(20);
    for now in 20..120 {
        assert!(!breaker.allow_request_at(now));
        breaker.record_failure_at(now);
        if now % 3 == 0 {
            breaker.record_success_at(now);
        }
    }
    // 117 was the last success.
    assert_eq!(breaker.failure_count(), 2);
    assert!(breaker.allow_request_at(120));
    assert_eq!(breaker.current_state(), "half-open");
}

#[test]
fn its_text_tells_the_state_and_the_failures() {
    let mut breaker = CircuitBreaker::new(12, 10);
    assert_eq!(
        breaker.debug_text(),
        "CircuitBreaker { state: \"closed\", failures: 0 }"
    );
    for now in 0..12 {
        breaker.record_failure_at(now);
    }
    assert_eq!(
        breaker.debug_text(),
        "CircuitBreaker { state: \"open\", failures: 12 }"
    );
    assert!(breaker.allow_request_at(21));
    assert_eq!(
        breaker.debug_text(),
        "CircuitBreaker { state: \"half-open\", failures: 12 }"
    );
}

#[test]
fn its_clock_goes_on_whatever_is_recorded() {
    // With the clock set anew by any of these calls the wait would never end.
    let mut breaker = CircuitBreaker::new(1, 20_000_000);
    breaker.record_failure();
    let mut rounds = 0u64;
    while !breaker.allow_request() && rounds < 1_000_000_000 {
        breaker.record_failure();
        breaker.record_success();
        rounds += 1;
    }
    assert_eq!(breaker.current_state(), "half-open");
}
