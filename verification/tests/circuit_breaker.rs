use smoothie::circuit_breaker::{BreakerState, FaultCircuitBreaker};

const SECOND: u128 = 1_000_000_000;

#[test]
fn starts_closed() {
    let mut cb = FaultCircuitBreaker::new(3, 10);
    assert_eq!(cb.check(), BreakerState::Closed);
}

#[test]
fn opens_after_threshold_failures() {
    let mut cb = FaultCircuitBreaker::new(3, 10);
    cb.record_failure();
    assert_eq!(cb.check(), BreakerState::Closed);
    cb.record_failure();
    assert_eq!(cb.check(), BreakerState::Closed);
    cb.record_failure();
    assert_eq!(cb.check(), BreakerState::Open);
}

#[test]
fn success_resets_to_closed() {
    let mut cb = FaultCircuitBreaker::new(3, 10);
    cb.record_failure();
    cb.record_failure();
    cb.record_failure();
    assert_eq!(cb.check(), BreakerState::Open);

    cb.record_success();
    assert_eq!(cb.check(), BreakerState::Closed);
}

#[test]
fn success_resets_failure_count() {
    let mut cb = FaultCircuitBreaker::new(3, 10);
    cb.record_failure();
    cb.record_failure();
    cb.record_success(); // reset
    cb.record_failure();
    cb.record_failure();
    // Only 2 failures since reset: should still be closed.
    assert_eq!(cb.check(), BreakerState::Closed);
}

#[test]
fn stays_open_before_recovery_window() {
    let mut cb = FaultCircuitBreaker::new(1, 60); // 60-second window
    cb.record_failure();
    // Should stay open since recovery window hasn't elapsed.
    assert_eq!(cb.check(), BreakerState::Open);
}

#[test]
fn transitions_to_half_open() {
    // A recovery window that will have elapsed by the time we check.
    let mut cb = FaultCircuitBreaker::new(1, 0);
    cb.record_failure();
    // With 0-second window, check() transitions immediately to HalfOpen.
    assert_eq!(cb.check(), BreakerState::HalfOpen);
}

#[test]
fn half_open_success_closes() {
    let mut cb = FaultCircuitBreaker::new(1, 0);
    cb.record_failure();
    assert_eq!(cb.check(), BreakerState::HalfOpen);

    cb.record_success();
    assert_eq!(cb.check(), BreakerState::Closed);
}

#[test]
fn half_open_failure_reopens() {
    let mut cb = FaultCircuitBreaker::new(1, 0);
    cb.record_failure();
    assert_eq!(cb.check(), BreakerState::HalfOpen);

    // Record failure transitions back to Open with a fresh opening time.
    cb.record_failure();
    let state = cb.check();
    assert!(
        state == BreakerState::Open || state == BreakerState::HalfOpen,
        "should not be Closed after failure in HalfOpen"
    );
}

#[test]
fn the_window_is_measured_from_the_last_failure() {
    let mut cb = FaultCircuitBreaker::new(2, 30);
    cb.record_failure_at(SECOND);
    cb.record_failure_at(5 * SECOND);
    assert_eq!(cb.check_at(35 * SECOND - 1), BreakerState::Open);
    assert_eq!(cb.check_at(35 * SECOND), BreakerState::HalfOpen);
    // Half-open stays half-open until an outcome is recorded.
    assert_eq!(cb.check_at(35 * SECOND), BreakerState::HalfOpen);

    cb.record_failure_at(40 * SECOND);
    assert_eq!(cb.check_at(70 * SECOND - 1), BreakerState::Open);
    assert_eq!(cb.check_at(70 * SECOND), BreakerState::HalfOpen);
    assert_eq!(cb.consecutive_failures(), 3);
}

#[test]
fn a_reading_before_the_opening_counts_as_no_time() {
    let mut cb = FaultCircuitBreaker::new(1, 1);
    cb.record_failure_at(10 * SECOND);
    assert_eq!(cb.check_at(2 * SECOND), BreakerState::Open);
}

#[test]
fn a_threshold_of_none_opens_at_the_first_failure() {
    let mut cb = FaultCircuitBreaker::new(0, 60);
    assert_eq!(cb.check(), BreakerState::Closed);
    cb.record_failure();
    assert_eq!(cb.check(), BreakerState::Open);
}

#[test]
fn the_longest_window_does_not_overflow() {
    let mut cb = FaultCircuitBreaker::new(1, u64::MAX);
    cb.record_failure_at(0);
    assert_eq!(cb.check_at(u64::MAX as u128 * SECOND - 1), BreakerState::Open);
    assert_eq!(cb.check_at(u64::MAX as u128 * SECOND), BreakerState::HalfOpen);
}

#[test]
fn a_half_open_breaker_allows_one_request() {
    let mut cb = FaultCircuitBreaker::new(1, 10);
    assert!(cb.allows_request());
    cb.record_sent();
    assert!(cb.allows_request());
    cb.record_failure_at(0);
    assert!(!cb.allows_request());
    assert_eq!(cb.check_at(10_000_000_000), BreakerState::HalfOpen);
    assert!(cb.allows_request());
    cb.record_sent();
    assert!(!cb.allows_request());
    assert_eq!(cb.check_at(60_000_000_000), BreakerState::HalfOpen);
    assert!(!cb.allows_request());
    cb.record_failure_at(60_000_000_000);
    assert_eq!(cb.check_at(70_000_000_000), BreakerState::HalfOpen);
    assert!(cb.allows_request());
    cb.record_sent();
    cb.record_success();
    assert_eq!(cb.check_at(70_000_000_000), BreakerState::Closed);
    assert!(cb.allows_request());
}
