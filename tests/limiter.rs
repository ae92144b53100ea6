use m_tunnel::ConnectionLimiter;

#[test]
fn tests_test_connection_limiter() {
    // a window of ten seconds
    let mut limiter = ConnectionLimiter::new(2, 10_000);

    // First two attempts should succeed
    assert!(limiter.can_attempt("test.com"));
    assert!(limiter.can_attempt("test.com"));

    // Third attempt should fail
    assert!(!limiter.can_attempt("test.com"));

    // Different host should work
    assert!(limiter.can_attempt("other.com"));
}

#[test]
fn tests_ssh2_test_connection_limiter() {
    // a window of ten seconds
    let mut limiter = ConnectionLimiter::new(2, 10_000);

    // First two attempts should succeed
    assert!(limiter.can_attempt("test.com"));
    assert!(limiter.can_attempt("test.com"));

    // Third attempt should fail
    assert!(!limiter.can_attempt("test.com"));

    // Different host should work
    assert!(limiter.can_attempt("other.com"));
}

#[test]
fn limiter_scenario_two_per_ten_seconds() {
    let mut limiter = ConnectionLimiter::new(2, 10);
    assert!(limiter.can_attempt_at("h", 0));
    assert!(limiter.can_attempt_at("h", 1));
    assert!(!limiter.can_attempt_at("h", 2));
    assert!(limiter.can_attempt_at("h", 11));
}

#[test]
fn limiter_caps_each_window_at_max_attempts() {
    let mut limiter = ConnectionLimiter::new(3, 100);
    assert!(limiter.can_attempt_at("k", 50));
    assert!(limiter.can_attempt_at("k", 60));
    assert!(limiter.can_attempt_at("k", 149));
    assert!(!limiter.can_attempt_at("k", 149));
    assert!(!limiter.can_attempt_at("k", 149));
    // exactly one window after the first attempt
    assert!(limiter.can_attempt_at("k", 150));
    assert!(limiter.can_attempt_at("k", 151));
    assert!(limiter.can_attempt_at("k", 152));
    assert!(!limiter.can_attempt_at("k", 153));
}

#[test]
fn limiter_keys_are_independent() {
    let mut limiter = ConnectionLimiter::new(1, 1000);
    assert!(limiter.can_attempt_at("a", 0));
    assert!(!limiter.can_attempt_at("a", 1));
    assert!(!limiter.can_attempt_at("a", 2));
    assert!(limiter.can_attempt_at("b", 3));
    assert!(!limiter.can_attempt_at("b", 4));
    assert!(limiter.can_attempt_at("c", 5));
}

#[test]
fn limiter_refusals_are_not_counted() {
    let mut limiter = ConnectionLimiter::new(1, 10);
    assert!(limiter.can_attempt_at("h", 0));
    for t in 1..10 {
        assert!(!limiter.can_attempt_at("h", t));
    }
    // the window still started at 0, so it closed at 10
    assert!(limiter.can_attempt_at("h", 10));
}

#[test]
fn limiter_reading_before_window_start_counts_as_inside() {
    let mut limiter = ConnectionLimiter::new(1, 10);
    assert!(limiter.can_attempt_at("h", 100));
    assert!(!limiter.can_attempt_at("h", 50));
}

#[test]
fn limiter_with_zero_attempts_allows_the_first_only() {
    let mut limiter = ConnectionLimiter::new(0, 10);
    assert!(limiter.can_attempt_at("h", 0));
    assert!(!limiter.can_attempt_at("h", 1));
}
