use otamoryx::rate_limiter::{LoginRateLimiter, MAX_ATTEMPTS, WINDOW_MS};

#[test]
fn five_failures_lock_a_key_for_the_rest_of_the_window() {
    let mut limiter = LoginRateLimiter::new();
    for i in 0..MAX_ATTEMPTS {
        assert_eq!(limiter.check_rate_limit_at("alice", 1_000 + u64::from(i)), Ok(()));
        limiter.record_failure_at("alice", 1_000 + u64::from(i));
    }
    assert_eq!(limiter.check_rate_limit_at("alice", 1_000), Err(WINDOW_MS));
    assert_eq!(limiter.check_rate_limit_at("alice", 61_000), Err(WINDOW_MS - 60_000));
    // Other keys are not affected.
    assert_eq!(limiter.check_rate_limit_at("bob", 1_000), Ok(()));
    // The window opened by the first failure closes.
    assert_eq!(limiter.check_rate_limit_at("alice", 1_000 + WINDOW_MS), Ok(()));
}

#[test]
fn a_reset_forgets_the_failures() {
    let mut limiter = LoginRateLimiter::new();
    for _ in 0..MAX_ATTEMPTS {
        limiter.record_failure_at("alice", 10);
    }
    assert!(limiter.check_rate_limit_at("alice", 10).is_err());
    limiter.reset("alice");
    assert_eq!(limiter.check_rate_limit_at("alice", 10), Ok(()));
}

#[test]
fn a_failure_after_the_window_starts_a_new_one() {
    let mut limiter = LoginRateLimiter::new();
    for _ in 0..(MAX_ATTEMPTS - 1) {
        limiter.record_failure_at("alice", 0);
    }
    limiter.record_failure_at("alice", WINDOW_MS);
    assert_eq!(limiter.check_rate_limit_at("alice", WINDOW_MS), Ok(()));
}

#[test]
fn purging_drops_only_closed_windows() {
    let mut limiter = LoginRateLimiter::new();
    for _ in 0..MAX_ATTEMPTS {
        limiter.record_failure_at("old", 0);
        limiter.record_failure_at("new", 200_000);
    }
    limiter.purge_expired_at(WINDOW_MS + 1);
    assert_eq!(limiter.check_rate_limit_at("old", WINDOW_MS + 1), Ok(()));
    assert!(limiter.check_rate_limit_at("new", WINDOW_MS + 1).is_err());
}

#[test]
fn the_wall_clock_variants_record_and_answer() {
    let mut limiter = LoginRateLimiter::new();
    assert_eq!(limiter.check_rate_limit("carol"), Ok(()));
    for _ in 0..MAX_ATTEMPTS {
        limiter.record_failure("carol");
    }
    match limiter.check_rate_limit("carol") {
        Err(wait) => assert!(wait > 0 && wait <= WINDOW_MS),
        Ok(()) => panic!("carol should be locked out"),
    }
    limiter.purge_expired();
    assert!(limiter.check_rate_limit("carol").is_err());
}
