use slatron::rate_limit::{LoginAttempts, RateLimitError};

const MINUTE: u64 = 60_000_000_000;

#[test]
fn test_rate_limit_basic() {
    let mut attempts = LoginAttempts::new();
    let username = "testuser";
    let now = 1_000 * MINUTE;

    // 5 allowed attempts
    for _ in 0..5 {
        assert!(attempts.check_rate_limit(username, now).is_ok());
    }

    // 6th attempt fails
    assert_eq!(attempts.check_rate_limit(username, now), Err(RateLimitError::TooManyRequests));
}

#[test]
fn test_rate_limit_cleanup() {
    let mut attempts = LoginAttempts::new();
    let now = 1_000 * MINUTE;
    let old_time = now - 20 * MINUTE; // 20 mins ago

    for i in 0..1005 {
        attempts.insert(&format!("user{}", i), 1, old_time);
    }

    assert_eq!(attempts.len(), 1005);

    // A request for a new user succeeds and triggers the cleanup.
    assert!(attempts.check_rate_limit("newuser", now).is_ok());

    // All 1005 old entries are gone, only "newuser" remains.
    assert_eq!(attempts.len(), 1);
    assert!(attempts.contains_key("newuser"));
}

#[test]
fn rate_limit_window_expires() {
    let mut attempts = LoginAttempts::new();
    let t0 = 1_000 * MINUTE;
    for _ in 0..5 {
        assert!(attempts.check_rate_limit("a", t0).is_ok());
    }
    assert!(attempts.check_rate_limit("a", t0 + 15 * MINUTE).is_err());
    // More than fifteen minutes later the window starts over.
    assert!(attempts.check_rate_limit("a", t0 + 15 * MINUTE + 1).is_ok());
    assert_eq!(attempts.get("a"), Some((1, t0 + 15 * MINUTE + 1)));
    // Other users are independent.
    assert!(attempts.check_rate_limit("b", t0).is_ok());
}

#[test]
fn rate_limit_reset_after_success() {
    let mut attempts = LoginAttempts::new();
    let t0 = 1_000 * MINUTE;
    for _ in 0..5 {
        attempts.check_rate_limit("a", t0).unwrap();
    }
    attempts.reset("a", t0 + 1);
    assert_eq!(attempts.get("a"), Some((0, t0 + 1)));
    assert!(attempts.check_rate_limit("a", t0 + 2).is_ok());
}
