use mini_claw::rate_limiter::RateLimiter;

#[test]
fn test_first_request_allowed() {
    let mut limiter = RateLimiter::new();
    let result = limiter.check_at(123, 5000, 0);
    assert!(result.allowed);
    assert!(result.retry_after_ms.is_none());
}

#[test]
fn test_second_request_within_cooldown_denied() {
    let mut limiter = RateLimiter::new();
    limiter.check_at(123, 5000, 0);
    let result = limiter.check_at(123, 5000, 0);
    assert!(!result.allowed);
    assert!(result.retry_after_ms.is_some());
}

#[test]
fn test_request_after_cooldown_allowed() {
    let mut limiter = RateLimiter::new();
    limiter.check_at(123, 5000, 0);
    let result = limiter.check_at(123, 5000, 5001);
    assert!(result.allowed);
}

#[test]
fn test_different_chats_independent() {
    let mut limiter = RateLimiter::new();
    limiter.check_at(123, 5000, 0);
    let result = limiter.check_at(456, 5000, 0);
    assert!(result.allowed);
}

#[test]
fn test_retry_after_decreases() {
    let mut limiter = RateLimiter::new();
    limiter.check_at(123, 5000, 0);
    let result = limiter.check_at(123, 5000, 2000);
    assert!(!result.allowed);
    let retry = result.retry_after_ms.unwrap();
    assert!(retry <= 3000);
    assert!(retry > 2000);
}

#[test]
fn cooldown_scenario_for_one_tenant() {
    let mut limiter = RateLimiter::new();
    assert!(limiter.check_at(42, 5000, 0).allowed);
    let denied = limiter.check_at(42, 5000, 2000);
    assert!(!denied.allowed);
    assert_eq!(denied.retry_after_ms, Some(3000));
    assert!(limiter.check_at(42, 5000, 5001).allowed);
    let again = limiter.check_at(42, 5000, 5002);
    assert_eq!(again.retry_after_ms, Some(4999));
}

#[test]
fn live_clock_first_check_allowed_then_denied() {
    let mut limiter = RateLimiter::new();
    assert!(limiter.check(7, 60_000).allowed);
    let second = limiter.check(7, 60_000);
    assert!(!second.allowed);
    let w = second.retry_after_ms.unwrap();
    assert!(w > 0 && w <= 60_000);
}
