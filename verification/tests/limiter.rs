use hujingzhi::limiter::{HEALTH_INTERVAL, HOUSEKEEPING_INTERVAL, START_INTERVAL};
use hujingzhi::{rate_limit, RateLimiter};

#[test]
fn first_request_is_held_back() {
    let mut limiter = RateLimiter::new();
    assert!(!rate_limit(&mut limiter, "start:a".to_string(), 5, 0));
    assert_eq!(limiter.buckets, vec![("start:a".to_string(), 5)]);
}

#[test]
fn request_after_the_interval_passes_and_advances_the_time() {
    let mut limiter = RateLimiter::new();
    assert!(!rate_limit(&mut limiter, "k".to_string(), 100, 10));
    assert!(rate_limit(&mut limiter, "k".to_string(), 111, 10));
    assert_eq!(limiter.buckets, vec![("k".to_string(), 111)]);
    assert!(!rate_limit(&mut limiter, "k".to_string(), 120, 10));
    assert_eq!(limiter.buckets, vec![("k".to_string(), 111)]);
}

#[test]
fn request_at_exactly_the_interval_is_held_back() {
    let mut limiter = RateLimiter::new();
    assert!(!rate_limit(&mut limiter, "k".to_string(), 100, 10));
    assert!(!rate_limit(&mut limiter, "k".to_string(), 110, 10));
    assert_eq!(limiter.buckets, vec![("k".to_string(), 100)]);
}

#[test]
fn keys_have_separate_buckets() {
    let mut limiter = RateLimiter::new();
    assert!(!rate_limit(&mut limiter, "a".to_string(), 0, 10));
    assert!(!rate_limit(&mut limiter, "b".to_string(), 50, 10));
    assert!(rate_limit(&mut limiter, "a".to_string(), 51, 10));
    assert!(!rate_limit(&mut limiter, "b".to_string(), 51, 10));
    assert_eq!(limiter.buckets, vec![("a".to_string(), 51), ("b".to_string(), 50)]);
}

#[test]
fn clock_that_did_not_move_holds_back() {
    let mut limiter = RateLimiter::new();
    assert!(!rate_limit(&mut limiter, "a".to_string(), 7, 0));
    assert!(!rate_limit(&mut limiter, "a".to_string(), 7, 0));
    assert!(!rate_limit(&mut limiter, "a".to_string(), 3, 0));
    assert!(rate_limit(&mut limiter, "a".to_string(), 8, 0));
}

#[test]
fn intervals_are_in_nanoseconds() {
    assert_eq!(START_INTERVAL, 2_000_000_000);
    assert_eq!(HEALTH_INTERVAL, 60_000_000_000);
    assert_eq!(HOUSEKEEPING_INTERVAL, 3_000_000_000);
}
