use tpk_whisper::ratelimit::{RateLimiter, API_REQUESTS_PER_WINDOW, API_WINDOW_NANOS};

#[test]
fn allows_up_to_max_within_window() {
    let mut l = RateLimiter::new(2, 10);
    assert!(l.try_acquire_at(0));
    assert!(l.try_acquire_at(1));
    assert!(!l.try_acquire_at(2));
    assert!(!l.try_acquire_at(10));
}

#[test]
fn expired_requests_free_the_window() {
    let mut l = RateLimiter::new(2, 10);
    assert!(l.try_acquire_at(0));
    assert!(l.try_acquire_at(1));
    assert!(!l.try_acquire_at(2));
    // 0 and 1 are more than 10 ns old at 12
    assert!(l.try_acquire_at(12));
    assert!(l.try_acquire_at(13));
    assert!(!l.try_acquire_at(14));
}

#[test]
fn request_exactly_window_old_still_counts() {
    let mut l = RateLimiter::new(1, 10);
    assert!(l.try_acquire_at(5));
    assert!(!l.try_acquire_at(15));
    assert!(l.try_acquire_at(16));
}

#[test]
fn zero_limit_never_allows() {
    let mut l = RateLimiter::new(0, 10);
    assert!(!l.try_acquire_at(0));
    assert!(!l.try_acquire_at(1_000));
}

#[test]
fn denied_requests_are_not_recorded() {
    let mut l = RateLimiter::new(1, 10);
    assert!(l.try_acquire_at(0));
    assert!(!l.try_acquire_at(9));
    // only the request at 0 counts, so 11 is free although 9 was within 10 of it
    assert!(l.try_acquire_at(11));
}

#[test]
fn api_limit_on_the_real_clock() {
    let mut l = RateLimiter::new(API_REQUESTS_PER_WINDOW, API_WINDOW_NANOS);
    for _ in 0..100 {
        assert!(l.try_acquire());
    }
    assert!(!l.try_acquire());
    assert_eq!(API_REQUESTS_PER_WINDOW, 100);
    assert_eq!(API_WINDOW_NANOS, 60 * 1_000_000_000);
}

#[test]
fn no_window_holds_more_than_max() {
    // sliding-window law on a concrete run: times in order, max 3, window 100
    let times: Vec<u128> = vec![0, 10, 20, 30, 40, 105, 111, 119, 121, 200, 201, 202, 203, 330];
    let mut l = RateLimiter::new(3, 100);
    let mut granted: Vec<u128> = Vec::new();
    for &t in &times {
        let before = granted.iter().filter(|&&g| t <= g + 100).count();
        let ok = l.try_acquire_at(t);
        assert_eq!(ok, before < 3, "at {}", t);
        if ok {
            granted.push(t);
        }
        let now_in_window = granted.iter().filter(|&&g| t <= g + 100).count();
        assert!(now_in_window <= 3);
    }
    assert_eq!(granted, vec![0, 10, 20, 105, 111, 121, 330]);
}
