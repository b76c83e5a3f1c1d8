use mailgate::rate_limit::{client_addr_v4, ClientAddr, RateLimiter, REQUEST_LIMIT, WINDOW_MILLIS};

#[test]
fn v4_builder_packs_octets() {
    assert_eq!(client_addr_v4(10, 0, 0, 1), ClientAddr::V4(0x0A00_0001));
    assert_eq!(client_addr_v4(255, 255, 255, 255), ClientAddr::V4(u32::MAX));
    assert_ne!(client_addr_v4(10, 0, 0, 1), client_addr_v4(10, 0, 0, 2));
}

#[test]
fn new_limiter_has_no_records() {
    let limiter = RateLimiter::new();
    assert_eq!(limiter.recorded_count(client_addr_v4(10, 0, 0, 1)), 0);
    assert_eq!(limiter.recorded_count(ClientAddr::V6(1)), 0);
}

#[test]
fn default_matches_new() {
    let limiter: RateLimiter = Default::default();
    assert_eq!(limiter.recorded_count(client_addr_v4(127, 0, 0, 1)), 0);
}

#[test]
fn burst_within_one_second_hits_limit() {
    // 120 rapid requests from 10.0.0.1 within one second are all accepted;
    // the 121st within the same second is rejected; a request 11 seconds
    // later is accepted again.
    let mut limiter = RateLimiter::new();
    let addr = client_addr_v4(10, 0, 0, 1);
    let t0: u64 = 1_000_000;
    for i in 0..REQUEST_LIMIT as u64 {
        let r = limiter.check_if_rate_limited(addr, t0 + i * 8);
        assert!(r.is_ok(), "request {} should be accepted", i + 1);
    }
    let over = limiter.check_if_rate_limited(addr, t0 + 960);
    assert!(over.is_err());
    let later = limiter.check_if_rate_limited(addr, t0 + 960 + 11_000);
    assert!(later.is_ok());
}

#[test]
fn rejection_message_matches() {
    let mut limiter = RateLimiter::new();
    let addr = client_addr_v4(10, 0, 0, 1);
    let t0: u64 = 500_000;
    for _ in 0..REQUEST_LIMIT {
        assert!(limiter.check_if_rate_limited(addr, t0).is_ok());
    }
    let over = limiter.check_if_rate_limited(addr, t0);
    assert_eq!(over.unwrap_err(), "IP is rate limited :(");
}

#[test]
fn rejected_requests_occupy_slots() {
    // 200 extra requests beyond the limit are still recorded; pausing past
    // the window clears all 320 of them, not just the accepted 120.
    let mut limiter = RateLimiter::new();
    let addr = client_addr_v4(10, 0, 0, 1);
    let t0: u64 = 2_000_000;
    for i in 0..(REQUEST_LIMIT + 200) as u64 {
        let r = limiter.check_if_rate_limited(addr, t0 + i);
        if i < REQUEST_LIMIT as u64 {
            assert!(r.is_ok());
        } else {
            assert!(r.is_err());
        }
    }
    assert_eq!(limiter.recorded_count(addr), REQUEST_LIMIT + 200);
    let later = limiter.check_if_rate_limited(addr, t0 + 320 + WINDOW_MILLIS);
    assert!(later.is_ok());
    assert_eq!(limiter.recorded_count(addr), 1);
}

#[test]
fn serialized_calls_keep_every_record() {
    // With calls serialized, n requests within one window leave a history
    // of exactly n records: none is lost, none is duplicated.
    let mut limiter = RateLimiter::new();
    let addr = ClientAddr::V6(0xfe80_0000_0000_0001);
    let t0: u64 = 3_000_000;
    let n: u64 = 150;
    for i in 0..n {
        let _ = limiter.check_if_rate_limited(addr, t0 + i * 2);
    }
    assert_eq!(limiter.recorded_count(addr), n as usize);
}

#[test]
fn addresses_are_counted_independently() {
    let mut limiter = RateLimiter::new();
    let a = client_addr_v4(10, 0, 0, 1);
    let b = client_addr_v4(10, 0, 0, 2);
    let t0: u64 = 4_000_000;
    for i in 0..REQUEST_LIMIT as u64 {
        assert!(limiter.check_if_rate_limited(a, t0 + i).is_ok());
    }
    assert!(limiter.check_if_rate_limited(a, t0 + 500).is_err());
    // The other address is untouched by a's saturation.
    assert!(limiter.check_if_rate_limited(b, t0 + 500).is_ok());
    assert_eq!(limiter.recorded_count(b), 1);
    assert_eq!(limiter.recorded_count(a), REQUEST_LIMIT + 1);
}

#[test]
fn old_requests_never_count_against_later_window() {
    // Saturate the window at t1; anything more than a window later is
    // evaluated against a history pruned of all of it.
    let mut limiter = RateLimiter::new();
    let addr = client_addr_v4(192, 168, 1, 9);
    let t1: u64 = 5_000_000;
    for i in 0..(REQUEST_LIMIT + 10) as u64 {
        let _ = limiter.check_if_rate_limited(addr, t1 + i);
    }
    let t2 = t1 + 130 + WINDOW_MILLIS;
    let r = limiter.check_if_rate_limited(addr, t2);
    assert!(r.is_ok());
    assert_eq!(limiter.recorded_count(addr), 1);
}

#[test]
fn window_boundary_is_strict() {
    // A timestamp exactly one window old is pruned; one millisecond
    // younger is kept.
    let mut limiter = RateLimiter::new();
    let addr = client_addr_v4(172, 16, 0, 1);
    let t0: u64 = 6_000_000;
    let _ = limiter.check_if_rate_limited(addr, t0);
    let _ = limiter.check_if_rate_limited(addr, t0 + WINDOW_MILLIS);
    assert_eq!(limiter.recorded_count(addr), 1);

    let mut limiter2 = RateLimiter::new();
    let _ = limiter2.check_if_rate_limited(addr, t0);
    let _ = limiter2.check_if_rate_limited(addr, t0 + WINDOW_MILLIS - 1);
    assert_eq!(limiter2.recorded_count(addr), 2);
}

#[test]
fn threshold_request_accepted_next_rejected() {
    // The limit-th request within a window is accepted, the one after it
    // is rejected.
    let mut limiter = RateLimiter::new();
    let addr = client_addr_v4(10, 1, 2, 3);
    let t0: u64 = 7_000_000;
    for i in 0..(REQUEST_LIMIT - 1) as u64 {
        assert!(limiter.check_if_rate_limited(addr, t0 + i).is_ok());
    }
    assert!(limiter.check_if_rate_limited(addr, t0 + 200).is_ok());
    assert!(limiter.check_if_rate_limited(addr, t0 + 201).is_err());
}
