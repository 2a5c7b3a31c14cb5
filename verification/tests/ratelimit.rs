//! The limiter in front of the handshakes.

use ghostport::net::IpAddr;
use ghostport::ratelimit::{HandshakeLimiter, MAX_ATTEMPTS_PER_WINDOW, WINDOW};

const LOCALHOST: IpAddr = IpAddr::V4(0x7f00_0001);

#[test]
fn allows_up_to_the_per_ip_limit_then_rejects() {
    let mut limiter = HandshakeLimiter::new();
    let mut permits = Vec::new();
    for _ in 0..MAX_ATTEMPTS_PER_WINDOW {
        let permit = limiter.try_acquire(LOCALHOST, 5);
        assert!(permit.is_some(), "attempt within the limit should be allowed");
        permits.push(permit);
    }
    assert!(
        limiter.try_acquire(LOCALHOST, 5).is_none(),
        "the attempt beyond the per-IP limit should be rejected"
    );
}

#[test]
fn different_ips_have_independent_budgets() {
    let mut limiter = HandshakeLimiter::new();
    let ip_b = IpAddr::V4(0x0a00_0001);
    for _ in 0..MAX_ATTEMPTS_PER_WINDOW {
        assert!(limiter.try_acquire(LOCALHOST, 5).is_some());
    }
    assert!(limiter.try_acquire(LOCALHOST, 5).is_none(), "ip_a should now be exhausted");
    assert!(
        limiter.try_acquire(ip_b, 5).is_some(),
        "ip_b's budget is independent of ip_a's"
    );
}

#[test]
fn per_ip_budget_recovers_after_the_window_elapses() {
    let mut limiter = HandshakeLimiter::new();
    for _ in 0..MAX_ATTEMPTS_PER_WINDOW {
        let permit = limiter.try_acquire(LOCALHOST, 1_000_000).unwrap();
        limiter.release(permit);
    }
    assert!(limiter.try_acquire(LOCALHOST, 1_000_000 + WINDOW).is_none());
    assert!(
        limiter.try_acquire(LOCALHOST, 2_000_000 + WINDOW).is_some(),
        "attempts entirely outside the window should be pruned, freeing budget"
    );
}

#[test]
fn global_concurrency_cap_is_enforced_even_with_per_ip_budget_left() {
    let mut limiter = HandshakeLimiter::with_capacity(1);
    let ip_b = IpAddr::V4(0x0a00_0002);
    let first = limiter.try_acquire(LOCALHOST, 0);
    assert!(first.is_some());
    assert!(limiter.try_acquire(ip_b, 0).is_none());
    limiter.release(first.unwrap());
    assert!(
        limiter.try_acquire(ip_b, 0).is_some(),
        "releasing the held permit should free the global slot"
    );
}
