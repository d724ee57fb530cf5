use erlangrt::agent_rt::observability::RuntimeMetrics;
use erlangrt::agent_rt::rate_limiter::RateLimiter;
use std::sync::{Arc, Mutex};

const SECOND: u128 = 1_000_000_000;
const MILLI: u128 = 1_000_000;

#[test]
fn test_rate_limiter_allows_within_limit() {
    let mut rl = RateLimiter::new();
    rl.set_limit("openai", 3, SECOND);

    assert!(rl.try_acquire("openai", 0).is_ok());
    assert!(rl.try_acquire("openai", 0).is_ok());
    assert!(rl.try_acquire("openai", 0).is_ok());
}

#[test]
fn test_rate_limiter_rejects_over_limit() {
    let mut rl = RateLimiter::new();
    rl.set_limit("openai", 2, SECOND);

    assert!(rl.try_acquire("openai", 10).is_ok());
    assert!(rl.try_acquire("openai", 20).is_ok());
    let result = rl.try_acquire("openai", 30);
    assert!(result.is_err(), "Third request should be rejected");
    let wait = result.unwrap_err();
    assert!(wait > 0, "Wait duration should be positive");
    assert!(wait <= SECOND);
    assert_eq!(wait, SECOND - 20);
}

#[test]
fn test_rate_limiter_window_expires() {
    let mut rl = RateLimiter::new();
    rl.set_limit("anthropic", 1, 50 * MILLI);

    assert!(rl.try_acquire("anthropic", 0).is_ok());
    assert!(rl.try_acquire("anthropic", 0).is_err());

    assert!(
        rl.try_acquire("anthropic", 60 * MILLI).is_ok(),
        "Should allow after window expires"
    );
}

#[test]
fn test_rate_limiter_independent_providers() {
    let mut rl = RateLimiter::new();
    rl.set_limit("openai", 1, 10 * SECOND);
    rl.set_limit("anthropic", 1, 10 * SECOND);

    assert!(rl.try_acquire("openai", 0).is_ok());
    assert!(rl.try_acquire("openai", 0).is_err());

    assert!(
        rl.try_acquire("anthropic", 0).is_ok(),
        "Different provider should have its own quota"
    );
}

#[test]
fn test_rate_limiter_unknown_provider_no_default() {
    let mut rl = RateLimiter::new();
    assert!(
        rl.try_acquire("unknown", 0).is_ok(),
        "Unknown provider with no default should be allowed"
    );
}

#[test]
fn test_rate_limiter_default_limit_applied() {
    let mut rl = RateLimiter::new();
    rl.set_default_limit(1, 10 * SECOND);

    assert!(rl.try_acquire("any_provider", 0).is_ok());
    assert!(
        rl.try_acquire("any_provider", 0).is_err(),
        "Default limit should apply to unknown providers"
    );
}

#[test]
fn test_rate_limiter_explicit_overrides_default() {
    let mut rl = RateLimiter::new();
    rl.set_default_limit(1, 10 * SECOND);
    rl.set_limit("openai", 3, 10 * SECOND);

    assert!(rl.try_acquire("openai", 0).is_ok());
    assert!(rl.try_acquire("openai", 0).is_ok());
    assert!(rl.try_acquire("openai", 0).is_ok());
    assert!(
        rl.try_acquire("openai", 0).is_err(),
        "Should use explicit limit of 3, not default of 1"
    );
}

#[test]
fn test_rate_limiter_clone_shares_state() {
    let rl = Arc::new(Mutex::new(RateLimiter::new()));
    rl.lock().unwrap().set_limit("openai", 2, 10 * SECOND);

    let rl2 = rl.clone();
    assert!(rl.lock().unwrap().try_acquire("openai", 0).is_ok());
    assert!(rl2.lock().unwrap().try_acquire("openai", 0).is_ok());
    assert!(
        rl.lock().unwrap().try_acquire("openai", 0).is_err(),
        "Cloned limiter should share state"
    );
}

#[test]
fn rejections_are_counted() {
    let mut rl = RateLimiter::new();
    rl.set_metrics(RuntimeMetrics::new(0));
    rl.set_limit("p", 1, SECOND);
    assert!(rl.try_acquire("p", 0).is_ok());
    assert_eq!(rl.try_acquire("p", 1), Err(SECOND - 1));
    rl.note_wait(5 * MILLI);
    assert_eq!(rl.try_acquire("p", SECOND), Ok(()));
}

#[test]
fn a_new_default_reaches_providers_that_were_seen() {
    let mut rl = RateLimiter::new();
    rl.set_default_limit(1, 10 * SECOND);
    assert_eq!(rl.try_acquire("p", 0), Ok(()));
    assert_eq!(rl.try_acquire("p", 1), Err(10 * SECOND - 1));
    rl.set_default_limit(3, 10 * SECOND);
    assert_eq!(rl.try_acquire("p", 2), Ok(()));
    assert_eq!(rl.try_acquire("p", 3), Ok(()));
    assert!(rl.try_acquire("p", 4).is_err());
    rl.set_limit("own", 1, SECOND);
    rl.set_default_limit(9, SECOND);
    assert!(rl.try_acquire("own", 5).is_ok());
    assert!(rl.try_acquire("own", 6).is_err());
}

#[test]
fn a_limit_of_none_refuses_every_request() {
    let mut rl = RateLimiter::new();
    rl.set_limit("p", 0, SECOND);
    assert_eq!(rl.try_acquire("p", 0), Err(SECOND));
    assert_eq!(rl.try_acquire("p", 5 * SECOND), Err(SECOND));
}

#[test]
fn no_span_shorter_than_the_window_holds_more_than_the_limit() {
    let mut rl = RateLimiter::new();
    rl.set_limit("p", 3, 10);
    rl.set_limit("q", 1, 10);
    let mut granted: Vec<u128> = Vec::new();
    for now in 0..60u128 {
        let _ = rl.try_acquire("q", now);
        let recent = granted.iter().filter(|t| now - **t < 10).count();
        let r = rl.try_acquire("p", now);
        assert_eq!(r.is_ok(), recent < 3);
        if r.is_ok() {
            granted.push(now);
        }
    }
    for i in 3..granted.len() {
        assert!(granted[i] - granted[i - 3] >= 10);
    }
}

#[test]
fn after_the_wait_the_request_is_let_through() {
    let mut rl = RateLimiter::new();
    rl.set_limit("p", 2, 100);
    assert_eq!(rl.try_acquire("p", 0), Ok(()));
    assert_eq!(rl.try_acquire("p", 30), Ok(()));
    let wait = rl.try_acquire("p", 50).unwrap_err();
    assert_eq!(wait, 50);
    assert_eq!(rl.try_acquire("p", 49 + wait), Err(1));
    assert_eq!(rl.try_acquire("p", 50 + wait), Ok(()));
    assert!(rl.try_acquire("p", 129).is_err());
    assert_eq!(rl.try_acquire("p", 500), Ok(()));
}
