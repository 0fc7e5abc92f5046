//! Tests of the sliding window rate limiter and its per-client middleware.
use fastmcp_server::mcp::McpErrorCode;
use fastmcp_server::rate_limiting::{
    rate_limit_error, token_bucket_denial, MiddlewareDecision, SlidingWindowRateLimiter,
    SlidingWindowRateLimitingMiddleware, RATE_LIMIT_ERROR_CODE,
};
use fastmcp_server::time::Instant;

fn at_secs(s: u128) -> Instant {
    Instant::from_nanos_since_epoch(1_700_000_000_000_000_000 + s * 1_000_000_000)
}

#[test]
fn test_sliding_window_allows_up_to_limit() {
    let mut limiter = SlidingWindowRateLimiter::new(3, 60);

    assert!(limiter.is_allowed());
    assert!(limiter.is_allowed());
    assert!(limiter.is_allowed());
    assert!(!limiter.is_allowed()); // Fourth request denied
}

#[test]
fn test_sliding_window_current_requests() {
    let mut limiter = SlidingWindowRateLimiter::new(10, 60);

    assert_eq!(limiter.current_requests(), 0);
    limiter.is_allowed();
    assert_eq!(limiter.current_requests(), 1);
    limiter.is_allowed();
    assert_eq!(limiter.current_requests(), 2);
}

#[test]
fn test_sliding_window_middleware_allows_up_to_limit() {
    let mut middleware = SlidingWindowRateLimitingMiddleware::new(2, 60);

    assert!(middleware.on_request(None).is_ok());
    assert!(middleware.on_request(None).is_ok());

    let result = middleware.on_request(None);
    assert!(result.is_err());
    let err = result.unwrap_err();
    assert_eq!(err.code, McpErrorCode::Custom(RATE_LIMIT_ERROR_CODE));
}

#[test]
fn test_sliding_window_middleware_per_minute() {
    let mut middleware = SlidingWindowRateLimitingMiddleware::per_minute(100, 1);

    // Should allow many requests
    for _ in 0..100 {
        assert!(middleware.on_request(None).is_ok());
    }

    // 101st should fail
    assert!(middleware.on_request(None).is_err());
}

#[test]
fn test_rate_limit_error_code() {
    let err = rate_limit_error("test".to_string());
    assert_eq!(err.code, McpErrorCode::Custom(RATE_LIMIT_ERROR_CODE));
    assert_eq!(err.message, "test");
}

#[test]
fn rate_limit_error_code_value() {
    assert_eq!(RATE_LIMIT_ERROR_CODE, -32005);
}

#[test]
fn rate_limit_error_from_string() {
    let err = rate_limit_error(String::from("custom message"));
    assert_eq!(err.message, "custom message");
    assert_eq!(err.code, McpErrorCode::Custom(RATE_LIMIT_ERROR_CODE));
}

#[test]
fn sliding_window_debug() {
    let limiter = SlidingWindowRateLimiter::new(100, 60);
    let debug = format!("{:?}", limiter);
    assert!(debug.contains("SlidingWindowRateLimiter"));
    assert!(debug.contains("100"));
}

#[test]
fn sliding_window_current_requests_starts_at_zero() {
    let mut limiter = SlidingWindowRateLimiter::new(10, 60);
    assert_eq!(limiter.current_requests(), 0);
}

#[test]
fn sliding_window_denied_request_not_counted() {
    let mut limiter = SlidingWindowRateLimiter::new(2, 60);
    assert!(limiter.is_allowed());
    assert!(limiter.is_allowed());
    assert!(!limiter.is_allowed()); // denied
    // Only 2 requests counted (not the denied one)
    assert_eq!(limiter.current_requests(), 2);
}

#[test]
fn sliding_window_middleware_new_fields() {
    let m = SlidingWindowRateLimitingMiddleware::new(50, 120);
    let debug = format!("{:?}", m);
    assert!(debug.contains("max_requests: 50"));
    assert!(debug.contains("window_seconds: 120"));
}

#[test]
fn sliding_window_middleware_per_minute_converts() {
    let m = SlidingWindowRateLimitingMiddleware::per_minute(100, 5);
    let debug = format!("{:?}", m);
    assert!(debug.contains("max_requests: 100"));
    assert!(debug.contains("window_seconds: 300")); // 5 * 60
}

#[test]
fn sliding_window_middleware_debug() {
    let m = SlidingWindowRateLimitingMiddleware::new(50, 120);
    let debug = format!("{:?}", m);
    assert!(debug.contains("SlidingWindowRateLimitingMiddleware"));
    assert!(debug.contains("50"));
    assert!(debug.contains("120"));
}

#[test]
fn sliding_window_middleware_no_extractor_uses_global() {
    let id = SlidingWindowRateLimitingMiddleware::get_client_identifier(None);
    assert_eq!(id, "global");
}

#[test]
fn sliding_window_middleware_extractor_returning_none_uses_global() {
    let id = SlidingWindowRateLimitingMiddleware::get_client_identifier(None);
    assert_eq!(id, "global");
}

#[test]
fn sliding_window_middleware_extractor_returning_some() {
    let id = SlidingWindowRateLimitingMiddleware::get_client_identifier(Some("bob".to_string()));
    assert_eq!(id, "bob");
}

#[test]
fn sliding_window_middleware_per_client() {
    let mut m = SlidingWindowRateLimitingMiddleware::new(1, 60);

    // Each client gets their own window
    assert!(m.on_request(Some("method_a".to_string())).is_ok());
    assert!(m.on_request(Some("method_b".to_string())).is_ok());

    // Both exhausted
    assert!(m.on_request(Some("method_a".to_string())).is_err());
    assert!(m.on_request(Some("method_b".to_string())).is_err());
}

#[test]
fn sliding_window_middleware_error_msg_seconds() {
    let mut m = SlidingWindowRateLimitingMiddleware::new(1, 30);

    m.on_request(None).unwrap();
    let err = m.on_request(None).unwrap_err();
    assert!(err.message.contains("30 second(s)"));
    assert!(err.message.contains("client: global"));
}

#[test]
fn sliding_window_middleware_error_msg_minutes() {
    let mut m = SlidingWindowRateLimitingMiddleware::new(1, 120);

    m.on_request(None).unwrap();
    let err = m.on_request(None).unwrap_err();
    assert!(err.message.contains("2 minute(s)"));
}

#[test]
fn sliding_window_middleware_error_msg_with_client_id() {
    let mut m = SlidingWindowRateLimitingMiddleware::new(1, 60);

    m.on_request(Some("alice".to_string())).unwrap();
    let err = m.on_request(Some("alice".to_string())).unwrap_err();
    assert!(err.message.contains("client: alice"));
    assert_eq!(err.code, McpErrorCode::Custom(RATE_LIMIT_ERROR_CODE));
}

#[test]
fn sliding_window_middleware_is_request_allowed_creates_new() {
    let mut m = SlidingWindowRateLimitingMiddleware::new(2, 60);
    let now = at_secs(0);
    assert!(m.is_request_allowed_at("c1", now));
    assert!(m.is_request_allowed_at("c1", now));
    assert!(!m.is_request_allowed_at("c1", now));

    // Different client gets its own limiter
    assert!(m.is_request_allowed_at("c2", now));
}

#[test]
fn sliding_window_error_exactly_60_seconds_shows_minutes() {
    let mut m = SlidingWindowRateLimitingMiddleware::new(1, 60);

    m.on_request(None).unwrap();
    let err = m.on_request(None).unwrap_err();
    assert!(
        err.message.contains("1 minute(s)"),
        "60 seconds should display as minutes: {}",
        err.message
    );
}

#[test]
fn sliding_window_requests_expire_after_window_at() {
    let mut limiter = SlidingWindowRateLimiter::new(2, 1); // 2 requests per 1 second
    assert!(limiter.is_allowed_at(at_secs(0)));
    assert!(limiter.is_allowed_at(at_secs(0)));
    assert!(!limiter.is_allowed_at(at_secs(0))); // exhausted
    // Still inside the window one second later: the window start is exactly
    // the time of the first requests.
    assert!(!limiter.is_allowed_at(at_secs(1)));
    // Two seconds later both have expired.
    assert!(limiter.is_allowed_at(at_secs(2)));
    assert_eq!(limiter.current_requests_at(at_secs(2)), 1);
}

#[test]
fn sliding_window_current_requests_resets_after_window_at() {
    let mut limiter = SlidingWindowRateLimiter::new(5, 1);
    limiter.is_allowed_at(at_secs(10));
    limiter.is_allowed_at(at_secs(10));
    assert_eq!(limiter.current_requests_at(at_secs(10)), 2);
    assert_eq!(limiter.current_requests_at(at_secs(12)), 0);
}

#[test]
fn counting_does_not_change_the_next_decision() {
    let mut a = SlidingWindowRateLimiter::new(2, 10);
    let mut b = SlidingWindowRateLimiter::new(2, 10);
    for t in [0u128, 3, 5] {
        a.is_allowed_at(at_secs(t));
        b.is_allowed_at(at_secs(t));
    }
    let now = at_secs(12);
    let _ = a.current_requests_at(now);
    assert_eq!(a.is_allowed_at(now), b.is_allowed_at(now));
    assert_eq!(a.current_requests_at(now), b.current_requests_at(now));
}

#[test]
fn on_request_at_continues_then_refuses_with_exact_message() {
    let mut m = SlidingWindowRateLimitingMiddleware::new(1, 90);
    let now = at_secs(0);
    assert_eq!(m.on_request_at(Some("zed".to_string()), now).unwrap(), MiddlewareDecision::Continue);
    let err = m.on_request_at(Some("zed".to_string()), now).unwrap_err();
    assert_eq!(err.message, "Rate limit exceeded: 1 requests per 1 minute(s) for client: zed");
}

#[test]
fn token_bucket_denial_messages() {
    let e = token_bucket_denial(true, "ignored");
    assert_eq!(e.message, "Global rate limit exceeded");
    let e = token_bucket_denial(false, "carol");
    assert_eq!(e.message, "Rate limit exceeded for client: carol");
    assert_eq!(e.code, McpErrorCode::Custom(RATE_LIMIT_ERROR_CODE));
}

#[test]
fn window_lets_through_exactly_max_within_one_window() {
    let mut limiter = SlidingWindowRateLimiter::new(3, 60);
    let decided: Vec<bool> = [0u128, 10, 20, 30, 40, 59].iter().map(|s| limiter.is_allowed_at(at_secs(*s))).collect();
    assert_eq!(decided, vec![true, true, true, false, false, false]);
    assert_eq!(limiter.current_requests_at(at_secs(59)), 3);
}
