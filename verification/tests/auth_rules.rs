use tsunoru::auth::{
    hash_session_token, issue_session_token, request_origin_is_allowed, uri_origin,
    LoginRateLimiter, PresentedSession, SessionCookiePolicy,
};

fn loopback(host: &str) -> bool {
    host == "127.0.0.1" || host == "localhost" || host == "::1"
}

const TOKEN: &str = "00112233445566778899aabbccddeeff00112233445566778899aabbccddeeff";

#[test]
fn issued_tokens_are_64_lowercase_hex_and_fresh() {
    let a = issue_session_token();
    let b = issue_session_token();
    assert_eq!(a.len(), 64);
    assert!(a.bytes().all(|c| c.is_ascii_digit() || (b'a'..=b'f').contains(&c)));
    assert_ne!(a, b);
    assert!(hash_session_token(&a).is_some());
}

#[test]
fn session_tokens_hash_with_sha256() {
    let digest = hash_session_token(TOKEN).unwrap();
    let expected: [u8; 32] = <sha2::Sha256 as sha2::Digest>::digest(TOKEN.as_bytes()).into();
    assert_eq!(digest, expected);
    assert_eq!(hash_session_token("ABC"), None);
    assert_eq!(hash_session_token(&TOKEN.to_uppercase()), None);
}

#[test]
fn https_origins_use_a_host_prefixed_secure_cookie() {
    let policy = SessionCookiePolicy::for_origin("https://tsunoru.example", loopback).unwrap();
    assert_eq!(policy.origin(), "https://tsunoru.example");
    assert_eq!(policy.name(), "__Host-tsunoru-session");
    assert_eq!(
        policy.set_cookie_header(TOKEN),
        format!("__Host-tsunoru-session={TOKEN}; Path=/; HttpOnly; SameSite=Lax; Max-Age=2592000; Secure")
    );
}

#[test]
fn loopback_cookies_are_named_per_port() {
    let a = SessionCookiePolicy::for_origin("http://127.0.0.1:8081", loopback).unwrap();
    let b = SessionCookiePolicy::for_origin("http://127.0.0.1:8082", loopback).unwrap();
    assert_eq!(a.name(), "tsunoru-session-local-8081");
    assert_eq!(b.name(), "tsunoru-session-local-8082");
    assert_eq!(
        a.set_cookie_header(TOKEN),
        format!("tsunoru-session-local-8081={TOKEN}; Path=/; HttpOnly; SameSite=Lax; Max-Age=2592000")
    );
    let default_port = SessionCookiePolicy::for_origin("http://localhost", loopback).unwrap();
    assert_eq!(default_port.name(), "tsunoru-session-local-80");
}

#[test]
fn insecure_public_origins_and_paths_are_refused() {
    assert!(SessionCookiePolicy::for_origin("http://tsunoru.example", loopback).is_err());
    assert!(SessionCookiePolicy::for_origin("https://tsunoru.example/app", loopback).is_err());
    assert!(SessionCookiePolicy::for_origin("not a uri", loopback).is_err());
}

#[test]
fn presented_cookies_are_sorted() {
    let policy = SessionCookiePolicy::for_origin("https://tsunoru.example", loopback).unwrap();
    assert!(policy.presented_session_from_cookie_header(None) == PresentedSession::Absent);
    assert!(policy.presented_session_from_cookie_header(Some("other=1")) == PresentedSession::Absent);
    assert!(
        policy.presented_session_from_cookie_header(Some("__Host-tsunoru-session=short"))
            == PresentedSession::Invalid
    );
    let header = format!("a=b; __Host-tsunoru-session={TOKEN}");
    let presented = policy.presented_session_from_cookie_header(Some(&header));
    assert!(presented == PresentedSession::Digest(hash_session_token(TOKEN).unwrap()));
}

#[test]
fn referer_origin_is_scheme_and_authority() {
    assert_eq!(uri_origin("https://tsunoru.example/events/1?x=2"), Some("https://tsunoru.example".to_string()));
    assert_eq!(uri_origin("/relative"), None);
    let expected = "https://tsunoru.example";
    assert!(request_origin_is_allowed("GET", "/api/x", None, None, expected));
    assert!(request_origin_is_allowed("POST", "/api/x", None, Some("https://tsunoru.example/a"), expected));
    assert!(!request_origin_is_allowed("POST", "/api/x", None, Some("https://evil.example/a"), expected));
    assert!(!request_origin_is_allowed("DELETE", "/api", Some("null"), None, expected));
}

#[test]
fn login_throttle_counts_failures_per_identifier() {
    let mut limiter = LoginRateLimiter::new(2, 60);
    assert_eq!(limiter.record_attempt("alice", 100), Ok(()));
    assert_eq!(limiter.record_attempt("alice", 101), Ok(()));
    assert_eq!(limiter.record_attempt("alice", 102), Err(58));
    assert_eq!(limiter.record_attempt("bob", 102), Ok(()));
    assert_eq!(limiter.record_attempt("alice", 160), Ok(()));
    limiter.record_success("alice");
    assert_eq!(limiter.record_attempt("alice", 161), Ok(()));
}

#[test]
fn login_throttle_normalizes_identifiers_and_bounds_tracking() {
    let mut limiter = LoginRateLimiter::with_capacity(1, 60, 1);
    assert_eq!(limiter.record_attempt(" Alice ", 10), Ok(()));
    assert_eq!(limiter.record_attempt("alice", 11), Err(59));
    assert_eq!(limiter.record_attempt("bob", 11), Err(60));
    assert_eq!(limiter.tracked_identifier_count(), 1);
    assert_eq!(limiter.record_failure("alice", 70), Ok(()));
}

#[test]
fn repeated_failures_lock_the_identifier_out_until_the_window_ends() {
    let mut limiter = LoginRateLimiter::new(3, 60);
    assert_eq!(limiter.record_failure("Hanako", 100), Ok(()));
    assert_eq!(limiter.record_failure(" hanako ", 110), Ok(()));
    assert_eq!(limiter.record_failure("HANAKO", 120), Ok(()));
    assert_eq!(limiter.record_failure("hanako", 130), Err(30));
    assert_eq!(limiter.record_failure("Hanako", 159), Err(1));
    assert_eq!(limiter.record_failure("Hanako", 160), Ok(()));
}
