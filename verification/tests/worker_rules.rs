use hmac::Mac;
use tsunoru::worker::{
    accept_body_chunk, body_headers_check, capability_valid, check_origin, cleanup_cutoffs,
    creation_write_status, datetime_valid, hash, header_capability, identifier_valid,
    issue_staging_cookie, name_valid, organizer_authorize, organizer_cookie, organizer_logout_cookie,
    rate_limit_for, rate_limit_source, rate_limit_verdict, rate_window_start, response_cache_policy,
    response_write_status, route, staging_cookie_valid, staging_logout_cookie,
    submission_origin_check, valid_origin, ApiError, LIFETIME_SECONDS, MAX_BODY_BYTES,
};

const TOKEN: &str = "0123456789abcdef0123456789abcdef0123456789abcdef0123456789abcdef";
const ORIGIN: &str = "https://tsunoru.example";

fn hex(bytes: &[u8]) -> String {
    bytes.iter().map(|b| format!("{b:02x}")).collect()
}

#[test]
fn stored_secret_hash_is_lowercase_sha256() {
    assert_eq!(hash("abc"), "ba7816bf8f01cfea414140de5dae2223b00361a396177a9cb410ff61f20015ad");
}

#[test]
fn routes_split_resource_and_rest() {
    assert_eq!(route("/api/events/abc/responses"), Some(("events", "abc/responses")));
    assert_eq!(route("/api/health"), Some(("health", "")));
    assert_eq!(route("/events"), None);
}

#[test]
fn rate_limits_per_operation() {
    assert_eq!(rate_limit_for("create"), 60);
    assert_eq!(rate_limit_for("response"), 120);
    assert_eq!(rate_limit_for("read"), 240);
    assert_eq!(rate_limit_for("other"), 60);
    assert_eq!(rate_window_start(125), 120);
    assert_eq!(rate_limit_verdict(125, Some(60), "create"), Ok(()));
    assert_eq!(rate_limit_verdict(125, Some(61), "create"), Err(ApiError::rate_limited(55)));
    assert_eq!(rate_limit_verdict(125, None, "read"), Err(ApiError::rate_limited(55)));
}

#[test]
fn cleanup_keeps_thirty_days_and_one_day() {
    assert_eq!(cleanup_cutoffs(3_000_000), (3_000_000 - 2_592_000, 3_000_000 - 86_400));
    assert_eq!(cleanup_cutoffs(10), (0, 0));
}

#[test]
fn field_shapes() {
    assert!(capability_valid(TOKEN));
    assert!(capability_valid(&TOKEN.to_uppercase()));
    assert!(!capability_valid("abc"));
    assert!(identifier_valid("6f1c3f0a-3a4b-4c2d-9e8f-0123456789ab"));
    assert!(name_valid("夏の会"));
    assert!(!name_valid(""));
}

#[test]
fn private_responses_are_not_cached() {
    assert_eq!(response_cache_policy("/api/events", 200), (true, false));
    assert_eq!(response_cache_policy("/index.html", 200), (false, false));
    assert_eq!(response_cache_policy("/index.html", 401), (true, true));
}

#[test]
fn origins_are_checked_exactly() {
    assert!(valid_origin(ORIGIN));
    assert!(!valid_origin("https://tsunoru.example/path"));
    assert_eq!(check_origin(Some(ORIGIN), ORIGIN, true), Ok(()));
    assert_eq!(check_origin(None, ORIGIN, false), Ok(()));
    assert_eq!(check_origin(None, ORIGIN, true), Err(ApiError::new(403, "origin_forbidden")));
    assert_eq!(check_origin(Some("https://evil.example"), ORIGIN, false), Err(ApiError::new(403, "origin_forbidden")));
    assert_eq!(submission_origin_check(false, None, None), Ok(()));
    assert_eq!(submission_origin_check(true, None, Some(ORIGIN)), Err(ApiError::new(503, "auth_unavailable")));
    assert_eq!(submission_origin_check(true, Some(ORIGIN), Some(ORIGIN)), Ok(()));
}

#[test]
fn staging_cookie_is_signed_with_the_token() {
    let now = 1_000_000;
    let cookie = issue_staging_cookie(TOKEN, ORIGIN, now).unwrap();
    let expires = now + LIFETIME_SECONDS;
    let mut mac = hmac::Hmac::<sha2::Sha256>::new_from_slice(TOKEN.as_bytes()).unwrap();
    mac.update(format!("tsunoru-staging-session:v1\n{ORIGIN}\n{expires}").as_bytes());
    let signature = hex(&mac.finalize().into_bytes());
    assert_eq!(
        cookie,
        format!("__Host-tsunoru_staging=v1.{expires}.{signature}; Path=/; HttpOnly; Secure; SameSite=Strict; Max-Age=43200")
    );
    let value = cookie.split(';').next().unwrap();
    assert_eq!(staging_cookie_valid(TOKEN, ORIGIN, Some(value), now), Ok(true));
    assert_eq!(staging_cookie_valid(TOKEN, "https://other.example", Some(value), now), Ok(false));
    let forged = value.replace(&signature, &"0".repeat(64));
    assert_eq!(staging_cookie_valid(TOKEN, ORIGIN, Some(&forged), now), Ok(false));
    assert_eq!(staging_cookie_valid(TOKEN, ORIGIN, None, now), Ok(false));
    let twice = format!("{value}; {value}");
    assert_eq!(staging_cookie_valid(TOKEN, ORIGIN, Some(&twice), now), Ok(false));
    assert!(staging_logout_cookie().contains("Max-Age=0"));
}

#[test]
fn organizer_cookie_names_the_subject() {
    let cookie = organizer_cookie("secret-key", "user-1", 1_000).unwrap();
    let expiry = 1_000 + LIFETIME_SECONDS;
    let mut mac = hmac::Hmac::<sha2::Sha256>::new_from_slice(b"secret-key").unwrap();
    mac.update(format!("tsunoru-organizer:v1\nuser-1\n{expiry}").as_bytes());
    let sig = hex(&mac.finalize().into_bytes());
    assert_eq!(
        cookie,
        format!("__Host-tsunoru_organizer=v1.{expiry}.{sig}; Path=/; HttpOnly; Secure; SameSite=Lax; Max-Age=43200")
    );
    assert!(organizer_logout_cookie().contains("Max-Age=0"));
}

#[test]
fn dates_and_times_must_exist() {
    assert!(datetime_valid("2028-02-29", "23:59", "Asia/Tokyo"));
    assert!(!datetime_valid("2027-02-29", "19:00", "Asia/Tokyo"));
    assert!(!datetime_valid("2027-01-15", "24:00", "Asia/Tokyo"));
    assert!(!datetime_valid("2027-01-15", "19:00", "Mars/Base"));
}

#[test]
fn organizer_authorization_checks_the_subjectless_signature() {
    let now = 5_000;
    let subjectless = organizer_cookie("secret-key", "", now).unwrap();
    let value = subjectless.split(';').next().unwrap();
    assert_eq!(organizer_authorize("secret-key", Some(value), now), Ok(()));
    assert_eq!(organizer_authorize("other-key", Some(value), now), Err(ApiError::new(401, "unauthorized")));
    assert_eq!(organizer_authorize("secret-key", None, now), Err(ApiError::new(401, "unauthorized")));
    let named = organizer_cookie("secret-key", "user-1", now).unwrap();
    let value = named.split(';').next().unwrap();
    assert_eq!(organizer_authorize("secret-key", Some(value), now), Err(ApiError::new(401, "unauthorized")));
    let expired_at = now + LIFETIME_SECONDS;
    assert_eq!(
        organizer_authorize("secret-key", Some(subjectless.split(';').next().unwrap()), expired_at),
        Err(ApiError::new(401, "unauthorized"))
    );
}

#[test]
fn rate_limits_count_a_digest_of_the_source() {
    let expected = hex(&<sha2::Sha256 as sha2::Digest>::digest(b"tsunoru-rate-limit:v1\n203.0.113.7"));
    assert_eq!(rate_limit_source(Some("203.0.113.7")), expected);
    let unknown = hex(&<sha2::Sha256 as sha2::Digest>::digest(b"tsunoru-rate-limit:v1\nunknown"));
    assert_eq!(rate_limit_source(None), unknown);
}

#[test]
fn request_bodies_must_be_small_json() {
    assert_eq!(body_headers_check(Some("application/json"), None), Ok(()));
    assert_eq!(body_headers_check(Some(" Application/JSON ; charset=utf-8"), Some("10")), Ok(()));
    assert_eq!(body_headers_check(None, None), Err(ApiError::new(415, "unsupported_media_type")));
    assert_eq!(body_headers_check(Some("text/plain"), None), Err(ApiError::new(415, "unsupported_media_type")));
    assert_eq!(body_headers_check(Some("application/json"), Some("65537")), Err(ApiError::new(413, "payload_too_large")));
    assert_eq!(body_headers_check(Some("application/json"), Some("abc")), Ok(()));
    assert_eq!(accept_body_chunk(0, MAX_BODY_BYTES), Ok(MAX_BODY_BYTES));
    assert_eq!(accept_body_chunk(10, MAX_BODY_BYTES - 9), Err(ApiError::new(413, "payload_too_large")));
}

#[test]
fn capability_headers_are_checked() {
    assert_eq!(header_capability(Some(TOKEN)), Ok(TOKEN.to_string()));
    assert_eq!(header_capability(Some("nope")), Err(ApiError::new(403, "forbidden")));
    assert_eq!(header_capability(None), Err(ApiError::new(403, "forbidden")));
}

#[test]
fn write_statuses_distinguish_new_replayed_and_conflicting() {
    assert_eq!(creation_write_status(true, true), Ok(201));
    assert_eq!(creation_write_status(true, false), Ok(200));
    assert_eq!(creation_write_status(false, false), Err(ApiError::new(409, "event_conflict")));
    assert_eq!(response_write_status(false, None, "e", "p", false), Err(ApiError::new(404, "event_not_found")));
    assert_eq!(response_write_status(true, None, "e", "p", false), Err(ApiError::new(400, "candidate_set_mismatch")));
    assert_eq!(response_write_status(true, Some(("e", "q")), "e", "p", false), Err(ApiError::new(409, "response_conflict")));
    assert_eq!(response_write_status(true, Some(("x", "p")), "e", "p", false), Err(ApiError::new(409, "response_conflict")));
    assert_eq!(response_write_status(true, Some(("e", "p")), "e", "p", true), Ok(201));
    assert_eq!(response_write_status(true, Some(("e", "p")), "e", "p", false), Ok(200));
}
