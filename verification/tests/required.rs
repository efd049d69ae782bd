use tsunoru::domain::response::Availability;
use tsunoru::ui::{candidate_suggestion_score, is_public_event_path};
use tsunoru::worker::{verify_claims_at, Claims};

fn base_claim() -> Claims {
    Claims {
        iss: "https://accounts.google.com".to_string(),
        sub: "123".to_string(),
        aud: "client".to_string(),
        exp: 160,
        nonce: Some("nonce".to_string()),
    }
}

#[test]
fn rejects_wrong_issuer_audience_and_expiry() {
    assert!(verify_claims_at(base_claim(), "client", "nonce", 100).is_ok());
    assert!(verify_claims_at(Claims { iss: "evil".to_string(), ..base_claim() }, "client", "nonce", 100).is_err());
    assert!(verify_claims_at(Claims { aud: "other".to_string(), ..base_claim() }, "client", "nonce", 100).is_err());
    assert!(verify_claims_at(Claims { exp: 99, ..base_claim() }, "client", "nonce", 100).is_err());
}

#[test]
fn shared_event_path_is_public_but_summary_and_create_are_not() {
    assert!(is_public_event_path("/events/abc"));
    assert!(!is_public_event_path("/events/abc/summary"));
    assert!(!is_public_event_path("/"));
}

#[test]
fn available_is_worth_two_and_maybe_one() {
    assert_eq!(candidate_suggestion_score(&[Availability::Available, Availability::Maybe]), 3);
}

#[test]
fn verified_claims_name_their_subject() {
    let subject = verify_claims_at(base_claim(), "client", "nonce", 100).unwrap();
    assert_eq!(subject, "123");
}

#[test]
fn claims_with_another_nonce_are_refused() {
    assert!(verify_claims_at(base_claim(), "client", "other-nonce", 100).is_err());
}
