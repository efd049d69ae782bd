use tsunoru::auth::PresentedSession;
use tsunoru::domain::account::{AccountAuthErrors, AccountHistoryState};
use tsunoru::domain::event::{PublicEvent, PublicEventDecision};
use tsunoru::domain::organizer::OrganizerSummaryErrors;
use tsunoru::domain::response::AvailabilityResponseErrors;
use tsunoru::series_store::EventContinuationStorageError;
use tsunoru::server_rules::{
    api_guard_verdict, calendar_not_found, calendar_reply, calendar_request_is_valid,
    continuation_create_failure, continuation_session, history_outcome, is_private_api_path,
    is_unsafe_api_request, password_hash_to_check, registration_error_from_storage, session_gate,
    verified_login, AccountLoginError, AccountRegistrationError, AccountStorageError,
    ApiGuardVerdict, AvailabilityResponseSubmissionError, OrganizerSummaryReadError, ServerFailure,
    SessionGate,
};
use tsunoru::storage::{
    AccountHistoryStorageError, OrganizerSummaryStorageError, PublicEventStorageError,
    ResponseStorageError, StoredAccountCredentials,
};

fn status(code: u16, message: &str) -> ServerFailure {
    ServerFailure::Status { code, message: message.to_string() }
}

#[test]
fn registration_failures_map_to_statuses() {
    assert_eq!(
        AccountRegistrationError::Unavailable.failure(),
        (status(409, "アカウントを作成できませんでした。"), None)
    );
    assert_eq!(
        AccountRegistrationError::RateLimited(30).failure(),
        (status(429, "アカウント作成をしばらく試せません。時間を置いてお試しください。"), Some(30))
    );
    assert_eq!(
        AccountRegistrationError::Storage.failure(),
        (ServerFailure::Internal { message: "アカウントを作成できませんでした。".to_string() }, None)
    );
    let errors = AccountAuthErrors {
        login_id: Some("ID".to_string()),
        password: None,
        password_confirmation: Some("確認".to_string()),
        request: None,
    };
    assert_eq!(AccountRegistrationError::Validation(errors).failure(), (status(422, "ID 確認"), None));
    assert_eq!(
        registration_error_from_storage(AccountStorageError::LoginIdTaken),
        AccountRegistrationError::Unavailable
    );
}

#[test]
fn login_failures_are_generic() {
    assert_eq!(
        AccountLoginError::InvalidCredentials.failure(),
        (status(401, "ログインIDまたはpasswordを確認してください。"), None)
    );
    assert_eq!(AccountLoginError::RateLimited(5).failure().1, Some(5));
    assert_eq!(AccountLoginError::Storage.message(), "ログインできませんでした。");
}

fn credentials() -> StoredAccountCredentials {
    StoredAccountCredentials { id: 1, login_id: "alice".to_string(), password_hash_phc: "$argon2id$stored".to_string() }
}

#[test]
fn login_checks_the_dummy_hash_for_unknown_ids() {
    assert_eq!(password_hash_to_check(&None, "$dummy"), "$dummy");
    assert_eq!(password_hash_to_check(&Some(credentials()), "$dummy"), "$argon2id$stored");
    assert!(verified_login(Some(credentials()), true) == Ok(credentials()));
    assert!(verified_login(Some(credentials()), false) == Err(AccountLoginError::InvalidCredentials));
    assert!(verified_login(None, true) == Err(AccountLoginError::InvalidCredentials));
}

#[test]
fn sessions_sort_into_guest_expired_and_lookup() {
    assert!(session_gate(PresentedSession::Absent) == SessionGate::Guest);
    assert!(session_gate(PresentedSession::Invalid) == SessionGate::Expired);
    assert!(session_gate(PresentedSession::Digest([7; 32])) == SessionGate::Lookup([7; 32]));
    assert_eq!(continuation_session(PresentedSession::Digest([1; 32])), Ok([1; 32]));
    assert_eq!(continuation_session(PresentedSession::Absent), Err(status(401, "ログインが必要です。")));
}

#[test]
fn history_outcomes() {
    assert_eq!(history_outcome(Err(AccountHistoryStorageError::Unauthenticated)), Ok(AccountHistoryState::Expired));
    assert_eq!(
        history_outcome(Err(AccountHistoryStorageError::DataInvariantViolation)),
        Err(ServerFailure::Internal { message: "履歴を読み込めませんでした。".to_string() })
    );
}

#[test]
fn continuation_failures() {
    assert_eq!(
        continuation_create_failure(EventContinuationStorageError::Stale),
        status(409, "続きの情報が更新されています。最新の情報を読み直してください。")
    );
    assert_eq!(continuation_create_failure(EventContinuationStorageError::Unauthenticated), status(401, "ログインが必要です。"));
}

#[test]
fn read_and_submission_failures() {
    let e = OrganizerSummaryReadError::Validation(OrganizerSummaryErrors { request: Some("イベントを確認できませんでした。".to_string()) });
    assert_eq!(e.failure(), status(422, "イベントを確認できませんでした。"));
    assert_eq!(
        OrganizerSummaryReadError::Storage(OrganizerSummaryStorageError::NotFound).failure(),
        status(404, "回答サマリーが見つかりません。")
    );
    assert_eq!(
        AvailabilityResponseSubmissionError::Storage(ResponseStorageError::EventDecided).failure(),
        status(409, "日程が確定しています。共有URLを開き直して確認してください。")
    );
    let v = AvailabilityResponseErrors { respondent_name: None, candidate_ids: vec![3], request: None };
    assert_eq!(
        AvailabilityResponseSubmissionError::Validation(v).failure(),
        status(422, "すべての候補日時へ都合を選んでください。")
    );
}

#[test]
fn private_paths_get_private_headers() {
    assert!(is_private_api_path("/history"));
    assert!(is_private_api_path("/history/"));
    assert!(is_private_api_path("/history/event"));
    assert!(is_private_api_path("/api/auth/login"));
    assert!(is_private_api_path("/api/account"));
    assert!(is_private_api_path("/api/answers/submit"));
    assert!(!is_private_api_path("/api/answers/comment"));
    assert!(!is_private_api_path("/historyx"));
    assert!(!is_private_api_path("/api/events/create"));
}

#[test]
fn api_guard_checks_only_unsafe_api_requests() {
    assert!(is_unsafe_api_request("POST", "/api/events/create"));
    assert!(!is_unsafe_api_request("GET", "/api/events/get"));
    assert!(!is_unsafe_api_request("POST", "/apix"));
    let origin = "http://127.0.0.1:8080";
    assert_eq!(api_guard_verdict("GET", "/api/x", false, None, None, None), ApiGuardVerdict::Pass);
    assert_eq!(api_guard_verdict("POST", "/api/x", false, None, None, None), ApiGuardVerdict::Forbidden);
    assert_eq!(api_guard_verdict("POST", "/api/x", true, None, None, None), ApiGuardVerdict::Misconfigured);
    assert_eq!(api_guard_verdict("POST", "/api/x", true, Some(origin), Some(Some(origin)), None), ApiGuardVerdict::Pass);
    assert_eq!(
        api_guard_verdict("POST", "/api/x", true, Some(origin), Some(Some("https://evil.example")), None),
        ApiGuardVerdict::Forbidden
    );
    assert_eq!(api_guard_verdict("POST", "/api/x", true, Some(origin), Some(None), None), ApiGuardVerdict::Forbidden);
    assert_eq!(api_guard_verdict("POST", "/api/x", true, Some(origin), None, None), ApiGuardVerdict::Forbidden);
    assert_eq!(
        ApiGuardVerdict::Forbidden.refusal(),
        Some((403, "request originを確認できませんでした。".to_string()))
    );
    assert_eq!(ApiGuardVerdict::Pass.refusal(), None);
}

fn decided_event() -> PublicEvent {
    PublicEvent {
        public_id: "6f1c3f0a-3a4b-4c2d-9e8f-0123456789ab".to_string(),
        name: "夏の会".to_string(),
        organizer_note: None,
        time_zone: "Asia/Tokyo".to_string(),
        candidates: vec![],
        decision: Some(PublicEventDecision {
            candidate_id: 1,
            local_date: "2027-01-15".to_string(),
            local_time: "19:00".to_string(),
        }),
    }
}

#[test]
fn calendar_download_of_a_decided_event() {
    let id = "6f1c3f0a-3a4b-4c2d-9e8f-0123456789ab";
    assert!(calendar_request_is_valid(id));
    assert!(!calendar_request_is_valid("not-a-uuid"));
    let reply = calendar_reply(id, Ok(Some(decided_event())), "20260101T000000Z".to_string());
    assert_eq!(reply.status, 200);
    assert_eq!(reply.content_type, "text/calendar; charset=utf-8");
    assert_eq!(
        reply.content_disposition.as_deref(),
        Some("attachment; filename=\"tsunoru-6f1c3f0a-3a4b-4c2d-9e8f-0123456789ab.ics\"")
    );
    assert!(reply.body.contains("DTSTART:20270115T100000Z\r\n"));
    assert!(reply.body.starts_with("BEGIN:VCALENDAR\r\n"));
}

#[test]
fn calendar_download_failures() {
    let id = "6f1c3f0a-3a4b-4c2d-9e8f-0123456789ab";
    assert_eq!(calendar_reply(id, Ok(None), "20260101T000000Z".to_string()).status, 404);
    let mut undecided = decided_event();
    undecided.decision = None;
    let r = calendar_reply(id, Ok(Some(undecided)), "20260101T000000Z".to_string());
    assert_eq!(r.status, 409);
    assert_eq!(r.body, "このイベントの日程はまだ決まっていません。");
    let r = calendar_reply(id, Err(PublicEventStorageError::DataInvariantViolation), "20260101T000000Z".to_string());
    assert_eq!((r.status, r.body.as_str()), (500, "カレンダーを作成できませんでした。"));
    let r = calendar_reply(id, Ok(Some(decided_event())), "bad".to_string());
    assert_eq!(r.status, 500);
    assert_eq!(calendar_not_found().status, 404);
}
