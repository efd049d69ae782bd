use std::cell::RefCell;
use std::collections::HashMap;
use tsunoru::cloud::{
    check_created_reply, check_event_reply, check_event_request, check_response_reply,
    creation_writes, saved_text, load_creation, load_organizer, reply_outcome, response_matrix, response_write, save_creation, valid_id, valid_key, Answer,
    ApiError, CreateRequest, CreationRecord, ResponseRecord, ResponseView,
    Selection, CREATION_KEY,
};
use tsunoru::browser::{confirm_removed, confirm_written, storage_error, LocalStore};
use tsunoru::cloud::Store;
use tsunoru::domain::event::{CandidateInput, NewEventInput};
use tsunoru::domain::response::Availability;

const KEY: &str = "0123456789abcdef0123456789abcdef0123456789abcdef0123456789abcdef";
const EVENT: &str = "fedcba9876543210fedcba9876543210fedcba9876543210fedcba9876543210";

struct MemoryStore(RefCell<HashMap<String, String>>);

impl tsunoru::cloud::Store for MemoryStore {
    fn read(&self, key: &str) -> Result<Option<String>, String> {
        Ok(self.0.borrow().get(key).cloned())
    }
    fn write(&self, key: &str, value: &str) -> Result<(), String> {
        self.0.borrow_mut().insert(key.to_string(), value.to_string());
        Ok(())
    }
    fn remove(&self, key: &str) -> Result<(), String> {
        self.0.borrow_mut().remove(key);
        Ok(())
    }
}

fn request() -> CreateRequest {
    let input = NewEventInput {
        name: "夏の会".to_string(),
        organizer_note: None,
        time_zone: "Asia/Tokyo".to_string(),
        candidates: vec![
            CandidateInput { local_date: "2026-09-18".to_string(), local_time: "19:00".to_string() },
            CandidateInput { local_date: "2026-09-19".to_string(), local_time: "18:00".to_string() },
        ],
    };
    CreateRequest::new(input, EVENT.to_string(), KEY.to_string())
}

fn selection(id: &str, availability: Availability) -> Selection {
    Selection { candidate_id: id.to_string(), availability }
}

#[test]
fn created_requests_number_their_candidates() {
    let r = request();
    assert_eq!(r.candidates[0].id, "01");
    assert_eq!(r.candidates[1].id, "02");
    assert!(r.valid());
    assert!(r.event().valid());
    assert_eq!(r.input().candidates[1].local_time, "18:00");
}

#[test]
fn cloud_identifiers_and_keys() {
    assert!(valid_id("event-1_a"));
    assert!(!valid_id(""));
    assert!(!valid_id("a b"));
    assert!(valid_key(KEY));
    assert!(!valid_key(&KEY.to_uppercase()));
}

#[test]
fn answers_follow_the_event_order() {
    let event = request().event();
    let answer = Answer::prepare(&event, " 花子 ", &vec![
        selection("02", Availability::Maybe),
        selection("01", Availability::Available),
    ])
    .unwrap();
    assert_eq!(answer.respondent_name, "花子");
    assert_eq!(answer.availabilities[0].candidate_id, "01");
    assert_eq!(answer.availabilities[1].availability, Availability::Maybe);
    assert!(answer.valid());
    assert_eq!(
        Answer::prepare(&event, "", &vec![]).err(),
        Some("名前は1〜100文字で入力してください。".to_string())
    );
    assert_eq!(
        Answer::prepare(&event, "花子", &vec![selection("01", Availability::Available)]).err(),
        Some("すべての候補日時への都合を選んでください。".to_string())
    );
}

#[test]
fn matrix_rows_follow_candidate_order() {
    let event = request().event();
    let rows = vec![ResponseView {
        response_id: "r1".to_string(),
        respondent_name: "花子".to_string(),
        availabilities: vec![selection("02", Availability::Unavailable), selection("01", Availability::Available)],
    }];
    let m = response_matrix(&event, &rows).unwrap();
    assert_eq!(m.candidates.len(), 2);
    assert_eq!(m.responses[0].availabilities, vec![Availability::Available, Availability::Unavailable]);
    let short = vec![ResponseView {
        response_id: "r1".to_string(),
        respondent_name: "花子".to_string(),
        availabilities: vec![selection("01", Availability::Available)],
    }];
    assert_eq!(response_matrix(&event, &short).err(), Some("回答の一覧を確認できませんでした。".to_string()));
}

#[test]
fn creation_is_saved_with_its_organizer_key() {
    let store = MemoryStore(RefCell::new(HashMap::new()));
    let record = CreationRecord { request: request(), accepted: false };
    assert_eq!(save_creation(&store, &record, "{\"saved\":true}"), Ok(()));
    assert_eq!(store.0.borrow().get(CREATION_KEY).map(String::as_str), Some("{\"saved\":true}"));
    assert_eq!(load_organizer(&store, EVENT), Ok(Some(KEY.to_string())));
    let loaded = load_creation(&store, |_text: &str| Some(CreationRecord { request: request(), accepted: true })).unwrap();
    assert!(loaded.unwrap().accepted);
    let mut invalid = request();
    invalid.organizer_capability = "short".to_string();
    let bad = CreationRecord { request: invalid, accepted: false };
    assert_eq!(save_creation(&store, &bad, "{}"), Err("保存するイベントを確認できません。".to_string()));
}

#[test]
fn unreadable_saved_data_is_reported() {
    let store = MemoryStore(RefCell::new(HashMap::new()));
    assert_eq!(load_creation(&store, |_text: &str| None).map(|r| r.is_none()), Ok(true));
    store.0.borrow_mut().insert(CREATION_KEY.to_string(), "garbage".to_string());
    assert_eq!(
        load_creation(&store, |_text: &str| None).err(),
        Some("保存していた送信内容を読み込めません。別のブラウザーで新しく送る前に、主催者へ確認してください。".to_string())
    );
    store.0.borrow_mut().insert("tsunoru.cloud.organizer.v1.e".to_string(), "bad".to_string());
    assert!(load_organizer(&store, "e").is_err());
}

#[test]
fn replies_are_checked_against_the_request() {
    let r = request();
    assert_eq!(check_created_reply(&r, Some(EVENT)), Ok(()));
    assert_eq!(check_created_reply(&r, Some("other")), Err(ApiError::invalid()));
    assert_eq!(check_event_request("bad id"), Err(ApiError { status: 404, code: "event_not_found".to_string() }));
    assert!(check_event_reply(EVENT, Some(r.event())).is_ok());
    assert!(check_event_reply("event-2", Some(r.event())).is_err());
    assert!(check_event_reply(EVENT, None).is_err());
    let answer = Answer { respondent_name: "花子".to_string(), availabilities: vec![selection("01", Availability::Available)] };
    let record = ResponseRecord { event_id: "event-1".to_string(), capability: KEY.to_string(), answer, accepted: false };
    assert_eq!(check_response_reply(&record, Some("event-1"), Some("resp")), Ok(()));
    assert!(check_response_reply(&record, Some("event-1"), None).is_err());
}

#[test]
fn api_errors_describe_themselves() {
    assert_eq!(ApiError::network().status, 0);
    let e = ApiError { status: 401, code: "unauthorized".to_string() };
    assert!(e.needs_access());
    assert!(!e.message().is_empty());
}

#[test]
fn failed_replies_carry_the_server_code() {
    assert_eq!(reply_outcome(true, 200, None), Ok(()));
    assert_eq!(reply_outcome(false, 409, Some("event_conflict")), Err(ApiError { status: 409, code: "event_conflict".to_string() }));
    assert_eq!(reply_outcome(false, 502, None), Err(ApiError { status: 502, code: "request_failed".to_string() }));
}

#[test]
fn saves_are_planned_as_keyed_writes() {
    let record = CreationRecord { request: request(), accepted: false };
    let writes = creation_writes(&record, "{}").unwrap();
    assert_eq!(writes[0], (format!("tsunoru.cloud.organizer.v1.{EVENT}"), KEY.to_string()));
    assert_eq!(writes[1], (CREATION_KEY.to_string(), "{}".to_string()));
    let answer = Answer { respondent_name: "花子".to_string(), availabilities: vec![selection("01", Availability::Available)] };
    let response = ResponseRecord { event_id: "event-1".to_string(), capability: KEY.to_string(), answer, accepted: false };
    assert_eq!(response_write(&response, "{}"), Ok(("tsunoru.cloud.response.v1.event-1".to_string(), "{}".to_string())));
    let bad = ResponseRecord { capability: "short".to_string(), ..response };
    assert_eq!(response_write(&bad, "{}"), Err("保存する回答を確認できません。".to_string()));
}

#[test]
fn outside_a_browser_nothing_is_saved() {
    let message = "このブラウザーに送信内容を保存できません。サイトの保存を許可してから、もう一度お試しください。送信は始めていません。".to_string();
    assert_eq!(storage_error(), message);
    assert_eq!(LocalStore.read(CREATION_KEY), Ok(None));
    assert_eq!(LocalStore.write(CREATION_KEY, "{}"), Err(message.clone()));
    assert_eq!(LocalStore.remove(CREATION_KEY), Err(message.clone()));
    let record = CreationRecord { request: request(), accepted: false };
    assert_eq!(save_creation(&LocalStore, &record, "{}"), Err(message));
    assert_eq!(load_organizer(&LocalStore, EVENT), Ok(None));
}

#[test]
fn saved_texts_are_decoded_within_their_limit() {
    let decode = |t: &str| if t == "ok" { Some(7u8) } else { None };
    let unreadable = "保存していた送信内容を読み込めません。別のブラウザーで新しく送る前に、主催者へ確認してください。".to_string();
    assert_eq!(saved_text(Ok(None), decode), Ok(None));
    assert_eq!(saved_text(Err("store".to_string()), decode), Err("store".to_string()));
    assert_eq!(saved_text(Ok(Some("ok".to_string())), decode), Ok(Some(7)));
    assert_eq!(saved_text(Ok(Some("bad".to_string())), decode), Err(unreadable.clone()));
    assert_eq!(saved_text(Ok(Some("o".repeat(65537))), decode), Err(unreadable));
}

#[test]
fn browser_writes_count_only_when_read_back() {
    let message = storage_error();
    assert_eq!(confirm_written("{}", Ok(Some("{}".to_string()))), Ok(()));
    assert_eq!(confirm_written("{}", Ok(Some("{\"a\":1}".to_string()))), Err(message.clone()));
    assert_eq!(confirm_written("{}", Ok(None)), Err(message.clone()));
    assert_eq!(confirm_written("{}", Err(())), Err(message.clone()));
    assert_eq!(confirm_removed(Ok(None)), Ok(()));
    assert_eq!(confirm_removed(Ok(Some("x".to_string()))), Err(message.clone()));
    assert_eq!(confirm_removed(Err(())), Err(message));
}
