use tsunoru::domain::account::AccountAuthErrors;
use tsunoru::domain::continuation::{AccountEventTraceErrors, EventContinuationErrors};
use tsunoru::domain::event::EventCreationErrors;
use tsunoru::domain::organizer::OrganizerDecisionErrors;
use tsunoru::domain::response::{AvailabilityResponseErrors, ResponseCommentErrors};
use tsunoru::text::join_present;

#[test]
fn present_messages_are_joined_by_spaces() {
    assert_eq!(join_present(vec![None, Some("a".to_string()), None, Some("b".to_string())]), "a b");
    assert_eq!(join_present(vec![None, None]), "");
    assert_eq!(join_present(vec![Some("only".to_string())]), "only");
}

#[test]
fn account_errors_message() {
    let e = AccountAuthErrors {
        login_id: Some("ID?".to_string()),
        password: Some("PW?".to_string()),
        password_confirmation: None,
        request: Some("REQ".to_string()),
    };
    assert_eq!(e.message(), "ID? PW? REQ");
}

#[test]
fn creation_and_continuation_messages() {
    let event = EventCreationErrors {
        name: Some("名前".to_string()),
        organizer_note: None,
        candidates: Some("候補".to_string()),
        time_zone: None,
    };
    assert_eq!(event.message(), "名前 候補");
    let c = EventContinuationErrors { request: Some(String::new()), event };
    assert_eq!(c.message(), "名前 候補");
    let empty = EventContinuationErrors {
        request: Some("続き".to_string()),
        event: EventCreationErrors { name: None, organizer_note: None, candidates: None, time_zone: None },
    };
    assert_eq!(empty.message(), "続き");
}

#[test]
fn response_messages_prompt_for_every_candidate() {
    let e = AvailabilityResponseErrors {
        respondent_name: Some("名前を入力してください。".to_string()),
        candidate_ids: vec![1],
        request: None,
    };
    assert_eq!(e.message(), "名前を入力してください。 すべての候補日時へ都合を選んでください。");
    let none = AvailabilityResponseErrors { respondent_name: None, candidate_ids: vec![], request: None };
    assert_eq!(none.message(), "");
    let c = ResponseCommentErrors { comment: None, request: Some("回答".to_string()) };
    assert_eq!(c.message(), "回答");
}

#[test]
fn single_request_messages() {
    assert_eq!(AccountEventTraceErrors { request: None }.message(), "");
    assert_eq!(OrganizerDecisionErrors { request: Some("R".to_string()) }.message(), "R");
}
