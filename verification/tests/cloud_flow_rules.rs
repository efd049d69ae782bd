use tsunoru::cloud::{Answer, ApiError, Candidate, Event, Selection};
use tsunoru::cloud_flow::{
    access_after_organizer_session, access_after_trial_session, access_on_open,
    answer_focus_target, creation_focus_target, creation_outcome, edit_again_message,
    logout_outcome, saved_choice_label, setback_for, sign_in_failure, Access, AccessStep,
    CreationOutcome, Setback,
};
use tsunoru::domain::event::EventCreationErrors;
use tsunoru::domain::response::Availability;

fn failure(status: u16, code: &str) -> ApiError {
    ApiError { status, code: code.to_string() }
}

fn event() -> Event {
    Event {
        id: "event-1".to_string(),
        name: "夏の会".to_string(),
        time_zone: "Asia/Tokyo".to_string(),
        organizer_note: None,
        candidates: vec![
            Candidate { id: "01".to_string(), local_date: "2026-09-18".to_string(), local_time: "19:00".to_string() },
            Candidate { id: "02".to_string(), local_date: "2026-09-19".to_string(), local_time: "18:00".to_string() },
        ],
    }
}

fn choice(id: &str, availability: Availability) -> Selection {
    Selection { candidate_id: id.to_string(), availability }
}

#[test]
fn shared_pages_open_without_a_session() {
    assert_eq!(access_on_open(true), AccessStep::Settled(Access::Ready));
    assert_eq!(access_on_open(false), AccessStep::CheckOrganizerSession);
}

#[test]
fn organizer_session_answers_settle_or_fall_back() {
    assert_eq!(access_after_organizer_session(&Ok(())), AccessStep::Settled(Access::Ready));
    assert_eq!(access_after_organizer_session(&Err(failure(401, "unauthorized"))), AccessStep::Settled(Access::Required));
    assert_eq!(access_after_organizer_session(&Err(failure(503, "unavailable"))), AccessStep::CheckTrialSession);
    assert_eq!(access_after_organizer_session(&Err(failure(500, "internal"))), AccessStep::Settled(Access::Failed));
    assert_eq!(access_after_trial_session(&Ok(())), Access::Ready);
    assert_eq!(access_after_trial_session(&Err(failure(401, "unauthorized"))), Access::Required);
    assert_eq!(access_after_trial_session(&Err(failure(0, "network_error"))), Access::Failed);
}

#[test]
fn setbacks_ask_for_access_or_show_guidance() {
    assert_eq!(setback_for(&failure(401, "unauthorized")), Setback::AccessRequired);
    assert_eq!(
        setback_for(&failure(404, "event_not_found")),
        Setback::Show("イベントが見つかりません。共有URLを確認してください。".to_string())
    );
    assert_eq!(logout_outcome(&Ok(())), Setback::AccessRequired);
    assert_eq!(logout_outcome(&Err(failure(401, "unauthorized"))), Setback::AccessRequired);
    assert_eq!(
        logout_outcome(&Err(failure(0, "network_error"))),
        Setback::Show("接続できませんでした。送信内容は残っています。少し待ってから、もう一度お試しください。".to_string())
    );
}

#[test]
fn refused_sign_ins_name_what_was_refused() {
    assert_eq!(sign_in_failure(&failure(401, "invalid_token"), true), "Googleログインを確認できませんでした。");
    assert_eq!(sign_in_failure(&failure(401, "invalid_code"), false), "試用コードを確認してください。");
    assert_eq!(sign_in_failure(&failure(403, "forbidden"), false), "この操作の権限を確認できませんでした。");
}

#[test]
fn only_an_invalid_request_reopens_the_form() {
    assert_eq!(creation_outcome(&Ok(())), CreationOutcome::Accepted);
    assert_eq!(creation_outcome(&Err(failure(400, "invalid_request"))), CreationOutcome::EditAgain);
    assert_eq!(
        creation_outcome(&Err(failure(400, "request_failed"))),
        CreationOutcome::Setback(Setback::Show("入力内容を保存できませんでした。日時やタイムゾーンを確認してください。".to_string()))
    );
    assert_eq!(creation_outcome(&Err(failure(401, "invalid_request"))), CreationOutcome::Setback(Setback::AccessRequired));
    assert!(edit_again_message().starts_with("日時やタイムゾーンを確認してください。"));
}

#[test]
fn refused_forms_focus_their_first_fault() {
    let mut errors = EventCreationErrors { name: None, organizer_note: None, candidates: None, time_zone: None };
    assert_eq!(creation_focus_target(&errors), "event-time-zone");
    errors.candidates = Some("x".to_string());
    assert_eq!(creation_focus_target(&errors), "candidate-time");
    errors.organizer_note = Some("x".to_string());
    assert_eq!(creation_focus_target(&errors), "organizer-note");
    errors.name = Some("x".to_string());
    assert_eq!(creation_focus_target(&errors), "event-name");

    let e = event();
    let one = vec![choice("01", Availability::Available)];
    assert_eq!(answer_focus_target(&e, "  ", &one), "respondent-name");
    assert_eq!(answer_focus_target(&e, "花\u{7}子", &one), "respondent-name");
    assert_eq!(answer_focus_target(&e, &"あ".repeat(101), &one), "respondent-name");
    assert_eq!(answer_focus_target(&e, "花子", &one), "availability-02-available");
    assert_eq!(answer_focus_target(&e, "花子", &vec![]), "availability-01-available");
    let both = vec![choice("02", Availability::Maybe), choice("01", Availability::Available)];
    assert_eq!(answer_focus_target(&e, "花子", &both), "respondent-name");
}

#[test]
fn saved_answers_label_each_candidate() {
    let answer = Answer {
        respondent_name: "花子".to_string(),
        availabilities: vec![choice("01", Availability::Maybe), choice("02", Availability::Unavailable)],
    };
    assert_eq!(saved_choice_label(&answer, "01"), "△ 条件次第・たぶん行ける");
    assert_eq!(saved_choice_label(&answer, "02"), "× 難しい");
    assert_eq!(saved_choice_label(&answer, "03"), "未回答");
}
