use tsunoru::domain::account::{AccountLoginInput, AccountRegistrationInput};
use tsunoru::domain::event::{CandidateInput, NewEventInput};
use tsunoru::domain::fields::{local_date_is_valid, local_time_is_valid, public_id_is_valid, time_zone_name_is_valid};
use tsunoru::domain::response::{
    Availability, AvailabilityResponseDraft, CandidateAvailabilityInput, ResponseCommentDraft,
};
use tsunoru::domain::series::{derive_event_series_name, suggest_next_event_name};

const PASSWORD: &str = "correct horse battery";

#[test]
fn registration_normalizes_the_login_id() {
    let input = AccountRegistrationInput {
        login_id: "  Alice.Example ".to_string(),
        password: PASSWORD.to_string(),
        password_confirmation: PASSWORD.to_string(),
    };
    let prepared = input.prepare().unwrap();
    assert_eq!(prepared.login_id, "alice.example");
    assert_eq!(prepared.password, PASSWORD);
}

#[test]
fn registration_reports_every_field() {
    let input = AccountRegistrationInput {
        login_id: ".x".to_string(),
        password: "short".to_string(),
        password_confirmation: "other".to_string(),
    };
    let errors = input.prepare().err().unwrap();
    assert_eq!(
        errors.login_id.as_deref(),
        Some("ログインIDは3〜32文字の半角英数字から始め、半角英数字と . _ - で入力してください。")
    );
    assert_eq!(errors.password.as_deref(), Some("passwordは15〜128文字で入力してください。"));
    assert_eq!(errors.password_confirmation.as_deref(), Some("password確認が一致しません。"));
}

#[test]
fn login_uses_the_same_field_rules() {
    let ok = AccountLoginInput { login_id: "BOB".to_string(), password: PASSWORD.to_string() };
    assert_eq!(ok.prepare().unwrap().login_id, "bob");
    let bad = AccountLoginInput { login_id: "bob".to_string(), password: "x".repeat(129) };
    assert!(bad.prepare().is_err());
}

fn event_input(candidates: Vec<CandidateInput>) -> NewEventInput {
    NewEventInput {
        name: "  夏の会 ".to_string(),
        organizer_note: Some("   ".to_string()),
        time_zone: " Asia/Tokyo ".to_string(),
        candidates,
    }
}

fn candidate(d: &str, t: &str) -> CandidateInput {
    CandidateInput { local_date: d.to_string(), local_time: t.to_string() }
}

#[test]
fn new_events_are_normalized() {
    let e = event_input(vec![candidate(" 2026-09-18 ", "19:00 ")]).normalized_and_validated().unwrap();
    assert_eq!(e.name, "夏の会");
    assert_eq!(e.organizer_note, None);
    assert_eq!(e.time_zone, "Asia/Tokyo");
    assert_eq!(e.candidates[0].local_date, "2026-09-18");
    assert_eq!(e.candidates[0].local_time, "19:00");
}

#[test]
fn new_event_candidate_errors() {
    let none = event_input(vec![]).normalized_and_validated().err().unwrap();
    assert_eq!(none.candidates.as_deref(), Some("候補日時を一件以上追加してください。"));
    let dup = event_input(vec![candidate("2026-09-18", "19:00"), candidate("2026-09-18", "19:00")])
        .normalized_and_validated()
        .err().unwrap();
    assert_eq!(dup.candidates.as_deref(), Some("同じ候補日時がすでに追加されています。"));
    let bad = event_input(vec![candidate("2026-02-30", "19:00")]).normalized_and_validated().err().unwrap();
    assert_eq!(bad.candidates.as_deref(), Some("候補日時を正しい日付と時刻で入力してください。"));
    let many: Vec<CandidateInput> = (1..=21).map(|d| candidate(&format!("2026-10-{d:02}"), "19:00")).collect();
    let too_many = event_input(many).normalized_and_validated().err().unwrap();
    assert_eq!(too_many.candidates.as_deref(), Some("候補日時は20件以内で入力してください。"));
    let mut unnamed = event_input(vec![candidate("2026-09-18", "19:00")]);
    unnamed.name = "   ".to_string();
    unnamed.time_zone = "Mars/Base".to_string();
    let errors = unnamed.normalized_and_validated().err().unwrap();
    assert_eq!(errors.name.as_deref(), Some("イベント名を入力してください。"));
    assert_eq!(
        errors.time_zone.as_deref(),
        Some("ブラウザーのタイムゾーンを取得できませんでした。再読み込みしてください。")
    );
}

#[test]
fn responses_follow_the_event_candidate_order() {
    let draft = AvailabilityResponseDraft {
        respondent_name: " 花子 ".to_string(),
        candidate_ids: vec![5, 2],
        availabilities: vec![
            CandidateAvailabilityInput { candidate_id: 2, availability: Availability::Maybe },
            CandidateAvailabilityInput { candidate_id: 5, availability: Availability::Available },
        ],
    };
    let prepared = draft.prepare().unwrap();
    assert_eq!(prepared.respondent_name, "花子");
    assert_eq!(prepared.availabilities[0].candidate_id, 5);
    assert_eq!(prepared.availabilities[0].availability, Availability::Available);
    assert_eq!(prepared.availabilities[1].availability, Availability::Maybe);
}

#[test]
fn incomplete_responses_list_missing_candidates() {
    let draft = AvailabilityResponseDraft {
        respondent_name: "".to_string(),
        candidate_ids: vec![5, 2],
        availabilities: vec![CandidateAvailabilityInput { candidate_id: 2, availability: Availability::Maybe }],
    };
    let errors = draft.prepare().err().unwrap();
    assert_eq!(errors.respondent_name.as_deref(), Some("名前を入力してください。"));
    assert_eq!(errors.candidate_ids, vec![5]);
    assert_eq!(errors.request, None);
}

#[test]
fn comments_are_trimmed_and_bounded() {
    assert_eq!(ResponseCommentDraft { comment: " よろしく ".to_string() }.prepare().unwrap().comment, "よろしく");
    let empty = ResponseCommentDraft { comment: "   ".to_string() }.prepare().err().unwrap();
    assert_eq!(empty.comment.as_deref(), Some("ひとことを入力してください。"));
    let long = ResponseCommentDraft { comment: "あ".repeat(501) }.prepare().err().unwrap();
    assert_eq!(long.comment.as_deref(), Some("ひとことは500文字以内で入力してください。"));
}

#[test]
fn domain_field_shapes() {
    assert!(public_id_is_valid("6f1c3f0a-3a4b-4c2d-9e8f-0123456789ab"));
    assert!(!public_id_is_valid("has space"));
    assert!(time_zone_name_is_valid("Asia/Tokyo"));
    assert!(!time_zone_name_is_valid("Mars/Base"));
    assert!(local_date_is_valid("2028-02-29"));
    assert!(!local_date_is_valid("2027-02-29"));
    assert!(!local_date_is_valid("0000-01-01"));
    assert!(local_time_is_valid("23:59"));
    assert!(!local_time_is_valid("23:60"));
}

#[test]
fn series_names_follow_the_trailing_number() {
    assert_eq!(derive_event_series_name(" ボードゲーム会 #3 "), "ボードゲーム会");
    assert_eq!(derive_event_series_name("ボードゲーム会"), "ボードゲーム会");
    assert_eq!(suggest_next_event_name("ボードゲーム会 #3").as_deref(), Some("ボードゲーム会 #4"));
    assert_eq!(suggest_next_event_name("ボードゲーム会 #03"), None);
    assert_eq!(suggest_next_event_name("ボードゲーム会"), None);
}

#[test]
fn the_browser_checks_only_the_shape_of_a_time_zone() {
    let mut input = event_input(vec![CandidateInput { local_date: "2026-09-18".to_string(), local_time: "19:00".to_string() }]);
    input.time_zone = "Mars/Olympus".to_string();
    assert!(input.normalized_and_validated().is_err());
    assert_eq!(input.normalized_and_validated_in_browser().unwrap().time_zone, "Mars/Olympus");
    input.time_zone = "Mars Olympus".to_string();
    assert!(input.normalized_and_validated_in_browser().is_err());
}
