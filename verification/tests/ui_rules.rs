use tsunoru::domain::event::CandidateInput;
use tsunoru::domain::organizer::{CandidateSummaryFact, OrganizerEventSummary};
use tsunoru::domain::response::Availability;
use tsunoru::ui::{
    availability_trace_label, begin_share_action, calendar_day_selected, candidate_fact_label, decided_event_copy_script,
    decided_event_share_script, format_local_start, next_share_action_state, parse_u8_text,
    text_less_or_equal, toggle_calendar_candidate, valid_calendar_time, weekday_name,
    CalendarCandidateChange, CalendarMonth, ShareActionState, SummaryRequests,
    organizer_authority_was_rejected, stored_summary_load, StoredOrganizerSummaryLoad,
};

fn candidate(d: &str, t: &str) -> CandidateInput {
    CandidateInput { local_date: d.to_string(), local_time: t.to_string() }
}

#[test]
fn calendar_months_know_their_lengths() {
    assert_eq!(CalendarMonth::new(2024, 2).unwrap().days_in_month(), 29);
    assert_eq!(CalendarMonth::new(1900, 2).unwrap().days_in_month(), 28);
    assert_eq!(CalendarMonth::new(2000, 2).unwrap().days_in_month(), 29);
    assert_eq!(CalendarMonth::new(2026, 4).unwrap().days_in_month(), 30);
    assert!(CalendarMonth::new(0, 1).is_none());
    assert!(CalendarMonth::new(2026, 13).is_none());
}

#[test]
fn calendar_months_step_and_label() {
    let january = CalendarMonth::new(2026, 1).unwrap();
    assert_eq!(january.leading_blank_days(), 4);
    assert_eq!(january.label(), "2026年1月");
    assert_eq!(january.iso_date(5).as_deref(), Some("2026-01-05"));
    assert_eq!(january.iso_date(32), None);
    let december = january.previous().unwrap();
    assert_eq!((december.year, december.month), (2025, 12));
    assert_eq!(december.next().unwrap(), january);
    assert!(CalendarMonth::new(1, 1).unwrap().previous().is_none());
    assert!(CalendarMonth::new(9999, 12).unwrap().next().is_none());
    assert_eq!(CalendarMonth::from_iso_date("2026-03-31"), CalendarMonth::new(2026, 3));
    assert_eq!(CalendarMonth::from_iso_date("2026-02-30"), None);
    assert_eq!(CalendarMonth::from_iso_date("2026/03/01"), None);
    assert_eq!(weekday_name(0), "日曜日");
    assert_eq!(weekday_name(6), "土曜日");
}

#[test]
fn calendar_times_are_24_hour() {
    assert!(valid_calendar_time("00:00"));
    assert!(valid_calendar_time("23:59"));
    assert!(!valid_calendar_time("24:00"));
    assert!(!valid_calendar_time("9:00"));
    assert_eq!(parse_u8_text("07"), Some(7));
    assert_eq!(parse_u8_text("256"), None);
}

#[test]
fn toggling_adds_sorted_and_removes() {
    let mut candidates = vec![candidate("2026-09-20", "19:00")];
    assert_eq!(toggle_calendar_candidate(&mut candidates, " 2026-09-18 ", "19:00"), Ok(CalendarCandidateChange::Added));
    assert_eq!(candidates[0].local_date, "2026-09-18");
    assert_eq!(candidates[1].local_date, "2026-09-20");
    assert_eq!(toggle_calendar_candidate(&mut candidates, "2026-09-20", "19:00"), Ok(CalendarCandidateChange::Removed));
    assert_eq!(candidates.len(), 1);
    assert_eq!(
        toggle_calendar_candidate(&mut candidates, "2026-02-30", "19:00"),
        Err("日付を正しく入力してください。".to_string())
    );
    assert_eq!(
        toggle_calendar_candidate(&mut candidates, "2026-09-21", "7:00"),
        Err("時刻は24時間表記のHH:MMで入力してください。".to_string())
    );
}

#[test]
fn toggling_stops_at_twenty_candidates() {
    let mut candidates: Vec<CandidateInput> = (1..=20).map(|d| candidate(&format!("2026-10-{d:02}"), "19:00")).collect();
    assert_eq!(
        toggle_calendar_candidate(&mut candidates, "2026-10-21", "19:00"),
        Err("候補日時は20件以内で入力してください。".to_string())
    );
    assert_eq!(toggle_calendar_candidate(&mut candidates, "2026-10-20", "19:00"), Ok(CalendarCandidateChange::Removed));
}

#[test]
fn text_order_is_lexicographic() {
    assert!(text_less_or_equal("2026-09-18", "2026-09-18"));
    assert!(text_less_or_equal("2026-09-18", "2026-09-19"));
    assert!(!text_less_or_equal("b", "a"));
    assert!(text_less_or_equal("a", "ab"));
}

#[test]
fn local_starts_are_formatted_in_japanese() {
    assert_eq!(format_local_start("2026-09-08", "19:00"), "2026年9月8日 19:00");
    assert_eq!(format_local_start("bad", "x"), "bad年?月?日 x");
}

#[test]
fn share_actions_follow_the_browser_result() {
    assert_eq!(begin_share_action(ShareActionState::ReadyToShare), Some(ShareActionState::InProgress));
    assert_eq!(begin_share_action(ShareActionState::InProgress), None);
    assert_eq!(next_share_action_state(ShareActionState::InProgress, "started"), ShareActionState::ShareStarted);
    assert_eq!(next_share_action_state(ShareActionState::InProgress, "copied"), ShareActionState::UrlCopied);
    assert_eq!(next_share_action_state(ShareActionState::InProgress, "cancelled"), ShareActionState::ReadyToCopy);
    assert_eq!(next_share_action_state(ShareActionState::InProgress, "manual"), ShareActionState::ManualCopy);
    assert_eq!(next_share_action_state(ShareActionState::ReadyToCopy, "odd"), ShareActionState::ManualCopy);
    assert_eq!(next_share_action_state(ShareActionState::InProgress, "odd"), ShareActionState::ReadyToCopy);
}

#[test]
fn share_scripts_quote_their_text_as_json() {
    let name = "夏の\"会\"";
    let url = "/events/abc";
    let script = decided_event_share_script(name, url);
    let title = serde_json::to_string(name).unwrap();
    let text = serde_json::to_string(&format!("{name}の日程が決まりました。")).unwrap();
    let quoted_url = serde_json::to_string(url).unwrap();
    assert!(script.starts_with(&format!(
        "(() => {{ const data = {{ title: {title}, text: {text}, url: new URL({quoted_url}, window.location.origin).href }};"
    )));
    let copy = decided_event_copy_script(url);
    assert!(copy.starts_with(&format!("(() => {{ const url = new URL({quoted_url}, window.location.origin).href;")));
}

#[test]
fn labels() {
    assert_eq!(candidate_fact_label(&CandidateSummaryFact::OneUnavailable), "×が1件あります");
    assert_eq!(candidate_fact_label(&CandidateSummaryFact::UniqueMostAvailable), "○が最も多い候補です");
    assert!(!availability_trace_label(Availability::Available).is_empty());
}

#[test]
fn calendar_days_are_labelled_for_screen_readers() {
    let january = CalendarMonth::new(2026, 1).unwrap();
    assert_eq!(january.day_label(5, " 19:00 ", false), "2026年1月5日 月曜日 19:00の候補に追加");
    assert_eq!(january.day_label(1, "19:00", true), "2026年1月1日 木曜日 19:00の候補から削除");
    let candidates = vec![candidate(" 2026-01-05 ", "19:00")];
    assert!(calendar_day_selected(&candidates, "2026-01-05", " 19:00"));
    assert!(!calendar_day_selected(&candidates, "2026-01-05", "18:00"));
    assert!(!calendar_day_selected(&candidates, "2026-01-06", "19:00"));
}

#[test]
fn toggling_a_day_twice_restores_the_candidates() {
    let original = vec![candidate("2026-09-18", "19:00"), candidate("2026-09-20", "19:00")];
    let mut candidates = original.clone();
    assert_eq!(toggle_calendar_candidate(&mut candidates, "2026-09-19", "19:00"), Ok(CalendarCandidateChange::Added));
    assert_eq!(candidates.len(), 3);
    assert_eq!(toggle_calendar_candidate(&mut candidates, "2026-09-19", "19:00"), Ok(CalendarCandidateChange::Removed));
    assert_eq!(candidates, original);
}

#[test]
fn only_the_latest_summary_request_counts() {
    let mut requests = SummaryRequests::new();
    let first = requests.begin_summary_request();
    assert_eq!(first, 1);
    assert!(requests.summary_request_is_current(first));
    let refresh = requests.begin_summary_refresh();
    assert_eq!(refresh, Some(2));
    assert!(requests.refreshing);
    assert!(!requests.summary_request_is_current(first));
    assert_eq!(requests.begin_summary_refresh(), None);
    requests.finish_summary_refresh(first);
    assert!(requests.refreshing);
    requests.finish_summary_refresh(2);
    assert!(!requests.refreshing);
    assert_eq!(requests.refresh_epoch, None);
    assert_eq!(requests.begin_summary_refresh(), Some(3));
    requests.supersede_summary_refresh();
    assert_eq!(requests, SummaryRequests { epoch: 3, refreshing: false, refresh_epoch: None });
}

#[test]
fn summary_epochs_wrap_after_the_largest() {
    let mut requests = SummaryRequests { epoch: u64::MAX, refreshing: false, refresh_epoch: None };
    assert_eq!(requests.begin_summary_request(), 0);
    assert!(requests.summary_request_is_current(0));
}

#[test]
fn refused_capabilities_are_told_from_other_failures() {
    assert!(organizer_authority_was_rejected(Some(404)));
    assert!(organizer_authority_was_rejected(Some(422)));
    assert!(!organizer_authority_was_rejected(Some(409)));
    assert!(!organizer_authority_was_rejected(None));
    let summary = OrganizerEventSummary {
        public_id: "event".to_string(),
        name: "夏の会".to_string(),
        organizer_note: None,
        time_zone: "Asia/Tokyo".to_string(),
        response_count: 0,
        candidates: vec![],
        comment_count: 0,
        comment_previews: vec![],
        decision: None,
    };
    assert_eq!(stored_summary_load(Ok(summary.clone())), StoredOrganizerSummaryLoad::Loaded(Box::new(summary)));
    assert_eq!(stored_summary_load(Err(Some(422))), StoredOrganizerSummaryLoad::RejectedCapability);
    assert_eq!(stored_summary_load(Err(Some(500))), StoredOrganizerSummaryLoad::Failed);
    assert_eq!(stored_summary_load(Err(None)), StoredOrganizerSummaryLoad::Failed);
}
