use tsunoru::domain::organizer::{CandidateSummaryFact, ResponseCommentPreview};
use tsunoru::domain::response::{Availability, CandidateAvailabilityInput, PreparedAvailabilityResponse};
use tsunoru::storage::{
    candidate_set_matches, checked_count, comment_write_outcome, decision_write_outcome,
    history_decision, reconstruct_organizer_summary, reconstruct_public_event,
    availability_write_outcome, replayed_response_outcome, session_expires_at, StoredResponseRow, stored_session_action, write_session,
    AccountHistoryStorageError, CandidateResponseSummaryRow, CandidateRow,
    EventDecisionWriteOutcome, EventRow, OrganizerDecisionStorageError,
    OrganizerSummaryStorageError, PublicEventStorageError, ResponseCommentStorageError,
    ResponseCommentWriteOutcome, ResponseStorageError, ResponseWriteOutcome, SessionWriteStatus,
    StoredAvailabilityRow, StoredEventDecisionProjectionRow, StoredSessionAction,
    SESSION_ABSOLUTE_SECONDS, SESSION_IDLE_SECONDS, SESSION_TOUCH_INTERVAL_SECONDS,
};

fn choice(candidate_id: i64, availability: Availability) -> CandidateAvailabilityInput {
    CandidateAvailabilityInput { candidate_id, availability }
}

fn response(name: &str, choices: Vec<CandidateAvailabilityInput>) -> PreparedAvailabilityResponse {
    PreparedAvailabilityResponse { respondent_name: name.to_string(), availabilities: choices }
}

fn stored(candidate_id: i64, availability: &str) -> StoredAvailabilityRow {
    StoredAvailabilityRow { candidate_id, availability: availability.to_string() }
}

#[test]
fn candidate_set_matches_in_any_order() {
    let r = response("A", vec![choice(3, Availability::Maybe), choice(1, Availability::Available)]);
    assert!(candidate_set_matches(&[1, 3], &r));
}

#[test]
fn candidate_set_rejects_missing_extra_and_repeated_answers() {
    let missing = response("A", vec![choice(1, Availability::Available)]);
    assert!(!candidate_set_matches(&[1, 3], &missing));
    let extra = response("A", vec![choice(1, Availability::Available), choice(7, Availability::Maybe)]);
    assert!(!candidate_set_matches(&[1], &extra));
    let repeated = response("A", vec![choice(1, Availability::Available), choice(1, Availability::Maybe)]);
    assert!(!candidate_set_matches(&[1], &repeated));
}

#[test]
fn identical_replay_is_already_recorded() {
    let r = response("花子", vec![choice(5, Availability::Unavailable), choice(2, Availability::Available)]);
    let rows = vec![stored(2, "available"), stored(5, "unavailable")];
    assert_eq!(
        replayed_response_outcome("event-1", "花子", &rows, "event-1", &r),
        Ok(ResponseWriteOutcome::AlreadyRecorded)
    );
}

#[test]
fn changed_replay_is_a_capability_conflict() {
    let r = response("花子", vec![choice(2, Availability::Maybe), choice(5, Availability::Unavailable)]);
    let rows = vec![stored(2, "available"), stored(5, "unavailable")];
    assert_eq!(
        replayed_response_outcome("event-1", "花子", &rows, "event-1", &r),
        Err(ResponseStorageError::CapabilityConflict)
    );
    let same = response("花子", vec![choice(2, Availability::Available), choice(5, Availability::Unavailable)]);
    assert_eq!(
        replayed_response_outcome("event-2", "花子", &rows, "event-1", &same),
        Err(ResponseStorageError::CapabilityConflict)
    );
    assert_eq!(
        replayed_response_outcome("event-1", "太郎", &rows, "event-1", &same),
        Err(ResponseStorageError::CapabilityConflict)
    );
}

#[test]
fn comment_write_replays_and_conflicts() {
    assert_eq!(comment_write_outcome(None, "楽しみ"), Ok(ResponseCommentWriteOutcome::Created));
    assert_eq!(comment_write_outcome(Some("楽しみ"), "楽しみ"), Ok(ResponseCommentWriteOutcome::AlreadyRecorded));
    assert_eq!(comment_write_outcome(Some("楽しみ"), "別"), Err(ResponseCommentStorageError::CommentConflict));
}

#[test]
fn decision_is_never_overwritten() {
    assert_eq!(decision_write_outcome(None, 4), Ok(EventDecisionWriteOutcome::Created));
    assert_eq!(decision_write_outcome(Some(4), 4), Ok(EventDecisionWriteOutcome::AlreadyDecided));
    assert_eq!(decision_write_outcome(Some(4), 5), Err(OrganizerDecisionStorageError::Conflict));
}

#[test]
fn storage_error_messages() {
    assert_eq!(ResponseStorageError::EventDecided.message(), "event already has a final decision");
    assert_eq!(ResponseCommentStorageError::ResponseNotFound.message(), "response not found");
    assert_eq!(OrganizerDecisionStorageError::CandidateMismatch.message(), "candidate does not belong to event");
    assert_eq!(OrganizerSummaryStorageError::NotFound.message(), "organizer summary not found");
    assert_eq!(AccountHistoryStorageError::Unauthenticated.message(), "account session is not active");
    assert_eq!(PublicEventStorageError::DataInvariantViolation.message(), "public event data invariant violation");
}

#[test]
fn history_decision_needs_both_fields() {
    let d = history_decision(Some("2026-09-18".to_string()), Some("19:00".to_string())).unwrap().unwrap();
    assert_eq!(d.local_date, "2026-09-18");
    assert_eq!(history_decision(None, None), Ok(None));
    assert_eq!(
        history_decision(Some("2026-09-18".to_string()), None),
        Err(AccountHistoryStorageError::DataInvariantViolation)
    );
}

#[test]
fn negative_counts_are_corrupt() {
    assert_eq!(checked_count(3), Ok(3));
    assert_eq!(checked_count(-1), Err(OrganizerSummaryStorageError::DataInvariantViolation));
}

#[test]
fn session_lifecycle() {
    let now = 1_800_000_000;
    assert_eq!(session_expires_at(now), now + SESSION_ABSOLUTE_SECONDS);
    assert_eq!(session_expires_at(i64::MAX - 1), i64::MAX);
    let expires = session_expires_at(now);
    assert_eq!(stored_session_action(now, expires, now), StoredSessionAction::Keep);
    assert_eq!(
        stored_session_action(now, expires, now + SESSION_TOUCH_INTERVAL_SECONDS),
        StoredSessionAction::Refresh
    );
    assert_eq!(stored_session_action(now, expires, now + SESSION_IDLE_SECONDS), StoredSessionAction::Expire);
    assert_eq!(stored_session_action(now + SESSION_ABSOLUTE_SECONDS, expires, expires), StoredSessionAction::Expire);
}

#[test]
fn write_session_statuses() {
    assert_eq!(write_session(false, Some(3)), (None, SessionWriteStatus::NotPresented));
    assert_eq!(write_session(true, Some(3)), (Some(3), SessionWriteStatus::Active));
    assert_eq!(write_session(true, None), (None, SessionWriteStatus::Inactive));
}

fn summary_row(id: i64, a: i64, m: i64, u: i64) -> CandidateResponseSummaryRow {
    CandidateResponseSummaryRow {
        id,
        local_date: "2026-09-18".to_string(),
        local_time: "19:00".to_string(),
        available_count: a,
        maybe_count: m,
        unavailable_count: u,
    }
}

fn event_row() -> EventRow {
    EventRow { name: "会".to_string(), organizer_note: None, time_zone: "Asia/Tokyo".to_string() }
}

#[test]
fn organizer_summary_attaches_facts() {
    let previews = vec![ResponseCommentPreview { respondent_name: "A".to_string(), comment: "よろしく".to_string() }];
    let s = reconstruct_organizer_summary(
        "event-1",
        event_row(),
        2,
        vec![summary_row(1, 2, 0, 0), summary_row(2, 0, 1, 1)],
        1,
        previews,
        None,
    )
    .unwrap();
    assert_eq!(s.public_id, "event-1");
    assert_eq!(s.response_count, 2);
    assert_eq!(s.candidates.len(), 2);
    assert_eq!(s.candidates[0].fact, Some(CandidateSummaryFact::EveryoneAvailable));
    assert_eq!(s.candidates[1].fact, Some(CandidateSummaryFact::OneUnavailable));
    assert_eq!(s.comment_count, 1);
    assert_eq!(s.decision, None);
}

#[test]
fn organizer_summary_rejects_inconsistent_rows() {
    let bad_sum = reconstruct_organizer_summary("e", event_row(), 2, vec![summary_row(1, 1, 0, 0)], 0, vec![], None);
    assert_eq!(bad_sum, Err(OrganizerSummaryStorageError::DataInvariantViolation));
    let no_candidates = reconstruct_organizer_summary("e", event_row(), 0, vec![], 0, vec![], None);
    assert_eq!(no_candidates, Err(OrganizerSummaryStorageError::DataInvariantViolation));
    let too_many_comments = reconstruct_organizer_summary("e", event_row(), 1, vec![summary_row(1, 1, 0, 0)], 2, vec![], None);
    assert_eq!(too_many_comments, Err(OrganizerSummaryStorageError::DataInvariantViolation));
    let orphan_decision = reconstruct_organizer_summary(
        "e",
        event_row(),
        1,
        vec![summary_row(1, 1, 0, 0)],
        0,
        vec![],
        Some(StoredEventDecisionProjectionRow { candidate_id: 9, local_date: None, local_time: None }),
    );
    assert_eq!(orphan_decision, Err(OrganizerSummaryStorageError::DataInvariantViolation));
}

#[test]
fn public_event_keeps_candidate_order_and_decision() {
    let candidates = vec![
        CandidateRow { id: 7, local_date: "2026-09-18".to_string(), local_time: "19:00".to_string() },
        CandidateRow { id: 3, local_date: "2026-09-19".to_string(), local_time: "18:30".to_string() },
    ];
    let decision = Some(StoredEventDecisionProjectionRow {
        candidate_id: 3,
        local_date: Some("2026-09-19".to_string()),
        local_time: Some("18:30".to_string()),
    });
    let e = reconstruct_public_event("event-1", event_row(), candidates, decision).unwrap();
    assert_eq!(e.candidates.iter().map(|c| c.id).collect::<Vec<_>>(), vec![7, 3]);
    assert_eq!(e.decision.unwrap().local_time, "18:30");
    let broken = reconstruct_public_event(
        "event-1",
        event_row(),
        vec![],
        Some(StoredEventDecisionProjectionRow { candidate_id: 3, local_date: None, local_time: None }),
    );
    assert_eq!(broken, Err(PublicEventStorageError::DataInvariantViolation));
}

#[test]
fn answer_writes_are_checked_in_order() {
    let ids = [2i64, 5];
    let r = response("花子", vec![choice(5, Availability::Maybe), choice(2, Availability::Available)]);
    let existing = StoredResponseRow {
        event_public_id: "event-1".to_string(),
        respondent_name: "花子".to_string(),
        availabilities: vec![stored(2, "available"), stored(5, "maybe")],
    };
    let other = StoredResponseRow { respondent_name: "太郎".to_string(), ..existing.clone() };
    let short = response("花子", vec![choice(2, Availability::Available)]);
    assert_eq!(availability_write_outcome(false, &ids, None, false, "event-1", &r), Err(ResponseStorageError::EventNotFound));
    assert_eq!(availability_write_outcome(true, &ids, None, false, "event-1", &short), Err(ResponseStorageError::CandidateSetMismatch));
    assert_eq!(availability_write_outcome(true, &ids, None, false, "event-1", &r), Ok(ResponseWriteOutcome::Created));
    assert_eq!(availability_write_outcome(true, &ids, None, true, "event-1", &r), Err(ResponseStorageError::EventDecided));
    assert_eq!(availability_write_outcome(true, &ids, Some(&existing), true, "event-1", &r), Ok(ResponseWriteOutcome::AlreadyRecorded));
    assert_eq!(availability_write_outcome(true, &ids, Some(&other), false, "event-1", &r), Err(ResponseStorageError::CapabilityConflict));
}
