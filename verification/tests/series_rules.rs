use tsunoru::series_store::{
    continuation_plan, continuation_series_snapshot, continuation_target,
    EventContinuationStorageError, StoredSeriesMemberRow, StoredSeriesMembershipRow,
};

fn member_row(position: i64, event: &str, name: &str) -> StoredSeriesMemberRow {
    StoredSeriesMemberRow {
        owner_account_id: 7,
        event_public_id: event.to_string(),
        position,
        joined_event_public_id: Some(event.to_string()),
        event_name: Some(name.to_string()),
        organizer_account_id: Some(7),
    }
}

fn membership() -> StoredSeriesMembershipRow {
    StoredSeriesMembershipRow {
        series_id: 4,
        owner_account_id: 7,
        series_owner_account_id: Some(7),
        display_name: Some("ボードゲーム会".to_string()),
    }
}

#[test]
fn an_event_without_series_starts_one_named_after_it() {
    let s = continuation_series_snapshot(7, "origin", "ボードゲーム会 #3", None, vec![]).unwrap();
    assert_eq!(s.series_id, None);
    assert_eq!(s.series_name, "ボードゲーム会");
    assert_eq!(s.tail_event_public_id, "origin");
    assert_eq!(s.tail_event_name, "ボードゲーム会 #3");
    assert_eq!(s.next_position, 1);
}

#[test]
fn a_stored_series_continues_after_its_last_event() {
    let members = vec![member_row(0, "e0", "会 #1"), member_row(1, "e1", "会 #2")];
    let s = continuation_series_snapshot(7, "e0", "会 #1", Some(membership()), members).unwrap();
    assert_eq!(s.series_id, Some(4));
    assert_eq!(s.series_name, "ボードゲーム会");
    assert_eq!(s.tail_event_public_id, "e1");
    assert_eq!(s.next_position, 2);
    let plan = continuation_plan("e0", "会 #1".to_string(), s);
    assert_eq!(plan.tail_event_public_id, "e1");
    assert_eq!(plan.suggested_event_name.as_deref(), Some("会 #3"));
}

#[test]
fn broken_series_rows_are_data_invariant_violations() {
    let one = vec![member_row(0, "e0", "会")];
    assert_eq!(
        continuation_series_snapshot(7, "e0", "会", Some(membership()), one),
        Err(EventContinuationStorageError::DataInvariantViolation)
    );
    let mut foreign = membership();
    foreign.series_owner_account_id = Some(8);
    let members = vec![member_row(0, "e0", "会"), member_row(1, "e1", "会")];
    assert_eq!(
        continuation_series_snapshot(7, "e0", "会", Some(foreign), members),
        Err(EventContinuationStorageError::DataInvariantViolation)
    );
    let mut blank = membership();
    blank.display_name = Some("   ".to_string());
    let members = vec![member_row(0, "e0", "会"), member_row(1, "e1", "会")];
    assert_eq!(
        continuation_series_snapshot(7, "e0", "会", Some(blank), members),
        Err(EventContinuationStorageError::DataInvariantViolation)
    );
    let misplaced = vec![member_row(0, "e0", "会"), member_row(2, "e1", "会")];
    assert_eq!(
        continuation_series_snapshot(7, "e0", "会", Some(membership()), misplaced),
        Err(EventContinuationStorageError::DataInvariantViolation)
    );
}

#[test]
fn a_plan_made_against_another_tail_is_stale() {
    let s = continuation_series_snapshot(7, "origin", "会", None, vec![]).unwrap();
    assert_eq!(continuation_target(&s, "origin"), Ok((None, 1)));
    assert_eq!(continuation_target(&s, "elsewhere"), Err(EventContinuationStorageError::Stale));
}

#[test]
fn continuation_error_messages() {
    assert_eq!(EventContinuationStorageError::Stale.message(), "event continuation plan is stale");
    assert_eq!(EventContinuationStorageError::NotFound.message(), "event continuation not found");
}
