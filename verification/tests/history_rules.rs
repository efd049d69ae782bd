use tsunoru::history::{
    assemble_account_history, build_organized_series, build_organized_standalone,
    build_participated, OrganizedHistoryRow, OrganizedSeriesHistoryRow, ParticipatedHistoryRow,
};
use tsunoru::storage::AccountHistoryStorageError;

fn member(series_id: i64, name: &str, position: i64, event: &str, created_at: &str) -> OrganizedSeriesHistoryRow {
    OrganizedSeriesHistoryRow {
        series_id,
        display_name: name.to_string(),
        member_owner_account_id: Some(1),
        event_public_id: Some(event.to_string()),
        position: Some(position),
        name: Some(format!("{name} #{}", position + 1)),
        time_zone: Some("Asia/Tokyo".to_string()),
        created_at: Some(created_at.to_string()),
        organizer_account_id: Some(1),
        local_date: None,
        local_time: None,
        response_count: Some(position),
    }
}

#[test]
fn series_are_newest_first_with_latest_event_first() {
    let rows = vec![
        member(1, "ボードゲーム", 0, "a0", "2026-01-01 10:00:00"),
        member(1, "ボードゲーム", 1, "a1", "2026-02-01 10:00:00"),
        member(2, "読書会", 0, "b0", "2026-01-15 10:00:00"),
        member(2, "読書会", 1, "b1", "2026-03-01 10:00:00"),
    ];
    let series = build_organized_series(rows, 1).unwrap();
    assert_eq!(series.len(), 2);
    assert_eq!(series[0].series_name, "読書会");
    assert_eq!(series[0].events[0].public_id, "b1");
    assert_eq!(series[0].events[1].public_id, "b0");
    assert_eq!(series[1].series_name, "ボードゲーム");
    assert_eq!(series[1].events[0].response_count, 1);
}

#[test]
fn series_with_one_event_or_foreign_member_is_corrupt() {
    let single = vec![member(1, "会", 0, "a0", "2026-01-01 10:00:00")];
    assert_eq!(build_organized_series(single, 1), Err(AccountHistoryStorageError::DataInvariantViolation));
    let mut foreign = member(1, "会", 1, "a1", "2026-01-02 10:00:00");
    foreign.organizer_account_id = Some(2);
    let rows = vec![member(1, "会", 0, "a0", "2026-01-01 10:00:00"), foreign];
    assert_eq!(build_organized_series(rows, 1), Err(AccountHistoryStorageError::DataInvariantViolation));
    let gap = vec![member(1, "会", 0, "a0", "2026-01-01 10:00:00"), member(1, "会", 2, "a2", "2026-01-02 10:00:00")];
    assert_eq!(build_organized_series(gap, 1), Err(AccountHistoryStorageError::DataInvariantViolation));
}

#[test]
fn no_series_rows_give_no_series() {
    assert_eq!(build_organized_series(vec![], 1).unwrap().len(), 0);
}

#[test]
fn standalone_items_keep_query_order_and_reject_negative_counts() {
    let rows = vec![
        OrganizedHistoryRow {
            public_id: "x".to_string(),
            name: "X".to_string(),
            time_zone: "Asia/Tokyo".to_string(),
            local_date: Some("2026-05-01".to_string()),
            local_time: Some("19:00".to_string()),
            response_count: 4,
        },
        OrganizedHistoryRow {
            public_id: "y".to_string(),
            name: "Y".to_string(),
            time_zone: "UTC".to_string(),
            local_date: None,
            local_time: None,
            response_count: 0,
        },
    ];
    let items = build_organized_standalone(rows).unwrap();
    assert_eq!(items[0].public_id, "x");
    assert_eq!(items[0].decision.as_ref().unwrap().local_time, "19:00");
    assert_eq!(items[0].response_count, 4);
    assert_eq!(items[1].decision, None);
    let negative = vec![OrganizedHistoryRow {
        public_id: "z".to_string(),
        name: "Z".to_string(),
        time_zone: "UTC".to_string(),
        local_date: None,
        local_time: None,
        response_count: -1,
    }];
    assert_eq!(build_organized_standalone(negative), Err(AccountHistoryStorageError::DataInvariantViolation));
}

#[test]
fn participated_items_need_complete_decisions() {
    let ok = vec![ParticipatedHistoryRow {
        public_id: "p".to_string(),
        name: "P".to_string(),
        time_zone: "UTC".to_string(),
        local_date: None,
        local_time: None,
    }];
    assert_eq!(build_participated(ok).unwrap()[0].public_id, "p");
    let half = vec![ParticipatedHistoryRow {
        public_id: "p".to_string(),
        name: "P".to_string(),
        time_zone: "UTC".to_string(),
        local_date: None,
        local_time: Some("19:00".to_string()),
    }];
    assert_eq!(build_participated(half), Err(AccountHistoryStorageError::DataInvariantViolation));
}

#[test]
fn account_history_combines_the_three_projections() {
    let series = vec![
        member(1, "会", 0, "a0", "2026-01-01 10:00:00"),
        member(1, "会", 1, "a1", "2026-01-02 10:00:00"),
    ];
    let h = assemble_account_history("alice".to_string(), 1, series, vec![], vec![]).unwrap();
    assert_eq!(h.login_id, "alice");
    assert_eq!(h.organized_series.len(), 1);
    assert!(h.organized_standalone.is_empty());
    assert!(h.participated.is_empty());
    let broken = vec![member(1, "会", 0, "a0", "2026-01-01 10:00:00")];
    assert_eq!(
        assemble_account_history("alice".to_string(), 1, broken, vec![], vec![]),
        Err(AccountHistoryStorageError::DataInvariantViolation)
    );
}
