//! The series an event continues, as read back from the stored membership rows.

use vstd::prelude::*;
use vstd::string::*;
use crate::domain::continuation::EventContinuationPlan;
use crate::domain::series::{
    derive_event_series_name, series_name, suggest_next_event_name, suggested_next_name,
};
use crate::text::{trim, trimmed};

verus! {

/// Failures of an event continuation that the session or the stored data cause.
#[derive(Clone, Copy, Debug, PartialEq, Eq, Structural)]
pub enum EventContinuationStorageError {
    Unauthenticated,
    NotFound,
    Stale,
    DataInvariantViolation,
}

impl EventContinuationStorageError {
    /// The operator-facing description of the failure.
    pub fn message(&self) -> (s: String)
        ensures
            s@ == match *self {
                EventContinuationStorageError::Unauthenticated => "account session is not active"@,
                EventContinuationStorageError::NotFound => "event continuation not found"@,
                EventContinuationStorageError::Stale => "event continuation plan is stale"@,
                EventContinuationStorageError::DataInvariantViolation => "event continuation data invariant violation"@,
            },
    {
        match self {
            EventContinuationStorageError::Unauthenticated => String::from_str("account session is not active"),
            EventContinuationStorageError::NotFound => String::from_str("event continuation not found"),
            EventContinuationStorageError::Stale => String::from_str("event continuation plan is stale"),
            EventContinuationStorageError::DataInvariantViolation => String::from_str(
                "event continuation data invariant violation",
            ),
        }
    }
}

/// The series membership of the origin event, joined with its series where one exists.
#[derive(Clone, Debug, PartialEq, Eq)]
pub struct StoredSeriesMembershipRow {
    pub series_id: i64,
    pub owner_account_id: i64,
    pub series_owner_account_id: Option<i64>,
    pub display_name: Option<String>,
}

/// One member of a series, joined with its event where one exists.
#[derive(Clone, Debug, PartialEq, Eq)]
pub struct StoredSeriesMemberRow {
    pub owner_account_id: i64,
    pub event_public_id: String,
    pub position: i64,
    pub joined_event_public_id: Option<String>,
    pub event_name: Option<String>,
    pub organizer_account_id: Option<i64>,
}

/// The series an event continuation appends to: its identifier when it is stored already,
/// its name, its last event, and the position the next event takes.
#[derive(Clone, Debug, PartialEq, Eq)]
pub struct ContinuationSeriesSnapshot {
    pub series_id: Option<i64>,
    pub series_name: String,
    pub tail_event_public_id: String,
    pub tail_event_name: String,
    pub next_position: i64,
}

/// A snapshot as plain values.
pub type SnapshotView = (Option<i64>, Seq<char>, Seq<char>, Seq<char>, int);

pub open spec fn snapshot_view(s: ContinuationSeriesSnapshot) -> SnapshotView {
    (s.series_id, s.series_name@, s.tail_event_public_id@, s.tail_event_name@, s.next_position as int)
}

/// Member `k` sits at position `k`, belongs to the account, and its event exists and is
/// organized by the account.
pub open spec fn member_ok(m: StoredSeriesMemberRow, k: int, account_id: i64) -> bool {
    &&& m.position == k
    &&& m.owner_account_id == account_id
    &&& m.joined_event_public_id matches Some(j) && j@ == m.event_public_id@
    &&& m.organizer_account_id == Some(account_id)
    &&& m.event_name is Some
}

/// The snapshot the stored rows give, or `Err` where they break an invariant. Without a
/// membership the origin event starts a new series named after it; with one, the series
/// and all its members must belong to the account, have a name, hold at least two events
/// at positions 0, 1, ..., and the last one is the tail.
pub open spec fn series_snapshot(
    account_id: i64,
    origin_event_public_id: Seq<char>,
    origin_event_name: Seq<char>,
    membership: Option<StoredSeriesMembershipRow>,
    members: Seq<StoredSeriesMemberRow>,
) -> Result<SnapshotView, ()> {
    match membership {
        None => Ok((None, series_name(origin_event_name), origin_event_public_id, origin_event_name, 1)),
        Some(m) => match (m.series_owner_account_id, m.display_name) {
            (Some(owner), Some(display_name)) => if m.owner_account_id != account_id || owner
                != account_id || trimmed(display_name@).len() == 0 || members.len() < 2 || exists|
                k: int,
            |
                0 <= k < members.len() && !member_ok(#[trigger] members[k], k, account_id)
                || members.last().position == i64::MAX {
                Err(())
            } else {
                let tail = members.last();
                Ok(
                    (
                        Some(m.series_id),
                        display_name@,
                        tail.event_public_id@,
                        tail.event_name->Some_0@,
                        tail.position + 1,
                    ),
                )
            },
            _ => Err(()),
        },
    }
}

/// A stored series continues after its last event: the snapshot's tail is the member at
/// the greatest stored position, and the next position is one past every stored position,
/// which is the number of members.
pub proof fn lemma_snapshot_continues_after_last_member(
    account_id: i64,
    origin_event_public_id: Seq<char>,
    origin_event_name: Seq<char>,
    membership: StoredSeriesMembershipRow,
    members: Seq<StoredSeriesMemberRow>,
    v: SnapshotView,
)
    requires
        series_snapshot(
            account_id,
            origin_event_public_id,
            origin_event_name,
            Some(membership),
            members,
        ) == Ok::<SnapshotView, ()>(v),
    ensures
        v.4 == members.len(),
        forall|k: int| 0 <= k < members.len() ==> #[trigger] members[k].position < v.4,
        exists|t: int|
            0 <= t < members.len() && #[trigger] members[t].position == v.4 - 1
                && v.2 == members[t].event_public_id@ && (members[t].event_name matches Some(n)
                && v.3 == n@),
{
    let t = members.len() - 1;
    assert(member_ok(members[t], t, account_id));
    assert forall|k: int| 0 <= k < members.len() implies #[trigger] members[k].position < v.4 by {
        assert(member_ok(members[k], k, account_id));
    }
}

fn member_is_ok(m: &StoredSeriesMemberRow, k: usize, account_id: i64) -> (b: bool)
    ensures
        b == member_ok(*m, k as int, account_id),
{
    if m.position < 0 || m.position as u64 != k as u64 || m.owner_account_id != account_id {
        return false;
    }
    let joined = match &m.joined_event_public_id {
        Some(j) => crate::text::str_eq(j.as_str(), m.event_public_id.as_str()),
        None => false,
    };
    joined && m.organizer_account_id == Some(account_id) && m.event_name.is_some()
}

/// Read the series the origin event belongs to from its membership row and, where it has
/// one, the series' member rows in position order.
#[verifier::loop_isolation(false)]
pub fn continuation_series_snapshot(
    account_id: i64,
    origin_event_public_id: &str,
    origin_event_name: &str,
    membership: Option<StoredSeriesMembershipRow>,
    members: Vec<StoredSeriesMemberRow>,
) -> (r: Result<ContinuationSeriesSnapshot, EventContinuationStorageError>)
    ensures
        match r {
            Ok(s) => series_snapshot(
                account_id,
                origin_event_public_id@,
                origin_event_name@,
                membership,
                members@,
            ) == Ok::<SnapshotView, ()>(snapshot_view(s)),
            Err(e) => series_snapshot(
                account_id,
                origin_event_public_id@,
                origin_event_name@,
                membership,
                members@,
            ) is Err && e == EventContinuationStorageError::DataInvariantViolation,
        },
{
    let violation = EventContinuationStorageError::DataInvariantViolation;
    let m = match membership {
        None => {
            return Ok(
                ContinuationSeriesSnapshot {
                    series_id: None,
                    series_name: derive_event_series_name(origin_event_name),
                    tail_event_public_id: String::from_str(origin_event_public_id),
                    tail_event_name: String::from_str(origin_event_name),
                    next_position: 1,
                },
            );
        },
        Some(m) => m,
    };
    let (owner, display_name) = match (m.series_owner_account_id, m.display_name) {
        (Some(owner), Some(display_name)) => (owner, display_name),
        _ => return Err(violation),
    };
    if m.owner_account_id != account_id || owner != account_id || trim(
        display_name.as_str(),
    ).as_str().unicode_len() == 0 || members.len() < 2 {
        return Err(violation);
    }
    let mut k: usize = 0;
    while k < members.len()
        invariant
            k <= members@.len(),
            forall|q: int| 0 <= q < k ==> member_ok(#[trigger] members@[q], q, account_id),
        decreases members.len() - k,
    {
        if !member_is_ok(&members[k], k, account_id) {
            assert(!member_ok(members@[k as int], k as int, account_id));
            return Err(EventContinuationStorageError::DataInvariantViolation);
        }
        k = k + 1;
    }
    let last = members.len() - 1;
    let tail = &members[last];
    assert(member_ok(members@[last as int], last as int, account_id));
    let next_position = match tail.position.checked_add(1) {
        Some(p) => p,
        None => return Err(violation),
    };
    let tail_event_name = match &tail.event_name {
        Some(name) => name.clone(),
        None => return Err(violation),
    };
    Ok(
        ContinuationSeriesSnapshot {
            series_id: Some(m.series_id),
            series_name: display_name,
            tail_event_public_id: tail.event_public_id.clone(),
            tail_event_name,
            next_position,
        },
    )
}

/// The plan offered for continuing an event: the series it joins, its current last event,
/// and the name suggested for the next one.
pub fn continuation_plan(
    origin_event_public_id: &str,
    origin_event_name: String,
    snapshot: ContinuationSeriesSnapshot,
) -> (p: EventContinuationPlan)
    ensures
        p.origin_event_public_id@ == origin_event_public_id@,
        p.origin_event_name == origin_event_name,
        p.series_name == snapshot.series_name,
        p.tail_event_public_id == snapshot.tail_event_public_id,
        match p.suggested_event_name {
            Some(s) => suggested_next_name(snapshot.tail_event_name@) == Some(s@),
            None => suggested_next_name(snapshot.tail_event_name@) is None,
        },
{
    let suggested_event_name = suggest_next_event_name(snapshot.tail_event_name.as_str());
    EventContinuationPlan {
        origin_event_public_id: String::from_str(origin_event_public_id),
        origin_event_name,
        series_name: snapshot.series_name,
        tail_event_public_id: snapshot.tail_event_public_id,
        suggested_event_name,
    }
}

/// Where a new event joins its series: the stored series to reuse, if any, and its
/// position; a plan made against another last event is stale.
pub fn continuation_target(snapshot: &ContinuationSeriesSnapshot, expected_tail_event_public_id: &str) -> (r:
    Result<(Option<i64>, i64), EventContinuationStorageError>)
    ensures
        match r {
            Ok((series_id, position)) => snapshot.tail_event_public_id@ == expected_tail_event_public_id@
                && series_id == snapshot.series_id && position == snapshot.next_position,
            Err(e) => snapshot.tail_event_public_id@ != expected_tail_event_public_id@ && e
                == EventContinuationStorageError::Stale,
        },
{
    if !crate::text::str_eq(snapshot.tail_event_public_id.as_str(), expected_tail_event_public_id) {
        return Err(EventContinuationStorageError::Stale);
    }
    Ok((snapshot.series_id, snapshot.next_position))
}

} // verus!
