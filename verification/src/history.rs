//! The account history projection built from the rows the history queries return.

use vstd::prelude::*;
use vstd::string::*;
use crate::domain::account::{
    AccountHistory, HistoryDecision, OrganizedEventHistoryItem, OrganizedEventSeriesHistory,
    ParticipatedEventHistoryItem,
};
use crate::storage::{history_decision, reversed, AccountHistoryStorageError};
use crate::ui::{
    candidate_le, lemma_candidate_le_order, lemma_text_le_total, text_le, text_less_or_equal,
};

verus! {

/// One row of the organizer's series query: a series and, when it has any, one member
/// event with its decision and response count.
pub struct OrganizedSeriesHistoryRow {
    pub series_id: i64,
    pub display_name: String,
    pub member_owner_account_id: Option<i64>,
    pub event_public_id: Option<String>,
    pub position: Option<i64>,
    pub name: Option<String>,
    pub time_zone: Option<String>,
    pub created_at: Option<String>,
    pub organizer_account_id: Option<i64>,
    pub local_date: Option<String>,
    pub local_time: Option<String>,
    pub response_count: Option<i64>,
}

/// One row of the organizer's standalone-event query.
pub struct OrganizedHistoryRow {
    pub public_id: String,
    pub name: String,
    pub time_zone: String,
    pub local_date: Option<String>,
    pub local_time: Option<String>,
    pub response_count: i64,
}

/// One row of the participant's event query.
pub struct ParticipatedHistoryRow {
    pub public_id: String,
    pub name: String,
    pub time_zone: String,
    pub local_date: Option<String>,
    pub local_time: Option<String>,
}

/// A history item as plain values: identifier, name, time zone, decided date and time,
/// response count.
pub type ItemView = (Seq<char>, Seq<char>, Seq<char>, Option<(Seq<char>, Seq<char>)>, int);

/// A series being assembled: identifier, name, latest member's creation time and
/// identifier, and its members in position order.
pub type BuilderView = (int, Seq<char>, Seq<char>, Seq<char>, Seq<ItemView>);

pub open spec fn decision_view(d: Option<HistoryDecision>) -> Option<(Seq<char>, Seq<char>)> {
    match d {
        Some(h) => Some((h.local_date@, h.local_time@)),
        None => None,
    }
}

pub open spec fn item_view(i: OrganizedEventHistoryItem) -> ItemView {
    (i.public_id@, i.name@, i.time_zone@, decision_view(i.decision), i.response_count as int)
}

pub open spec fn items_view(v: Seq<OrganizedEventHistoryItem>) -> Seq<ItemView> {
    v.map_values(|i: OrganizedEventHistoryItem| item_view(i))
}

pub open spec fn opt_text(o: Option<String>) -> Option<Seq<char>> {
    match o {
        Some(s) => Some(s@),
        None => None,
    }
}

/// The decided date and time of a row, when both or neither are present.
pub open spec fn row_decision(
    local_date: Option<String>,
    local_time: Option<String>,
) -> Result<Option<(Seq<char>, Seq<char>)>, ()> {
    match (local_date, local_time) {
        (None, None) => Ok(None),
        (Some(d), Some(t)) => Ok(Some((d@, t@))),
        _ => Err(()),
    }
}

/// One series row added to the series assembled so far: a row must be complete and
/// belong to the account; a new series starts when the series changes, and the series
/// it closes must have at least two members; each member must come at the next position
/// under the same series name.
pub open spec fn series_step(
    state: Result<Seq<BuilderView>, ()>,
    row: OrganizedSeriesHistoryRow,
    account_id: int,
) -> Result<Seq<BuilderView>, ()> {
    match state {
        Err(()) => Err(()),
        Ok(bs) => match (
            row.member_owner_account_id,
            row.event_public_id,
            row.position,
            row.name,
            row.time_zone,
            row.created_at,
            row.organizer_account_id,
            row.response_count,
        ) {
            (
                Some(member),
                Some(public_id),
                Some(position),
                Some(name),
                Some(time_zone),
                Some(created_at),
                Some(organizer),
                Some(count),
            ) => {
                let starts = bs.len() == 0 || bs.last().0 != row.series_id;
                if member != account_id || organizer != account_id {
                    Err(())
                } else if starts && bs.len() > 0 && bs.last().4.len() < 2 {
                    Err(())
                } else {
                    let bs1 = if starts {
                        bs.push(
                            (
                                row.series_id as int,
                                row.display_name@,
                                created_at@,
                                public_id@,
                                Seq::empty(),
                            ),
                        )
                    } else {
                        bs
                    };
                    let b = bs1.last();
                    if position != b.4.len() || b.1 != row.display_name@ {
                        Err(())
                    } else {
                        match row_decision(row.local_date, row.local_time) {
                            Err(()) => Err(()),
                            Ok(decision) => if count < 0 {
                                Err(())
                            } else {
                                Ok(
                                    bs1.update(
                                        bs1.len() - 1,
                                        (
                                            b.0,
                                            b.1,
                                            created_at@,
                                            public_id@,
                                            b.4.push(
                                                (
                                                    public_id@,
                                                    name@,
                                                    time_zone@,
                                                    decision,
                                                    count as int,
                                                ),
                                            ),
                                        ),
                                    ),
                                )
                            },
                        }
                    }
                }
            },
            _ => Err(()),
        },
    }
}

/// The series assembled from all rows in order.
pub open spec fn series_fold(rows: Seq<OrganizedSeriesHistoryRow>, account_id: int) -> Result<
    Seq<BuilderView>,
    (),
>
    decreases rows.len(),
{
    if rows.len() == 0 {
        Ok(Seq::empty())
    } else {
        series_step(series_fold(rows.drop_last(), account_id), rows.last(), account_id)
    }
}

/// `a` was created later than `b`, or at the same time under a later identifier.
pub open spec fn newer(a: BuilderView, b: BuilderView) -> bool {
    if a.2 != b.2 {
        text_le(b.2, a.2)
    } else {
        a.3 != b.3 && text_le(b.3, a.3)
    }
}

/// How many series of `sorted` do not come after `x`: `x` goes in behind them.
pub open spec fn not_older_count(sorted: Seq<BuilderView>, x: BuilderView) -> int
    decreases sorted.len(),
{
    if sorted.len() == 0 {
        0
    } else {
        not_older_count(sorted.drop_last(), x) + if newer(x, sorted.last()) {
            0int
        } else {
            1int
        }
    }
}

/// The series newest first, as a stable sort orders them.
pub open spec fn newest_first(bs: Seq<BuilderView>) -> Seq<BuilderView>
    decreases bs.len(),
{
    if bs.len() == 0 {
        Seq::empty()
    } else {
        let rest = newest_first(bs.drop_last());
        rest.insert(not_older_count(rest, bs.last()), bs.last())
    }
}

/// The series are in newest-first order: no series is newer than one before it.
pub open spec fn newest_first_ordered(bs: Seq<BuilderView>) -> bool {
    forall|i: int, j: int| 0 <= i < j < bs.len() ==> !newer(#[trigger] bs[j], #[trigger] bs[i])
}

/// Not being newer is the order of creation time, then identifier.
proof fn lemma_not_newer_is_key_order(a: BuilderView, b: BuilderView)
    ensures
        !newer(a, b) <==> candidate_le((a.2, a.3), (b.2, b.3)),
{
    lemma_text_le_total(a.2, b.2);
    lemma_text_le_total(a.3, b.3);
}

/// In newest-first order, the series that `x` is not newer than come first.
proof fn lemma_not_older_prefix(sorted: Seq<BuilderView>, x: BuilderView)
    requires
        newest_first_ordered(sorted),
    ensures
        0 <= not_older_count(sorted, x) <= sorted.len(),
        forall|i: int| 0 <= i < not_older_count(sorted, x) ==> !newer(x, #[trigger] sorted[i]),
        forall|i: int| not_older_count(sorted, x) <= i < sorted.len() ==> newer(x, #[trigger] sorted[i]),
    decreases sorted.len(),
{
    if sorted.len() > 0 {
        let r = sorted.drop_last();
        let last = sorted.last();
        assert forall|i: int, j: int| 0 <= i < j < r.len() implies !newer(#[trigger] r[j], #[trigger] r[i]) by {
            assert(r[i] == sorted[i] && r[j] == sorted[j]);
        }
        lemma_not_older_prefix(r, x);
        let k = not_older_count(r, x);
        if !newer(x, last) {
            assert forall|i: int| 0 <= i < sorted.len() - 1 implies !newer(x, #[trigger] sorted[i]) by {
                assert(!newer(sorted[sorted.len() - 1], sorted[i]));
                lemma_not_newer_is_key_order(x, last);
                lemma_not_newer_is_key_order(last, sorted[i]);
                lemma_not_newer_is_key_order(x, sorted[i]);
                lemma_candidate_le_order((x.2, x.3), (last.2, last.3), (sorted[i].2, sorted[i].3));
            }
            if k < r.len() {
                assert(newer(x, r[k]));
                assert(r[k] == sorted[k]);
            }
        }
        assert forall|i: int| 0 <= i < not_older_count(sorted, x) implies !newer(x, #[trigger] sorted[i]) by {
            if i < r.len() {
                assert(r[i] == sorted[i]);
            }
        }
        assert forall|i: int| not_older_count(sorted, x) <= i < sorted.len() implies newer(x, #[trigger] sorted[i]) by {
            if i < r.len() {
                assert(r[i] == sorted[i]);
            }
        }
    }
}

/// Sorting the series newest first gives each series once and puts none after one that is
/// older: the order the organizer's history shows.
pub proof fn lemma_newest_first_orders_series(bs: Seq<BuilderView>)
    ensures
        newest_first(bs).to_multiset() == bs.to_multiset(),
        newest_first_ordered(newest_first(bs)),
    decreases bs.len(),
{
    broadcast use vstd::seq_lib::to_multiset_insert, vstd::seq_lib::to_multiset_build;

    if bs.len() == 0 {
        assert(newest_first(bs) =~= Seq::<BuilderView>::empty());
        assert(bs =~= Seq::<BuilderView>::empty());
    } else {
        let init = bs.drop_last();
        let x = bs.last();
        lemma_newest_first_orders_series(init);
        let rest = newest_first(init);
        lemma_not_older_prefix(rest, x);
        let k = not_older_count(rest, x);
        let out = rest.insert(k, x);
        assert(newest_first(bs) == out);
        assert(bs =~= init.push(x));
        assert(out.to_multiset() == rest.to_multiset().insert(x));
        assert(bs.to_multiset() =~= init.to_multiset().insert(x));
        assert(newest_first(bs).to_multiset() =~= bs.to_multiset());
        assert forall|i: int, j: int| 0 <= i < j < out.len() implies !newer(#[trigger] out[j], #[trigger] out[i]) by {
            if j < k {
                assert(out[i] == rest[i] && out[j] == rest[j]);
            } else if j == k {
                assert(out[i] == rest[i]);
            } else if i == k {
                assert(out[j] == rest[j - 1]);
                assert(newer(x, rest[j - 1]));
                lemma_not_newer_is_key_order(rest[j - 1], x);
                lemma_not_newer_is_key_order(x, rest[j - 1]);
                lemma_candidate_le_order((x.2, x.3), (rest[j - 1].2, rest[j - 1].3), (x.2, x.3));
                lemma_text_le_total(x.2, rest[j - 1].2);
                lemma_text_le_total(x.3, rest[j - 1].3);
            } else if i < k {
                assert(out[i] == rest[i] && out[j] == rest[j - 1]);
            } else {
                assert(out[i] == rest[i - 1] && out[j] == rest[j - 1]);
            }
        }
    }
}

/// A series as shown: its name and its members, the latest first.
pub open spec fn shown_series(b: BuilderView) -> (Seq<char>, Seq<ItemView>) {
    (b.1, b.4.reverse())
}

/// The organizer's series history, or `None` where the rows break an invariant.
pub open spec fn series_history(rows: Seq<OrganizedSeriesHistoryRow>, account_id: int) -> Option<
    Seq<(Seq<char>, Seq<ItemView>)>,
> {
    match series_fold(rows, account_id) {
        Err(()) => None,
        Ok(bs) => if bs.len() > 0 && bs.last().4.len() < 2 {
            None
        } else {
            Some(newest_first(bs).map_values(|b: BuilderView| shown_series(b)))
        },
    }
}

pub open spec fn series_view(s: OrganizedEventSeriesHistory) -> (Seq<char>, Seq<ItemView>) {
    (s.series_name@, items_view(s.events@))
}

struct SeriesBuilder {
    series_id: i64,
    series_name: String,
    latest_created_at: String,
    latest_public_id: String,
    events: Vec<OrganizedEventHistoryItem>,
}

spec fn builder_view(b: SeriesBuilder) -> BuilderView {
    (b.series_id as int, b.series_name@, b.latest_created_at@, b.latest_public_id@, items_view(b.events@))
}

spec fn builders_view(v: Seq<SeriesBuilder>) -> Seq<BuilderView> {
    v.map_values(|b: SeriesBuilder| builder_view(b))
}

fn decision_of(local_date: Option<String>, local_time: Option<String>) -> (r: Result<
    Option<HistoryDecision>,
    AccountHistoryStorageError,
>)
    ensures
        match row_decision(local_date, local_time) {
            Ok(d) => r matches Ok(x) && decision_view(x) == d,
            Err(()) => r == Err::<Option<HistoryDecision>, AccountHistoryStorageError>(
                AccountHistoryStorageError::DataInvariantViolation,
            ),
        },
{
    history_decision(local_date, local_time)
}

/// Add one series row to the series assembled so far.
fn add_series_row(builders: &mut Vec<SeriesBuilder>, row: OrganizedSeriesHistoryRow, account_id: i64) -> (r:
    Result<(), AccountHistoryStorageError>)
    ensures
        match series_step(Ok(builders_view(old(builders)@)), row, account_id as int) {
            Ok(bs) => r is Ok && builders_view(final(builders)@) == bs,
            Err(()) => r == Err::<(), AccountHistoryStorageError>(
                AccountHistoryStorageError::DataInvariantViolation,
            ),
        },
{
    let ghost bs = builders_view(builders@);
    let ghost spec_row = row;
    let violation = AccountHistoryStorageError::DataInvariantViolation;
    let OrganizedSeriesHistoryRow {
        series_id,
        display_name,
        member_owner_account_id,
        event_public_id,
        position,
        name,
        time_zone,
        created_at,
        organizer_account_id,
        local_date,
        local_time,
        response_count,
    } = row;
    let (member, public_id, position, name, time_zone, created_at, organizer, count) = match (
        member_owner_account_id,
        event_public_id,
        position,
        name,
        time_zone,
        created_at,
        organizer_account_id,
        response_count,
    ) {
        (
            Some(member),
            Some(public_id),
            Some(position),
            Some(name),
            Some(time_zone),
            Some(created_at),
            Some(organizer),
            Some(count),
        ) => (member, public_id, position, name, time_zone, created_at, organizer, count),
        _ => return Err(violation),
    };
    if member != account_id || organizer != account_id {
        return Err(violation);
    }
    let n = builders.len();
    let starts = n == 0 || builders[n - 1].series_id != series_id;
    if starts && n > 0 && builders[n - 1].events.len() < 2 {
        return Err(violation);
    }
    if starts {
        builders.push(
            SeriesBuilder {
                series_id,
                series_name: display_name.clone(),
                latest_created_at: created_at.clone(),
                latest_public_id: public_id.clone(),
                events: Vec::new(),
            },
        );
        proof {
            assert(items_view(Seq::<OrganizedEventHistoryItem>::empty()) =~= Seq::<ItemView>::empty());
            assert(builders_view(builders@) =~= bs.push(
                (series_id as int, display_name@, created_at@, public_id@, Seq::empty()),
            ));
        }
    }
    let ghost bs1 = builders_view(builders@);
    let last = builders.len() - 1;
    let expected = builders[last].events.len();
    if position < 0 || position as u64 != expected as u64 || !crate::text::str_eq(
        builders[last].series_name.as_str(),
        display_name.as_str(),
    ) {
        return Err(violation);
    }
    let decision = match decision_of(local_date, local_time) {
        Ok(d) => d,
        Err(e) => return Err(e),
    };
    if count < 0 {
        return Err(violation);
    }
    let mut b = builders.pop().unwrap();
    let item = OrganizedEventHistoryItem {
        public_id: public_id.clone(),
        name,
        time_zone,
        decision,
        response_count: count as u64,
    };
    let ghost old_events = items_view(b.events@);
    b.events.push(item);
    b.latest_created_at = created_at;
    b.latest_public_id = public_id;
    proof {
        assert(items_view(b.events@) =~= old_events.push(item_view(item)));
    }
    let ghost popped = builders_view(builders@);
    builders.push(b);
    proof {
        assert(popped =~= bs1.drop_last());
        assert(builders_view(builders@) =~= bs1.update(bs1.len() - 1, builder_view(b)));
    }
    Ok(())
}

proof fn lemma_not_older_count_bound(sorted: Seq<BuilderView>, x: BuilderView)
    ensures
        0 <= not_older_count(sorted, x) <= sorted.len(),
    decreases sorted.len(),
{
    if sorted.len() > 0 {
        lemma_not_older_count_bound(sorted.drop_last(), x);
    }
}

fn is_newer(a: &SeriesBuilder, b: &SeriesBuilder) -> (r: bool)
    ensures
        r == newer(builder_view(*a), builder_view(*b)),
{
    if !crate::text::str_eq(a.latest_created_at.as_str(), b.latest_created_at.as_str()) {
        text_less_or_equal(b.latest_created_at.as_str(), a.latest_created_at.as_str())
    } else {
        !crate::text::str_eq(a.latest_public_id.as_str(), b.latest_public_id.as_str())
            && text_less_or_equal(b.latest_public_id.as_str(), a.latest_public_id.as_str())
    }
}

/// Sort the series newest first, keeping the order of equally new ones.
#[verifier::spinoff_prover]
#[verifier::rlimit(40)]
fn sort_newest_first(builders: Vec<SeriesBuilder>) -> (r: Vec<SeriesBuilder>)
    ensures
        builders_view(r@) == newest_first(builders_view(builders@)),
{
    let ghost all = builders_view(builders@);
    let mut pending = builders;
    let mut sorted: Vec<SeriesBuilder> = Vec::new();
    let n = pending.len();
    let mut i: usize = 0;
    assert(all.take(0) =~= Seq::<BuilderView>::empty());
    assert(builders_view(sorted@) =~= Seq::<BuilderView>::empty());
    proof {
        assert(builders_view(pending@) =~= all);
    }
    pending = reversed(pending);
    proof {
        assert(builders_view(pending@) =~= all.reverse());
    }
    while i < n
        invariant
            n == all.len(),
            i <= n,
            builders_view(pending@) == all.reverse().take((n - i) as int),
            pending@.len() == n - i,
            builders_view(sorted@) == newest_first(all.take(i as int)),
        decreases n - i,
    {
        let ghost pv = builders_view(pending@);
        let x = pending.pop().unwrap();
        proof {
            assert(pv.last() == all.reverse()[(n - i - 1) as int]);
            assert(all.reverse()[(n - i - 1) as int] == all[i as int]);
            assert(builder_view(x) == all[i as int]);
            assert(builders_view(pending@) =~= all.reverse().take((n - i - 1) as int));
        }
        let ghost sv = builders_view(sorted@);
        let mut p: usize = 0;
        let mut count: usize = 0;
        assert(sv.take(0) =~= Seq::<BuilderView>::empty());
        while p < sorted.len()
            invariant
                p <= sorted@.len(),
                sv == builders_view(sorted@),
                count <= p,
                count == not_older_count(sv.take(p as int), builder_view(x)),
            decreases sorted.len() - p,
        {
            assert(sv.take(p + 1).drop_last() =~= sv.take(p as int));
            if !is_newer(&x, &sorted[p]) {
                count = count + 1;
            }
            p = p + 1;
        }
        assert(sv.take(sv.len() as int) =~= sv);
        proof {
            lemma_not_older_count_bound(sv, builder_view(x));
        }
        sorted.insert(count, x);
        proof {
            assert(builders_view(sorted@) =~= sv.insert(count as int, builder_view(x)));
            assert(all.take(i + 1).drop_last() =~= all.take(i as int));
            assert(all.take(i + 1).last() == all[i as int]);
        }
        i = i + 1;
    }
    assert(all.take(n as int) =~= all);
    sorted
}

/// Assemble the organizer's series history from the series rows of `account_id`.
pub fn build_organized_series(rows: Vec<OrganizedSeriesHistoryRow>, account_id: i64) -> (r: Result<
    Vec<OrganizedEventSeriesHistory>,
    AccountHistoryStorageError,
>)
    ensures
        match series_history(rows@, account_id as int) {
            Some(h) => r matches Ok(v) && v@.map_values(
                |s: OrganizedEventSeriesHistory| series_view(s),
            ) == h,
            None => r == Err::<Vec<OrganizedEventSeriesHistory>, AccountHistoryStorageError>(
                AccountHistoryStorageError::DataInvariantViolation,
            ),
        },
{
    let ghost all = rows@;
    let mut builders: Vec<SeriesBuilder> = Vec::new();
    let mut rest = rows;
    rest = reversed(rest);
    let n = rest.len();
    let mut i: usize = 0;
    assert(all.take(0) =~= Seq::<OrganizedSeriesHistoryRow>::empty());
    assert(builders_view(builders@) =~= Seq::<BuilderView>::empty());
    while i < n
        invariant
            n == all.len(),
            all == rows@,
            i <= n,
            rest@ == all.reverse().take((n - i) as int),
            series_fold(all.take(i as int), account_id as int) == Ok::<Seq<BuilderView>, ()>(
                builders_view(builders@),
            ),
        decreases n - i,
    {
        let ghost rv = rest@;
        let row = rest.pop().unwrap();
        proof {
            assert(rv.last() == all.reverse()[(n - i - 1) as int]);
            assert(all.reverse()[(n - i - 1) as int] == all[i as int]);
            assert(rest@ =~= all.reverse().take((n - i - 1) as int));
            assert(all.take(i + 1).drop_last() =~= all.take(i as int));
            assert(all.take(i + 1).last() == all[i as int]);
        }
        let ghost bv = builders_view(builders@);
        let ghost spec_row = row;
        assert(series_fold(all.take(i + 1), account_id as int) == series_step(
            Ok(bv),
            spec_row,
            account_id as int,
        ));
        match add_series_row(&mut builders, row, account_id) {
            Ok(()) => {},
            Err(e) => {
                proof {
                    lemma_series_fold_stays_failed(all, account_id as int, i as int + 1);
                }
                return Err(e);
            },
        }
        i = i + 1;
    }
    assert(all.take(n as int) =~= all);
    let m = builders.len();
    if m > 0 && builders[m - 1].events.len() < 2 {
        return Err(AccountHistoryStorageError::DataInvariantViolation);
    }
    let sorted = sort_newest_first(builders);
    let ghost sv = builders_view(sorted@);
    let mut out: Vec<OrganizedEventSeriesHistory> = Vec::new();
    let mut source = sorted;
    source = reversed(source);
    let k = source.len();
    let mut j: usize = 0;
    while j < k
        invariant
            k == sv.len(),
            j <= k,
            builders_view(source@) == sv.reverse().take((k - j) as int),
            source@.len() == k - j,
            out@.len() == j,
            forall|q: int| 0 <= q < j ==> #[trigger] series_view(out@[q]) == shown_series(sv[q]),
        decreases k - j,
    {
        let ghost before = builders_view(source@);
        let mut b = source.pop().unwrap();
        proof {
            assert(before.last() == sv.reverse()[(k - j - 1) as int]);
            assert(sv.reverse()[(k - j - 1) as int] == sv[j as int]);
            assert(builders_view(source@) =~= sv.reverse().take((k - j - 1) as int));
        }
        let ghost events = items_view(b.events@);
        b.events = reversed(b.events);
        proof {
            assert(items_view(b.events@) =~= events.reverse());
        }
        out.push(OrganizedEventSeriesHistory { series_name: b.series_name, events: b.events });
        j = j + 1;
    }
    assert(out@.map_values(|s: OrganizedEventSeriesHistory| series_view(s)) =~= sv.map_values(
        |b: BuilderView| shown_series(b),
    ));
    Ok(out)
}

/// A standalone row as a history item, or `Err` where its stored fields break an invariant.
pub open spec fn standalone_item(row: OrganizedHistoryRow) -> Result<ItemView, ()> {
    match row_decision(row.local_date, row.local_time) {
        Err(()) => Err(()),
        Ok(d) => if row.response_count < 0 {
            Err(())
        } else {
            Ok((row.public_id@, row.name@, row.time_zone@, d, row.response_count as int))
        },
    }
}

/// A participated row as a history item: identifier, name, time zone and decision.
pub open spec fn participated_item(row: ParticipatedHistoryRow) -> Result<
    (Seq<char>, Seq<char>, Seq<char>, Option<(Seq<char>, Seq<char>)>),
    (),
> {
    match row_decision(row.local_date, row.local_time) {
        Err(()) => Err(()),
        Ok(d) => Ok((row.public_id@, row.name@, row.time_zone@, d)),
    }
}

pub open spec fn participated_view(i: ParticipatedEventHistoryItem) -> (
    Seq<char>,
    Seq<char>,
    Seq<char>,
    Option<(Seq<char>, Seq<char>)>,
) {
    (i.public_id@, i.name@, i.time_zone@, decision_view(i.decision))
}

pub open spec fn standalone_ok(rows: Seq<OrganizedHistoryRow>) -> bool {
    forall|k: int| 0 <= k < rows.len() ==> #[trigger] standalone_item(rows[k]) is Ok
}

pub open spec fn participated_ok(rows: Seq<ParticipatedHistoryRow>) -> bool {
    forall|k: int| 0 <= k < rows.len() ==> #[trigger] participated_item(rows[k]) is Ok
}

/// Turn the organizer's standalone rows into history items, in the order the query gave.
pub fn build_organized_standalone(rows: Vec<OrganizedHistoryRow>) -> (r: Result<
    Vec<OrganizedEventHistoryItem>,
    AccountHistoryStorageError,
>)
    ensures
        match r {
            Ok(v) => standalone_ok(rows@) && v@.len() == rows@.len() && forall|k: int|
                0 <= k < rows@.len() ==> standalone_item(rows@[k]) == Ok::<ItemView, ()>(
                    #[trigger] item_view(v@[k]),
                ),
            Err(e) => !standalone_ok(rows@) && e == AccountHistoryStorageError::DataInvariantViolation,
        },
{
    let ghost all = rows@;
    let mut rest = reversed(rows);
    let n = rest.len();
    let mut out: Vec<OrganizedEventHistoryItem> = Vec::new();
    let mut i: usize = 0;
    while i < n
        invariant
            n == all.len(),
            all == rows@,
            i <= n,
            rest@ == all.reverse().take((n - i) as int),
            out@.len() == i,
            forall|k: int| 0 <= k < i ==> #[trigger] standalone_item(all[k]) is Ok,
            forall|k: int| 0 <= k < i ==> standalone_item(all[k]) == Ok::<ItemView, ()>(
                #[trigger] item_view(out@[k]),
            ),
        decreases n - i,
    {
        let ghost rv = rest@;
        let row = rest.pop().unwrap();
        proof {
            assert(rv.last() == all.reverse()[(n - i - 1) as int]);
            assert(rest@ =~= all.reverse().take((n - i - 1) as int));
        }
        let ghost spec_row = row;
        assert(spec_row == all[i as int]);
        let OrganizedHistoryRow { public_id, name, time_zone, local_date, local_time, response_count } =
            row;
        let decision = match history_decision(local_date, local_time) {
            Ok(d) => d,
            Err(e) => {
                assert(standalone_item(all[i as int]) is Err);
                return Err(e);
            },
        };
        if response_count < 0 {
            assert(standalone_item(all[i as int]) is Err);
            return Err(AccountHistoryStorageError::DataInvariantViolation);
        }
        let item = OrganizedEventHistoryItem {
            public_id,
            name,
            time_zone,
            decision,
            response_count: response_count as u64,
        };
        out.push(item);
        proof {
            assert(item_view(out@[i as int]) == item_view(item));
            assert(decision_view(decision) == row_decision(spec_row.local_date, spec_row.local_time)->Ok_0);
        }
        i = i + 1;
    }
    Ok(out)
}

/// Turn the participant's rows into history items, in the order the query gave.
pub fn build_participated(rows: Vec<ParticipatedHistoryRow>) -> (r: Result<
    Vec<ParticipatedEventHistoryItem>,
    AccountHistoryStorageError,
>)
    ensures
        match r {
            Ok(v) => participated_ok(rows@) && v@.len() == rows@.len() && forall|k: int|
                0 <= k < rows@.len() ==> participated_item(rows@[k]) == Ok::<
                    (Seq<char>, Seq<char>, Seq<char>, Option<(Seq<char>, Seq<char>)>),
                    (),
                >(#[trigger] participated_view(v@[k])),
            Err(e) => !participated_ok(rows@) && e == AccountHistoryStorageError::DataInvariantViolation,
        },
{
    let ghost all = rows@;
    let mut rest = reversed(rows);
    let n = rest.len();
    let mut out: Vec<ParticipatedEventHistoryItem> = Vec::new();
    let mut i: usize = 0;
    while i < n
        invariant
            n == all.len(),
            all == rows@,
            i <= n,
            rest@ == all.reverse().take((n - i) as int),
            out@.len() == i,
            forall|k: int| 0 <= k < i ==> #[trigger] participated_item(all[k]) is Ok,
            forall|k: int| 0 <= k < i ==> participated_item(all[k]) == Ok::<
                (Seq<char>, Seq<char>, Seq<char>, Option<(Seq<char>, Seq<char>)>),
                (),
            >(#[trigger] participated_view(out@[k])),
        decreases n - i,
    {
        let ghost rv = rest@;
        let row = rest.pop().unwrap();
        proof {
            assert(rv.last() == all.reverse()[(n - i - 1) as int]);
            assert(rest@ =~= all.reverse().take((n - i - 1) as int));
        }
        let ghost spec_row = row;
        assert(spec_row == all[i as int]);
        let ParticipatedHistoryRow { public_id, name, time_zone, local_date, local_time } = row;
        let decision = match history_decision(local_date, local_time) {
            Ok(d) => d,
            Err(e) => {
                assert(participated_item(all[i as int]) is Err);
                return Err(e);
            },
        };
        let item = ParticipatedEventHistoryItem { public_id, name, time_zone, decision };
        out.push(item);
        proof {
            assert(participated_view(out@[i as int]) == participated_view(item));
        }
        i = i + 1;
    }
    Ok(out)
}

/// The history of one account from the rows of its three queries, or the data invariant
/// violation that any of them shows.
pub fn assemble_account_history(
    login_id: String,
    account_id: i64,
    series_rows: Vec<OrganizedSeriesHistoryRow>,
    standalone_rows: Vec<OrganizedHistoryRow>,
    participated_rows: Vec<ParticipatedHistoryRow>,
) -> (r: Result<AccountHistory, AccountHistoryStorageError>)
    ensures
        match r {
            Ok(h) => {
                &&& series_history(series_rows@, account_id as int) is Some
                &&& standalone_ok(standalone_rows@)
                &&& participated_ok(participated_rows@)
                &&& h.login_id == login_id
                &&& h.organized_series@.map_values(|s: OrganizedEventSeriesHistory| series_view(s))
                    == series_history(series_rows@, account_id as int)->Some_0
                &&& h.organized_standalone@.len() == standalone_rows@.len()
                &&& forall|k: int|
                    0 <= k < standalone_rows@.len() ==> standalone_item(standalone_rows@[k]) == Ok::<
                        ItemView,
                        (),
                    >(#[trigger] item_view(h.organized_standalone@[k]))
                &&& h.participated@.len() == participated_rows@.len()
                &&& forall|k: int|
                    0 <= k < participated_rows@.len() ==> participated_item(participated_rows@[k])
                        == Ok::<
                        (Seq<char>, Seq<char>, Seq<char>, Option<(Seq<char>, Seq<char>)>),
                        (),
                    >(#[trigger] participated_view(h.participated@[k]))
            },
            Err(e) => {
                &&& !(series_history(series_rows@, account_id as int) is Some && standalone_ok(
                    standalone_rows@,
                ) && participated_ok(participated_rows@))
                &&& e == AccountHistoryStorageError::DataInvariantViolation
            },
        },
{
    let organized_series = match build_organized_series(series_rows, account_id) {
        Ok(v) => v,
        Err(e) => return Err(e),
    };
    let organized_standalone = match build_organized_standalone(standalone_rows) {
        Ok(v) => v,
        Err(e) => return Err(e),
    };
    let participated = match build_participated(participated_rows) {
        Ok(v) => v,
        Err(e) => return Err(e),
    };
    Ok(AccountHistory { login_id, organized_standalone, organized_series, participated })
}

/// Once the rows fail, more rows do not mend them.
proof fn lemma_series_fold_stays_failed(rows: Seq<OrganizedSeriesHistoryRow>, account_id: int, k: int)
    requires
        0 < k <= rows.len(),
        series_fold(rows.take(k), account_id) is Err,
    ensures
        series_fold(rows, account_id) is Err,
    decreases rows.len() - k,
{
    if k < rows.len() {
        assert(rows.take(k + 1).drop_last() =~= rows.take(k));
        lemma_series_fold_stays_failed(rows, account_id, k + 1);
    } else {
        assert(rows.take(k) =~= rows);
    }
}

} // verus!
