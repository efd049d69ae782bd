//! Organizer-only requests, response summaries, and the full response matrix.

use vstd::prelude::*;
use vstd::string::*;
use crate::domain::account::text_of;
use crate::domain::fields::{capability_is_valid, is_capability, is_public_id, public_id_is_valid};
use crate::domain::response::Availability;
use crate::text::{trim, trimmed};

verus! {

pub const ORGANIZER_CAPABILITY_HEX_LENGTH: usize = 64;

pub open spec fn msg_event_unknown() -> Seq<char> {
    "イベントを確認できませんでした。"@
}

pub open spec fn msg_recovery_key() -> Seq<char> {
    "主催者用の復旧キーを確認してください。"@
}

pub open spec fn msg_candidate_unknown() -> Seq<char> {
    "候補日時を確認してください。"@
}

/// Untrusted organizer authority used to request one private response summary.
#[derive(Clone, PartialEq, Eq)]
pub struct OrganizerSummaryInput {
    pub event_public_id: String,
    pub organizer_capability: String,
}

/// Request validation errors for an organizer-only response summary.
#[derive(Clone, Debug, PartialEq, Eq)]
pub struct OrganizerSummaryErrors {
    pub request: Option<String>,
}

impl Default for OrganizerSummaryErrors {
    fn default() -> (e: Self)
        ensures
            e.request is None,
    {
        OrganizerSummaryErrors { request: None }
    }
}

impl OrganizerSummaryErrors {
    pub fn is_empty(&self) -> (b: bool)
        ensures
            b == self.request is None,
    {
        self.request.is_none()
    }

    /// The request message, or nothing.
    pub fn message(&self) -> (s: String)
        ensures
            s@ == match self.request {
                Some(r) => r@,
                None => Seq::<char>::empty(),
            },
    {
        match &self.request {
            Some(r) => r.clone(),
            None => String::new(),
        }
    }
}

pub open spec fn summary_request_error(event_public_id: Seq<char>, capability: Seq<char>) -> Option<
    Seq<char>,
> {
    if !is_capability(capability) {
        Some(msg_recovery_key())
    } else if !is_public_id(event_public_id) {
        Some(msg_event_unknown())
    } else {
        None
    }
}

impl OrganizerSummaryInput {
    /// Normalize and validate identifiers without exposing the bearer capability.
    pub fn normalized_and_validated(&self) -> (r: Result<Self, OrganizerSummaryErrors>)
        ensures
            ({
                let id = trimmed(self.event_public_id@);
                let cap = trimmed(self.organizer_capability@);
                match r {
                    Ok(v) => summary_request_error(id, cap) is None && v.event_public_id@ == id
                        && v.organizer_capability@ == cap,
                    Err(e) => summary_request_error(id, cap) is Some && text_of(e.request)
                        == summary_request_error(id, cap),
                }
            }),
    {
        let event_public_id = trim(self.event_public_id.as_str());
        let organizer_capability = trim(self.organizer_capability.as_str());
        let mut errors = OrganizerSummaryErrors::default();
        if !public_id_is_valid(event_public_id.as_str()) {
            errors.request = Some(String::from_str("イベントを確認できませんでした。"));
        }
        if !capability_is_valid(organizer_capability.as_str()) {
            errors.request = Some(String::from_str("主催者用の復旧キーを確認してください。"));
        }
        if errors.is_empty() {
            Ok(OrganizerSummaryInput { event_public_id, organizer_capability })
        } else {
            Err(errors)
        }
    }
}

/// Untrusted organizer authority and candidate selection for one event decision.
#[derive(Clone, PartialEq, Eq)]
pub struct OrganizerDecisionInput {
    pub event_public_id: String,
    pub candidate_id: i64,
    pub organizer_capability: String,
}

/// Request validation errors for an organizer-only event decision.
#[derive(Clone, Debug, PartialEq, Eq)]
pub struct OrganizerDecisionErrors {
    pub request: Option<String>,
}

impl Default for OrganizerDecisionErrors {
    fn default() -> (e: Self)
        ensures
            e.request is None,
    {
        OrganizerDecisionErrors { request: None }
    }
}

impl OrganizerDecisionErrors {
    pub fn is_empty(&self) -> (b: bool)
        ensures
            b == self.request is None,
    {
        self.request.is_none()
    }

    /// The request message, or nothing.
    pub fn message(&self) -> (s: String)
        ensures
            s@ == match self.request {
                Some(r) => r@,
                None => Seq::<char>::empty(),
            },
    {
        match &self.request {
            Some(r) => r.clone(),
            None => String::new(),
        }
    }
}

pub open spec fn decision_request_error(
    event_public_id: Seq<char>,
    candidate_id: i64,
    capability: Seq<char>,
) -> Option<Seq<char>> {
    if !is_capability(capability) {
        Some(msg_recovery_key())
    } else if candidate_id <= 0 {
        Some(msg_candidate_unknown())
    } else if !is_public_id(event_public_id) {
        Some(msg_event_unknown())
    } else {
        None
    }
}

impl OrganizerDecisionInput {
    /// Normalize and validate identifiers without exposing the bearer capability.
    pub fn normalized_and_validated(&self) -> (r: Result<Self, OrganizerDecisionErrors>)
        ensures
            ({
                let id = trimmed(self.event_public_id@);
                let cap = trimmed(self.organizer_capability@);
                let err = decision_request_error(id, self.candidate_id, cap);
                match r {
                    Ok(v) => err is None && v.event_public_id@ == id && v.candidate_id
                        == self.candidate_id && v.organizer_capability@ == cap,
                    Err(e) => err is Some && text_of(e.request) == err,
                }
            }),
    {
        let event_public_id = trim(self.event_public_id.as_str());
        let organizer_capability = trim(self.organizer_capability.as_str());
        let mut errors = OrganizerDecisionErrors::default();
        if !public_id_is_valid(event_public_id.as_str()) {
            errors.request = Some(String::from_str("イベントを確認できませんでした。"));
        }
        if self.candidate_id <= 0 {
            errors.request = Some(String::from_str("候補日時を確認してください。"));
        }
        if !capability_is_valid(organizer_capability.as_str()) {
            errors.request = Some(String::from_str("主催者用の復旧キーを確認してください。"));
        }
        if errors.is_empty() {
            Ok(OrganizerDecisionInput {
                event_public_id,
                candidate_id: self.candidate_id,
                organizer_capability,
            })
        } else {
            Err(errors)
        }
    }
}

/// One bounded fact derived from a candidate's response counts.
#[derive(Clone, Copy, Debug, PartialEq, Eq, Structural)]
pub enum CandidateSummaryFact {
    EveryoneAvailable,
    EveryoneAvailableIncludingMaybe,
    OneUnavailable,
    UniqueMostAvailable,
}

/// Organizer-only aggregate for one candidate, retaining authored order.
#[derive(Clone, Debug, PartialEq, Eq)]
pub struct CandidateResponseSummary {
    pub id: i64,
    pub local_date: String,
    pub local_time: String,
    pub available_count: u64,
    pub maybe_count: u64,
    pub unavailable_count: u64,
    pub fact: Option<CandidateSummaryFact>,
}

/// One plain-text comment selected for the bounded organizer preview.
#[derive(Clone, Debug, PartialEq, Eq)]
pub struct ResponseCommentPreview {
    pub respondent_name: String,
    pub comment: String,
}

/// The one candidate explicitly selected by the organizer.
#[derive(Clone, Debug, PartialEq, Eq)]
pub struct OrganizerEventDecision {
    pub candidate_id: i64,
    pub local_date: String,
    pub local_time: String,
}

/// Organizer-only response summary loaded from one database snapshot.
#[derive(Clone, Debug, PartialEq, Eq)]
pub struct OrganizerEventSummary {
    pub public_id: String,
    pub name: String,
    pub organizer_note: Option<String>,
    pub time_zone: String,
    pub response_count: u64,
    pub candidates: Vec<CandidateResponseSummary>,
    pub comment_count: u64,
    pub comment_previews: Vec<ResponseCommentPreview>,
    pub decision: Option<OrganizerEventDecision>,
}

/// One candidate column in the organizer-only response matrix.
#[derive(Clone, Debug, PartialEq, Eq)]
pub struct ResponseMatrixCandidate {
    pub local_date: String,
    pub local_time: String,
}

/// One stored anonymous response projected across every candidate column.
#[derive(Clone, Debug, PartialEq, Eq)]
pub struct ResponseMatrixRow {
    pub respondent_name: String,
    pub availabilities: Vec<Availability>,
}

/// Complete response matrix loaded from one authorized database snapshot.
#[derive(Clone, Debug, PartialEq, Eq)]
pub struct ResponseMatrix {
    pub name: String,
    pub time_zone: String,
    pub candidates: Vec<ResponseMatrixCandidate>,
    pub responses: Vec<ResponseMatrixRow>,
}

/// Candidate `i` alone has the most ○ answers, and it has at least one.
pub open spec fn is_unique_most_available(cs: Seq<CandidateResponseSummary>, i: int) -> bool {
    &&& 0 <= i < cs.len()
    &&& cs[i].available_count > 0
    &&& forall|j: int| 0 <= j < cs.len() && j != i ==> #[trigger] cs[j].available_count < cs[i].available_count
}

/// The identifier of the candidate that alone has the most ○ answers, once anyone answered.
pub open spec fn unique_most_available_id(response_count: u64, cs: Seq<CandidateResponseSummary>) -> Option<i64> {
    if response_count != 0 && exists|i: int| is_unique_most_available(cs, i) {
        Some(cs[choose|i: int| is_unique_most_available(cs, i)].id)
    } else {
        None
    }
}

/// The one fact a candidate earns, in order of precedence.
pub open spec fn summary_fact(
    response_count: u64,
    c: CandidateResponseSummary,
    unique_most: Option<i64>,
) -> Option<CandidateSummaryFact> {
    if response_count == 0 {
        None
    } else if c.available_count == response_count {
        Some(CandidateSummaryFact::EveryoneAvailable)
    } else if c.unavailable_count == 0 {
        Some(CandidateSummaryFact::EveryoneAvailableIncludingMaybe)
    } else if c.unavailable_count == 1 {
        Some(CandidateSummaryFact::OneUnavailable)
    } else if unique_most == Some(c.id) {
        Some(CandidateSummaryFact::UniqueMostAvailable)
    } else {
        None
    }
}

/// What each fact means of a candidate's counts: everyone ○ means every respondent
/// answered ○; everyone ○ or △ means no ×; one × means exactly one ×; the unique most ○
/// means more ○ than any other candidate, with at least one, and is given only where at
/// least two × rule out the other facts. With no respondents no fact is given, and a
/// candidate that every respondent answered ○ always gets that fact.
pub proof fn lemma_summary_fact_meaning(
    response_count: u64,
    cs: Seq<CandidateResponseSummary>,
    k: int,
)
    requires
        0 <= k < cs.len(),
    ensures
        ({
            let c = cs[k];
            let fact = summary_fact(response_count, c, unique_most_available_id(response_count, cs));
            &&& response_count == 0 ==> fact is None
            &&& response_count > 0 && c.available_count == response_count ==> fact == Some(
                CandidateSummaryFact::EveryoneAvailable,
            )
            &&& fact == Some(CandidateSummaryFact::EveryoneAvailable) ==> response_count > 0
                && c.available_count == response_count
            &&& fact == Some(CandidateSummaryFact::EveryoneAvailableIncludingMaybe) ==> response_count
                > 0 && c.unavailable_count == 0 && c.available_count != response_count
            &&& fact == Some(CandidateSummaryFact::OneUnavailable) ==> response_count > 0
                && c.unavailable_count == 1
            &&& fact == Some(CandidateSummaryFact::UniqueMostAvailable) ==> response_count > 0
                && c.unavailable_count >= 2 && exists|i: int|
                is_unique_most_available(cs, i) && #[trigger] cs[i].id == c.id
            &&& fact == Some(CandidateSummaryFact::UniqueMostAvailable) && (forall|i: int, j: int|
                0 <= i < j < cs.len() ==> #[trigger] cs[i].id != #[trigger] cs[j].id) ==> c.available_count
                > 0 && forall|j: int|
                0 <= j < cs.len() && j != k ==> #[trigger] cs[j].available_count < c.available_count
            &&& fact is None && response_count > 0 ==> c.unavailable_count >= 2
                && c.available_count != response_count
        }),
{
    let c = cs[k];
    let u = unique_most_available_id(response_count, cs);
    if summary_fact(response_count, c, u) == Some(CandidateSummaryFact::UniqueMostAvailable) {
        let i = choose|i: int| is_unique_most_available(cs, i);
        assert(u == Some(cs[i].id));
        assert(cs[i].id == c.id);
        assert(is_unique_most_available(cs, i));
        if forall|p: int, q: int| 0 <= p < q < cs.len() ==> #[trigger] cs[p].id != #[trigger] cs[q].id {
            if i < k {
                assert(cs[i].id != cs[k].id);
            } else if k < i {
                assert(cs[k].id != cs[i].id);
            }
            assert(i == k);
        }
    }
}

pub proof fn lemma_unique_most_available_unique(cs: Seq<CandidateResponseSummary>, i: int, j: int)
    requires
        is_unique_most_available(cs, i),
        is_unique_most_available(cs, j),
    ensures
        i == j,
{
    if i != j {
        assert(cs[j].available_count < cs[i].available_count);
        assert(cs[i].available_count < cs[j].available_count);
    }
}

/// Attach at most one conservative fact to every candidate summary.
pub fn derive_candidate_summary_facts(response_count: u64, candidates: &mut Vec<CandidateResponseSummary>)
    ensures
        final(candidates)@.len() == old(candidates)@.len(),
        forall|k: int|
            0 <= k < old(candidates)@.len() ==> #[trigger] final(candidates)@[k] == (
            CandidateResponseSummary {
                fact: summary_fact(
                    response_count,
                    old(candidates)@[k],
                    unique_most_available_id(response_count, old(candidates)@),
                ),
                ..old(candidates)@[k]
            }),
{
    let ghost cs = candidates@;
    let n = candidates.len();
    let mut unique: Option<i64> = None;
    if response_count != 0 && n > 0 {
        let mut max: u64 = candidates[0].available_count;
        let mut at: usize = 0;
        let mut i: usize = 1;
        while i < n
            invariant
                n == cs.len(),
                cs == candidates@,
                1 <= i <= n,
                at < i,
                max == cs[at as int].available_count,
                forall|j: int| 0 <= j < i ==> #[trigger] cs[j].available_count <= max,
                forall|j: int| 0 <= j < at ==> #[trigger] cs[j].available_count < max,
            decreases n - i,
        {
            if candidates[i].available_count > max {
                max = candidates[i].available_count;
                at = i;
            }
            i = i + 1;
        }
        let mut ties = false;
        let mut j: usize = at + 1;
        while j < n
            invariant
                n == cs.len(),
                cs == candidates@,
                at < n,
                at + 1 <= j <= n,
                max == cs[at as int].available_count,
                ties == exists|q: int| at < q < j && #[trigger] cs[q].available_count == max,
            decreases n - j,
        {
            if candidates[j].available_count == max {
                ties = true;
            }
            j = j + 1;
        }
        if max > 0 && !ties {
            unique = Some(candidates[at].id);
            assert(is_unique_most_available(cs, at as int));
            proof {
                let c = choose|c: int| is_unique_most_available(cs, c);
                lemma_unique_most_available_unique(cs, c, at as int);
            }
        } else {
            assert forall|q: int| !is_unique_most_available(cs, q) by {
                if is_unique_most_available(cs, q) {
                    if q != at {
                        assert(cs[at as int].available_count < cs[q].available_count);
                    } else if max > 0 {
                        let w = choose|w: int| at < w < n && #[trigger] cs[w].available_count == max;
                        assert(cs[w].available_count < cs[q].available_count);
                    }
                }
            }
        }
    } else if response_count != 0 {
        assert(forall|q: int| !is_unique_most_available(cs, q));
    }
    assert(unique == unique_most_available_id(response_count, cs));
    let mut i: usize = 0;
    while i < n
        invariant
            n == cs.len(),
            candidates@.len() == n,
            i <= n,
            unique == unique_most_available_id(response_count, cs),
            forall|k: int|
                0 <= k < i ==> #[trigger] candidates@[k] == (CandidateResponseSummary {
                    fact: summary_fact(response_count, cs[k], unique),
                    ..cs[k]
                }),
            forall|k: int| i <= k < n ==> #[trigger] candidates@[k] == cs[k],
        decreases n - i,
    {
        let c = &candidates[i];
        let fact = if response_count == 0 {
            None
        } else if c.available_count == response_count {
            Some(CandidateSummaryFact::EveryoneAvailable)
        } else if c.unavailable_count == 0 {
            Some(CandidateSummaryFact::EveryoneAvailableIncludingMaybe)
        } else if c.unavailable_count == 1 {
            Some(CandidateSummaryFact::OneUnavailable)
        } else if unique == Some(c.id) {
            Some(CandidateSummaryFact::UniqueMostAvailable)
        } else {
            None
        };
        let updated = CandidateResponseSummary {
            id: c.id,
            local_date: c.local_date.clone(),
            local_time: c.local_time.clone(),
            available_count: c.available_count,
            maybe_count: c.maybe_count,
            unavailable_count: c.unavailable_count,
            fact,
        };
        candidates.set(i, updated);
        i = i + 1;
    }
}

} // verus!
