//! Reconstruction of persisted rows into the projections the server returns.
//!
//! The rows arrive from the database layer in `app/`; everything decided about them
//! here is verified.

use vstd::prelude::*;
use vstd::string::*;
use crate::domain::account::HistoryDecision;
use crate::domain::event::{PublicCandidate, PublicEvent, PublicEventDecision};
use crate::domain::continuation::{
    AccountEventTrace, AccountEventTraceCandidate, AccountEventTraceRelationship,
    AccountEventTraceResponse,
};
use crate::domain::organizer::{
    derive_candidate_summary_facts, summary_fact, unique_most_available_id, CandidateResponseSummary,
    OrganizerEventDecision, OrganizerEventSummary, ResponseCommentPreview, ResponseMatrix,
    ResponseMatrixCandidate, ResponseMatrixRow,
};
use crate::domain::response::{
    availability_of_text, storage_text, Availability, CandidateAvailabilityInput,
    PreparedAvailabilityResponse,
};
use crate::text::str_eq;

verus! {

/// Server-only account identity used while linking writes and issuing sessions.
#[derive(Clone, Debug, PartialEq, Eq)]
pub struct AccountRecord {
    pub id: i64,
    pub login_id: String,
}

/// Password record loaded only for one login verification.
#[derive(Clone, PartialEq, Eq)]
pub struct StoredAccountCredentials {
    pub id: i64,
    pub login_id: String,
    pub password_hash_phc: String,
}

/// Whether an idempotent response write created a row or found the same aggregate.
#[derive(Clone, Copy, Debug, PartialEq, Eq, Structural)]
pub enum ResponseWriteOutcome {
    Created,
    AlreadyRecorded,
}

/// Account-session result observed inside an event or response write transaction.
#[derive(Clone, Copy, Debug, PartialEq, Eq, Structural)]
pub enum SessionWriteStatus {
    NotPresented,
    Active,
    Inactive,
}

/// A committed write paired with the session state resolved in that same transaction.
#[derive(Clone, Debug, PartialEq, Eq)]
pub struct SessionWrite<T> {
    pub value: T,
    pub session_status: SessionWriteStatus,
}

/// Whether an idempotent response-comment write created a value or found the same value.
#[derive(Clone, Copy, Debug, PartialEq, Eq, Structural)]
pub enum ResponseCommentWriteOutcome {
    Created,
    AlreadyRecorded,
}

/// Whether an immutable event decision was created or replayed.
#[derive(Clone, Copy, Debug, PartialEq, Eq, Structural)]
pub enum EventDecisionWriteOutcome {
    Created,
    AlreadyDecided,
}

/// Failures of the organizer-only response summary that the stored data itself causes.
#[derive(Clone, Copy, Debug, PartialEq, Eq, Structural)]
pub enum OrganizerSummaryStorageError {
    NotFound,
    DataInvariantViolation,
}

/// Failures of a response matrix that the stored data itself causes.
#[derive(Clone, Copy, Debug, PartialEq, Eq, Structural)]
pub enum OrganizerResponseMatrixStorageError {
    NotFound,
    DataInvariantViolation,
}

/// Failures of a history projection that the stored data itself causes.
#[derive(Clone, Copy, Debug, PartialEq, Eq, Structural)]
pub enum AccountHistoryStorageError {
    Unauthenticated,
    DataInvariantViolation,
}

/// Failures of an account event trace that the stored data itself causes.
#[derive(Clone, Copy, Debug, PartialEq, Eq, Structural)]
pub enum AccountEventTraceStorageError {
    Unauthenticated,
    NotFound,
    DataInvariantViolation,
}

/// Failures of an availability write that the request or the stored data cause.
#[derive(Clone, Copy, Debug, PartialEq, Eq, Structural)]
pub enum ResponseStorageError {
    EventNotFound,
    CandidateSetMismatch,
    EventDecided,
    CapabilityConflict,
}

/// Failures of a response-comment write that the stored data cause.
#[derive(Clone, Copy, Debug, PartialEq, Eq, Structural)]
pub enum ResponseCommentStorageError {
    ResponseNotFound,
    CommentConflict,
}

/// Failures of an organizer decision write that the stored data cause.
#[derive(Clone, Copy, Debug, PartialEq, Eq, Structural)]
pub enum OrganizerDecisionStorageError {
    NotFound,
    CandidateMismatch,
    Conflict,
}

pub open spec fn response_storage_message(e: ResponseStorageError) -> Seq<char> {
    match e {
        ResponseStorageError::EventNotFound => "event not found"@,
        ResponseStorageError::CandidateSetMismatch => "response candidate set does not match event"@,
        ResponseStorageError::EventDecided => "event already has a final decision"@,
        ResponseStorageError::CapabilityConflict => "response capability already has another payload"@,
    }
}

impl ResponseStorageError {
    /// The operator-facing description of the failure.
    pub fn message(&self) -> (s: String)
        ensures
            s@ == response_storage_message(*self),
    {
        match self {
            ResponseStorageError::EventNotFound => String::from_str("event not found"),
            ResponseStorageError::CandidateSetMismatch => String::from_str(
                "response candidate set does not match event",
            ),
            ResponseStorageError::EventDecided => String::from_str("event already has a final decision"),
            ResponseStorageError::CapabilityConflict => String::from_str(
                "response capability already has another payload",
            ),
        }
    }
}

impl ResponseCommentStorageError {
    /// The operator-facing description of the failure.
    pub fn message(&self) -> (s: String)
        ensures
            s@ == match *self {
                ResponseCommentStorageError::ResponseNotFound => "response not found"@,
                ResponseCommentStorageError::CommentConflict => "response already has another comment"@,
            },
    {
        match self {
            ResponseCommentStorageError::ResponseNotFound => String::from_str("response not found"),
            ResponseCommentStorageError::CommentConflict => String::from_str(
                "response already has another comment",
            ),
        }
    }
}

impl OrganizerDecisionStorageError {
    /// The operator-facing description of the failure.
    pub fn message(&self) -> (s: String)
        ensures
            s@ == match *self {
                OrganizerDecisionStorageError::NotFound => "organizer event not found"@,
                OrganizerDecisionStorageError::CandidateMismatch => "candidate does not belong to event"@,
                OrganizerDecisionStorageError::Conflict => "event already has another decision"@,
            },
    {
        match self {
            OrganizerDecisionStorageError::NotFound => String::from_str("organizer event not found"),
            OrganizerDecisionStorageError::CandidateMismatch => String::from_str(
                "candidate does not belong to event",
            ),
            OrganizerDecisionStorageError::Conflict => String::from_str(
                "event already has another decision",
            ),
        }
    }
}

impl OrganizerSummaryStorageError {
    /// The operator-facing description of the failure.
    pub fn message(&self) -> (s: String)
        ensures
            s@ == match *self {
                OrganizerSummaryStorageError::NotFound => "organizer summary not found"@,
                OrganizerSummaryStorageError::DataInvariantViolation => "organizer summary data invariant violation"@,
            },
    {
        match self {
            OrganizerSummaryStorageError::NotFound => String::from_str("organizer summary not found"),
            OrganizerSummaryStorageError::DataInvariantViolation => String::from_str(
                "organizer summary data invariant violation",
            ),
        }
    }
}

impl OrganizerResponseMatrixStorageError {
    /// The operator-facing description of the failure.
    pub fn message(&self) -> (s: String)
        ensures
            s@ == match *self {
                OrganizerResponseMatrixStorageError::NotFound => "organizer response matrix not found"@,
                OrganizerResponseMatrixStorageError::DataInvariantViolation => "organizer response matrix data invariant violation"@,
            },
    {
        match self {
            OrganizerResponseMatrixStorageError::NotFound => String::from_str(
                "organizer response matrix not found",
            ),
            OrganizerResponseMatrixStorageError::DataInvariantViolation => String::from_str(
                "organizer response matrix data invariant violation",
            ),
        }
    }
}

impl AccountHistoryStorageError {
    /// The operator-facing description of the failure.
    pub fn message(&self) -> (s: String)
        ensures
            s@ == match *self {
                AccountHistoryStorageError::Unauthenticated => "account session is not active"@,
                AccountHistoryStorageError::DataInvariantViolation => "account history invariant violation"@,
            },
    {
        match self {
            AccountHistoryStorageError::Unauthenticated => String::from_str("account session is not active"),
            AccountHistoryStorageError::DataInvariantViolation => String::from_str(
                "account history invariant violation",
            ),
        }
    }
}

impl AccountEventTraceStorageError {
    /// The operator-facing description of the failure.
    pub fn message(&self) -> (s: String)
        ensures
            s@ == match *self {
                AccountEventTraceStorageError::Unauthenticated => "account session is not active"@,
                AccountEventTraceStorageError::NotFound => "account event trace not found"@,
                AccountEventTraceStorageError::DataInvariantViolation => "account event trace invariant violation"@,
            },
    {
        match self {
            AccountEventTraceStorageError::Unauthenticated => String::from_str("account session is not active"),
            AccountEventTraceStorageError::NotFound => String::from_str("account event trace not found"),
            AccountEventTraceStorageError::DataInvariantViolation => String::from_str(
                "account event trace invariant violation",
            ),
        }
    }
}

/// No identifier occurs twice.
pub open spec fn no_repeats(s: Seq<i64>) -> bool {
    forall|i: int, j: int| 0 <= i < j < s.len() ==> s[i] != s[j]
}

/// The candidate identifiers a response answers, in the order it lists them.
pub open spec fn choice_ids(c: Seq<CandidateAvailabilityInput>) -> Seq<i64> {
    c.map_values(|x: CandidateAvailabilityInput| x.candidate_id)
}

/// A response answers exactly the event's candidates, each once.
pub open spec fn candidate_set_agrees(event_candidate_ids: Seq<i64>, requested: Seq<i64>) -> bool {
    &&& no_repeats(requested)
    &&& no_repeats(event_candidate_ids)
    &&& requested.to_set() == event_candidate_ids.to_set()
}

fn has_repeat(s: &[i64]) -> (b: bool)
    ensures
        b == !no_repeats(s@),
{
    let mut i: usize = 0;
    while i < s.len()
        invariant
            i <= s@.len(),
            forall|a: int, b: int| 0 <= a < b < s@.len() && a < i ==> s@[a] != s@[b],
        decreases s.len() - i,
    {
        let mut j: usize = i + 1;
        while j < s.len()
            invariant
                i < j <= s@.len(),
                forall|a: int, b: int| 0 <= a < b < s@.len() && a < i ==> s@[a] != s@[b],
                forall|b: int| i < b < j ==> s@[i as int] != s@[b],
            decreases s.len() - j,
        {
            if s[i] == s[j] {
                return true;
            }
            j = j + 1;
        }
        i = i + 1;
    }
    false
}

fn includes(s: &[i64], x: i64) -> (b: bool)
    ensures
        b == s@.contains(x),
{
    let mut i: usize = 0;
    while i < s.len()
        invariant
            i <= s@.len(),
            forall|k: int| 0 <= k < i ==> s@[k] != x,
        decreases s.len() - i,
    {
        if s[i] == x {
            return true;
        }
        i = i + 1;
    }
    false
}

fn all_included(small: &[i64], large: &[i64]) -> (b: bool)
    ensures
        b == forall|k: int| 0 <= k < small@.len() ==> large@.contains(#[trigger] small@[k]),
{
    let mut i: usize = 0;
    while i < small.len()
        invariant
            i <= small@.len(),
            forall|k: int| 0 <= k < i ==> large@.contains(#[trigger] small@[k]),
        decreases small.len() - i,
    {
        if !includes(large, small[i]) {
            return false;
        }
        i = i + 1;
    }
    true
}

/// Whether a response names exactly the event's candidates, none twice; the stored event's
/// candidate identifiers are compared with the ones the response answers.
pub fn candidate_set_matches(event_candidate_ids: &[i64], response: &PreparedAvailabilityResponse) -> (b:
    bool)
    ensures
        b == candidate_set_agrees(event_candidate_ids@, choice_ids(response.availabilities@)),
{
    let ghost req = choice_ids(response.availabilities@);
    let mut requested: Vec<i64> = Vec::new();
    let mut i: usize = 0;
    while i < response.availabilities.len()
        invariant
            i <= response.availabilities@.len(),
            req == choice_ids(response.availabilities@),
            requested@ == req.take(i as int),
        decreases response.availabilities.len() - i,
    {
        requested.push(response.availabilities[i].candidate_id);
        assert(requested@ =~= req.take(i + 1));
        i = i + 1;
    }
    assert(requested@ =~= req);
    if has_repeat(requested.as_slice()) || has_repeat(event_candidate_ids) {
        return false;
    }
    let forward = all_included(requested.as_slice(), event_candidate_ids);
    if !forward {
        proof {
            let k = choose|k: int| 0 <= k < req.len() && !event_candidate_ids@.contains(#[trigger] req[k]);
            assert(req.to_set().contains(req[k]));
            assert(!event_candidate_ids@.to_set().contains(req[k]));
        }
        return false;
    }
    let backward = all_included(event_candidate_ids, requested.as_slice());
    if !backward {
        proof {
            let k = choose|k: int|
                0 <= k < event_candidate_ids@.len() && !req.contains(#[trigger] event_candidate_ids@[k]);
            assert(event_candidate_ids@.to_set().contains(event_candidate_ids@[k]));
            assert(!req.to_set().contains(event_candidate_ids@[k]));
        }
        return false;
    }
    proof {
        assert forall|x: i64| req.to_set().contains(x) == event_candidate_ids@.to_set().contains(x) by {
            if req.to_set().contains(x) {
                let k = choose|k: int| 0 <= k < req.len() && req[k] == x;
                assert(event_candidate_ids@.contains(req[k]));
            }
            if event_candidate_ids@.to_set().contains(x) {
                let k = choose|k: int| 0 <= k < event_candidate_ids@.len() && event_candidate_ids@[k] == x;
                assert(req.contains(event_candidate_ids@[k]));
            }
        }
        assert(req.to_set() =~= event_candidate_ids@.to_set());
    }
    true
}

/// One stored availability of a response, as the replay check reads it.
#[derive(Clone, Debug, PartialEq, Eq)]
pub struct StoredAvailabilityRow {
    pub candidate_id: i64,
    pub availability: String,
}

/// The stored availabilities list exactly the requested choices, in candidate order.
pub open spec fn stored_choices_agree(
    stored: Seq<StoredAvailabilityRow>,
    requested: Seq<CandidateAvailabilityInput>,
) -> bool {
    &&& stored.len() == requested.len()
    &&& forall|i: int, j: int|
        0 <= i < j < stored.len() ==> stored[i].candidate_id < stored[j].candidate_id
    &&& forall|i: int| 0 <= i < stored.len() ==> #[trigger] requested_choice(requested, stored[i])
}

/// Some requested choice names the stored row's candidate with its availability.
pub open spec fn requested_choice(
    requested: Seq<CandidateAvailabilityInput>,
    row: StoredAvailabilityRow,
) -> bool {
    exists|k: int|
        0 <= k < requested.len() && #[trigger] requested[k].candidate_id == row.candidate_id
            && storage_text(requested[k].availability) == row.availability@
}

/// A stored availability as plain values: candidate and stored text.
pub open spec fn stored_row_view(r: StoredAvailabilityRow) -> (i64, Seq<char>) {
    (r.candidate_id, r.availability@)
}

/// The row a choice is stored as.
pub open spec fn choice_row_view(c: CandidateAvailabilityInput) -> (i64, Seq<char>) {
    (c.candidate_id, storage_text(c.availability))
}

/// A response replays what was stored for it: when the rows read back are the rows its
/// choices were written as, in candidate order, the stored choices agree with the request.
pub proof fn lemma_written_choices_replay(
    stored: Seq<StoredAvailabilityRow>,
    requested: Seq<CandidateAvailabilityInput>,
)
    requires
        stored.map_values(|r: StoredAvailabilityRow| stored_row_view(r)).to_multiset()
            == requested.map_values(|c: CandidateAvailabilityInput| choice_row_view(c)).to_multiset(),
        forall|i: int, j: int|
            0 <= i < j < stored.len() ==> stored[i].candidate_id < stored[j].candidate_id,
    ensures
        stored_choices_agree(stored, requested),
{
    broadcast use vstd::seq_lib::to_multiset_contains, vstd::seq_lib::to_multiset_len;

    let sv = stored.map_values(|r: StoredAvailabilityRow| stored_row_view(r));
    let rv = requested.map_values(|c: CandidateAvailabilityInput| choice_row_view(c));
    assert(sv.len() == sv.to_multiset().len() && rv.len() == rv.to_multiset().len());
    assert forall|i: int| 0 <= i < stored.len() implies #[trigger] requested_choice(requested, stored[i]) by {
        assert(sv[i] == stored_row_view(stored[i]));
        assert(sv.to_multiset().count(sv[i]) > 0);
        assert(rv.contains(sv[i]));
        let k = choose|k: int| 0 <= k < rv.len() && rv[k] == sv[i];
        assert(rv[k] == choice_row_view(requested[k]));
    }
}

/// What a capability already bound to a stored response makes of a new request: the same
/// event, name and choices replay it; anything else conflicts.
pub open spec fn replay_outcome(
    stored_event_public_id: Seq<char>,
    stored_respondent_name: Seq<char>,
    stored: Seq<StoredAvailabilityRow>,
    event_public_id: Seq<char>,
    response: PreparedAvailabilityResponse,
) -> Result<ResponseWriteOutcome, ResponseStorageError> {
    if stored_event_public_id == event_public_id && stored_respondent_name
        == response.respondent_name@ && stored_choices_agree(stored, response.availabilities@) {
        Ok(ResponseWriteOutcome::AlreadyRecorded)
    } else {
        Err(ResponseStorageError::CapabilityConflict)
    }
}

fn ids_increasing(stored: &[StoredAvailabilityRow]) -> (b: bool)
    ensures
        b == forall|i: int, j: int|
            0 <= i < j < stored@.len() ==> stored@[i].candidate_id < stored@[j].candidate_id,
{
    if stored.len() == 0 {
        return true;
    }
    let mut i: usize = 1;
    while i < stored.len()
        invariant
            1 <= i <= stored@.len(),
            forall|a: int, b: int|
                0 <= a < b < i ==> stored@[a].candidate_id < stored@[b].candidate_id,
        decreases stored.len() - i,
    {
        if stored[i - 1].candidate_id >= stored[i].candidate_id {
            return false;
        }
        proof {
            assert forall|a: int, b: int| 0 <= a < b < i + 1 implies stored@[a].candidate_id
                < stored@[b].candidate_id by {
                if b == i && a < i - 1 {
                    assert(stored@[a].candidate_id < stored@[i - 1].candidate_id);
                }
            }
        }
        i = i + 1;
    }
    true
}

fn has_choice(requested: &[CandidateAvailabilityInput], candidate_id: i64, availability: &str) -> (b:
    bool)
    ensures
        b == exists|k: int|
            0 <= k < requested@.len() && #[trigger] requested@[k].candidate_id == candidate_id
                && storage_text(requested@[k].availability) == availability@,
{
    let mut k: usize = 0;
    while k < requested.len()
        invariant
            k <= requested@.len(),
            forall|q: int|
                0 <= q < k ==> !(#[trigger] requested@[q].candidate_id == candidate_id && storage_text(
                    requested@[q].availability,
                ) == availability@),
        decreases requested.len() - k,
    {
        if requested[k].candidate_id == candidate_id && str_eq(
            requested[k].availability.storage_value(),
            availability,
        ) {
            return true;
        }
        k = k + 1;
    }
    false
}

fn stored_choices_match(stored: &[StoredAvailabilityRow], requested: &[CandidateAvailabilityInput]) -> (b:
    bool)
    ensures
        b == stored_choices_agree(stored@, requested@),
{
    if stored.len() != requested.len() || !ids_increasing(stored) {
        return false;
    }
    let mut i: usize = 0;
    while i < stored.len()
        invariant
            i <= stored@.len(),
            stored@.len() == requested@.len(),
            forall|a: int, b: int|
                0 <= a < b < stored@.len() ==> stored@[a].candidate_id < stored@[b].candidate_id,
            forall|a: int| 0 <= a < i ==> #[trigger] requested_choice(requested@, stored@[a]),
        decreases stored.len() - i,
    {
        if !has_choice(requested, stored[i].candidate_id, stored[i].availability.as_str()) {
            assert(!requested_choice(requested@, stored@[i as int]));
            return false;
        }
        i = i + 1;
    }
    true
}

/// The outcome of a write whose capability already names a stored response.
pub fn replayed_response_outcome(
    stored_event_public_id: &str,
    stored_respondent_name: &str,
    stored: &[StoredAvailabilityRow],
    event_public_id: &str,
    response: &PreparedAvailabilityResponse,
) -> (r: Result<ResponseWriteOutcome, ResponseStorageError>)
    ensures
        r == replay_outcome(
            stored_event_public_id@,
            stored_respondent_name@,
            stored@,
            event_public_id@,
            *response,
        ),
{
    if str_eq(stored_event_public_id, event_public_id) && str_eq(
        stored_respondent_name,
        response.respondent_name.as_str(),
    ) && stored_choices_match(stored, response.availabilities.as_slice()) {
        Ok(ResponseWriteOutcome::AlreadyRecorded)
    } else {
        Err(ResponseStorageError::CapabilityConflict)
    }
}

/// The response already stored under a capability: its event, its name and its
/// availabilities in candidate order.
#[derive(Clone, Debug, PartialEq, Eq)]
pub struct StoredResponseRow {
    pub event_public_id: String,
    pub respondent_name: String,
    pub availabilities: Vec<StoredAvailabilityRow>,
}

/// What writing an answer comes to, in the order the checks are made: an unknown event is
/// not found; an answer that does not name exactly the event's candidates is refused; an
/// answer whose capability is already stored replays or conflicts, decided event or not;
/// a new answer to a decided event is refused; any other answer is created.
pub open spec fn availability_outcome(
    event_exists: bool,
    event_candidate_ids: Seq<i64>,
    existing: Option<StoredResponseRow>,
    event_decided: bool,
    event_public_id: Seq<char>,
    response: PreparedAvailabilityResponse,
) -> Result<ResponseWriteOutcome, ResponseStorageError> {
    if !event_exists {
        Err(ResponseStorageError::EventNotFound)
    } else if !candidate_set_agrees(event_candidate_ids, choice_ids(response.availabilities@)) {
        Err(ResponseStorageError::CandidateSetMismatch)
    } else {
        match existing {
            Some(row) => replay_outcome(
                row.event_public_id@,
                row.respondent_name@,
                row.availabilities@,
                event_public_id,
                response,
            ),
            None => if event_decided {
                Err(ResponseStorageError::EventDecided)
            } else {
                Ok(ResponseWriteOutcome::Created)
            },
        }
    }
}

/// Decide an answer's write from what the store holds: whether the event exists, its
/// candidate identifiers, the response already stored under the answer's capability and
/// whether the event is decided.
pub fn availability_write_outcome(
    event_exists: bool,
    event_candidate_ids: &[i64],
    existing: Option<&StoredResponseRow>,
    event_decided: bool,
    event_public_id: &str,
    response: &PreparedAvailabilityResponse,
) -> (r: Result<ResponseWriteOutcome, ResponseStorageError>)
    ensures
        r == availability_outcome(
            event_exists,
            event_candidate_ids@,
            match existing {
                Some(row) => Some(*row),
                None => None,
            },
            event_decided,
            event_public_id@,
            *response,
        ),
{
    if !event_exists {
        return Err(ResponseStorageError::EventNotFound);
    }
    if !candidate_set_matches(event_candidate_ids, response) {
        return Err(ResponseStorageError::CandidateSetMismatch);
    }
    match existing {
        Some(row) => replayed_response_outcome(
            row.event_public_id.as_str(),
            row.respondent_name.as_str(),
            row.availabilities.as_slice(),
            event_public_id,
            response,
        ),
        None => if event_decided {
            Err(ResponseStorageError::EventDecided)
        } else {
            Ok(ResponseWriteOutcome::Created)
        },
    }
}

/// No new answers after the decision: once an event is decided, an answer whose
/// capability names no stored response is never created, while one that does is answered
/// exactly as before the decision.
pub proof fn lemma_no_new_answer_after_decision(
    event_candidate_ids: Seq<i64>,
    existing: Option<StoredResponseRow>,
    event_public_id: Seq<char>,
    response: PreparedAvailabilityResponse,
)
    ensures
        existing is None ==> availability_outcome(
            true,
            event_candidate_ids,
            existing,
            true,
            event_public_id,
            response,
        ) != Ok::<ResponseWriteOutcome, ResponseStorageError>(ResponseWriteOutcome::Created),
        existing is Some ==> availability_outcome(
            true,
            event_candidate_ids,
            existing,
            true,
            event_public_id,
            response,
        ) == availability_outcome(
            true,
            event_candidate_ids,
            existing,
            false,
            event_public_id,
            response,
        ),
{
}

/// The outcome of adding a comment to a response that holds `stored`: none yet writes it,
/// the same one replays, another one conflicts.
pub fn comment_write_outcome(stored: Option<&str>, comment: &str) -> (r: Result<
    ResponseCommentWriteOutcome,
    ResponseCommentStorageError,
>)
    ensures
        r == comment_outcome(
            match stored {
                Some(s) => Some(s@),
                None => None,
            },
            comment@,
        ),
{
    match stored {
        None => Ok(ResponseCommentWriteOutcome::Created),
        Some(s) => if str_eq(s, comment) {
            Ok(ResponseCommentWriteOutcome::AlreadyRecorded)
        } else {
            Err(ResponseCommentStorageError::CommentConflict)
        },
    }
}

/// The outcome of deciding on `candidate` when the event already holds `existing`: none
/// yet records it, the same one replays, another one conflicts.
pub open spec fn decision_outcome(existing: Option<i64>, candidate: i64) -> Result<
    EventDecisionWriteOutcome,
    OrganizerDecisionStorageError,
> {
    match existing {
        None => Ok(EventDecisionWriteOutcome::Created),
        Some(e) => if e == candidate {
            Ok(EventDecisionWriteOutcome::AlreadyDecided)
        } else {
            Err(OrganizerDecisionStorageError::Conflict)
        },
    }
}

/// Decide the outcome of recording `candidate_id` as the event's decision.
pub fn decision_write_outcome(existing: Option<i64>, candidate_id: i64) -> (r: Result<
    EventDecisionWriteOutcome,
    OrganizerDecisionStorageError,
>)
    ensures
        r == decision_outcome(existing, candidate_id),
{
    match existing {
        None => Ok(EventDecisionWriteOutcome::Created),
        Some(e) => if e == candidate_id {
            Ok(EventDecisionWriteOutcome::AlreadyDecided)
        } else {
            Err(OrganizerDecisionStorageError::Conflict)
        },
    }
}

/// A decision is final: once `candidate` is recorded, deciding on it again replays the
/// decision, and deciding on any other candidate conflicts instead of replacing it.
pub proof fn lemma_decision_is_final(candidate: i64, other: i64)
    ensures
        decision_outcome(None, candidate) == Ok::<
            EventDecisionWriteOutcome,
            OrganizerDecisionStorageError,
        >(EventDecisionWriteOutcome::Created),
        decision_outcome(Some(candidate), candidate) == Ok::<
            EventDecisionWriteOutcome,
            OrganizerDecisionStorageError,
        >(EventDecisionWriteOutcome::AlreadyDecided),
        other != candidate ==> decision_outcome(Some(candidate), other) == Err::<
            EventDecisionWriteOutcome,
            OrganizerDecisionStorageError,
        >(OrganizerDecisionStorageError::Conflict),
{
}

/// The outcome of adding `comment` to a response holding `stored`.
pub open spec fn comment_outcome(stored: Option<Seq<char>>, comment: Seq<char>) -> Result<
    ResponseCommentWriteOutcome,
    ResponseCommentStorageError,
> {
    match stored {
        None => Ok(ResponseCommentWriteOutcome::Created),
        Some(s) => if s == comment {
            Ok(ResponseCommentWriteOutcome::AlreadyRecorded)
        } else {
            Err(ResponseCommentStorageError::CommentConflict)
        },
    }
}

/// A response keeps one comment: once `comment` is stored, sending it again replays it and
/// any other comment conflicts.
pub proof fn lemma_one_comment_per_response(comment: Seq<char>, other: Seq<char>)
    ensures
        comment_outcome(Some(comment), comment) == Ok::<
            ResponseCommentWriteOutcome,
            ResponseCommentStorageError,
        >(ResponseCommentWriteOutcome::AlreadyRecorded),
        other != comment ==> comment_outcome(Some(comment), other) == Err::<
            ResponseCommentWriteOutcome,
            ResponseCommentStorageError,
        >(ResponseCommentStorageError::CommentConflict),
{
}

/// The stored event fields a matrix shows.
#[derive(Clone, Debug, PartialEq, Eq)]
pub struct EventRow {
    pub name: String,
    pub organizer_note: Option<String>,
    pub time_zone: String,
}

/// One stored candidate, in authored order.
#[derive(Clone, Debug, PartialEq, Eq)]
pub struct CandidateRow {
    pub id: i64,
    pub local_date: String,
    pub local_time: String,
}

/// One stored response, in display order.
#[derive(Clone, Debug, PartialEq, Eq)]
pub struct StoredMatrixResponseRow {
    pub id: i64,
    pub respondent_name: String,
}

/// One stored answer: a response's availability for one candidate.
#[derive(Clone, Debug, PartialEq, Eq)]
pub struct StoredMatrixAvailabilityRow {
    pub response_id: i64,
    pub candidate_id: i64,
    pub availability: String,
}

/// The stored event fields a trace shows, with the account's roles as 0/1 flags.
#[derive(Clone, Debug, PartialEq, Eq)]
pub struct AccountEventTraceRow {
    pub name: String,
    pub organizer_note: Option<String>,
    pub time_zone: String,
    pub is_organizer: i64,
    pub is_participant: i64,
}

/// One stored response within a trace, with a 0/1 flag for the current account.
#[derive(Clone, Debug, PartialEq, Eq)]
pub struct AccountEventTraceResponseRow {
    pub id: i64,
    pub respondent_name: String,
    pub respondent_comment: Option<String>,
    pub is_current_account: i64,
}

/// Decided fields are stored together or not at all.
pub fn history_decision(local_date: Option<String>, local_time: Option<String>) -> (r: Result<
    Option<HistoryDecision>,
    AccountHistoryStorageError,
>)
    ensures
        match r {
            Ok(None) => local_date is None && local_time is None,
            Ok(Some(d)) => local_date == Some(d.local_date) && local_time == Some(d.local_time),
            Err(e) => e == AccountHistoryStorageError::DataInvariantViolation && (local_date is None)
                != (local_time is None),
        },
{
    match (local_date, local_time) {
        (None, None) => Ok(None),
        (Some(local_date), Some(local_time)) => Ok(Some(HistoryDecision { local_date, local_time })),
        _ => Err(AccountHistoryStorageError::DataInvariantViolation),
    }
}

/// A database count as an unsigned count; a negative one is corrupt data.
pub fn checked_count(value: i64) -> (r: Result<u64, OrganizerSummaryStorageError>)
    ensures
        match r {
            Ok(n) => value >= 0 && n == value,
            Err(e) => value < 0 && e == OrganizerSummaryStorageError::DataInvariantViolation,
        },
{
    if value >= 0 {
        Ok(value as u64)
    } else {
        Err(OrganizerSummaryStorageError::DataInvariantViolation)
    }
}

pub open spec fn candidate_ids_distinct(c: Seq<CandidateRow>) -> bool {
    forall|i: int, j: int| 0 <= i < j < c.len() ==> c[i].id != c[j].id
}

pub open spec fn ids_distinct(r: Seq<i64>) -> bool {
    forall|i: int, j: int| 0 <= i < j < r.len() ==> r[i] != r[j]
}

pub open spec fn response_ids(r: Seq<StoredMatrixResponseRow>) -> Seq<i64> {
    r.map_values(|x: StoredMatrixResponseRow| x.id)
}

pub open spec fn trace_response_ids(r: Seq<AccountEventTraceResponseRow>) -> Seq<i64> {
    r.map_values(|x: AccountEventTraceResponseRow| x.id)
}

pub open spec fn has_candidate(c: Seq<CandidateRow>, id: i64) -> bool {
    exists|i: int| 0 <= i < c.len() && #[trigger] c[i].id == id
}

pub open spec fn has_response(r: Seq<i64>, id: i64) -> bool {
    exists|i: int| 0 <= i < r.len() && #[trigger] r[i] == id
}

/// Answer row `k` names a known response and candidate, is the first for its pair, and
/// holds a known availability value.
pub open spec fn cell_row_ok(
    c: Seq<CandidateRow>,
    r: Seq<i64>,
    a: Seq<StoredMatrixAvailabilityRow>,
    k: int,
) -> bool {
    &&& has_response(r, a[k].response_id)
    &&& has_candidate(c, a[k].candidate_id)
    &&& forall|j: int|
        0 <= j < k ==> !(#[trigger] a[j].response_id == a[k].response_id && a[j].candidate_id
            == a[k].candidate_id)
    &&& availability_of_text(a[k].availability@) is Some
}

pub open spec fn is_cell(a: Seq<StoredMatrixAvailabilityRow>, k: int, rid: i64, cid: i64) -> bool {
    0 <= k < a.len() && a[k].response_id == rid && a[k].candidate_id == cid
}

/// Some answer row names this response and candidate.
pub open spec fn has_cell(a: Seq<StoredMatrixAvailabilityRow>, rid: i64, cid: i64) -> bool {
    exists|k: int| is_cell(a, k, rid, cid)
}

/// The answers form exactly one well-formed cell for every response and candidate.
pub open spec fn cells_consistent(
    c: Seq<CandidateRow>,
    r: Seq<i64>,
    a: Seq<StoredMatrixAvailabilityRow>,
) -> bool {
    &&& c.len() > 0
    &&& a.len() == r.len() * c.len()
    &&& candidate_ids_distinct(c)
    &&& ids_distinct(r)
    &&& forall|k: int| 0 <= k < a.len() ==> #[trigger] cell_row_ok(c, r, a, k)
    &&& forall|i: int, j: int|
        0 <= i < r.len() && 0 <= j < c.len() ==> #[trigger] has_cell(a, r[i], c[j].id)
}

/// The availability stored for one response and candidate.
pub open spec fn cell_value(a: Seq<StoredMatrixAvailabilityRow>, rid: i64, cid: i64) -> Availability {
    availability_of_text(a[choose|k: int| is_cell(a, k, rid, cid)].availability@)->0
}

/// Row `i` of the matrix: response `i`'s availabilities in candidate order.
pub open spec fn matrix_row_ok(
    c: Seq<CandidateRow>,
    r: Seq<i64>,
    a: Seq<StoredMatrixAvailabilityRow>,
    i: int,
    row: Seq<Availability>,
) -> bool {
    &&& row.len() == c.len()
    &&& forall|j: int| 0 <= j < c.len() ==> #[trigger] row[j] == cell_value(a, r[i], c[j].id)
}

fn find_candidate(c: &Vec<CandidateRow>, id: i64) -> (b: bool)
    ensures
        b == has_candidate(c@, id),
{
    let mut i: usize = 0;
    while i < c.len()
        invariant
            i <= c.len(),
            forall|k: int| 0 <= k < i ==> c@[k].id != id,
        decreases c.len() - i,
    {
        if c[i].id == id {
            assert(c@[i as int].id == id);
            return true;
        }
        i = i + 1;
    }
    false
}

fn find_response(r: &Vec<i64>, id: i64) -> (b: bool)
    ensures
        b == has_response(r@, id),
{
    let mut i: usize = 0;
    while i < r.len()
        invariant
            i <= r.len(),
            forall|k: int| 0 <= k < i ==> r@[k] != id,
        decreases r.len() - i,
    {
        if r[i] == id {
            assert(r@[i as int] == id);
            return true;
        }
        i = i + 1;
    }
    false
}

fn candidate_ids_are_distinct(c: &Vec<CandidateRow>) -> (b: bool)
    ensures
        b == candidate_ids_distinct(c@),
{
    let n = c.len();
    let mut i: usize = 0;
    while i < n
        invariant
            n == c@.len(),
            i <= n,
            forall|x: int, y: int| 0 <= x < y < n && x < i ==> c@[x].id != c@[y].id,
        decreases n - i,
    {
        let mut j: usize = i + 1;
        while j < n
            invariant
                n == c@.len(),
                i < n,
                i + 1 <= j <= n,
                forall|x: int, y: int| 0 <= x < y < n && x < i ==> c@[x].id != c@[y].id,
                forall|y: int| i < y < j ==> c@[i as int].id != c@[y].id,
            decreases n - j,
        {
            if c[i].id == c[j].id {
                return false;
            }
            j = j + 1;
        }
        i = i + 1;
    }
    true
}

fn ids_are_distinct(r: &Vec<i64>) -> (b: bool)
    ensures
        b == ids_distinct(r@),
{
    let n = r.len();
    let mut i: usize = 0;
    while i < n
        invariant
            n == r@.len(),
            i <= n,
            forall|x: int, y: int| 0 <= x < y < n && x < i ==> r@[x] != r@[y],
        decreases n - i,
    {
        let mut j: usize = i + 1;
        while j < n
            invariant
                n == r@.len(),
                i < n,
                i + 1 <= j <= n,
                forall|x: int, y: int| 0 <= x < y < n && x < i ==> r@[x] != r@[y],
                forall|y: int| i < y < j ==> r@[i as int] != r@[y],
            decreases n - j,
        {
            if r[i] == r[j] {
                return false;
            }
            j = j + 1;
        }
        i = i + 1;
    }
    true
}

/// Check every answer row; `true` when each one is well formed.
fn cell_rows_are_ok(
    c: &Vec<CandidateRow>,
    r: &Vec<i64>,
    a: &Vec<StoredMatrixAvailabilityRow>,
) -> (b: bool)
    ensures
        b == forall|k: int| 0 <= k < a@.len() ==> #[trigger] cell_row_ok(c@, r@, a@, k),
{
    let n = a.len();
    let mut k: usize = 0;
    while k < n
        invariant
            n == a@.len(),
            k <= n,
            forall|q: int| 0 <= q < k ==> #[trigger] cell_row_ok(c@, r@, a@, q),
        decreases n - k,
    {
        let row = &a[k];
        if !find_response(r, row.response_id) || !find_candidate(c, row.candidate_id) {
            assert(!cell_row_ok(c@, r@, a@, k as int));
            return false;
        }
        let mut j: usize = 0;
        while j < k
            invariant
                n == a@.len(),
                j <= k < n,
                forall|q: int| 0 <= q < j ==> !(#[trigger] a@[q].response_id == a@[k as int].response_id
                    && a@[q].candidate_id == a@[k as int].candidate_id),
            decreases k - j,
        {
            if a[j].response_id == a[k].response_id && a[j].candidate_id == a[k].candidate_id {
                assert(!cell_row_ok(c@, r@, a@, k as int));
                return false;
            }
            j = j + 1;
        }
        match Availability::try_from(a[k].availability.as_str()) {
            Ok(_) => {},
            Err(_) => {
                assert(!cell_row_ok(c@, r@, a@, k as int));
                return false;
            },
        }
        assert(cell_row_ok(c@, r@, a@, k as int));
        k = k + 1;
    }
    true
}

/// The availability of the first answer row for a response and candidate, if any row
/// names them and its value is known.
fn find_cell(a: &Vec<StoredMatrixAvailabilityRow>, rid: i64, cid: i64) -> (v: Option<Availability>)
    ensures
        match v {
            Some(x) => exists|k: int| #[trigger] is_cell(a@, k, rid, cid) && availability_of_text(
                a@[k].availability@,
            ) == Some(x) && forall|j: int| 0 <= j < k ==> !is_cell(a@, j, rid, cid),
            None => forall|k: int| !(#[trigger] is_cell(a@, k, rid, cid) && availability_of_text(
                a@[k].availability@,
            ) is Some && forall|j: int| 0 <= j < k ==> !is_cell(a@, j, rid, cid)),
        },
{
    let mut k: usize = 0;
    while k < a.len()
        invariant
            k <= a.len(),
            forall|j: int| 0 <= j < k ==> !is_cell(a@, j, rid, cid),
        decreases a.len() - k,
    {
        if a[k].response_id == rid && a[k].candidate_id == cid {
            assert(is_cell(a@, k as int, rid, cid));
            return match Availability::try_from(a[k].availability.as_str()) {
                Ok(x) => Some(x),
                Err(_) => None,
            };
        }
        k = k + 1;
    }
    None
}

/// Under a consistent set of answers, the cell of a pair is the one row that names it.
proof fn lemma_cell_unique(
    c: Seq<CandidateRow>,
    r: Seq<i64>,
    a: Seq<StoredMatrixAvailabilityRow>,
    k1: int,
    k2: int,
    rid: i64,
    cid: i64,
)
    requires
        forall|k: int| 0 <= k < a.len() ==> #[trigger] cell_row_ok(c, r, a, k),
        is_cell(a, k1, rid, cid),
        is_cell(a, k2, rid, cid),
    ensures
        k1 == k2,
{
    if k1 < k2 {
        assert(cell_row_ok(c, r, a, k2));
        assert(a[k1].response_id == a[k2].response_id && a[k1].candidate_id == a[k2].candidate_id);
    } else if k2 < k1 {
        assert(cell_row_ok(c, r, a, k1));
        assert(a[k2].response_id == a[k1].response_id && a[k2].candidate_id == a[k1].candidate_id);
    }
}

/// Build the rows of a matrix from consistent answers, or report a missing cell.
fn matrix_rows(
    c: &Vec<CandidateRow>,
    r: &Vec<i64>,
    a: &Vec<StoredMatrixAvailabilityRow>,
) -> (rows: Option<Vec<Vec<Availability>>>)
    requires
        forall|k: int| 0 <= k < a@.len() ==> #[trigger] cell_row_ok(c@, r@, a@, k),
    ensures
        match rows {
            Some(rows) => {
                &&& rows@.len() == r@.len()
                &&& forall|i: int, j: int|
                    0 <= i < r@.len() && 0 <= j < c@.len() ==> #[trigger] has_cell(a@, r@[i], c@[j].id)
                &&& forall|i: int| 0 <= i < r@.len() ==> #[trigger] matrix_row_ok(c@, r@, a@, i, rows@[i]@)
            },
            None => !forall|i: int, j: int|
                0 <= i < r@.len() && 0 <= j < c@.len() ==> #[trigger] has_cell(a@, r@[i], c@[j].id),
        },
{
    let mut rows: Vec<Vec<Availability>> = Vec::new();
    let mut i: usize = 0;
    while i < r.len()
        invariant
            i <= r.len(),
            forall|k: int| 0 <= k < a@.len() ==> #[trigger] cell_row_ok(c@, r@, a@, k),
            rows@.len() == i,
            forall|x: int, j: int|
                0 <= x < i && 0 <= j < c@.len() ==> #[trigger] has_cell(a@, r@[x], c@[j].id),
            forall|x: int| 0 <= x < i ==> #[trigger] matrix_row_ok(c@, r@, a@, x, rows@[x]@),
        decreases r.len() - i,
    {
        let mut row: Vec<Availability> = Vec::new();
        let mut j: usize = 0;
        while j < c.len()
            invariant
                i < r.len(),
                j <= c.len(),
                forall|k: int| 0 <= k < a@.len() ==> #[trigger] cell_row_ok(c@, r@, a@, k),
                row@.len() == j,
                forall|y: int| 0 <= y < j ==> #[trigger] has_cell(a@, r@[i as int], c@[y].id),
                forall|y: int| 0 <= y < j ==> #[trigger] row@[y] == cell_value(a@, r@[i as int], c@[y].id),
            decreases c.len() - j,
        {
            let rid = r[i];
            let cid = c[j].id;
            match find_cell(a, rid, cid) {
                Some(x) => {
                    proof {
                        let k = choose|k: int| #[trigger] is_cell(a@, k, rid, cid) && availability_of_text(
                            a@[k].availability@,
                        ) == Some(x) && forall|q: int| 0 <= q < k ==> !is_cell(a@, q, rid, cid);
                        let w = choose|w: int| is_cell(a@, w, rid, cid);
                        lemma_cell_unique(c@, r@, a@, k, w, rid, cid);
                    }
                    row.push(x);
                },
                None => {
                    assert forall|k: int| !is_cell(a@, k, rid, cid) by {
                        if is_cell(a@, k, rid, cid) {
                            assert(cell_row_ok(c@, r@, a@, k));
                            assert forall|q: int| 0 <= q < k implies !is_cell(a@, q, rid, cid) by {
                                assert(!(a@[q].response_id == a@[k].response_id && a@[q].candidate_id
                                    == a@[k].candidate_id));
                            }
                        }
                    }
                    assert(!has_cell(a@, r@[i as int], c@[j as int].id));
                    return None;
                },
            }
            j = j + 1;
        }
        rows.push(row);
        i = i + 1;
    }
    Some(rows)
}

fn matrix_response_ids(r: &Vec<StoredMatrixResponseRow>) -> (ids: Vec<i64>)
    ensures
        ids@ == response_ids(r@),
{
    let mut ids: Vec<i64> = Vec::new();
    let mut i: usize = 0;
    while i < r.len()
        invariant
            i <= r.len(),
            ids@ =~= response_ids(r@.take(i as int)),
        decreases r.len() - i,
    {
        ids.push(r[i].id);
        i = i + 1;
        assert(response_ids(r@.take(i as int)) =~= response_ids(r@.take(i - 1)).push(r@[i - 1].id));
    }
    assert(r@.take(r@.len() as int) =~= r@);
    ids
}

fn trace_ids(r: &Vec<AccountEventTraceResponseRow>) -> (ids: Vec<i64>)
    ensures
        ids@ == trace_response_ids(r@),
{
    let mut ids: Vec<i64> = Vec::new();
    let mut i: usize = 0;
    while i < r.len()
        invariant
            i <= r.len(),
            ids@ =~= trace_response_ids(r@.take(i as int)),
        decreases r.len() - i,
    {
        ids.push(r[i].id);
        i = i + 1;
        assert(trace_response_ids(r@.take(i as int)) =~= trace_response_ids(r@.take(i - 1)).push(r@[i - 1].id));
    }
    assert(r@.take(r@.len() as int) =~= r@);
    ids
}

/// Rebuild an organizer response matrix from one snapshot's rows, rejecting any
/// inconsistency instead of guessing.
pub fn reconstruct_response_matrix(
    event: EventRow,
    candidate_rows: Vec<CandidateRow>,
    response_rows: Vec<StoredMatrixResponseRow>,
    availability_rows: Vec<StoredMatrixAvailabilityRow>,
) -> (m: Result<ResponseMatrix, OrganizerResponseMatrixStorageError>)
    ensures
        ({
            let c = candidate_rows@;
            let r = response_ids(response_rows@);
            let a = availability_rows@;
            match m {
                Ok(m) => {
                    &&& cells_consistent(c, r, a)
                    &&& m.name == event.name
                    &&& m.time_zone == event.time_zone
                    &&& m.candidates@.len() == c.len()
                    &&& forall|j: int|
                        0 <= j < c.len() ==> (#[trigger] m.candidates@[j]).local_date == c[j].local_date
                            && m.candidates@[j].local_time == c[j].local_time
                    &&& m.responses@.len() == r.len()
                    &&& forall|i: int|
                        0 <= i < r.len() ==> (#[trigger] m.responses@[i]).respondent_name
                            == response_rows@[i].respondent_name && matrix_row_ok(c, r, a, i, m.responses@[i].availabilities@)
                },
                Err(e) => !cells_consistent(c, r, a) && e
                    == OrganizerResponseMatrixStorageError::DataInvariantViolation,
            }
        }),
{
    let c = candidate_rows.len();
    if c == 0 {
        return Err(OrganizerResponseMatrixStorageError::DataInvariantViolation);
    }
    let expected = response_rows.len().checked_mul(c);
    match expected {
        Some(expected) => {
            if availability_rows.len() != expected {
                return Err(OrganizerResponseMatrixStorageError::DataInvariantViolation);
            }
        },
        None => {
            let len = availability_rows.len();
            assert(len as int != response_rows@.len() * c);
            return Err(OrganizerResponseMatrixStorageError::DataInvariantViolation);
        },
    }
    let ids = matrix_response_ids(&response_rows);
    if !candidate_ids_are_distinct(&candidate_rows) || !ids_are_distinct(&ids) || !cell_rows_are_ok(
        &candidate_rows,
        &ids,
        &availability_rows,
    ) {
        return Err(OrganizerResponseMatrixStorageError::DataInvariantViolation);
    }
    let rows = match matrix_rows(&candidate_rows, &ids, &availability_rows) {
        Some(rows) => rows,
        None => {
            return Err(OrganizerResponseMatrixStorageError::DataInvariantViolation);
        },
    };
    let mut candidates: Vec<ResponseMatrixCandidate> = Vec::new();
    let mut j: usize = 0;
    while j < c
        invariant
            c == candidate_rows@.len(),
            j <= c,
            candidates@.len() == j,
            forall|y: int|
                0 <= y < j ==> (#[trigger] candidates@[y]).local_date == candidate_rows@[y].local_date
                    && candidates@[y].local_time == candidate_rows@[y].local_time,
        decreases c - j,
    {
        candidates.push(
            ResponseMatrixCandidate {
                local_date: candidate_rows[j].local_date.clone(),
                local_time: candidate_rows[j].local_time.clone(),
            },
        );
        j = j + 1;
    }
    let mut responses: Vec<ResponseMatrixRow> = Vec::new();
    let mut rows = rows;
    let ghost all_rows = rows@;
    let n = response_rows.len();
    let mut i: usize = 0;
    while i < n
        invariant
            n == response_rows@.len() == all_rows.len(),
            i <= n,
            rows@.len() == n - i,
            forall|x: int| 0 <= x < n - i ==> #[trigger] rows@[x] == all_rows[x + i],
            responses@.len() == i,
            forall|x: int|
                0 <= x < i ==> (#[trigger] responses@[x]).respondent_name == response_rows@[x].respondent_name
                    && responses@[x].availabilities == all_rows[x],
        decreases n - i,
    {
        let availabilities = rows.remove(0);
        responses.push(
            ResponseMatrixRow {
                respondent_name: response_rows[i].respondent_name.clone(),
                availabilities,
            },
        );
        i = i + 1;
    }
    Ok(ResponseMatrix { name: event.name, time_zone: event.time_zone, candidates, responses })
}

/// The per-response flags of a trace are well formed for the account's relationship:
/// each flag is 0 or 1, and a participant-only trace shows only the account's own,
/// at least one, responses.
pub open spec fn trace_flags_ok(
    relationship: AccountEventTraceRelationship,
    r: Seq<AccountEventTraceResponseRow>,
) -> bool {
    &&& forall|i: int|
        0 <= i < r.len() ==> (#[trigger] r[i]).is_current_account == 0 || r[i].is_current_account
            == 1
    &&& relationship == AccountEventTraceRelationship::Participated ==> r.len() > 0 && forall|i: int|
        0 <= i < r.len() ==> (#[trigger] r[i]).is_current_account == 1
}

fn trace_flags_are_ok(relationship: AccountEventTraceRelationship, r: &Vec<AccountEventTraceResponseRow>) -> (b: bool)
    ensures
        b == trace_flags_ok(relationship, r@),
{
    let participated = relationship == AccountEventTraceRelationship::Participated;
    if participated && r.len() == 0 {
        return false;
    }
    let mut i: usize = 0;
    while i < r.len()
        invariant
            i <= r.len(),
            participated == (relationship == AccountEventTraceRelationship::Participated),
            participated ==> r@.len() > 0,
            forall|k: int|
                0 <= k < i ==> (#[trigger] r@[k]).is_current_account == 0 || r@[k].is_current_account == 1,
            participated ==> forall|k: int| 0 <= k < i ==> (#[trigger] r@[k]).is_current_account == 1,
        decreases r.len() - i,
    {
        let flag = r[i].is_current_account;
        if flag != 0 && flag != 1 {
            return false;
        }
        if participated && flag != 1 {
            return false;
        }
        i = i + 1;
    }
    true
}

/// Rebuild one account's trace of an event from one snapshot's rows, rejecting any
/// inconsistency instead of guessing.
pub fn reconstruct_account_event_trace(
    event_public_id: &str,
    event: AccountEventTraceRow,
    relationship: AccountEventTraceRelationship,
    candidate_rows: Vec<CandidateRow>,
    decision: Option<HistoryDecision>,
    response_rows: Vec<AccountEventTraceResponseRow>,
    availability_rows: Vec<StoredMatrixAvailabilityRow>,
) -> (t: Result<AccountEventTrace, AccountEventTraceStorageError>)
    ensures
        ({
            let c = candidate_rows@;
            let r = trace_response_ids(response_rows@);
            let a = availability_rows@;
            let ok = cells_consistent(c, r, a) && trace_flags_ok(relationship, response_rows@);
            match t {
                Ok(t) => {
                    &&& ok
                    &&& t.public_id@ == event_public_id@
                    &&& t.name == event.name
                    &&& t.organizer_note == event.organizer_note
                    &&& t.time_zone == event.time_zone
                    &&& t.relationship == relationship
                    &&& t.decision == decision
                    &&& t.candidates@.len() == c.len()
                    &&& forall|j: int|
                        0 <= j < c.len() ==> (#[trigger] t.candidates@[j]).local_date == c[j].local_date
                            && t.candidates@[j].local_time == c[j].local_time
                    &&& t.responses@.len() == r.len()
                    &&& forall|i: int|
                        0 <= i < r.len() ==> {
                            let x = #[trigger] t.responses@[i];
                            &&& x.respondent_name == response_rows@[i].respondent_name
                            &&& x.comment == response_rows@[i].respondent_comment
                            &&& x.is_current_account == (response_rows@[i].is_current_account == 1)
                            &&& matrix_row_ok(c, r, a, i, x.availabilities@)
                        }
                },
                Err(e) => !ok && e == AccountEventTraceStorageError::DataInvariantViolation,
            }
        }),
{
    let c = candidate_rows.len();
    if c == 0 {
        return Err(AccountEventTraceStorageError::DataInvariantViolation);
    }
    let expected = response_rows.len().checked_mul(c);
    match expected {
        Some(expected) => {
            if availability_rows.len() != expected {
                return Err(AccountEventTraceStorageError::DataInvariantViolation);
            }
        },
        None => {
            let len = availability_rows.len();
            assert(len as int != response_rows@.len() * c);
            return Err(AccountEventTraceStorageError::DataInvariantViolation);
        },
    }
    let ids = trace_ids(&response_rows);
    if !candidate_ids_are_distinct(&candidate_rows) || !ids_are_distinct(&ids) || !cell_rows_are_ok(
        &candidate_rows,
        &ids,
        &availability_rows,
    ) {
        return Err(AccountEventTraceStorageError::DataInvariantViolation);
    }
    let rows = match matrix_rows(&candidate_rows, &ids, &availability_rows) {
        Some(rows) => rows,
        None => {
            return Err(AccountEventTraceStorageError::DataInvariantViolation);
        },
    };
    if !trace_flags_are_ok(relationship, &response_rows) {
        return Err(AccountEventTraceStorageError::DataInvariantViolation);
    }
    let mut candidates: Vec<AccountEventTraceCandidate> = Vec::new();
    let mut j: usize = 0;
    while j < c
        invariant
            c == candidate_rows@.len(),
            j <= c,
            candidates@.len() == j,
            forall|y: int|
                0 <= y < j ==> (#[trigger] candidates@[y]).local_date == candidate_rows@[y].local_date
                    && candidates@[y].local_time == candidate_rows@[y].local_time,
        decreases c - j,
    {
        candidates.push(
            AccountEventTraceCandidate {
                local_date: candidate_rows[j].local_date.clone(),
                local_time: candidate_rows[j].local_time.clone(),
            },
        );
        j = j + 1;
    }
    let mut responses: Vec<AccountEventTraceResponse> = Vec::new();
    let mut rows = rows;
    let ghost all_rows = rows@;
    let n = response_rows.len();
    let mut i: usize = 0;
    while i < n
        invariant
            n == response_rows@.len() == all_rows.len(),
            i <= n,
            rows@.len() == n - i,
            forall|x: int| 0 <= x < n - i ==> #[trigger] rows@[x] == all_rows[x + i],
            responses@.len() == i,
            forall|x: int|
                0 <= x < i ==> {
                    let y = #[trigger] responses@[x];
                    &&& y.respondent_name == response_rows@[x].respondent_name
                    &&& y.comment == response_rows@[x].respondent_comment
                    &&& y.is_current_account == (response_rows@[x].is_current_account == 1)
                    &&& y.availabilities == all_rows[x]
                },
        decreases n - i,
    {
        let availabilities = rows.remove(0);
        let row = &response_rows[i];
        responses.push(
            AccountEventTraceResponse {
                respondent_name: row.respondent_name.clone(),
                comment: match &row.respondent_comment {
                    Some(comment) => Some(comment.clone()),
                    None => None,
                },
                availabilities,
                is_current_account: row.is_current_account == 1,
            },
        );
        i = i + 1;
    }
    Ok(
        AccountEventTrace {
            public_id: event_public_id.to_owned(),
            name: event.name,
            organizer_note: event.organizer_note,
            time_zone: event.time_zone,
            relationship,
            candidates,
            decision,
            responses,
        },
    )
}


/// The items of `v` in the opposite order.
pub(crate) fn reversed<T>(v: Vec<T>) -> (r: Vec<T>)
    ensures
        r@ == v@.reverse(),
{
    let ghost all = v@;
    let mut rest = v;
    let mut out: Vec<T> = Vec::new();
    while rest.len() > 0
        invariant
            rest@ == all.take(rest@.len() as int),
            rest@.len() <= all.len(),
            out@ == all.reverse().take(all.len() - rest@.len()),
        decreases rest@.len(),
    {
        let ghost before = rest@;
        let x = rest.pop().unwrap();
        proof {
            assert(x == all[before.len() - 1]);
            assert(rest@ =~= all.take(rest@.len() as int));
            assert(all.reverse()[all.len() - before.len()] == all[before.len() - 1]);
        }
        out.push(x);
        assert(out@ =~= all.reverse().take(all.len() - rest@.len()));
    }
    assert(out@ =~= all.reverse());
    out
}

/// One candidate with the answer counts the summary query grouped for it.
#[derive(Clone, Debug, PartialEq, Eq)]
pub struct CandidateResponseSummaryRow {
    pub id: i64,
    pub local_date: String,
    pub local_time: String,
    pub available_count: i64,
    pub maybe_count: i64,
    pub unavailable_count: i64,
}

/// The stored decision, joined with its candidate's date and time where the candidate exists.
#[derive(Clone, Debug, PartialEq, Eq)]
pub struct StoredEventDecisionProjectionRow {
    pub candidate_id: i64,
    pub local_date: Option<String>,
    pub local_time: Option<String>,
}

/// A candidate's counts agree with the number of responses.
pub open spec fn summary_row_ok(row: CandidateResponseSummaryRow, response_count: int) -> bool {
    &&& row.available_count >= 0
    &&& row.maybe_count >= 0
    &&& row.unavailable_count >= 0
    &&& row.available_count + row.maybe_count + row.unavailable_count == response_count
}

/// A candidate's summary before any fact is attached.
pub open spec fn base_summary(row: CandidateResponseSummaryRow) -> CandidateResponseSummary {
    CandidateResponseSummary {
        id: row.id,
        local_date: row.local_date,
        local_time: row.local_time,
        available_count: row.available_count as u64,
        maybe_count: row.maybe_count as u64,
        unavailable_count: row.unavailable_count as u64,
        fact: None,
    }
}

pub open spec fn base_summaries(rows: Seq<CandidateResponseSummaryRow>) -> Seq<CandidateResponseSummary> {
    rows.map_values(|r: CandidateResponseSummaryRow| base_summary(r))
}

/// The decision a stored decision row stands for, or `Err` where its candidate is missing.
pub open spec fn stored_decision(d: Option<StoredEventDecisionProjectionRow>) -> Result<
    Option<OrganizerEventDecision>,
    (),
> {
    match d {
        None => Ok(None),
        Some(row) => match (row.local_date, row.local_time) {
            (Some(local_date), Some(local_time)) => Ok(
                Some(OrganizerEventDecision { candidate_id: row.candidate_id, local_date, local_time }),
            ),
            _ => Err(()),
        },
    }
}

/// The summary rows are consistent: counts are not negative, there is a candidate, each
/// candidate's answers add up to the responses, comments do not outnumber responses nor
/// previews comments, and a decision names a stored candidate.
pub open spec fn summary_rows_ok(
    response_count: i64,
    candidate_rows: Seq<CandidateResponseSummaryRow>,
    comment_count: i64,
    preview_count: int,
    decision_row: Option<StoredEventDecisionProjectionRow>,
) -> bool {
    &&& response_count >= 0
    &&& candidate_rows.len() > 0
    &&& forall|k: int|
        0 <= k < candidate_rows.len() ==> #[trigger] summary_row_ok(candidate_rows[k], response_count as int)
    &&& comment_count >= 0
    &&& comment_count <= response_count
    &&& preview_count <= comment_count
    &&& stored_decision(decision_row) is Ok
}

/// Build the organizer's response summary from the rows of one snapshot, attaching the
/// candidate facts, or report that the rows break an invariant.
pub fn reconstruct_organizer_summary(
    event_public_id: &str,
    event: EventRow,
    response_count: i64,
    candidate_rows: Vec<CandidateResponseSummaryRow>,
    comment_count: i64,
    comment_previews: Vec<ResponseCommentPreview>,
    decision_row: Option<StoredEventDecisionProjectionRow>,
) -> (r: Result<OrganizerEventSummary, OrganizerSummaryStorageError>)
    ensures
        match r {
            Ok(s) => {
                &&& summary_rows_ok(
                    response_count,
                    candidate_rows@,
                    comment_count,
                    comment_previews@.len() as int,
                    decision_row,
                )
                &&& s.public_id@ == event_public_id@
                &&& s.name == event.name
                &&& s.organizer_note == event.organizer_note
                &&& s.time_zone == event.time_zone
                &&& s.response_count == response_count
                &&& s.candidates@.len() == candidate_rows@.len()
                &&& forall|k: int|
                    0 <= k < candidate_rows@.len() ==> #[trigger] s.candidates@[k] == (
                    CandidateResponseSummary {
                        fact: summary_fact(
                            response_count as u64,
                            base_summary(candidate_rows@[k]),
                            unique_most_available_id(
                                response_count as u64,
                                base_summaries(candidate_rows@),
                            ),
                        ),
                        ..base_summary(candidate_rows@[k])
                    })
                &&& s.comment_count == comment_count
                &&& s.comment_previews@ == comment_previews@
                &&& Ok::<Option<OrganizerEventDecision>, ()>(s.decision) == stored_decision(decision_row)
            },
            Err(e) => {
                &&& !summary_rows_ok(
                    response_count,
                    candidate_rows@,
                    comment_count,
                    comment_previews@.len() as int,
                    decision_row,
                )
                &&& e == OrganizerSummaryStorageError::DataInvariantViolation
            },
        },
{
    let ghost rows = candidate_rows@;
    let ghost previews = comment_previews@;
    let violation = OrganizerSummaryStorageError::DataInvariantViolation;
    let responses = match checked_count(response_count) {
        Ok(n) => n,
        Err(e) => return Err(e),
    };
    if candidate_rows.len() == 0 {
        return Err(violation);
    }
    let mut rest = reversed(candidate_rows);
    let n = rest.len();
    let mut built: Vec<CandidateResponseSummary> = Vec::new();
    let mut i: usize = 0;
    while i < n
        invariant
            n == rows.len(),
            i <= n,
            rows == candidate_rows@,
            rest@ == rows.reverse().take((n - i) as int),
            responses == response_count,
            built@.len() == i,
            forall|k: int| 0 <= k < i ==> #[trigger] summary_row_ok(rows[k], response_count as int),
            forall|k: int| 0 <= k < i ==> #[trigger] built@[k] == base_summary(rows[k]),
        decreases n - i,
    {
        let ghost before = rest@;
        let row = rest.pop().unwrap();
        proof {
            assert(before.last() == rows.reverse()[(n - i - 1) as int]);
            assert(row == rows[i as int]);
            assert(rest@ =~= rows.reverse().take((n - i - 1) as int));
        }
        if row.available_count < 0 || row.maybe_count < 0 || row.unavailable_count < 0 {
            assert(!summary_row_ok(rows[i as int], response_count as int));
            return Err(OrganizerSummaryStorageError::DataInvariantViolation);
        }
        let a = row.available_count as u64;
        let m = row.maybe_count as u64;
        let u = row.unavailable_count as u64;
        let total = match a.checked_add(m) {
            Some(x) => x.checked_add(u),
            None => None,
        };
        if total != Some(responses) {
            assert(!summary_row_ok(rows[i as int], response_count as int));
            return Err(OrganizerSummaryStorageError::DataInvariantViolation);
        }
        let summary = CandidateResponseSummary {
            id: row.id,
            local_date: row.local_date,
            local_time: row.local_time,
            available_count: a,
            maybe_count: m,
            unavailable_count: u,
            fact: None,
        };
        built.push(summary);
        proof {
            assert(built@[i as int] == base_summary(rows[i as int]));
        }
        i = i + 1;
    }
    assert(built@ =~= base_summaries(rows));
    let comments = match checked_count(comment_count) {
        Ok(c) => c,
        Err(e) => return Err(e),
    };
    let preview_count = comment_previews.len() as u64;
    if comments > responses || preview_count > comments {
        return Err(violation);
    }
    let decision = match decision_row {
        None => None,
        Some(stored) => match (stored.local_date, stored.local_time) {
            (Some(local_date), Some(local_time)) => Some(
                OrganizerEventDecision { candidate_id: stored.candidate_id, local_date, local_time },
            ),
            _ => return Err(violation),
        },
    };
    derive_candidate_summary_facts(responses, &mut built);
    let EventRow { name, organizer_note, time_zone } = event;
    Ok(
        OrganizerEventSummary {
            public_id: String::from_str(event_public_id),
            name,
            organizer_note,
            time_zone,
            response_count: responses,
            candidates: built,
            comment_count: comments,
            comment_previews,
            decision,
        },
    )
}


/// An account session ends this long after it was last seen.
pub const SESSION_IDLE_SECONDS: i64 = 604800;

/// An account session ends this long after it was issued, however often it is used.
pub const SESSION_ABSOLUTE_SECONDS: i64 = 2592000;

/// A session's last-seen time is written again once it is this old.
pub const SESSION_TOUCH_INTERVAL_SECONDS: i64 = 3600;

/// `a + b` clamped to the range of `i64`.
pub open spec fn saturating_sum(a: i64, b: i64) -> int {
    if a + b > i64::MAX {
        i64::MAX as int
    } else if a + b < i64::MIN {
        i64::MIN as int
    } else {
        a + b
    }
}

fn saturating_add(a: i64, b: i64) -> (r: i64)
    requires
        b >= 0,
    ensures
        r == saturating_sum(a, b),
{
    if a <= i64::MAX - b {
        a + b
    } else {
        i64::MAX
    }
}

/// The absolute expiry of a session issued at `now`.
pub fn session_expires_at(now: i64) -> (r: i64)
    ensures
        r == saturating_sum(now, SESSION_ABSOLUTE_SECONDS),
{
    saturating_add(now, SESSION_ABSOLUTE_SECONDS)
}

/// What resolving a stored session does with it.
#[derive(Clone, Copy, Debug, PartialEq, Eq, Structural)]
pub enum StoredSessionAction {
    /// The session has ended: it is deleted and no account is resolved.
    Expire,
    /// The session is active and its last-seen time is rewritten to `now`.
    Refresh,
    /// The session is active and left as stored.
    Keep,
}

/// The fate of a stored session at `now`: it ends at its absolute expiry or once idle for
/// the idle period; an active one is refreshed once the touch interval has passed.
pub open spec fn stored_session_fate(last_seen_at: i64, expires_at: i64, now: i64) -> StoredSessionAction {
    if expires_at <= now || saturating_sum(last_seen_at, SESSION_IDLE_SECONDS) <= now {
        StoredSessionAction::Expire
    } else if saturating_sum(last_seen_at, SESSION_TOUCH_INTERVAL_SECONDS) <= now {
        StoredSessionAction::Refresh
    } else {
        StoredSessionAction::Keep
    }
}

/// Decide what happens to a stored session resolved at `now`.
pub fn stored_session_action(last_seen_at: i64, expires_at: i64, now: i64) -> (r: StoredSessionAction)
    ensures
        r == stored_session_fate(last_seen_at, expires_at, now),
{
    let idle_deadline = saturating_add(last_seen_at, SESSION_IDLE_SECONDS);
    if expires_at <= now || idle_deadline <= now {
        StoredSessionAction::Expire
    } else if saturating_add(last_seen_at, SESSION_TOUCH_INTERVAL_SECONDS) <= now {
        StoredSessionAction::Refresh
    } else {
        StoredSessionAction::Keep
    }
}

/// A session issued at `now` is active and needs no refresh at that moment, unless `now`
/// is the last representable instant.
pub proof fn lemma_fresh_session_is_kept(now: i64)
    requires
        now < i64::MAX,
    ensures
        stored_session_fate(now, saturating_sum(now, SESSION_ABSOLUTE_SECONDS) as i64, now)
            == StoredSessionAction::Keep,
{
}

/// With its stored times unchanged, a session that has ended stays ended at every later time.
pub proof fn lemma_expiry_is_permanent(last_seen_at: i64, expires_at: i64, now: i64, later: i64)
    requires
        now <= later,
        stored_session_fate(last_seen_at, expires_at, now) == StoredSessionAction::Expire,
    ensures
        stored_session_fate(last_seen_at, expires_at, later) == StoredSessionAction::Expire,
{
}

/// The account and status a write transaction records for the session it was given:
/// none presented, an active one, or one that did not resolve.
pub fn write_session(presented: bool, resolved_account_id: Option<i64>) -> (r: (
    Option<i64>,
    SessionWriteStatus,
))
    ensures
        r == if !presented {
            (None::<i64>, SessionWriteStatus::NotPresented)
        } else {
            match resolved_account_id {
                Some(id) => (Some(id), SessionWriteStatus::Active),
                None => (None::<i64>, SessionWriteStatus::Inactive),
            }
        },
{
    if !presented {
        return (None, SessionWriteStatus::NotPresented);
    }
    match resolved_account_id {
        Some(id) => (Some(id), SessionWriteStatus::Active),
        None => (None, SessionWriteStatus::Inactive),
    }
}


/// Failures of the public event read that the stored data cause.
#[derive(Clone, Copy, Debug, PartialEq, Eq, Structural)]
pub enum PublicEventStorageError {
    DataInvariantViolation,
}

impl PublicEventStorageError {
    /// The operator-facing description of the failure.
    pub fn message(&self) -> (s: String)
        ensures
            s@ == "public event data invariant violation"@,
    {
        String::from_str("public event data invariant violation")
    }
}

pub open spec fn public_candidate_view(c: PublicCandidate) -> (i64, Seq<char>, Seq<char>) {
    (c.id, c.local_date@, c.local_time@)
}

pub open spec fn candidate_row_view(c: CandidateRow) -> (i64, Seq<char>, Seq<char>) {
    (c.id, c.local_date@, c.local_time@)
}

/// The public decision a stored decision row stands for, or `Err` where its candidate is
/// missing.
pub open spec fn public_decision(d: Option<StoredEventDecisionProjectionRow>) -> Result<
    Option<(i64, Seq<char>, Seq<char>)>,
    (),
> {
    match d {
        None => Ok(None),
        Some(row) => match (row.local_date, row.local_time) {
            (Some(local_date), Some(local_time)) => Ok(Some((row.candidate_id, local_date@, local_time@))),
            _ => Err(()),
        },
    }
}

pub open spec fn public_decision_view(d: Option<PublicEventDecision>) -> Option<(i64, Seq<char>, Seq<char>)> {
    match d {
        None => None,
        Some(x) => Some((x.candidate_id, x.local_date@, x.local_time@)),
    }
}

/// The public-by-link view of a stored event: its fields, its candidates in position order
/// and its decision, or the violation a decision without its candidate shows.
pub fn reconstruct_public_event(
    public_id: &str,
    event: EventRow,
    candidates: Vec<CandidateRow>,
    decision_row: Option<StoredEventDecisionProjectionRow>,
) -> (r: Result<PublicEvent, PublicEventStorageError>)
    ensures
        match r {
            Ok(e) => {
                &&& public_decision(decision_row) == Ok::<Option<(i64, Seq<char>, Seq<char>)>, ()>(
                    public_decision_view(e.decision),
                )
                &&& e.public_id@ == public_id@
                &&& e.name == event.name
                &&& e.organizer_note == event.organizer_note
                &&& e.time_zone == event.time_zone
                &&& e.candidates@.map_values(|c: PublicCandidate| public_candidate_view(c))
                    == candidates@.map_values(|c: CandidateRow| candidate_row_view(c))
            },
            Err(e) => public_decision(decision_row) is Err && e
                == PublicEventStorageError::DataInvariantViolation,
        },
{
    let ghost rows = candidates@;
    let mut rest = reversed(candidates);
    let n = rest.len();
    let mut out: Vec<PublicCandidate> = Vec::new();
    let mut i: usize = 0;
    while i < n
        invariant
            n == rows.len(),
            i <= n,
            rest@ == rows.reverse().take((n - i) as int),
            out@.len() == i,
            forall|k: int| 0 <= k < i ==> #[trigger] public_candidate_view(out@[k]) == candidate_row_view(rows[k]),
        decreases n - i,
    {
        let ghost before = rest@;
        let row = rest.pop().unwrap();
        proof {
            assert(before.last() == rows.reverse()[(n - i - 1) as int]);
            assert(row == rows[i as int]);
            assert(rest@ =~= rows.reverse().take((n - i - 1) as int));
        }
        out.push(PublicCandidate { id: row.id, local_date: row.local_date, local_time: row.local_time });
        i = i + 1;
    }
    assert(out@.map_values(|c: PublicCandidate| public_candidate_view(c)) =~= rows.map_values(
        |c: CandidateRow| candidate_row_view(c),
    ));
    let decision = match decision_row {
        None => None,
        Some(stored) => match (stored.local_date, stored.local_time) {
            (Some(local_date), Some(local_time)) => Some(
                PublicEventDecision { candidate_id: stored.candidate_id, local_date, local_time },
            ),
            _ => return Err(PublicEventStorageError::DataInvariantViolation),
        },
    };
    let EventRow { name, organizer_note, time_zone } = event;
    Ok(
        PublicEvent {
            public_id: String::from_str(public_id),
            name,
            organizer_note,
            time_zone,
            candidates: out,
            decision,
        },
    )
}

} // verus!
