//! Anonymous availability responses and their optional one-line comment.

use vstd::prelude::*;
use vstd::string::*;
use crate::domain::account::text_of;
use crate::domain::event::EVENT_CANDIDATE_MAX_COUNT;
use crate::domain::fields::{capability_is_valid, is_capability, is_public_id, public_id_is_valid};
use crate::text::{
    copy_message, join_present, message_views, present_messages, space_joined, str_contains_char,
    str_eq, trim, trimmed,
};

verus! {

pub const RESPONDENT_NAME_MAX_CHARS: usize = 100;
pub const RESPONDENT_COMMENT_MAX_CHARS: usize = 500;
pub const RESPONSE_CAPABILITY_HEX_LENGTH: usize = 64;

/// One answer to one candidate date.
#[derive(Clone, Copy, Debug, PartialEq, Eq, Structural)]
pub enum Availability {
    Available,
    Maybe,
    Unavailable,
}

pub open spec fn storage_text(a: Availability) -> Seq<char> {
    match a {
        Availability::Available => "available"@,
        Availability::Maybe => "maybe"@,
        Availability::Unavailable => "unavailable"@,
    }
}

/// The availability whose storage value is `s`, if any.
pub open spec fn availability_of_text(s: Seq<char>) -> Option<Availability> {
    if s == "available"@ {
        Some(Availability::Available)
    } else if s == "maybe"@ {
        Some(Availability::Maybe)
    } else if s == "unavailable"@ {
        Some(Availability::Unavailable)
    } else {
        None
    }
}

impl Availability {
    pub fn storage_value(self) -> (s: &'static str)
        ensures
            s@ == storage_text(self),
    {
        match self {
            Availability::Available => "available",
            Availability::Maybe => "maybe",
            Availability::Unavailable => "unavailable",
        }
    }

    pub fn symbol(self) -> (s: &'static str)
        ensures
            s@ == (match self {
                Availability::Available => "○"@,
                Availability::Maybe => "△"@,
                Availability::Unavailable => "×"@,
            }),
    {
        match self {
            Availability::Available => "○",
            Availability::Maybe => "△",
            Availability::Unavailable => "×",
        }
    }

    pub fn short_label(self) -> (s: &'static str)
        ensures
            s@ == (match self {
                Availability::Available => "行ける"@,
                Availability::Maybe => "条件次第"@,
                Availability::Unavailable => "難しい"@,
            }),
    {
        match self {
            Availability::Available => "行ける",
            Availability::Maybe => "条件次第",
            Availability::Unavailable => "難しい",
        }
    }

    pub fn accessible_label(self) -> (s: &'static str)
        ensures
            s@ == (match self {
                Availability::Available => "○ 行ける"@,
                Availability::Maybe => "△ 条件次第・たぶん行ける"@,
                Availability::Unavailable => "× 難しい"@,
            }),
    {
        match self {
            Availability::Available => "○ 行ける",
            Availability::Maybe => "△ 条件次第・たぶん行ける",
            Availability::Unavailable => "× 難しい",
        }
    }

    /// Read a storage value back; anything else is refused with a message naming it.
    pub fn try_from(value: &str) -> (r: Result<Availability, String>)
        ensures
            match r {
                Ok(a) => availability_of_text(value@) == Some(a),
                Err(m) => availability_of_text(value@) is None && m@ == "unknown availability value: "@
                    + value@,
            },
    {
        if str_eq(value, "available") {
            Ok(Availability::Available)
        } else if str_eq(value, "maybe") {
            Ok(Availability::Maybe)
        } else if str_eq(value, "unavailable") {
            Ok(Availability::Unavailable)
        } else {
            Err(String::from_str("unknown availability value: ").concat(value))
        }
    }
}

/// Reading back a storage value gives the availability that wrote it.
pub proof fn lemma_storage_text_roundtrip(a: Availability)
    ensures
        availability_of_text(storage_text(a)) == Some(a),
{
    reveal_strlit("available");
    reveal_strlit("maybe");
    reveal_strlit("unavailable");
    assert("available"@.len() == 9);
    assert("maybe"@.len() == 5);
    assert("unavailable"@.len() == 11);
    assert("maybe"@ != "available"@);
    assert("unavailable"@ != "available"@);
    assert("unavailable"@ != "maybe"@);
}

/// A typed candidate choice crossing the browser/server boundary.
#[derive(Clone, Copy, Debug, PartialEq, Eq, Structural)]
pub struct CandidateAvailabilityInput {
    pub candidate_id: i64,
    pub availability: Availability,
}

pub open spec fn msg_respondent_name_required() -> Seq<char> {
    "名前を入力してください。"@
}

pub open spec fn msg_respondent_name_too_long() -> Seq<char> {
    "名前は100文字以内で入力してください。"@
}

pub open spec fn msg_candidates_unreadable() -> Seq<char> {
    "候補日時を正しく読み込めませんでした。"@
}

pub open spec fn msg_check_choices() -> Seq<char> {
    "候補日時への回答を確認してください。"@
}

pub open spec fn msg_event_unknown() -> Seq<char> {
    "イベントを確認できませんでした。"@
}

pub open spec fn msg_response_not_prepared() -> Seq<char> {
    "回答の送信準備に失敗しました。"@
}

pub open spec fn respondent_name_error(name: Seq<char>) -> Option<Seq<char>> {
    if name.len() == 0 {
        Some(msg_respondent_name_required())
    } else if name.len() > RESPONDENT_NAME_MAX_CHARS {
        Some(msg_respondent_name_too_long())
    } else {
        None
    }
}

/// Field and request errors shared by validation tests and the response form.
#[derive(Clone, Debug, PartialEq, Eq)]
pub struct AvailabilityResponseErrors {
    pub respondent_name: Option<String>,
    pub candidate_ids: Vec<i64>,
    pub request: Option<String>,
}

impl Default for AvailabilityResponseErrors {
    fn default() -> (e: Self)
        ensures
            e.respondent_name is None,
            e.candidate_ids@.len() == 0,
            e.request is None,
    {
        AvailabilityResponseErrors { respondent_name: None, candidate_ids: Vec::new(), request: None }
    }
}

impl AvailabilityResponseErrors {
    pub open spec fn spec_is_empty(&self) -> bool {
        self.respondent_name is None && self.candidate_ids@.len() == 0 && self.request is None
    }

    pub fn is_empty(&self) -> (b: bool)
        ensures
            b == self.spec_is_empty(),
    {
        self.respondent_name.is_none() && self.candidate_ids.len() == 0 && self.request.is_none()
    }

    /// The name message, the prompt to answer every candidate when some are unanswered,
    /// and the request message, each where present, joined by spaces.
    pub fn message(&self) -> (s: String)
        ensures
            s@ == availability_errors_message(*self),
    {
        let candidates = if self.candidate_ids.len() > 0 {
            Some(String::from_str("すべての候補日時へ都合を選んでください。"))
        } else {
            None
        };
        let ghost middle = text_of(candidates);
        let parts = vec![copy_message(&self.respondent_name), candidates, copy_message(&self.request)];
        proof {
            assert(message_views(parts@) =~= seq![
                text_of(self.respondent_name),
                middle,
                text_of(self.request),
            ]);
        }
        join_present(parts)
    }
}

pub open spec fn msg_answer_every_candidate() -> Seq<char> {
    "すべての候補日時へ都合を選んでください。"@
}

/// The name message, the prompt to answer every candidate when some are unanswered, and
/// the request message, each where present, joined by spaces.
pub open spec fn availability_errors_message(e: AvailabilityResponseErrors) -> Seq<char> {
    space_joined(
        present_messages(
            seq![
                text_of(e.respondent_name),
                if e.candidate_ids@.len() > 0 {
                    Some(msg_answer_every_candidate())
                } else {
                    None
                },
                text_of(e.request),
            ],
        ),
    )
}

/// The present comment-form messages, joined by spaces.
pub open spec fn comment_errors_message(e: ResponseCommentErrors) -> Seq<char> {
    space_joined(present_messages(seq![text_of(e.comment), text_of(e.request)]))
}

/// Record a name error for an empty or over-long respondent name.
pub fn validate_respondent_name(name: &str, errors: &mut AvailabilityResponseErrors)
    ensures
        text_of(final(errors).respondent_name) == (match respondent_name_error(name@) {
            Some(m) => Some(m),
            None => text_of(old(errors).respondent_name),
        }),
        final(errors).candidate_ids == old(errors).candidate_ids,
        final(errors).request == old(errors).request,
{
    let n = name.unicode_len();
    if n == 0 {
        errors.respondent_name = Some(String::from_str("名前を入力してください。"));
    } else if n > RESPONDENT_NAME_MAX_CHARS {
        errors.respondent_name = Some(String::from_str("名前は100文字以内で入力してください。"));
    }
}

/// A normalized name and complete candidate-choice aggregate.
#[derive(Clone, Debug, PartialEq, Eq)]
pub struct PreparedAvailabilityResponse {
    pub respondent_name: String,
    pub availabilities: Vec<CandidateAvailabilityInput>,
}

/// Browser-side response state before field validation.
#[derive(Clone, Debug, PartialEq, Eq)]
pub struct AvailabilityResponseDraft {
    pub respondent_name: String,
    pub candidate_ids: Vec<i64>,
    pub availabilities: Vec<CandidateAvailabilityInput>,
}

/// The event's candidate list is usable: 1 to 20 positive identifiers, none repeated.
pub open spec fn candidate_ids_acceptable(ids: Seq<i64>) -> bool {
    &&& 0 < ids.len() <= EVENT_CANDIDATE_MAX_COUNT
    &&& forall|i: int| 0 <= i < ids.len() ==> #[trigger] ids[i] > 0
    &&& forall|i: int, j: int| 0 <= i < j < ids.len() ==> ids[i] != ids[j]
}

/// A choice names a positive identifier of the event's candidates.
pub open spec fn choice_usable(ids: Seq<i64>, c: CandidateAvailabilityInput) -> bool {
    c.candidate_id > 0 && ids.contains(c.candidate_id)
}

/// Choice `i` is refused: it names no candidate, or repeats an earlier choice's candidate.
pub open spec fn choice_refused(ids: Seq<i64>, av: Seq<CandidateAvailabilityInput>, i: int) -> bool {
    !choice_usable(ids, av[i]) || exists|j: int| 0 <= j < i && av[j].candidate_id == av[i].candidate_id
}

pub open spec fn answered(ids: Seq<i64>, av: Seq<CandidateAvailabilityInput>, id: i64) -> bool {
    exists|i: int| 0 <= i < av.len() && choice_usable(ids, av[i]) && av[i].candidate_id == id
}

pub open spec fn draft_request_error(ids: Seq<i64>, av: Seq<CandidateAvailabilityInput>) -> Option<
    Seq<char>,
> {
    if exists|i: int| 0 <= i < av.len() && choice_refused(ids, av, i) {
        Some(msg_check_choices())
    } else if !candidate_ids_acceptable(ids) {
        Some(msg_candidates_unreadable())
    } else {
        None
    }
}

/// The candidates, in authored order, that no usable choice answers.
pub open spec fn unanswered(ids: Seq<i64>, av: Seq<CandidateAvailabilityInput>) -> Seq<i64> {
    ids.filter(|id: i64| !answered(ids, av, id))
}

fn ids_contain(ids: &Vec<i64>, id: i64) -> (b: bool)
    ensures
        b == ids@.contains(id),
{
    let mut i: usize = 0;
    while i < ids.len()
        invariant
            i <= ids.len(),
            forall|k: int| 0 <= k < i ==> ids@[k] != id,
        decreases ids.len() - i,
    {
        if ids[i] == id {
            assert(ids@[i as int] == id);
            return true;
        }
        i = i + 1;
    }
    false
}

impl AvailabilityResponseDraft {
    /// Validate visible fields and arrange choices in the event's authored order.
    #[verifier::loop_isolation(false)]
    pub fn prepare(&self) -> (r: Result<PreparedAvailabilityResponse, AvailabilityResponseErrors>)
        ensures
            ({
                let ids = self.candidate_ids@;
                let av = self.availabilities@;
                let name = trimmed(self.respondent_name@);
                let name_error = respondent_name_error(name);
                let request = draft_request_error(ids, av);
                let missing = unanswered(ids, av);
                match r {
                    Ok(p) => {
                        &&& name_error is None
                        &&& request is None
                        &&& missing.len() == 0
                        &&& p.respondent_name@ == name
                        &&& p.availabilities@.len() == ids.len()
                        &&& forall|k: int|
                            0 <= k < ids.len() ==> (#[trigger] p.availabilities@[k]).candidate_id
                                == ids[k] && exists|i: int|
                                0 <= i < av.len() && av[i] == p.availabilities@[k]
                    },
                    Err(e) => {
                        &&& !(name_error is None && request is None && missing.len() == 0)
                        &&& text_of(e.respondent_name) == name_error
                        &&& text_of(e.request) == request
                        &&& e.candidate_ids@ == missing
                    },
                }
            }),
    {
        let ghost ids = self.candidate_ids@;
        let ghost av = self.availabilities@;
        let respondent_name = trim(self.respondent_name.as_str());
        let mut errors = AvailabilityResponseErrors::default();
        validate_respondent_name(respondent_name.as_str(), &mut errors);

        let n = self.candidate_ids.len();
        let mut ids_ok = n > 0 && n <= EVENT_CANDIDATE_MAX_COUNT;
        let mut i: usize = 0;
        while i < n
            invariant
                n == ids.len(),
                ids == self.candidate_ids@,
                i <= n,
                ids_ok == (0 < n <= EVENT_CANDIDATE_MAX_COUNT && (forall|a: int| 0 <= a < i ==> #[trigger] ids[a] > 0)
                    && (forall|a: int, b: int| 0 <= a < b < n && a < i ==> ids[a] != ids[b])),
            decreases n - i,
        {
            if self.candidate_ids[i] <= 0 {
                ids_ok = false;
            }
            let mut j: usize = i + 1;
            let mut distinct = true;
            while j < n
                invariant
                    n == ids.len(),
                    ids == self.candidate_ids@,
                    i < n,
                    i + 1 <= j <= n,
                    distinct == forall|b: int| i < b < j ==> ids[i as int] != ids[b],
                decreases n - j,
            {
                if self.candidate_ids[i] == self.candidate_ids[j] {
                    distinct = false;
                }
                j = j + 1;
            }
            if !distinct {
                ids_ok = false;
            }
            i = i + 1;
        }
        assert(ids_ok == candidate_ids_acceptable(ids));
        if !ids_ok {
            errors.request = Some(String::from_str("候補日時を正しく読み込めませんでした。"));
        }

        let m = self.availabilities.len();
        let mut refused = false;
        let mut k: usize = 0;
        while k < m
            invariant
                m == av.len(),
                av == self.availabilities@,
                ids == self.candidate_ids@,
                k <= m,
                refused == exists|a: int| 0 <= a < k && choice_refused(ids, av, a),
            decreases m - k,
        {
            let c = self.availabilities[k];
            let mut repeated = false;
            let mut j: usize = 0;
            while j < k
                invariant
                    m == av.len(),
                    av == self.availabilities@,
                    j <= k < m,
                    c == av[k as int],
                    repeated == exists|a: int| 0 <= a < j && av[a].candidate_id == c.candidate_id,
                decreases k - j,
            {
                if self.availabilities[j].candidate_id == c.candidate_id {
                    repeated = true;
                }
                j = j + 1;
            }
            let usable = c.candidate_id > 0 && ids_contain(&self.candidate_ids, c.candidate_id);
            assert(usable == choice_usable(ids, av[k as int]));
            assert(choice_refused(ids, av, k as int) == (!usable || repeated));
            if !usable || repeated {
                refused = true;
            }
            k = k + 1;
        }
        if refused {
            errors.request = Some(String::from_str("候補日時への回答を確認してください。"));
        }
        assert(text_of(errors.request) == draft_request_error(ids, av));

        let mut missing: Vec<i64> = Vec::new();
        let mut chosen: Vec<CandidateAvailabilityInput> = Vec::new();
        let mut i: usize = 0;
        while i < n
            invariant
                n == ids.len(),
                m == av.len(),
                ids == self.candidate_ids@,
                av == self.availabilities@,
                i <= n,
                missing@ == ids.take(i as int).filter(|id: i64| !answered(ids, av, id)),
                missing@.len() == 0 ==> chosen@.len() == i,
                missing@.len() == 0 ==> forall|a: int|
                    0 <= a < i ==> (#[trigger] chosen@[a]).candidate_id == ids[a] && exists|b: int|
                        0 <= b < av.len() && av[b] == chosen@[a],
            decreases n - i,
        {
            let id = self.candidate_ids[i];
            let mut found = false;
            let mut value = Availability::Unavailable;
            let mut j: usize = 0;
            while j < m
                invariant
                    m == av.len(),
                    ids == self.candidate_ids@,
                    av == self.availabilities@,
                    j <= m,
                    found == exists|b: int| 0 <= b < j && choice_usable(ids, av[b]) && av[b].candidate_id == id,
                    found ==> exists|b: int| 0 <= b < m && av[b].candidate_id == id && av[b].availability == value,
                decreases m - j,
            {
                let c = self.availabilities[j];
                if c.candidate_id > 0 && c.candidate_id == id && ids_contain(&self.candidate_ids, id) {
                    found = true;
                    value = c.availability;
                    assert(choice_usable(ids, av[j as int]));
                }
                j = j + 1;
            }
            proof {
                reveal_with_fuel(Seq::<i64>::filter, 1);
                assert(ids.take(i + 1).drop_last() =~= ids.take(i as int));
            }
            if !found {
                missing.push(id);
            } else {
                let entry = CandidateAvailabilityInput { candidate_id: id, availability: value };
                chosen.push(entry);
            }
            i = i + 1;
        }
        assert(ids.take(n as int) =~= ids);
        errors.candidate_ids = missing;
        if errors.is_empty() {
            Ok(PreparedAvailabilityResponse { respondent_name, availabilities: chosen })
        } else {
            Err(errors)
        }
    }
}

/// Untrusted input accepted by the anonymous response server function.
#[derive(Clone, Debug, PartialEq, Eq)]
pub struct NewAvailabilityResponseInput {
    pub event_public_id: String,
    pub response_capability: String,
    pub response: PreparedAvailabilityResponse,
}

/// The choices are 1 to 20, each naming a positive candidate identifier, none repeated.
pub open spec fn choices_acceptable(av: Seq<CandidateAvailabilityInput>) -> bool {
    &&& 0 < av.len() <= EVENT_CANDIDATE_MAX_COUNT
    &&& forall|i: int| 0 <= i < av.len() ==> (#[trigger] av[i]).candidate_id > 0
    &&& forall|i: int, j: int| 0 <= i < j < av.len() ==> av[i].candidate_id != av[j].candidate_id
}

/// The request error of a response submission; the last failed check names it.
pub open spec fn response_request_error(
    event_public_id: Seq<char>,
    capability: Seq<char>,
    av: Seq<CandidateAvailabilityInput>,
) -> Option<Seq<char>> {
    if !choices_acceptable(av) {
        Some(msg_check_choices())
    } else if !is_capability(capability) {
        Some(msg_response_not_prepared())
    } else if !is_public_id(event_public_id) {
        Some(msg_event_unknown())
    } else {
        None
    }
}

pub open spec fn sorted_by_candidate(av: Seq<CandidateAvailabilityInput>) -> bool {
    forall|i: int, j: int| 0 <= i < j < av.len() ==> av[i].candidate_id < av[j].candidate_id
}

/// The choices ordered by candidate identifier.
fn sort_by_candidate(av: &Vec<CandidateAvailabilityInput>) -> (r: Vec<CandidateAvailabilityInput>)
    requires
        forall|i: int, j: int| 0 <= i < j < av@.len() ==> av@[i].candidate_id != av@[j].candidate_id,
    ensures
        r@.len() == av@.len(),
        sorted_by_candidate(r@),
        forall|x: CandidateAvailabilityInput| r@.contains(x) <==> av@.contains(x),
{
    let mut r: Vec<CandidateAvailabilityInput> = Vec::new();
    let mut i: usize = 0;
    while i < av.len()
        invariant
            i <= av.len(),
            forall|a: int, b: int| 0 <= a < b < av@.len() ==> av@[a].candidate_id != av@[b].candidate_id,
            r@.len() == i,
            sorted_by_candidate(r@),
            forall|x: CandidateAvailabilityInput| r@.contains(x) <==> av@.take(i as int).contains(x),
        decreases av.len() - i,
    {
        let x = av[i];
        let mut p: usize = 0;
        while p < r.len() && r[p].candidate_id < x.candidate_id
            invariant
                p <= r.len(),
                forall|q: int| 0 <= q < p ==> r@[q].candidate_id < x.candidate_id,
            decreases r.len() - p,
        {
            p = p + 1;
        }
        assert forall|q: int| 0 <= q < r@.len() implies r@[q].candidate_id != x.candidate_id by {
            assert(r@.contains(r@[q]));
            assert(av@.take(i as int).contains(r@[q]));
            let w = choose|w: int| 0 <= w < i && #[trigger] av@.take(i as int)[w] == r@[q];
            assert(av@[w] == r@[q]);
        }
        let ghost old_r = r@;
        r.insert(p, x);
        assert(r@ == old_r.insert(p as int, x));
        assert(av@.take(i + 1) =~= av@.take(i as int).push(x));
        assert forall|y: CandidateAvailabilityInput| r@.contains(y) implies av@.take(i + 1).contains(y) by {
            let w = choose|w: int| 0 <= w < r@.len() && r@[w] == y;
            if w == p {
                assert(av@.take(i + 1)[i as int] == x);
            } else {
                if w < p {
                    assert(old_r[w] == y);
                } else {
                    assert(old_r[w - 1] == y);
                }
                assert(old_r.contains(y));
                assert(av@.take(i as int).contains(y));
                let v = choose|v: int| 0 <= v < i && #[trigger] av@.take(i as int)[v] == y;
                assert(av@.take(i + 1)[v] == y);
            }
        }
        assert forall|y: CandidateAvailabilityInput| av@.take(i + 1).contains(y) implies r@.contains(y) by {
            if y == x {
                assert(r@[p as int] == x);
            } else {
                let w = choose|w: int| 0 <= w < i + 1 && #[trigger] av@.take(i + 1)[w] == y;
                assert(w < i);
                assert(av@.take(i as int)[w] == y);
                assert(av@.take(i as int).contains(y));
                assert(old_r.contains(y));
                let v = choose|v: int| 0 <= v < old_r.len() && old_r[v] == y;
                if v < p {
                    assert(r@[v] == y);
                } else {
                    assert(r@[v + 1] == y);
                }
            }
        }
        assert(sorted_by_candidate(r@)) by {
            assert forall|a: int, b: int| 0 <= a < b < r@.len() implies r@[a].candidate_id < r@[b].candidate_id by {
                if b < p {
                } else if b == p {
                } else if a < p {
                    assert(r@[b] == old_r[b - 1]);
                    if p < old_r.len() {
                        assert(old_r[p as int].candidate_id >= x.candidate_id);
                    }
                } else if a == p {
                    assert(r@[b] == old_r[b - 1]);
                    assert(old_r[p as int].candidate_id >= x.candidate_id);
                    assert(old_r[b - 1].candidate_id != x.candidate_id);
                } else {
                    assert(r@[a] == old_r[a - 1]);
                    assert(r@[b] == old_r[b - 1]);
                }
            }
        }
        i = i + 1;
    }
    assert(av@.take(av@.len() as int) =~= av@);
    r
}

impl NewAvailabilityResponseInput {
    /// Revalidate and normalize a typed request at the server boundary.
    pub fn normalized_and_validated(&self) -> (r: Result<Self, AvailabilityResponseErrors>)
        ensures
            ({
                let id = trimmed(self.event_public_id@);
                let cap = trimmed(self.response_capability@);
                let name = trimmed(self.response.respondent_name@);
                let av = self.response.availabilities@;
                let name_error = respondent_name_error(name);
                let request = response_request_error(id, cap, av);
                match r {
                    Ok(v) => {
                        &&& name_error is None
                        &&& request is None
                        &&& v.event_public_id@ == id
                        &&& v.response_capability@ == cap
                        &&& v.response.respondent_name@ == name
                        &&& v.response.availabilities@.len() == av.len()
                        &&& sorted_by_candidate(v.response.availabilities@)
                        &&& forall|x: CandidateAvailabilityInput|
                            v.response.availabilities@.contains(x) <==> av.contains(x)
                    },
                    Err(e) => {
                        &&& !(name_error is None && request is None)
                        &&& text_of(e.respondent_name) == name_error
                        &&& text_of(e.request) == request
                        &&& e.candidate_ids@.len() == 0
                    },
                }
            }),
    {
        let event_public_id = trim(self.event_public_id.as_str());
        let response_capability = trim(self.response_capability.as_str());
        let respondent_name = trim(self.response.respondent_name.as_str());
        let mut errors = AvailabilityResponseErrors::default();
        validate_respondent_name(respondent_name.as_str(), &mut errors);
        if !public_id_is_valid(event_public_id.as_str()) {
            errors.request = Some(String::from_str("イベントを確認できませんでした。"));
        }
        if !capability_is_valid(response_capability.as_str()) {
            errors.request = Some(String::from_str("回答の送信準備に失敗しました。"));
        }
        let av = &self.response.availabilities;
        let n = av.len();
        let mut acceptable = n > 0 && n <= EVENT_CANDIDATE_MAX_COUNT;
        let mut i: usize = 0;
        while i < n
            invariant
                n == av@.len(),
                i <= n,
                acceptable == (0 < n <= EVENT_CANDIDATE_MAX_COUNT && (forall|a: int|
                    0 <= a < i ==> (#[trigger] av@[a]).candidate_id > 0) && (forall|a: int, b: int|
                    0 <= a < b < n && a < i ==> av@[a].candidate_id != av@[b].candidate_id)),
            decreases n - i,
        {
            if av[i].candidate_id <= 0 {
                acceptable = false;
            }
            let mut j: usize = i + 1;
            let mut distinct = true;
            while j < n
                invariant
                    n == av@.len(),
                    i < n,
                    i + 1 <= j <= n,
                    distinct == forall|b: int| i < b < j ==> av@[i as int].candidate_id != av@[b].candidate_id,
                decreases n - j,
            {
                if av[i].candidate_id == av[j].candidate_id {
                    distinct = false;
                }
                j = j + 1;
            }
            if !distinct {
                acceptable = false;
            }
            i = i + 1;
        }
        if !acceptable {
            errors.request = Some(String::from_str("候補日時への回答を確認してください。"));
        }
        if errors.is_empty() {
            let availabilities = sort_by_candidate(av);
            Ok(NewAvailabilityResponseInput {
                event_public_id,
                response_capability,
                response: PreparedAvailabilityResponse { respondent_name, availabilities },
            })
        } else {
            Err(errors)
        }
    }
}

pub open spec fn msg_comment_required() -> Seq<char> {
    "ひとことを入力してください。"@
}

pub open spec fn msg_comment_too_long() -> Seq<char> {
    "ひとことは500文字以内で入力してください。"@
}

pub open spec fn msg_comment_forbidden_char() -> Seq<char> {
    "ひとことに使用できない文字が含まれています。"@
}

pub open spec fn msg_response_unknown() -> Seq<char> {
    "回答を確認できませんでした。"@
}

pub open spec fn comment_error(comment: Seq<char>) -> Option<Seq<char>> {
    if comment.len() == 0 {
        Some(msg_comment_required())
    } else if comment.len() > RESPONDENT_COMMENT_MAX_CHARS {
        Some(msg_comment_too_long())
    } else if comment.contains('\0') {
        Some(msg_comment_forbidden_char())
    } else {
        None
    }
}

/// Field and request errors for one optional response comment.
#[derive(Clone, Debug, PartialEq, Eq)]
pub struct ResponseCommentErrors {
    pub comment: Option<String>,
    pub request: Option<String>,
}

impl Default for ResponseCommentErrors {
    fn default() -> (e: Self)
        ensures
            e.comment is None,
            e.request is None,
    {
        ResponseCommentErrors { comment: None, request: None }
    }
}

impl ResponseCommentErrors {
    pub fn is_empty(&self) -> (b: bool)
        ensures
            b == (self.comment is None && self.request is None),
    {
        self.comment.is_none() && self.request.is_none()
    }

    /// The present messages, joined by spaces.
    pub fn message(&self) -> (s: String)
        ensures
            s@ == comment_errors_message(*self),
    {
        let parts = vec![copy_message(&self.comment), copy_message(&self.request)];
        proof {
            assert(message_views(parts@) =~= seq![text_of(self.comment), text_of(self.request)]);
        }
        join_present(parts)
    }
}

/// Record a comment error for an empty, over-long or NUL-bearing comment.
pub fn validate_response_comment(comment: &str, errors: &mut ResponseCommentErrors)
    ensures
        text_of(final(errors).comment) == (match comment_error(comment@) {
            Some(m) => Some(m),
            None => text_of(old(errors).comment),
        }),
        final(errors).request == old(errors).request,
{
    let n = comment.unicode_len();
    if n == 0 {
        errors.comment = Some(String::from_str("ひとことを入力してください。"));
    } else if n > RESPONDENT_COMMENT_MAX_CHARS {
        errors.comment = Some(String::from_str("ひとことは500文字以内で入力してください。"));
    } else if str_contains_char(comment, '\0') {
        errors.comment = Some(String::from_str("ひとことに使用できない文字が含まれています。"));
    }
}

/// Browser-side optional comment before validation.
#[derive(Clone, Debug, PartialEq, Eq)]
pub struct ResponseCommentDraft {
    pub comment: String,
}

/// A normalized optional utterance ready to cross the server boundary.
#[derive(Clone, Debug, PartialEq, Eq)]
pub struct PreparedResponseComment {
    pub comment: String,
}

impl ResponseCommentDraft {
    /// Normalize one intentional utterance without turning an empty draft into data.
    pub fn prepare(&self) -> (r: Result<PreparedResponseComment, ResponseCommentErrors>)
        ensures
            match r {
                Ok(p) => comment_error(trimmed(self.comment@)) is None && p.comment@ == trimmed(
                    self.comment@,
                ),
                Err(e) => comment_error(trimmed(self.comment@)) is Some && text_of(e.comment)
                    == comment_error(trimmed(self.comment@)) && e.request is None,
            },
    {
        let comment = trim(self.comment.as_str());
        let mut errors = ResponseCommentErrors::default();
        validate_response_comment(comment.as_str(), &mut errors);
        if errors.is_empty() {
            Ok(PreparedResponseComment { comment })
        } else {
            Err(errors)
        }
    }
}

/// Untrusted input accepted by the anonymous response-comment server function.
#[derive(Clone, Debug, PartialEq, Eq)]
pub struct NewResponseCommentInput {
    pub event_public_id: String,
    pub response_capability: String,
    pub comment: String,
}

pub open spec fn comment_request_error(event_public_id: Seq<char>, capability: Seq<char>) -> Option<
    Seq<char>,
> {
    if !is_capability(capability) {
        Some(msg_response_unknown())
    } else if !is_public_id(event_public_id) {
        Some(msg_event_unknown())
    } else {
        None
    }
}

impl NewResponseCommentInput {
    /// Revalidate authorization identifiers and comment text at the server boundary.
    pub fn normalized_and_validated(&self) -> (r: Result<Self, ResponseCommentErrors>)
        ensures
            ({
                let id = trimmed(self.event_public_id@);
                let cap = trimmed(self.response_capability@);
                let comment = trimmed(self.comment@);
                match r {
                    Ok(v) => comment_error(comment) is None && comment_request_error(id, cap) is None
                        && v.event_public_id@ == id && v.response_capability@ == cap && v.comment@
                        == comment,
                    Err(e) => !(comment_error(comment) is None && comment_request_error(id, cap) is None)
                        && text_of(e.comment) == comment_error(comment) && text_of(e.request)
                        == comment_request_error(id, cap),
                }
            }),
    {
        let event_public_id = trim(self.event_public_id.as_str());
        let response_capability = trim(self.response_capability.as_str());
        let comment = trim(self.comment.as_str());
        let mut errors = ResponseCommentErrors::default();
        validate_response_comment(comment.as_str(), &mut errors);
        if !public_id_is_valid(event_public_id.as_str()) {
            errors.request = Some(String::from_str("イベントを確認できませんでした。"));
        }
        if !capability_is_valid(response_capability.as_str()) {
            errors.request = Some(String::from_str("回答を確認できませんでした。"));
        }
        if errors.is_empty() {
            Ok(NewResponseCommentInput { event_public_id, response_capability, comment })
        } else {
            Err(errors)
        }
    }
}

} // verus!
