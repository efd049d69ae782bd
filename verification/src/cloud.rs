//! The limited cloud journey: creation requests, answers, browser-saved records and the
//! organizer's response matrix.

use vstd::prelude::*;
use vstd::string::*;
use vstd::utf8::encode_utf8;
use crate::domain::event::{
    candidates_view, event_validation_in, CandidateInput, NewEventInput, NewEventInputView,
};
use crate::domain::organizer::{ResponseMatrix, ResponseMatrixCandidate, ResponseMatrixRow};
use crate::domain::response::Availability;
use crate::domain::account::text_of;
use crate::domain::fields::{capability_is_valid, is_capability};
use crate::text::{
    char_is_ascii_alphanumeric, char_is_control, decimal2, is_ascii_alphanumeric, is_control,
    push_char, push_decimal, str_eq, trim, trimmed,
};

verus! {

pub const CREATION_KEY: &'static str = "tsunoru.cloud.creation.v1";

/// A cloud identifier: 1 to 64 ASCII letters, digits, `-` or `_`.
pub open spec fn is_cloud_id(s: Seq<char>) -> bool {
    &&& 1 <= s.len() <= 64
    &&& forall|i: int|
        0 <= i < s.len() ==> #[trigger] is_ascii_alphanumeric(s[i]) || s[i] == '-' || s[i] == '_'
}

pub fn valid_id(value: &str) -> (b: bool)
    ensures
        b == is_cloud_id(value@),
{
    let n = value.unicode_len();
    if n < 1 || n > 64 {
        return false;
    }
    let mut i: usize = 0;
    while i < n
        invariant
            n == value@.len(),
            i <= n,
            forall|k: int|
                0 <= k < i ==> #[trigger] is_ascii_alphanumeric(value@[k]) || value@[k] == '-'
                    || value@[k] == '_',
        decreases n - i,
    {
        let c = value.get_char(i);
        if !(char_is_ascii_alphanumeric(c) || c == '-' || c == '_') {
            return false;
        }
        i = i + 1;
    }
    true
}

/// A browser-held key: exactly 64 lowercase hexadecimal digits.
pub fn valid_key(value: &str) -> (b: bool)
    ensures
        b == is_capability(value@),
{
    capability_is_valid(value)
}

#[derive(Clone, PartialEq, Eq)]
pub struct Candidate {
    pub id: String,
    pub local_date: String,
    pub local_time: String,
}

impl View for Candidate {
    type V = (Seq<char>, Seq<char>, Seq<char>);

    open spec fn view(&self) -> (Seq<char>, Seq<char>, Seq<char>) {
        (self.id@, self.local_date@, self.local_time@)
    }
}

pub open spec fn cloud_candidates_view(v: Seq<Candidate>) -> Seq<(Seq<char>, Seq<char>, Seq<char>)> {
    v.map_values(|c: Candidate| c@)
}

/// Candidates numbered `01`, `02`, ... in authored order.
pub open spec fn numbered_candidates(c: Seq<(Seq<char>, Seq<char>)>) -> Seq<
    (Seq<char>, Seq<char>, Seq<char>),
> {
    Seq::new(c.len(), |k: int| (decimal2((k + 1) as nat), c[k].0, c[k].1))
}

/// The date and time of each candidate, without its identifier.
pub open spec fn unnumbered_candidates(c: Seq<(Seq<char>, Seq<char>, Seq<char>)>) -> Seq<
    (Seq<char>, Seq<char>),
> {
    c.map_values(|x: (Seq<char>, Seq<char>, Seq<char>)| (x.1, x.2))
}

pub open spec fn candidate_ids_unique(c: Seq<(Seq<char>, Seq<char>, Seq<char>)>) -> bool {
    forall|i: int, j: int| 0 <= i < j < c.len() ==> c[i].0 != c[j].0
}

#[derive(Clone, PartialEq, Eq)]
pub struct CreateRequest {
    pub id: String,
    pub name: String,
    pub organizer_capability: String,
    pub time_zone: String,
    pub organizer_note: Option<String>,
    pub candidates: Vec<Candidate>,
}

#[derive(Clone, PartialEq, Eq)]
pub struct Event {
    pub id: String,
    pub name: String,
    pub time_zone: String,
    pub organizer_note: Option<String>,
    pub candidates: Vec<Candidate>,
}

/// The event input that an event's fields form.
pub open spec fn event_input_view(
    name: Seq<char>,
    organizer_note: Option<Seq<char>>,
    time_zone: Seq<char>,
    candidates: Seq<(Seq<char>, Seq<char>, Seq<char>)>,
) -> NewEventInputView {
    NewEventInputView {
        name,
        organizer_note,
        time_zone,
        candidates: unnumbered_candidates(candidates),
    }
}

/// A well-formed event: valid identifiers, distinct candidate identifiers, and fields
/// that event validation accepts.
pub open spec fn event_is_valid(e: Event) -> bool {
    let c = cloud_candidates_view(e.candidates@);
    &&& is_cloud_id(e.id@)
    &&& forall|i: int| 0 <= i < c.len() ==> is_cloud_id(#[trigger] c[i].0)
    &&& candidate_ids_unique(c)
    &&& event_validation_in(
        event_input_view(e.name@, text_of(e.organizer_note), e.time_zone@, c),
        false,
    ) is Ok
}

fn copy_option(s: &Option<String>) -> (r: Option<String>)
    ensures
        text_of(r) == text_of(*s),
{
    match s {
        Some(s) => Some(s.clone()),
        None => None,
    }
}

fn copy_cloud_candidates(c: &Vec<Candidate>) -> (r: Vec<Candidate>)
    ensures
        cloud_candidates_view(r@) == cloud_candidates_view(c@),
{
    let mut r: Vec<Candidate> = Vec::new();
    let mut i: usize = 0;
    while i < c.len()
        invariant
            i <= c.len(),
            r@.len() == i,
            forall|k: int| 0 <= k < i ==> #[trigger] r@[k]@ == c@[k]@,
        decreases c.len() - i,
    {
        r.push(
            Candidate {
                id: c[i].id.clone(),
                local_date: c[i].local_date.clone(),
                local_time: c[i].local_time.clone(),
            },
        );
        i = i + 1;
    }
    assert(cloud_candidates_view(r@) =~= cloud_candidates_view(c@));
    r
}

fn input_candidates(c: &Vec<Candidate>) -> (r: Vec<CandidateInput>)
    ensures
        candidates_view(r@) == unnumbered_candidates(cloud_candidates_view(c@)),
{
    let mut r: Vec<CandidateInput> = Vec::new();
    let mut i: usize = 0;
    while i < c.len()
        invariant
            i <= c.len(),
            r@.len() == i,
            forall|k: int| 0 <= k < i ==> #[trigger] r@[k]@ == (c@[k].local_date@, c@[k].local_time@),
        decreases c.len() - i,
    {
        r.push(
            CandidateInput {
                local_date: c[i].local_date.clone(),
                local_time: c[i].local_time.clone(),
            },
        );
        i = i + 1;
    }
    assert(candidates_view(r@) =~= unnumbered_candidates(cloud_candidates_view(c@)));
    r
}

pub fn cloud_candidate_ids_unique(c: &Vec<Candidate>) -> (b: bool)
    ensures
        b == candidate_ids_unique(cloud_candidates_view(c@)),
{
    let ghost s = cloud_candidates_view(c@);
    let n = c.len();
    let mut i: usize = 0;
    while i < n
        invariant
            n == c@.len() == s.len(),
            s == cloud_candidates_view(c@),
            i <= n,
            forall|x: int, y: int| 0 <= x < y < n && x < i ==> s[x].0 != s[y].0,
        decreases n - i,
    {
        let mut j: usize = i + 1;
        while j < n
            invariant
                n == c@.len() == s.len(),
                s == cloud_candidates_view(c@),
                i < n,
                i + 1 <= j <= n,
                forall|x: int, y: int| 0 <= x < y < n && x < i ==> s[x].0 != s[y].0,
                forall|y: int| i < y < j ==> s[i as int].0 != s[y].0,
            decreases n - j,
        {
            if c[i].id == c[j].id {
                assert(s[i as int].0 == s[j as int].0);
                return false;
            }
            j = j + 1;
        }
        i = i + 1;
    }
    true
}

impl CreateRequest {
    /// Number the candidates `01`, `02`, ... and attach the identifiers.
    pub fn new(input: NewEventInput, id: String, organizer_capability: String) -> (r: Self)
        ensures
            r.id == id,
            r.name == input.name,
            r.organizer_capability == organizer_capability,
            r.time_zone == input.time_zone,
            r.organizer_note == input.organizer_note,
            cloud_candidates_view(r.candidates@) == numbered_candidates(input@.candidates),
    {
        let mut candidates: Vec<Candidate> = Vec::new();
        let n = input.candidates.len();
        let mut i: usize = 0;
        while i < n
            invariant
                n == input.candidates@.len(),
                i <= n,
                candidates@.len() == i,
                forall|k: int|
                    0 <= k < i ==> #[trigger] candidates@[k]@ == numbered_candidates(
                        input@.candidates,
                    )[k],
            decreases n - i,
        {
            let mut number = String::new();
            let position = (i + 1) as u64;
            if position < 10 {
                push_char(&mut number, '0');
            }
            push_decimal(&mut number, position);
            proof {
                if position < 10 {
                    reveal_with_fuel(crate::text::decimal, 1);
                    assert(number@ =~= decimal2(position as nat));
                }
            }
            let c = &input.candidates[i];
            candidates.push(
                Candidate {
                    id: number,
                    local_date: c.local_date.clone(),
                    local_time: c.local_time.clone(),
                },
            );
            i = i + 1;
        }
        assert(cloud_candidates_view(candidates@) =~= numbered_candidates(input@.candidates));
        CreateRequest {
            id,
            name: input.name,
            organizer_capability,
            time_zone: input.time_zone,
            organizer_note: input.organizer_note,
            candidates,
        }
    }

    /// The public event that this request creates.
    pub fn event(&self) -> (e: Event)
        ensures
            e.id@ == self.id@,
            e.name@ == self.name@,
            e.time_zone@ == self.time_zone@,
            text_of(e.organizer_note) == text_of(self.organizer_note),
            cloud_candidates_view(e.candidates@) == cloud_candidates_view(self.candidates@),
    {
        Event {
            id: self.id.clone(),
            name: self.name.clone(),
            time_zone: self.time_zone.clone(),
            organizer_note: copy_option(&self.organizer_note),
            candidates: copy_cloud_candidates(&self.candidates),
        }
    }

    /// The event input that this request carries.
    pub fn input(&self) -> (v: NewEventInput)
        ensures
            v@ == event_input_view(
                self.name@,
                text_of(self.organizer_note),
                self.time_zone@,
                cloud_candidates_view(self.candidates@),
            ),
    {
        NewEventInput {
            name: self.name.clone(),
            organizer_note: copy_option(&self.organizer_note),
            time_zone: self.time_zone.clone(),
            candidates: input_candidates(&self.candidates),
        }
    }

    pub open spec fn spec_valid(&self) -> bool {
        is_capability(self.id@) && is_capability(self.organizer_capability@) && event_is_valid(
            Event {
                id: self.id,
                name: self.name,
                time_zone: self.time_zone,
                organizer_note: self.organizer_note,
                candidates: self.candidates,
            },
        )
    }

    /// Both identifiers are well formed and the event is valid.
    pub fn valid(&self) -> (b: bool)
        ensures
            b == self.spec_valid(),
    {
        valid_key(self.id.as_str()) && valid_key(self.organizer_capability.as_str())
            && self.event().valid()
    }
}

/// Numbering candidates and reading them back as input gives the candidates again.
pub proof fn lemma_numbering_roundtrip(c: Seq<(Seq<char>, Seq<char>)>)
    ensures
        unnumbered_candidates(numbered_candidates(c)) == c,
{
    assert(unnumbered_candidates(numbered_candidates(c)) =~= c);
}

impl Event {
    /// Identifiers are well formed and distinct, and event validation accepts the fields.
    pub fn valid(&self) -> (b: bool)
        ensures
            b == event_is_valid(*self),
    {
        if !valid_id(self.id.as_str()) {
            return false;
        }
        let ghost c = cloud_candidates_view(self.candidates@);
        let mut i: usize = 0;
        while i < self.candidates.len()
            invariant
                i <= self.candidates.len(),
                c == cloud_candidates_view(self.candidates@),
                forall|k: int| 0 <= k < i ==> is_cloud_id(#[trigger] c[k].0),
            decreases self.candidates.len() - i,
        {
            if !valid_id(self.candidates[i].id.as_str()) {
                assert(!is_cloud_id(c[i as int].0));
                return false;
            }
            i = i + 1;
        }
        if !cloud_candidate_ids_unique(&self.candidates) {
            return false;
        }
        let input = NewEventInput {
            name: self.name.clone(),
            organizer_note: copy_option(&self.organizer_note),
            time_zone: self.time_zone.clone(),
            candidates: input_candidates(&self.candidates),
        };
        match input.normalized_and_validated_in_browser() {
            Ok(_) => true,
            Err(_) => false,
        }
    }
}


pub open spec fn msg_answer_name() -> Seq<char> {
    "名前は1〜100文字で入力してください。"@
}

pub open spec fn msg_answer_choices() -> Seq<char> {
    "すべての候補日時への都合を選んでください。"@
}

/// One chosen availability for one candidate identifier.
#[derive(Clone, PartialEq, Eq)]
pub struct Selection {
    pub candidate_id: String,
    pub availability: Availability,
}

impl View for Selection {
    type V = (Seq<char>, Availability);

    open spec fn view(&self) -> (Seq<char>, Availability) {
        (self.candidate_id@, self.availability)
    }
}

pub open spec fn selections_view(v: Seq<Selection>) -> Seq<(Seq<char>, Availability)> {
    v.map_values(|s: Selection| s@)
}

/// No candidate identifier is chosen twice.
pub open spec fn keys_distinct(c: Seq<(Seq<char>, Availability)>) -> bool {
    forall|i: int, j: int| 0 <= i < j < c.len() ==> c[i].0 != c[j].0
}

pub open spec fn has_key(c: Seq<(Seq<char>, Availability)>, id: Seq<char>) -> bool {
    exists|i: int| 0 <= i < c.len() && #[trigger] c[i].0 == id
}

/// There is exactly one choice per candidate: as many choices as candidates, and every
/// candidate identifier among them.
pub open spec fn choices_cover(
    cands: Seq<(Seq<char>, Seq<char>, Seq<char>)>,
    c: Seq<(Seq<char>, Availability)>,
) -> bool {
    &&& c.len() == cands.len()
    &&& forall|k: int| 0 <= k < cands.len() ==> has_key(c, #[trigger] cands[k].0)
}

/// `out` holds, candidate by candidate, the availability chosen for that candidate.
pub open spec fn picks(
    cands: Seq<(Seq<char>, Seq<char>, Seq<char>)>,
    c: Seq<(Seq<char>, Availability)>,
    out: Seq<Availability>,
) -> bool {
    &&& out.len() == cands.len()
    &&& forall|k: int, i: int|
        #![trigger c[i], out[k]]
        0 <= k < cands.len() && 0 <= i < c.len() && c[i].0 == cands[k].0 ==> c[i].1 == out[k]
}

/// A respondent name without control characters, 1 to 100 characters long.
pub open spec fn answer_name_acceptable(t: Seq<char>) -> bool {
    &&& 1 <= t.len() <= 100
    &&& forall|i: int| 0 <= i < t.len() ==> !is_control(#[trigger] t[i])
}

pub(crate) fn str_has_control(s: &str) -> (b: bool)
    ensures
        b == exists|i: int| 0 <= i < s@.len() && is_control(#[trigger] s@[i]),
{
    let n = s.unicode_len();
    let mut i: usize = 0;
    while i < n
        invariant
            n == s@.len(),
            i <= n,
            forall|k: int| 0 <= k < i ==> !is_control(#[trigger] s@[k]),
        decreases n - i,
    {
        if char_is_control(s.get_char(i)) {
            return true;
        }
        i = i + 1;
    }
    false
}

/// The position of the choice for `id`, if there is one.
fn find_selection(choices: &Vec<Selection>, id: &String) -> (r: Option<usize>)
    ensures
        match r {
            Some(i) => i < choices@.len() && choices@[i as int].candidate_id@ == id@,
            None => !has_key(selections_view(choices@), id@),
        },
{
    let mut i: usize = 0;
    while i < choices.len()
        invariant
            i <= choices@.len(),
            forall|k: int| 0 <= k < i ==> choices@[k].candidate_id@ != id@,
        decreases choices.len() - i,
    {
        if choices[i].candidate_id == *id {
            return Some(i);
        }
        i = i + 1;
    }
    proof {
        let c = selections_view(choices@);
        assert forall|k: int| 0 <= k < c.len() implies #[trigger] c[k].0 != id@ by {
            assert(c[k] == choices@[k]@);
        }
    }
    None
}

pub fn copy_selection(s: &Selection) -> (r: Selection)
    ensures
        r@ == s@,
{
    Selection { candidate_id: s.candidate_id.clone(), availability: s.availability }
}

pub fn selection_keys_distinct(v: &Vec<Selection>) -> (b: bool)
    ensures
        b == keys_distinct(selections_view(v@)),
{
    let ghost c = selections_view(v@);
    let n = v.len();
    let mut i: usize = 0;
    while i < n
        invariant
            n == v@.len(),
            c == selections_view(v@),
            i <= n,
            forall|x: int, y: int| 0 <= x < y < n && x < i ==> c[x].0 != c[y].0,
        decreases n - i,
    {
        let mut j: usize = i + 1;
        while j < n
            invariant
                n == v@.len(),
                c == selections_view(v@),
                i < n,
                i + 1 <= j <= n,
                forall|x: int, y: int| 0 <= x < y < n && x < i ==> c[x].0 != c[y].0,
                forall|y: int| i < y < j ==> c[i as int].0 != c[y].0,
            decreases n - j,
        {
            if v[i].candidate_id == v[j].candidate_id {
                assert(c[i as int].0 == c[j as int].0);
                return false;
            }
            j = j + 1;
        }
        i = i + 1;
    }
    true
}

/// A respondent's name and one choice per candidate.
#[derive(Clone, PartialEq, Eq)]
pub struct Answer {
    pub respondent_name: String,
    pub availabilities: Vec<Selection>,
}

/// A stored answer: a non-blank name of at most 100 characters without control
/// characters, and 1 to 20 choices with well-formed, distinct candidate identifiers.
pub open spec fn answer_is_valid(a: Answer) -> bool {
    let c = selections_view(a.availabilities@);
    &&& trimmed(a.respondent_name@).len() > 0
    &&& a.respondent_name@.len() <= 100
    &&& forall|i: int|
        0 <= i < a.respondent_name@.len() ==> !is_control(#[trigger] a.respondent_name@[i])
    &&& 1 <= c.len() <= 20
    &&& forall|i: int| 0 <= i < c.len() ==> is_cloud_id(#[trigger] c[i].0)
    &&& keys_distinct(c)
}

impl Answer {
    /// Trim the name and order the choices by the event's candidates.
    pub fn prepare(event: &Event, name: &str, choices: &Vec<Selection>) -> (r: Result<
        Self,
        String,
    >)
        requires
            keys_distinct(selections_view(choices@)),
        ensures
            ({
                let t = trimmed(name@);
                let cands = cloud_candidates_view(event.candidates@);
                let c = selections_view(choices@);
                match r {
                    Ok(a) => answer_name_acceptable(t) && choices_cover(cands, c)
                        && a.respondent_name@ == t && picks(
                        cands,
                        c,
                        selections_view(a.availabilities@).map_values(
                            |x: (Seq<char>, Availability)| x.1,
                        ),
                    ) && forall|k: int|
                        0 <= k < cands.len() ==> #[trigger] a.availabilities@[k].candidate_id@
                            == cands[k].0,
                    Err(e) => if !answer_name_acceptable(t) {
                        e@ == msg_answer_name()
                    } else {
                        !choices_cover(cands, c) && e@ == msg_answer_choices()
                    },
                }
            }),
    {
        let t = trim(name);
        let n = t.as_str().unicode_len();
        if n == 0 || n > 100 || str_has_control(t.as_str()) {
            return Err(String::from_str("名前は1〜100文字で入力してください。"));
        }
        let ghost cands = cloud_candidates_view(event.candidates@);
        let ghost c = selections_view(choices@);
        if choices.len() != event.candidates.len() {
            return Err(String::from_str("すべての候補日時への都合を選んでください。"));
        }
        let mut out: Vec<Selection> = Vec::new();
        let mut k: usize = 0;
        while k < event.candidates.len()
            invariant
                k <= event.candidates@.len(),
                cands == cloud_candidates_view(event.candidates@),
                c == selections_view(choices@),
                c.len() == cands.len(),
                t@ == trimmed(name@),
                answer_name_acceptable(t@),
                out@.len() == k,
                keys_distinct(c),
                forall|j: int| 0 <= j < k ==> has_key(c, #[trigger] cands[j].0),
                forall|j: int, i: int|
                    #![trigger c[i], out@[j]]
                    0 <= j < k && 0 <= i < c.len() && c[i].0 == cands[j].0 ==> c[i].1
                        == out@[j].availability,
                forall|j: int| 0 <= j < k ==> #[trigger] out@[j].candidate_id@ == cands[j].0,
            decreases event.candidates.len() - k,
        {
            match find_selection(choices, &event.candidates[k].id) {
                Some(i) => {
                    let sel = Selection {
                        candidate_id: event.candidates[k].id.clone(),
                        availability: choices[i].availability,
                    };
                    assert(c[i as int] == choices@[i as int]@);
                    assert(cands[k as int] == event.candidates@[k as int]@);
                    assert(sel.candidate_id@ == cands[k as int].0);
                    assert(c[i as int].0 == cands[k as int].0);
                    let ghost before = out@;
                    out.push(sel);
                    assert forall|j: int| 0 <= j <= k implies #[trigger] out@[j].candidate_id@
                        == cands[j].0 by {
                        if j < k {
                            assert(out@[j] == before[j]);
                            assert(before[j].candidate_id@ == cands[j].0);
                        } else {
                            assert(out@[j] == sel);
                        }
                    }
                    assert forall|j: int, x: int|
                        #![trigger c[x], out@[j]]
                        0 <= j <= k && 0 <= x < c.len() && c[x].0 == cands[j].0 implies c[x].1
                            == out@[j].availability by {
                        if j < k {
                            assert(out@[j] == before[j]);
                        } else if x != i {
                            assert(c[x].0 == c[i as int].0);
                        }
                    }
                },
                None => {
                    assert(!has_key(c, cands[k as int].0));
                    return Err(String::from_str("すべての候補日時への都合を選んでください。"));
                },
            }
            k = k + 1;
        }
        proof {
            let sv = selections_view(out@).map_values(|x: (Seq<char>, Availability)| x.1);
            assert forall|j: int, i: int|
                #![trigger c[i], sv[j]]
                0 <= j < cands.len() && 0 <= i < c.len() && c[i].0 == cands[j].0 implies c[i].1
                == sv[j] by {
                assert(sv[j] == out@[j].availability);
            }
        }
        Ok(Answer { respondent_name: t, availabilities: out })
    }

    pub fn valid(&self) -> (b: bool)
        ensures
            b == answer_is_valid(*self),
    {
        let ghost c = selections_view(self.availabilities@);
        let t = trim(self.respondent_name.as_str());
        if t.as_str().unicode_len() == 0 || self.respondent_name.as_str().unicode_len() > 100
            || str_has_control(self.respondent_name.as_str()) {
            return false;
        }
        let n = self.availabilities.len();
        if n == 0 || n > 20 {
            return false;
        }
        let mut i: usize = 0;
        while i < n
            invariant
                n == self.availabilities@.len(),
                c == selections_view(self.availabilities@),
                i <= n,
                forall|k: int| 0 <= k < i ==> is_cloud_id(#[trigger] c[k].0),
            decreases n - i,
        {
            if !valid_id(self.availabilities[i].candidate_id.as_str()) {
                assert(!is_cloud_id(c[i as int].0));
                return false;
            }
            i = i + 1;
        }
        selection_keys_distinct(&self.availabilities)
    }
}


/// The browser-saved creation request and whether the server accepted it.
#[derive(Clone, PartialEq, Eq)]
pub struct CreationRecord {
    pub request: CreateRequest,
    pub accepted: bool,
}

/// The browser-saved answer to one event and whether the server accepted it.
#[derive(Clone, PartialEq, Eq)]
pub struct ResponseRecord {
    pub event_id: String,
    pub capability: String,
    pub answer: Answer,
    pub accepted: bool,
}

/// Key-value storage that keeps the cloud journey's records between visits.
pub trait Store {
    /// `r` is an answer that this store may give when `key` is read. A store that says
    /// nothing of its reads may give any answer.
    open spec fn read_gives(&self, key: Seq<char>, r: Result<Option<String>, String>) -> bool {
        true
    }

    fn read(&self, key: &str) -> (r: Result<Option<String>, String>)
        ensures
            self.read_gives(key@, r),
    ;

    /// `r` is an answer that this store may give when `value` is written under `key`. A
    /// store that says nothing of its writes may give any answer.
    open spec fn write_gives(&self, key: Seq<char>, value: Seq<char>, r: Result<(), String>) -> bool {
        true
    }

    fn write(&self, key: &str, value: &str) -> (r: Result<(), String>)
        ensures
            self.write_gives(key@, value@, r),
    ;

    fn remove(&self, key: &str) -> Result<(), String>;
}

pub open spec fn organizer_key_text(event_id: Seq<char>) -> Seq<char> {
    "tsunoru.cloud.organizer.v1."@ + event_id
}

pub open spec fn response_key_text(event_id: Seq<char>) -> Seq<char> {
    "tsunoru.cloud.response.v1."@ + event_id
}

pub open spec fn msg_saved_data() -> Seq<char> {
    "保存していた送信内容を読み込めません。別のブラウザーで新しく送る前に、主催者へ確認してください。"@
}

pub open spec fn msg_unsaved_event() -> Seq<char> {
    "保存するイベントを確認できません。"@
}

pub open spec fn msg_unsaved_answer() -> Seq<char> {
    "保存する回答を確認できません。"@
}

/// The largest saved text, in UTF-8 octets, that is decoded at all.
pub const SAVED_TEXT_MAX_BYTES: usize = 65536;

/// The storage key of an event's organizer capability.
pub fn organizer_key(event_id: &str) -> (k: String)
    ensures
        k@ == organizer_key_text(event_id@),
{
    String::from_str("tsunoru.cloud.organizer.v1.").concat(event_id)
}

/// The storage key of the answer given to an event.
pub fn response_key(event_id: &str) -> (k: String)
    ensures
        k@ == response_key_text(event_id@),
{
    String::from_str("tsunoru.cloud.response.v1.").concat(event_id)
}

pub fn saved_data_error() -> (e: String)
    ensures
        e@ == msg_saved_data(),
{
    String::from_str(
        "保存していた送信内容を読み込めません。別のブラウザーで新しく送る前に、主催者へ確認してください。",
    )
}

/// A saved text is decoded only when it is at most `SAVED_TEXT_MAX_BYTES` octets long.
pub fn checked_saved_text(value: String) -> (r: Result<String, String>)
    ensures
        encode_utf8(value@).len() <= SAVED_TEXT_MAX_BYTES ==> r == Ok::<String, String>(value),
        encode_utf8(value@).len() > SAVED_TEXT_MAX_BYTES ==> (r matches Err(e)
            && e@ == msg_saved_data()),
{
    if value.as_str().as_bytes().len() > SAVED_TEXT_MAX_BYTES {
        Err(saved_data_error())
    } else {
        Ok(value)
    }
}

/// A loaded creation record is kept only when its request is still valid.
pub fn checked_creation(record: Option<CreationRecord>) -> (r: Result<
    Option<CreationRecord>,
    String,
>)
    ensures
        match record {
            None => r == Ok::<Option<CreationRecord>, String>(None),
            Some(rec) => if rec.request.spec_valid() {
                r == Ok::<Option<CreationRecord>, String>(Some(rec))
            } else {
                r matches Err(e) && e@ == msg_saved_data()
            },
        },
{
    match record {
        None => Ok(None),
        Some(rec) => if rec.request.valid() {
            Ok(Some(rec))
        } else {
            Err(saved_data_error())
        },
    }
}

/// A loaded answer is kept only when it belongs to `event_id`, its capability is well
/// formed and the answer is valid.
pub fn checked_response(event_id: &str, record: Option<ResponseRecord>) -> (r: Result<
    Option<ResponseRecord>,
    String,
>)
    ensures
        match record {
            None => r == Ok::<Option<ResponseRecord>, String>(None),
            Some(rec) => if rec.event_id@ == event_id@ && is_capability(rec.capability@)
                && answer_is_valid(rec.answer) {
                r == Ok::<Option<ResponseRecord>, String>(Some(rec))
            } else {
                r matches Err(e) && e@ == msg_saved_data()
            },
        },
{
    match record {
        None => Ok(None),
        Some(rec) => if str_eq(rec.event_id.as_str(), event_id) && valid_key(
            rec.capability.as_str(),
        ) && rec.answer.valid() {
            Ok(Some(rec))
        } else {
            Err(saved_data_error())
        },
    }
}

/// A loaded organizer capability is kept only when it is well formed.
pub fn checked_organizer(key: Option<String>) -> (r: Result<Option<String>, String>)
    ensures
        match key {
            None => r == Ok::<Option<String>, String>(None),
            Some(k) => if is_capability(k@) {
                r == Ok::<Option<String>, String>(Some(k))
            } else {
                r matches Err(e) && e@ == msg_saved_data()
            },
        },
{
    match key {
        None => Ok(None),
        Some(k) => if valid_key(k.as_str()) {
            Ok(Some(k))
        } else {
            Err(saved_data_error())
        },
    }
}

/// The writes that save a creation record, in order: the organizer capability under its
/// own key, then `encoded`, the record's stored form, under `CREATION_KEY`; none for an
/// invalid request.
pub fn creation_writes(record: &CreationRecord, encoded: &str) -> (r: Result<Vec<(String, String)>, String>)
    ensures
        match r {
            Ok(w) => record.request.spec_valid() && w@.len() == 2 && w@[0].0@ == organizer_key_text(
                record.request.id@,
            ) && w@[0].1@ == record.request.organizer_capability@ && w@[1].0@ == CREATION_KEY@
                && w@[1].1@ == encoded@,
            Err(e) => !record.request.spec_valid() && e@ == msg_unsaved_event(),
        },
{
    if !record.request.valid() {
        return Err(String::from_str("保存するイベントを確認できません。"));
    }
    let mut w: Vec<(String, String)> = Vec::new();
    w.push((organizer_key(record.request.id.as_str()), record.request.organizer_capability.clone()));
    w.push((String::from_str(CREATION_KEY), String::from_str(encoded)));
    Ok(w)
}

/// The write that saves an answer: `encoded` under the event's response key, provided that
/// the event identifier and capability are well formed and the answer is valid.
pub fn response_write(record: &ResponseRecord, encoded: &str) -> (r: Result<(String, String), String>)
    ensures
        match r {
            Ok((k, v)) => is_cloud_id(record.event_id@) && is_capability(record.capability@)
                && answer_is_valid(record.answer) && k@ == response_key_text(record.event_id@) && v@
                == encoded@,
            Err(e) => !(is_cloud_id(record.event_id@) && is_capability(record.capability@)
                && answer_is_valid(record.answer)) && e@ == msg_unsaved_answer(),
        },
{
    if !valid_id(record.event_id.as_str()) || !valid_key(record.capability.as_str())
        || !record.answer.valid() {
        return Err(String::from_str("保存する回答を確認できません。"));
    }
    Ok((response_key(record.event_id.as_str()), String::from_str(encoded)))
}

/// What saving a creation record comes to: an invalid request is refused before the store
/// is asked; otherwise the organizer capability is written under its key, then, only if
/// that succeeded, `encoded` under `CREATION_KEY`, and the first failure of the store is
/// the result.
pub open spec fn creation_save_outcome<S: Store>(
    store: &S,
    record: CreationRecord,
    encoded: Seq<char>,
    r: Result<(), String>,
) -> bool {
    let key = organizer_key_text(record.request.id@);
    let capability = record.request.organizer_capability@;
    if !record.request.spec_valid() {
        r matches Err(e) && e@ == msg_unsaved_event()
    } else {
        match r {
            Ok(()) => store.write_gives(key, capability, Ok(())) && store.write_gives(
                CREATION_KEY@,
                encoded,
                Ok(()),
            ),
            Err(e) => store.write_gives(key, capability, Err(e)) || (store.write_gives(
                key,
                capability,
                Ok(()),
            ) && store.write_gives(CREATION_KEY@, encoded, Err(e))),
        }
    }
}

/// Save a creation record: the writes `creation_writes` plans are made in order, and the
/// first failure of the store is returned.
pub fn save_creation<S: Store>(store: &S, record: &CreationRecord, encoded: &str) -> (r: Result<
    (),
    String,
>)
    ensures
        !record.request.spec_valid() ==> (r matches Err(e) && e@ == msg_unsaved_event()),
        creation_save_outcome(store, *record, encoded@, r),
{
    let writes = match creation_writes(record, encoded) {
        Ok(w) => w,
        Err(e) => return Err(e),
    };
    let first = store.write(writes[0].0.as_str(), writes[0].1.as_str());
    assert(store.write_gives(
        organizer_key_text(record.request.id@),
        record.request.organizer_capability@,
        first,
    ));
    if first.is_err() {
        return first;
    }
    let second = store.write(writes[1].0.as_str(), writes[1].1.as_str());
    assert(store.write_gives(CREATION_KEY@, encoded@, second));
    assert(first is Ok);
    assert(first->Ok_0 == ());
    assert(first == Ok::<(), String>(()));
    assert(store.write_gives(organizer_key_text(record.request.id@), record.request.organizer_capability@, Ok::<(), String>(())));
    assert(record.request.spec_valid());
    proof {
        if second is Ok {
            assert(second->Ok_0 == ());
            assert(second == Ok::<(), String>(()));
        }
    }
    assert(creation_save_outcome(store, *record, encoded@, second));
    second
}

/// What loading a saved text comes to, given the store's answer `read`: the store's
/// failure, nothing when nothing is saved, the saved-data error for a text over
/// `SAVED_TEXT_MAX_BYTES` octets, else what `decode` makes of the text, its failure being
/// the saved-data error.
pub open spec fn saved_text_outcome<T, F: Fn(&str) -> Option<T>>(
    decode: F,
    read: Result<Option<String>, String>,
    r: Result<Option<T>, String>,
) -> bool {
    match read {
        Err(e) => r == Err::<Option<T>, String>(e),
        Ok(None) => r == Ok::<Option<T>, String>(None),
        Ok(Some(v)) => if encode_utf8(v@).len() > SAVED_TEXT_MAX_BYTES {
            r matches Err(x) && x@ == msg_saved_data()
        } else {
            exists|s: &str, d: Option<T>|
                s@ == v@ && #[trigger] decode.ensures((s,), d) && match d {
                    Some(t) => r == Ok::<Option<T>, String>(Some(t)),
                    None => r matches Err(x) && x@ == msg_saved_data(),
                }
        },
    }
}

/// A loaded value checked by `keep`: a failure stays, nothing stays nothing, and a value
/// is kept when `keep` holds of it and is otherwise the saved-data error.
pub open spec fn checked_load<T>(
    loaded: Result<Option<T>, String>,
    keep: spec_fn(T) -> bool,
    r: Result<Option<T>, String>,
) -> bool {
    match loaded {
        Err(e) => r == Err::<Option<T>, String>(e),
        Ok(None) => r == Ok::<Option<T>, String>(None),
        Ok(Some(x)) => if keep(x) {
            r == Ok::<Option<T>, String>(Some(x))
        } else {
            r matches Err(m) && m@ == msg_saved_data()
        },
    }
}

/// Decode the store's answer `read` for a saved text.
pub fn saved_text<T, F: Fn(&str) -> Option<T>>(read: Result<Option<String>, String>, decode: F) -> (r:
    Result<Option<T>, String>)
    requires
        forall|t: &str| #[trigger] decode.requires((t,)),
    ensures
        saved_text_outcome(decode, read, r),
{
    let value = match read {
        Ok(Some(v)) => v,
        Ok(None) => return Ok(None),
        Err(e) => return Err(e),
    };
    let ghost v = value;
    let value = match checked_saved_text(value) {
        Ok(v) => v,
        Err(e) => return Err(e),
    };
    let text = value.as_str();
    let d = decode(text);
    assert(text@ == v@ && decode.ensures((text,), d));
    match d {
        Some(t) => Ok(Some(t)),
        None => Err(saved_data_error()),
    }
}

/// Read the saved text under `key` and decode it when it is small enough.
fn load_text<S: Store, F: Fn(&str) -> Option<T>, T>(store: &S, key: &str, decode: F) -> (r: Result<
    Option<T>,
    String,
>)
    requires
        forall|t: &str| #[trigger] decode.requires((t,)),
    ensures
        exists|read: Result<Option<String>, String>|
            #[trigger] store.read_gives(key@, read) && saved_text_outcome(decode, read, r),
{
    let read = store.read(key);
    let ghost rd = read;
    let r = saved_text(read, decode);
    assert(store.read_gives(key@, rd) && saved_text_outcome(decode, rd, r));
    r
}

/// Load the saved creation record; `decode` reads a record from its stored form.
pub fn load_creation<S: Store, F: Fn(&str) -> Option<CreationRecord>>(store: &S, decode: F) -> (r:
    Result<Option<CreationRecord>, String>)
    requires
        forall|t: &str| #[trigger] decode.requires((t,)),
    ensures
        r matches Ok(Some(rec)) ==> rec.request.spec_valid(),
        exists|read: Result<Option<String>, String>, loaded: Result<Option<CreationRecord>, String>|
            #![trigger store.read_gives(CREATION_KEY@, read), saved_text_outcome(decode, read, loaded)]
            store.read_gives(CREATION_KEY@, read) && saved_text_outcome(
                decode,
                read,
                loaded,
            ) && checked_load(loaded, |rec: CreationRecord| rec.request.spec_valid(), r),
{
    let loaded = load_text(store, CREATION_KEY, decode);
    let ghost l = loaded;
    let r = match loaded {
        Ok(record) => checked_creation(record),
        Err(e) => Err(e),
    };
    assert(checked_load(l, |rec: CreationRecord| rec.request.spec_valid(), r));
    r
}

/// Save an answer: the write `response_write` plans is made, and the store's failure, if
/// any, is returned.
pub fn save_response<S: Store>(store: &S, record: &ResponseRecord, encoded: &str) -> (r: Result<
    (),
    String,
>)
    ensures
        if is_cloud_id(record.event_id@) && is_capability(record.capability@) && answer_is_valid(
            record.answer,
        ) {
            store.write_gives(response_key_text(record.event_id@), encoded@, r)
        } else {
            r matches Err(e) && e@ == msg_unsaved_answer()
        },
{
    let (key, value) = match response_write(record, encoded) {
        Ok(w) => w,
        Err(e) => return Err(e),
    };
    store.write(key.as_str(), value.as_str())
}

/// A saved creation reads back: when saving `record` as `encoded` succeeded, the store
/// then answers the read of `CREATION_KEY` with that text, and `decode` reads `record` from
/// it, loading gives `record`.
pub proof fn lemma_saved_creation_reads_back<S: Store, F: Fn(&str) -> Option<CreationRecord>>(
    store: &S,
    decode: F,
    record: CreationRecord,
    encoded: Seq<char>,
    read: Result<Option<String>, String>,
    loaded: Result<Option<CreationRecord>, String>,
    r: Result<Option<CreationRecord>, String>,
)
    requires
        creation_save_outcome(store, record, encoded, Ok(())),
        read matches Ok(Some(v)) && v@ == encoded,
        encode_utf8(encoded).len() <= SAVED_TEXT_MAX_BYTES,
        forall|t: &str, d: Option<CreationRecord>|
            t@ == encoded && #[trigger] decode.ensures((t,), d) ==> d == Some(record),
        saved_text_outcome(decode, read, loaded),
        checked_load(loaded, |rec: CreationRecord| rec.request.spec_valid(), r),
    ensures
        r == Ok::<Option<CreationRecord>, String>(Some(record)),
{
    assert(record.request.spec_valid());
    assert(loaded == Ok::<Option<CreationRecord>, String>(Some(record)));
}

/// A saved answer reads back: when saving `record` as `encoded` succeeded, the store then
/// answers the read of its event's response key with that text, and `decode` reads
/// `record` from it, loading the answer of that event gives `record`.
pub proof fn lemma_saved_answer_reads_back<S: Store, F: Fn(&str) -> Option<ResponseRecord>>(
    store: &S,
    decode: F,
    record: ResponseRecord,
    encoded: Seq<char>,
    saved: Result<(), String>,
    read: Result<Option<String>, String>,
    loaded: Result<Option<ResponseRecord>, String>,
    r: Result<Option<ResponseRecord>, String>,
)
    requires
        saved is Ok,
        if is_cloud_id(record.event_id@) && is_capability(record.capability@) && answer_is_valid(
            record.answer,
        ) {
            store.write_gives(response_key_text(record.event_id@), encoded, saved)
        } else {
            saved matches Err(e) && e@ == msg_unsaved_answer()
        },
        read matches Ok(Some(v)) && v@ == encoded,
        encode_utf8(encoded).len() <= SAVED_TEXT_MAX_BYTES,
        forall|t: &str, d: Option<ResponseRecord>|
            t@ == encoded && #[trigger] decode.ensures((t,), d) ==> d == Some(record),
        saved_text_outcome(decode, read, loaded),
        checked_load(
            loaded,
            |rec: ResponseRecord|
                rec.event_id@ == record.event_id@ && is_capability(rec.capability@)
                    && answer_is_valid(rec.answer),
            r,
        ),
    ensures
        r == Ok::<Option<ResponseRecord>, String>(Some(record)),
{
    assert(loaded == Ok::<Option<ResponseRecord>, String>(Some(record)));
}

/// Load the answer saved for `event_id`; `decode` reads a record from its stored form.
pub fn load_response<S: Store, F: Fn(&str) -> Option<ResponseRecord>>(
    store: &S,
    event_id: &str,
    decode: F,
) -> (r: Result<Option<ResponseRecord>, String>)
    requires
        forall|t: &str| #[trigger] decode.requires((t,)),
    ensures
        r matches Ok(Some(rec)) ==> rec.event_id@ == event_id@ && is_capability(rec.capability@)
            && answer_is_valid(rec.answer),
        exists|read: Result<Option<String>, String>, loaded: Result<Option<ResponseRecord>, String>|
            #![trigger store.read_gives(response_key_text(event_id@), read), saved_text_outcome(decode, read, loaded)]
            store.read_gives(response_key_text(event_id@), read) && saved_text_outcome(
                decode,
                read,
                loaded,
            ) && checked_load(
                loaded,
                |rec: ResponseRecord|
                    rec.event_id@ == event_id@ && is_capability(rec.capability@) && answer_is_valid(
                        rec.answer,
                    ),
                r,
            ),
{
    let key = response_key(event_id);
    let loaded = load_text(store, key.as_str(), decode);
    let ghost l = loaded;
    let r = match loaded {
        Ok(record) => checked_response(event_id, record),
        Err(e) => Err(e),
    };
    assert(checked_load(
        l,
        |rec: ResponseRecord|
            rec.event_id@ == event_id@ && is_capability(rec.capability@) && answer_is_valid(
                rec.answer,
            ),
        r,
    ));
    r
}

/// Load the organizer capability saved for `event_id`.
pub fn load_organizer<S: Store>(store: &S, event_id: &str) -> (r: Result<Option<String>, String>)
    ensures
        r matches Ok(Some(k)) ==> is_capability(k@),
        exists|read: Result<Option<String>, String>|
            #[trigger] store.read_gives(organizer_key_text(event_id@), read) && checked_load(
                read,
                |k: String| is_capability(k@),
                r,
            ),
{
    let key = organizer_key(event_id);
    let read = store.read(key.as_str());
    let ghost rd = read;
    let r = match read {
        Ok(k) => checked_organizer(k),
        Err(e) => Err(e),
    };
    assert(store.read_gives(organizer_key_text(event_id@), rd) && checked_load(
        rd,
        |k: String| is_capability(k@),
        r,
    ));
    r
}


pub open spec fn msg_matrix() -> Seq<char> {
    "回答の一覧を確認できませんでした。"@
}

/// One stored answer as the server reports it to the organizer.
#[derive(Clone, PartialEq, Eq)]
pub struct ResponseView {
    pub response_id: String,
    pub respondent_name: String,
    pub availabilities: Vec<Selection>,
}

/// Distinct candidate identifiers, one per candidate of the event.
pub open spec fn row_acceptable(
    cands: Seq<(Seq<char>, Seq<char>, Seq<char>)>,
    c: Seq<(Seq<char>, Availability)>,
) -> bool {
    keys_distinct(c) && choices_cover(cands, c)
}

/// The availabilities of one answer in the event's candidate order, if the answer has
/// exactly one choice per candidate.
fn matrix_row(candidates: &Vec<Candidate>, choices: &Vec<Selection>) -> (r: Option<
    Vec<Availability>,
>)
    ensures
        ({
            let cands = cloud_candidates_view(candidates@);
            let c = selections_view(choices@);
            match r {
                Some(out) => row_acceptable(cands, c) && picks(cands, c, out@),
                None => !row_acceptable(cands, c),
            }
        }),
{
    let ghost cands = cloud_candidates_view(candidates@);
    let ghost c = selections_view(choices@);
    if !selection_keys_distinct(choices) || choices.len() != candidates.len() {
        return None;
    }
    let mut out: Vec<Availability> = Vec::new();
    let mut k: usize = 0;
    while k < candidates.len()
        invariant
            k <= candidates@.len(),
            cands == cloud_candidates_view(candidates@),
            c == selections_view(choices@),
            c.len() == cands.len(),
            keys_distinct(c),
            out@.len() == k,
            forall|j: int| 0 <= j < k ==> has_key(c, #[trigger] cands[j].0),
            forall|j: int, i: int|
                #![trigger c[i], out@[j]]
                0 <= j < k && 0 <= i < c.len() && c[i].0 == cands[j].0 ==> c[i].1 == out@[j],
        decreases candidates.len() - k,
    {
        match find_selection(choices, &candidates[k].id) {
            Some(i) => {
                assert(c[i as int] == choices@[i as int]@);
                assert(cands[k as int] == candidates@[k as int]@);
                assert(c[i as int].0 == cands[k as int].0);
                let ghost before = out@;
                out.push(choices[i].availability);
                assert forall|j: int, x: int|
                    #![trigger c[x], out@[j]]
                    0 <= j <= k && 0 <= x < c.len() && c[x].0 == cands[j].0 implies c[x].1
                        == out@[j] by {
                    if j < k {
                        assert(out@[j] == before[j]);
                    } else if x != i {
                        assert(c[x].0 == c[i as int].0);
                    }
                }
            },
            None => {
                assert(!has_key(c, cands[k as int].0));
                return None;
            },
        }
        k = k + 1;
    }
    Some(out)
}

/// The organizer's matrix: the event's candidates as columns and one row per answer,
/// provided that every answer has exactly one choice per candidate.
pub fn response_matrix(event: &Event, responses: &[ResponseView]) -> (r: Result<
    ResponseMatrix,
    String,
>)
    ensures
        ({
            let cands = cloud_candidates_view(event.candidates@);
            match r {
                Ok(m) => {
                    &&& forall|i: int|
                        0 <= i < responses@.len() ==> row_acceptable(
                            cands,
                            selections_view(#[trigger] responses@[i].availabilities@),
                        )
                    &&& m.name@ == event.name@
                    &&& m.time_zone@ == event.time_zone@
                    &&& m.candidates@.len() == cands.len()
                    &&& forall|k: int|
                        0 <= k < cands.len() ==> #[trigger] m.candidates@[k].local_date@
                            == cands[k].1 && m.candidates@[k].local_time@ == cands[k].2
                    &&& m.responses@.len() == responses@.len()
                    &&& forall|i: int|
                        0 <= i < responses@.len() ==> #[trigger] m.responses@[i].respondent_name@
                            == responses@[i].respondent_name@ && picks(
                            cands,
                            selections_view(responses@[i].availabilities@),
                            m.responses@[i].availabilities@,
                        )
                },
                Err(e) => e@ == msg_matrix() && exists|i: int|
                    0 <= i < responses@.len() && !row_acceptable(
                        cands,
                        selections_view(#[trigger] responses@[i].availabilities@),
                    ),
            }
        }),
{
    let ghost cands = cloud_candidates_view(event.candidates@);
    let mut rows: Vec<ResponseMatrixRow> = Vec::new();
    let mut i: usize = 0;
    while i < responses.len()
        invariant
            i <= responses@.len(),
            cands == cloud_candidates_view(event.candidates@),
            rows@.len() == i,
            forall|j: int|
                0 <= j < i ==> row_acceptable(
                    cands,
                    selections_view(#[trigger] responses@[j].availabilities@),
                ),
            forall|j: int|
                0 <= j < i ==> #[trigger] rows@[j].respondent_name@
                    == responses@[j].respondent_name@ && picks(
                    cands,
                    selections_view(responses@[j].availabilities@),
                    rows@[j].availabilities@,
                ),
        decreases responses.len() - i,
    {
        match matrix_row(&event.candidates, &responses[i].availabilities) {
            Some(availabilities) => {
                rows.push(
                    ResponseMatrixRow {
                        respondent_name: responses[i].respondent_name.clone(),
                        availabilities,
                    },
                );
            },
            None => {
                return Err(String::from_str("回答の一覧を確認できませんでした。"));
            },
        }
        i = i + 1;
    }
    let mut columns: Vec<ResponseMatrixCandidate> = Vec::new();
    let mut k: usize = 0;
    while k < event.candidates.len()
        invariant
            k <= event.candidates@.len(),
            cands == cloud_candidates_view(event.candidates@),
            columns@.len() == k,
            forall|j: int|
                0 <= j < k ==> #[trigger] columns@[j].local_date@ == cands[j].1
                    && columns@[j].local_time@ == cands[j].2,
        decreases event.candidates.len() - k,
    {
        columns.push(
            ResponseMatrixCandidate {
                local_date: event.candidates[k].local_date.clone(),
                local_time: event.candidates[k].local_time.clone(),
            },
        );
        k = k + 1;
    }
    Ok(
        ResponseMatrix {
            name: event.name.clone(),
            time_zone: event.time_zone.clone(),
            candidates: columns,
            responses: rows,
        },
    )
}

/// A failed same-origin API call: the HTTP status (zero when no reply arrived or the reply
/// could not be read) and the server's error code.
#[derive(Clone, Debug, PartialEq, Eq)]
pub struct ApiError {
    pub status: u16,
    pub code: String,
}

pub open spec fn api_error_message(status: u16) -> Seq<char> {
    if status == 401 {
        "利用時間が終了しました。試用コードを入力すると、保存した内容で再開できます。"@
    } else if status == 403 {
        "この操作の権限を確認できませんでした。"@
    } else if status == 404 {
        "イベントが見つかりません。共有URLを確認してください。"@
    } else if status == 409 {
        "この送信内容と、すでに保存された内容が一致しません。別の回答を作らず、主催者へ確認してください。"@
    } else if status == 400 || status == 413 || status == 415 || status == 422 {
        "入力内容を保存できませんでした。日時やタイムゾーンを確認してください。"@
    } else {
        "接続できませんでした。送信内容は残っています。少し待ってから、もう一度お試しください。"@
    }
}

impl ApiError {
    /// No reply arrived.
    pub fn network() -> (e: Self)
        ensures
            e.status == 0,
            e.code@ == "network_error"@,
    {
        ApiError { status: 0, code: String::from_str("network_error") }
    }

    /// A reply arrived but could not be read as expected.
    pub fn invalid() -> (e: Self)
        ensures
            e.status == 0,
            e.code@ == "invalid_response"@,
    {
        ApiError { status: 0, code: String::from_str("invalid_response") }
    }

    /// The trial session has ended and access must be entered again.
    pub fn needs_access(&self) -> (b: bool)
        ensures
            b == (self.status == 401),
    {
        self.status == 401
    }

    /// The guidance shown for this failure.
    pub fn message(&self) -> (s: &'static str)
        ensures
            s@ == api_error_message(self.status),
    {
        let status = self.status;
        if status == 401 {
            "利用時間が終了しました。試用コードを入力すると、保存した内容で再開できます。"
        } else if status == 403 {
            "この操作の権限を確認できませんでした。"
        } else if status == 404 {
            "イベントが見つかりません。共有URLを確認してください。"
        } else if status == 409 {
            "この送信内容と、すでに保存された内容が一致しません。別の回答を作らず、主催者へ確認してください。"
        } else if status == 400 || status == 413 || status == 415 || status == 422 {
            "入力内容を保存できませんでした。日時やタイムゾーンを確認してください。"
        } else {
            "接続できませんでした。送信内容は残っています。少し待ってから、もう一度お試しください。"
        }
    }
}

/// What a reply amounts to: a successful status passes; any other fails with that status and the
/// server's error code, or `request_failed` where the reply names none.
pub fn reply_outcome(ok: bool, status: u16, error_code: Option<&str>) -> (r: Result<(), ApiError>)
    ensures
        match r {
            Ok(()) => ok,
            Err(e) => !ok && e.status == status && e.code@ == match error_code {
                Some(c) => c@,
                None => "request_failed"@,
            },
        },
{
    if ok {
        return Ok(());
    }
    let code = match error_code {
        Some(c) => String::from_str(c),
        None => String::from_str("request_failed"),
    };
    Err(ApiError { status, code })
}

/// A creation is confirmed only when the reply names the event that was sent.
pub fn check_created_reply(input: &CreateRequest, reply_id: Option<&str>) -> (r: Result<(), ApiError>)
    ensures
        r is Ok <==> (reply_id matches Some(id) && id@ == input.id@),
        r matches Err(e) ==> e.status == 0 && e.code@ == "invalid_response"@,
{
    match reply_id {
        Some(id) => if str_eq(id, input.id.as_str()) {
            Ok(())
        } else {
            Err(ApiError::invalid())
        },
        None => Err(ApiError::invalid()),
    }
}

/// An event is requested only under a well-formed identifier.
pub fn check_event_request(id: &str) -> (r: Result<(), ApiError>)
    ensures
        r is Ok <==> is_cloud_id(id@),
        r matches Err(e) ==> e.status == 404 && e.code@ == "event_not_found"@,
{
    if !valid_id(id) {
        return Err(ApiError { status: 404, code: String::from_str("event_not_found") });
    }
    Ok(())
}

/// A fetched event is accepted only when it is the one requested and it is valid;
/// `event` is `None` when the reply did not read as an event.
pub fn check_event_reply(id: &str, event: Option<Event>) -> (r: Result<Event, ApiError>)
    ensures
        match event {
            Some(e) => if e.id@ == id@ && event_is_valid(e) {
                r == Ok::<Event, ApiError>(e)
            } else {
                r matches Err(x) && x.status == 0 && x.code@ == "invalid_response"@
            },
            None => r matches Err(x) && x.status == 0 && x.code@ == "invalid_response"@,
        },
{
    match event {
        Some(e) => if str_eq(e.id.as_str(), id) && e.valid() {
            Ok(e)
        } else {
            Err(ApiError::invalid())
        },
        None => Err(ApiError::invalid()),
    }
}

/// A submitted answer is confirmed only when the reply names its event and a response.
pub fn check_response_reply(
    record: &ResponseRecord,
    event_id: Option<&str>,
    response_id: Option<&str>,
) -> (r: Result<(), ApiError>)
    ensures
        r is Ok <==> (event_id matches Some(id) && id@ == record.event_id@ && response_id is Some),
        r matches Err(e) ==> e.status == 0 && e.code@ == "invalid_response"@,
{
    let same = match event_id {
        Some(id) => str_eq(id, record.event_id.as_str()),
        None => false,
    };
    if !same || response_id.is_none() {
        return Err(ApiError::invalid());
    }
    Ok(())
}

} // verus!
