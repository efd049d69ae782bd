//! Event creation: the browser draft, the server input, and their field errors.

use vstd::prelude::*;
use vstd::string::*;
use crate::domain::account::text_of;
use crate::domain::fields::{
    is_local_date, is_local_time, is_time_zone_name, is_time_zone_shape, local_date_is_valid,
    local_time_is_valid, time_zone_name_is_valid, time_zone_shape_is_valid,
};
use crate::domain::series::EVENT_NAME_MAX_CHARS;
use crate::text::{
    copy_message, join_present, lemma_trimmed_idempotent, message_views, present_messages,
    space_joined, trim, trimmed,
};

verus! {

pub const ORGANIZER_NOTE_MAX_CHARS: usize = 500;
pub const EVENT_CANDIDATE_MAX_COUNT: usize = 20;

pub open spec fn msg_name_required() -> Seq<char> {
    "イベント名を入力してください。"@
}

pub open spec fn msg_name_too_long() -> Seq<char> {
    "イベント名は100文字以内で入力してください。"@
}

pub open spec fn msg_note_too_long() -> Seq<char> {
    "主催者のひとことは500文字以内で入力してください。"@
}

pub open spec fn msg_time_zone() -> Seq<char> {
    "ブラウザーのタイムゾーンを取得できませんでした。再読み込みしてください。"@
}

pub open spec fn msg_candidates_missing() -> Seq<char> {
    "候補日時を一件以上追加してください。"@
}

pub open spec fn msg_candidates_too_many() -> Seq<char> {
    "候補日時は20件以内で入力してください。"@
}

pub open spec fn msg_candidates_invalid() -> Seq<char> {
    "候補日時を正しい日付と時刻で入力してください。"@
}

pub open spec fn msg_candidates_duplicate() -> Seq<char> {
    "同じ候補日時がすでに追加されています。"@
}

pub open spec fn msg_candidate_incomplete() -> Seq<char> {
    "日付と開始時刻を両方入力してください。"@
}

/// A candidate start represented in the event's local time zone.
#[derive(Clone, Debug, PartialEq, Eq)]
pub struct CandidateInput {
    pub local_date: String,
    pub local_time: String,
}

impl View for CandidateInput {
    type V = (Seq<char>, Seq<char>);

    open spec fn view(&self) -> (Seq<char>, Seq<char>) {
        (self.local_date@, self.local_time@)
    }
}

pub open spec fn candidates_view(v: Seq<CandidateInput>) -> Seq<(Seq<char>, Seq<char>)> {
    v.map_values(|c: CandidateInput| c@)
}

pub open spec fn normalized_candidate(c: (Seq<char>, Seq<char>)) -> (Seq<char>, Seq<char>) {
    (trimmed(c.0), trimmed(c.1))
}

pub open spec fn is_complete_candidate(c: (Seq<char>, Seq<char>)) -> bool {
    trimmed(c.0).len() > 0 && trimmed(c.1).len() > 0
}

pub open spec fn has_candidate_shape(c: (Seq<char>, Seq<char>)) -> bool {
    is_local_date(c.0) && is_local_time(c.1)
}

pub open spec fn has_duplicate(s: Seq<(Seq<char>, Seq<char>)>) -> bool {
    exists|i: int, j: int| 0 <= i < j < s.len() && s[i] == s[j]
}

/// Two candidates are duplicates only when they start on the same date at the same time:
/// candidates whose (date, time) pairs are all distinct have none, so two times on one day
/// are two candidates; and when 1 to 20 candidates all have a valid shape and distinct
/// pairs, the candidates are accepted.
pub proof fn lemma_duplicates_are_equal_date_and_time(c: Seq<(Seq<char>, Seq<char>)>)
    ensures
        has_duplicate(c) <==> exists|i: int, j: int|
            0 <= i < j < c.len() && #[trigger] c[i].0 == #[trigger] c[j].0 && c[i].1 == c[j].1,
        (forall|i: int, j: int|
            0 <= i < j < c.len() ==> #[trigger] c[i].0 != #[trigger] c[j].0 || c[i].1 != c[j].1)
            && 1 <= c.len() <= EVENT_CANDIDATE_MAX_COUNT && (forall|i: int|
            0 <= i < c.len() ==> #[trigger] has_candidate_shape(c[i])) ==> candidates_error(c) is None,
{
    if has_duplicate(c) {
        let (i, j) = choose|i: int, j: int| 0 <= i < j < c.len() && c[i] == c[j];
        assert(c[i].0 == c[j].0 && c[i].1 == c[j].1);
    }
    if exists|i: int, j: int|
        0 <= i < j < c.len() && #[trigger] c[i].0 == #[trigger] c[j].0 && c[i].1 == c[j].1 {
        let (i, j) = choose|i: int, j: int|
            0 <= i < j < c.len() && #[trigger] c[i].0 == #[trigger] c[j].0 && c[i].1 == c[j].1;
        assert(c[i] == c[j]);
    }
}

pub fn copy_candidate(c: &CandidateInput) -> (d: CandidateInput)
    ensures
        d@ == c@,
{
    CandidateInput { local_date: c.local_date.clone(), local_time: c.local_time.clone() }
}

impl CandidateInput {
    pub fn is_complete(&self) -> (b: bool)
        ensures
            b == is_complete_candidate(self@),
    {
        trim(self.local_date.as_str()).unicode_len() > 0 && trim(self.local_time.as_str()).unicode_len()
            > 0
    }

    pub fn normalized(&self) -> (c: Self)
        ensures
            c@ == normalized_candidate(self@),
    {
        CandidateInput {
            local_date: trim(self.local_date.as_str()),
            local_time: trim(self.local_time.as_str()),
        }
    }

    pub fn has_valid_shape(&self) -> (b: bool)
        ensures
            b == has_candidate_shape(self@),
    {
        local_date_is_valid(self.local_date.as_str()) && local_time_is_valid(self.local_time.as_str())
    }
}

/// Abstract value of a [`NewEventInput`].
pub struct NewEventInputView {
    pub name: Seq<char>,
    pub organizer_note: Option<Seq<char>>,
    pub time_zone: Seq<char>,
    pub candidates: Seq<(Seq<char>, Seq<char>)>,
}

/// Input accepted by the event-creation server function.
#[derive(Clone, Debug, PartialEq, Eq)]
pub struct NewEventInput {
    pub name: String,
    pub organizer_note: Option<String>,
    pub time_zone: String,
    pub candidates: Vec<CandidateInput>,
}

impl View for NewEventInput {
    type V = NewEventInputView;

    open spec fn view(&self) -> NewEventInputView {
        NewEventInputView {
            name: self.name@,
            organizer_note: text_of(self.organizer_note),
            time_zone: self.time_zone@,
            candidates: candidates_view(self.candidates@),
        }
    }
}

/// Abstract value of [`EventCreationErrors`].
pub struct EventCreationErrorsView {
    pub name: Option<Seq<char>>,
    pub organizer_note: Option<Seq<char>>,
    pub candidates: Option<Seq<char>>,
    pub time_zone: Option<Seq<char>>,
}

impl EventCreationErrorsView {
    pub open spec fn is_empty(self) -> bool {
        self.name is None && self.organizer_note is None && self.candidates is None
            && self.time_zone is None
    }

    /// Fill each empty field from `other`.
    pub open spec fn merged(self, other: Self) -> Self {
        EventCreationErrorsView {
            name: if self.name is None { other.name } else { self.name },
            organizer_note: if self.organizer_note is None {
                other.organizer_note
            } else {
                self.organizer_note
            },
            candidates: if self.candidates is None { other.candidates } else { self.candidates },
            time_zone: if self.time_zone is None { other.time_zone } else { self.time_zone },
        }
    }
}

/// The present messages of creation errors, joined by spaces.
pub open spec fn creation_errors_message(e: EventCreationErrorsView) -> Seq<char> {
    space_joined(present_messages(seq![e.name, e.organizer_note, e.candidates, e.time_zone]))
}

/// Field-level errors used by both domain tests and the creation form.
#[derive(Clone, Debug, PartialEq, Eq)]
pub struct EventCreationErrors {
    pub name: Option<String>,
    pub organizer_note: Option<String>,
    pub candidates: Option<String>,
    pub time_zone: Option<String>,
}

impl View for EventCreationErrors {
    type V = EventCreationErrorsView;

    open spec fn view(&self) -> EventCreationErrorsView {
        EventCreationErrorsView {
            name: text_of(self.name),
            organizer_note: text_of(self.organizer_note),
            candidates: text_of(self.candidates),
            time_zone: text_of(self.time_zone),
        }
    }
}

impl Default for EventCreationErrors {
    fn default() -> (e: Self)
        ensures
            e@.is_empty(),
    {
        EventCreationErrors { name: None, organizer_note: None, candidates: None, time_zone: None }
    }
}

impl EventCreationErrors {
    pub fn is_empty(&self) -> (b: bool)
        ensures
            b == self@.is_empty(),
    {
        self.name.is_none() && self.organizer_note.is_none() && self.candidates.is_none()
            && self.time_zone.is_none()
    }

    /// The present messages, joined by spaces.
    pub fn message(&self) -> (s: String)
        ensures
            s@ == creation_errors_message(self@),
    {
        let parts = vec![
            copy_message(&self.name),
            copy_message(&self.organizer_note),
            copy_message(&self.candidates),
            copy_message(&self.time_zone),
        ];
        proof {
            assert(message_views(parts@) =~= seq![
                self@.name,
                self@.organizer_note,
                self@.candidates,
                self@.time_zone,
            ]);
        }
        join_present(parts)
    }

    /// Keep every error already present and take the others from `other`.
    pub fn merge(&mut self, other: Self)
        ensures
            final(self)@ == old(self)@.merged(other@),
    {
        if self.name.is_none() && other.name.is_some() {
            self.name = other.name;
        }
        if self.organizer_note.is_none() && other.organizer_note.is_some() {
            self.organizer_note = other.organizer_note;
        }
        if self.candidates.is_none() && other.candidates.is_some() {
            self.candidates = other.candidates;
        }
        if self.time_zone.is_none() && other.time_zone.is_some() {
            self.time_zone = other.time_zone;
        }
    }
}

/// The organizer note after trimming, absent when nothing but white space was written.
pub open spec fn normalized_note(note: Option<Seq<char>>) -> Option<Seq<char>> {
    match note {
        Some(n) => if trimmed(n).len() > 0 { Some(trimmed(n)) } else { None },
        None => None,
    }
}

/// The server's normal form of an event input: every text field trimmed.
pub open spec fn normalized_event(v: NewEventInputView) -> NewEventInputView {
    NewEventInputView {
        name: trimmed(v.name),
        organizer_note: normalized_note(v.organizer_note),
        time_zone: trimmed(v.time_zone),
        candidates: v.candidates.map_values(|c: (Seq<char>, Seq<char>)| normalized_candidate(c)),
    }
}

pub open spec fn event_name_error(name: Seq<char>) -> Option<Seq<char>> {
    if name.len() == 0 {
        Some(msg_name_required())
    } else if name.len() > EVENT_NAME_MAX_CHARS {
        Some(msg_name_too_long())
    } else {
        None
    }
}

pub open spec fn organizer_note_error(note: Option<Seq<char>>) -> Option<Seq<char>> {
    match note {
        Some(n) => if n.len() > ORGANIZER_NOTE_MAX_CHARS { Some(msg_note_too_long()) } else { None },
        None => None,
    }
}

pub open spec fn time_zone_error(time_zone: Seq<char>) -> Option<Seq<char>> {
    time_zone_error_in(time_zone, true)
}

/// The time-zone error: the name must have a safe shape, and, where it is checked against
/// the time-zone database (on the server), be known to it.
pub open spec fn time_zone_error_in(time_zone: Seq<char>, against_database: bool) -> Option<
    Seq<char>,
> {
    if against_database {
        if is_time_zone_name(time_zone) { None } else { Some(msg_time_zone()) }
    } else {
        if is_time_zone_shape(time_zone) { None } else { Some(msg_time_zone()) }
    }
}

pub open spec fn candidates_error(c: Seq<(Seq<char>, Seq<char>)>) -> Option<Seq<char>> {
    if c.len() == 0 {
        Some(msg_candidates_missing())
    } else if c.len() > EVENT_CANDIDATE_MAX_COUNT {
        Some(msg_candidates_too_many())
    } else if exists|i: int| 0 <= i < c.len() && !has_candidate_shape(#[trigger] c[i]) {
        Some(msg_candidates_invalid())
    } else if has_duplicate(c) {
        Some(msg_candidates_duplicate())
    } else {
        None
    }
}

/// The field errors of an event input, judged on its normal form.
pub open spec fn event_errors(v: NewEventInputView) -> EventCreationErrorsView {
    event_errors_in(v, true)
}

/// The field errors of an event input, with the time zone checked against the database or
/// by its shape alone.
pub open spec fn event_errors_in(v: NewEventInputView, against_database: bool) -> EventCreationErrorsView {
    let n = normalized_event(v);
    EventCreationErrorsView {
        name: event_name_error(n.name),
        organizer_note: organizer_note_error(n.organizer_note),
        candidates: candidates_error(n.candidates),
        time_zone: time_zone_error_in(n.time_zone, against_database),
    }
}

/// What validation answers: the normal form, or the field errors.
pub open spec fn event_validation(v: NewEventInputView) -> Result<
    NewEventInputView,
    EventCreationErrorsView,
> {
    event_validation_in(v, true)
}

/// What validation answers, with the time zone checked against the database or by its
/// shape alone.
pub open spec fn event_validation_in(v: NewEventInputView, against_database: bool) -> Result<
    NewEventInputView,
    EventCreationErrorsView,
> {
    if event_errors_in(v, against_database).is_empty() {
        Ok(normalized_event(v))
    } else {
        Err(event_errors_in(v, against_database))
    }
}

fn normalized_candidates(candidates: &Vec<CandidateInput>) -> (r: Vec<CandidateInput>)
    ensures
        candidates_view(r@) == candidates_view(candidates@).map_values(
            |c: (Seq<char>, Seq<char>)| normalized_candidate(c),
        ),
{
    let mut r: Vec<CandidateInput> = Vec::new();
    let mut i: usize = 0;
    while i < candidates.len()
        invariant
            i <= candidates.len(),
            r.len() == i,
            forall|k: int| 0 <= k < i ==> #[trigger] r@[k]@ == normalized_candidate(candidates@[k]@),
        decreases candidates.len() - i,
    {
        r.push(candidates[i].normalized());
        i = i + 1;
    }
    assert(candidates_view(r@) =~= candidates_view(candidates@).map_values(
        |c: (Seq<char>, Seq<char>)| normalized_candidate(c),
    ));
    r
}

fn candidates_have_duplicate(candidates: &Vec<CandidateInput>) -> (b: bool)
    ensures
        b == has_duplicate(candidates_view(candidates@)),
{
    let ghost s = candidates_view(candidates@);
    let n = candidates.len();
    let mut i: usize = 0;
    while i < n
        invariant
            n == candidates.len() == s.len(),
            s == candidates_view(candidates@),
            i <= n,
            forall|a: int, b: int| 0 <= a < b < s.len() && a < i ==> s[a] != s[b],
        decreases n - i,
    {
        let mut j: usize = i + 1;
        while j < n
            invariant
                n == candidates.len() == s.len(),
                s == candidates_view(candidates@),
                i < n,
                i + 1 <= j <= n,
                forall|a: int, b: int| 0 <= a < b < s.len() && a < i ==> s[a] != s[b],
                forall|b: int| i < b < j ==> s[i as int] != s[b],
            decreases n - j,
        {
            if candidates[i].local_date == candidates[j].local_date && candidates[i].local_time
                == candidates[j].local_time {
                assert(s[i as int] == s[j as int]);
                return true;
            }
            assert(s[i as int] != s[j as int]);
            j = j + 1;
        }
        i = i + 1;
    }
    false
}

impl NewEventInput {
    /// Revalidate untrusted server-function input and return its normalized form; the time
    /// zone must be known to the time-zone database.
    pub fn normalized_and_validated(&self) -> (r: Result<Self, EventCreationErrors>)
        ensures
            match r {
                Ok(v) => event_validation(self@) == Ok::<NewEventInputView, EventCreationErrorsView>(
                    v@,
                ),
                Err(e) => event_validation(self@) == Err::<NewEventInputView, EventCreationErrorsView>(
                    e@,
                ),
            },
    {
        self.validated(true)
    }

    /// Validate input in the browser, which has no time-zone database: a time zone of a
    /// safe shape is accepted.
    pub fn normalized_and_validated_in_browser(&self) -> (r: Result<Self, EventCreationErrors>)
        ensures
            match r {
                Ok(v) => event_validation_in(self@, false) == Ok::<
                    NewEventInputView,
                    EventCreationErrorsView,
                >(v@),
                Err(e) => event_validation_in(self@, false) == Err::<
                    NewEventInputView,
                    EventCreationErrorsView,
                >(e@),
            },
    {
        self.validated(false)
    }

    fn validated(&self, against_database: bool) -> (r: Result<Self, EventCreationErrors>)
        ensures
            match r {
                Ok(v) => event_validation_in(self@, against_database) == Ok::<
                    NewEventInputView,
                    EventCreationErrorsView,
                >(v@),
                Err(e) => event_validation_in(self@, against_database) == Err::<
                    NewEventInputView,
                    EventCreationErrorsView,
                >(e@),
            },
    {
        let name = trim(self.name.as_str());
        let organizer_note = match &self.organizer_note {
            Some(note) => {
                let t = trim(note.as_str());
                if t.unicode_len() > 0 {
                    Some(t)
                } else {
                    None
                }
            },
            None => None,
        };
        let time_zone = trim(self.time_zone.as_str());
        let candidates = normalized_candidates(&self.candidates);
        let ghost n = normalized_event(self@);
        assert(candidates_view(candidates@) == n.candidates);
        let mut errors = EventCreationErrors::default();
        let name_len = name.unicode_len();
        if name_len == 0 {
            errors.name = Some(String::from_str("イベント名を入力してください。"));
        } else if name_len > EVENT_NAME_MAX_CHARS {
            errors.name = Some(String::from_str("イベント名は100文字以内で入力してください。"));
        }
        match &organizer_note {
            Some(note) => {
                if note.unicode_len() > ORGANIZER_NOTE_MAX_CHARS {
                    errors.organizer_note = Some(
                        String::from_str("主催者のひとことは500文字以内で入力してください。"),
                    );
                }
            },
            None => {},
        }
        let zone_ok = if against_database {
            time_zone_name_is_valid(time_zone.as_str())
        } else {
            time_zone_shape_is_valid(time_zone.as_str())
        };
        if time_zone.unicode_len() == 0 || !zone_ok {
            errors.time_zone = Some(
                String::from_str(
                    "ブラウザーのタイムゾーンを取得できませんでした。再読み込みしてください。",
                ),
            );
        }
        let count = candidates.len();
        if count == 0 {
            errors.candidates = Some(String::from_str("候補日時を一件以上追加してください。"));
        } else if count > EVENT_CANDIDATE_MAX_COUNT {
            errors.candidates = Some(String::from_str("候補日時は20件以内で入力してください。"));
        } else {
            let mut bad = false;
            let mut i: usize = 0;
            while i < count
                invariant
                    count == candidates.len(),
                    candidates_view(candidates@) == n.candidates,
                    i <= count,
                    !bad ==> forall|k: int| 0 <= k < i ==> has_candidate_shape(#[trigger] n.candidates[k]),
                    bad ==> exists|k: int| 0 <= k < count && !has_candidate_shape(#[trigger] n.candidates[k]),
                    forall|k: int| 0 <= k < count ==> n.candidates[k] == normalized_candidate(#[trigger] self@.candidates[k]),
                decreases count - i,
            {
                let c = &candidates[i];
                assert(n.candidates[i as int] == c@);
                proof {
                    lemma_trimmed_idempotent(self@.candidates[i as int].0);
                    lemma_trimmed_idempotent(self@.candidates[i as int].1);
                }
                if !c.is_complete() || !c.has_valid_shape() {
                    bad = true;
                }
                i = i + 1;
            }
            if bad {
                errors.candidates = Some(
                    String::from_str("候補日時を正しい日付と時刻で入力してください。"),
                );
            } else if candidates_have_duplicate(&candidates) {
                errors.candidates = Some(String::from_str("同じ候補日時がすでに追加されています。"));
            }
        }
        assert(errors@ == event_errors_in(self@, against_database));
        if errors.is_empty() {
            let v = NewEventInput { name, organizer_note, time_zone, candidates };
            assert(v@ == normalized_event(self@));
            Ok(v)
        } else {
            Err(errors)
        }
    }
}

/// Browser-side draft, including a candidate that has not yet been added.
#[derive(Clone, Debug, PartialEq, Eq)]
pub struct EventCreationDraft {
    pub name: String,
    pub organizer_note: String,
    pub time_zone: String,
    pub candidates: Vec<CandidateInput>,
    pub pending_candidate: CandidateInput,
}

/// The pending candidate is started (it has a date) and is already among the candidates.
pub open spec fn pending_is_listed(d: EventCreationDraft) -> bool {
    let p = normalized_candidate(d.pending_candidate@);
    exists|i: int|
        0 <= i < d.candidates@.len() && #[trigger] normalized_candidate(d.candidates@[i]@) == p
}

/// The error that the pending candidate alone causes.
pub open spec fn pending_error(d: EventCreationDraft) -> Option<Seq<char>> {
    let p = normalized_candidate(d.pending_candidate@);
    if p.0.len() == 0 {
        None
    } else if !is_complete_candidate(p) {
        Some(msg_candidate_incomplete())
    } else if pending_is_listed(d) {
        Some(msg_candidates_duplicate())
    } else {
        None
    }
}

/// The event input that a draft submits: its candidates plus a started, complete, new
/// pending candidate; the note only when it holds more than white space.
pub open spec fn draft_input(d: EventCreationDraft) -> NewEventInputView {
    let p = normalized_candidate(d.pending_candidate@);
    NewEventInputView {
        name: d.name@,
        organizer_note: if trimmed(d.organizer_note@).len() == 0 {
            None
        } else {
            Some(d.organizer_note@)
        },
        time_zone: d.time_zone@,
        candidates: if p.0.len() > 0 && pending_error(d) is None {
            candidates_view(d.candidates@).push(p)
        } else {
            candidates_view(d.candidates@)
        },
    }
}

pub open spec fn pending_errors(d: EventCreationDraft) -> EventCreationErrorsView {
    EventCreationErrorsView {
        name: None,
        organizer_note: None,
        candidates: pending_error(d),
        time_zone: None,
    }
}

fn copy_candidates(candidates: &Vec<CandidateInput>) -> (r: Vec<CandidateInput>)
    ensures
        candidates_view(r@) == candidates_view(candidates@),
{
    let mut r: Vec<CandidateInput> = Vec::new();
    let mut i: usize = 0;
    while i < candidates.len()
        invariant
            i <= candidates.len(),
            r.len() == i,
            forall|k: int| 0 <= k < i ==> #[trigger] r@[k]@ == candidates@[k]@,
        decreases candidates.len() - i,
    {
        r.push(copy_candidate(&candidates[i]));
        i = i + 1;
    }
    assert(candidates_view(r@) =~= candidates_view(candidates@));
    r
}

impl EventCreationDraft {
    /// Normalize and validate the complete draft before calling the server.
    pub fn prepare(&self) -> (r: Result<NewEventInput, EventCreationErrors>)
        ensures
            match r {
                Ok(v) => pending_error(*self) is None && event_validation(draft_input(*self)) == Ok::<
                    NewEventInputView,
                    EventCreationErrorsView,
                >(v@),
                Err(e) => match event_validation(draft_input(*self)) {
                    Ok(_) => pending_error(*self) is Some && e@ == pending_errors(*self),
                    Err(ve) => e@ == pending_errors(*self).merged(ve),
                },
            },
    {
        let mut candidates = copy_candidates(&self.candidates);
        let pending = self.pending_candidate.normalized();
        let mut errors = EventCreationErrors::default();
        let ghost p = normalized_candidate(self.pending_candidate@);
        if pending.local_date.unicode_len() > 0 {
            proof {
                lemma_trimmed_idempotent(self.pending_candidate@.0);
                lemma_trimmed_idempotent(self.pending_candidate@.1);
            }
            if !pending.is_complete() {
                errors.candidates = Some(String::from_str("日付と開始時刻を両方入力してください。"));
            } else {
                let mut listed = false;
                let mut i: usize = 0;
                while i < self.candidates.len()
                    invariant
                        i <= self.candidates.len(),
                        pending@ == p,
                        listed == exists|k: int|
                            0 <= k < i && #[trigger] normalized_candidate(self.candidates@[k]@) == p,
                    decreases self.candidates.len() - i,
                {
                    let c = &self.candidates[i];
                    let same = trim(c.local_date.as_str()) == pending.local_date && trim(
                        c.local_time.as_str(),
                    ) == pending.local_time;
                    assert(same == (normalized_candidate(self.candidates@[i as int]@) == p));
                    if same {
                        listed = true;
                    }
                    i = i + 1;
                }
                if listed {
                    errors.candidates = Some(String::from_str("同じ候補日時がすでに追加されています。"));
                } else {
                    candidates.push(pending);
                    assert(candidates_view(candidates@) =~= candidates_view(self.candidates@).push(p));
                }
            }
        }
        assert(errors@ == pending_errors(*self));
        let organizer_note = if trim(self.organizer_note.as_str()).unicode_len() == 0 {
            None
        } else {
            Some(self.organizer_note.clone())
        };
        let input = NewEventInput {
            name: self.name.clone(),
            organizer_note,
            time_zone: self.time_zone.clone(),
            candidates,
        };
        assert(input@ == draft_input(*self));
        match input.normalized_and_validated() {
            Ok(v) => {
                if errors.is_empty() {
                    Ok(v)
                } else {
                    Err(errors)
                }
            },
            Err(validation_errors) => {
                errors.merge(validation_errors);
                Err(errors)
            },
        }
    }
}

/// A persisted candidate exposed through the public event route.
#[derive(Clone, Debug, PartialEq, Eq)]
pub struct PublicCandidate {
    pub id: i64,
    pub local_date: String,
    pub local_time: String,
}

/// The organizer-selected candidate fields safe for every holder of the shared URL.
#[derive(Clone, Debug, PartialEq, Eq)]
pub struct PublicEventDecision {
    pub candidate_id: i64,
    pub local_date: String,
    pub local_time: String,
}

/// Public-by-link event data. It deliberately excludes organizer authority.
#[derive(Clone, Debug, PartialEq, Eq)]
pub struct PublicEvent {
    pub public_id: String,
    pub name: String,
    pub organizer_note: Option<String>,
    pub time_zone: String,
    pub candidates: Vec<PublicCandidate>,
    pub decision: Option<PublicEventDecision>,
}

/// One-time creation result returned to the organizer's browser.
#[derive(Clone, PartialEq, Eq)]
pub struct CreatedEvent {
    pub event: PublicEvent,
    pub organizer_capability: String,
}

} // verus!
