//! The decisions of the limited browser journey: whether the visitor may go on, and
//! what each reply from the service turns the screen into.

use vstd::prelude::*;
use vstd::string::*;
use crate::cloud::{
    api_error_message, cloud_candidates_view, has_key, selections_view, str_has_control, Answer,
    ApiError, Event, Selection,
};
use crate::domain::event::EventCreationErrors;
use crate::domain::response::Availability;
use crate::text::{is_control, str_eq, trim, trimmed};

verus! {

/// Whether the visitor may use the journey.
#[derive(Clone, Copy, Debug, PartialEq, Eq)]
pub enum Access {
    Checking,
    Required,
    Ready,
    Failed,
}

/// Where the access check stands: settled, or waiting for one of the two session checks.
#[derive(Clone, Copy, Debug, PartialEq, Eq)]
pub enum AccessStep {
    Settled(Access),
    CheckOrganizerSession,
    CheckTrialSession,
}

/// On opening, a shared event page is open to anyone; every other page first asks
/// whether an organizer session exists.
pub fn access_on_open(public_path: bool) -> (s: AccessStep)
    ensures
        s == (if public_path {
            AccessStep::Settled(Access::Ready)
        } else {
            AccessStep::CheckOrganizerSession
        }),
{
    if public_path {
        AccessStep::Settled(Access::Ready)
    } else {
        AccessStep::CheckOrganizerSession
    }
}

/// The organizer-session answer: a session lets the visitor in, an ended one asks for
/// access, an unavailable sign-in service (503) falls back to the trial session, and any
/// other failure settles as failed.
pub fn access_after_organizer_session(reply: &Result<(), ApiError>) -> (s: AccessStep)
    ensures
        s == (match reply {
            Ok(_) => AccessStep::Settled(Access::Ready),
            Err(e) => if e.status == 401 {
                AccessStep::Settled(Access::Required)
            } else if e.status == 503 {
                AccessStep::CheckTrialSession
            } else {
                AccessStep::Settled(Access::Failed)
            },
        }),
{
    match reply {
        Ok(_) => AccessStep::Settled(Access::Ready),
        Err(e) => if e.needs_access() {
            AccessStep::Settled(Access::Required)
        } else if e.status == 503 {
            AccessStep::CheckTrialSession
        } else {
            AccessStep::Settled(Access::Failed)
        },
    }
}

/// The trial-session answer settles the check.
pub fn access_after_trial_session(reply: &Result<(), ApiError>) -> (a: Access)
    ensures
        a == (match reply {
            Ok(_) => Access::Ready,
            Err(e) => if e.status == 401 {
                Access::Required
            } else {
                Access::Failed
            },
        }),
{
    match reply {
        Ok(_) => Access::Ready,
        Err(e) => if e.needs_access() {
            Access::Required
        } else {
            Access::Failed
        },
    }
}

/// What a failed call does to the screen: an ended session asks for access again;
/// anything else shows the failure's guidance.
#[derive(Clone, Debug, PartialEq, Eq)]
pub enum Setback {
    AccessRequired,
    Show(String),
}

pub open spec fn is_setback_for(s: Setback, e: ApiError) -> bool {
    match s {
        Setback::AccessRequired => e.status == 401,
        Setback::Show(m) => e.status != 401 && m@ == api_error_message(e.status),
    }
}

/// The setback that a failed call causes.
pub fn setback_for(error: &ApiError) -> (s: Setback)
    ensures
        is_setback_for(s, *error),
{
    if error.needs_access() {
        Setback::AccessRequired
    } else {
        Setback::Show(String::from_str(error.message()))
    }
}

/// Ending the visit: whether or not the session had already ended, access is asked for
/// again; any other failure is shown and the visit goes on.
pub fn logout_outcome(reply: &Result<(), ApiError>) -> (s: Setback)
    ensures
        match reply {
            Ok(_) => s == Setback::AccessRequired,
            Err(e) => is_setback_for(s, *e),
        },
{
    match reply {
        Ok(_) => Setback::AccessRequired,
        Err(e) => setback_for(e),
    }
}

pub open spec fn msg_google_sign_in() -> Seq<char> {
    "Googleログインを確認できませんでした。"@
}

pub open spec fn msg_trial_code() -> Seq<char> {
    "試用コードを確認してください。"@
}

/// The message after a refused sign-in: a rejected Google credential or trial code (401)
/// is named as such; other failures show their guidance.
pub fn sign_in_failure(error: &ApiError, with_google: bool) -> (m: String)
    ensures
        m@ == (if error.status == 401 {
            if with_google {
                msg_google_sign_in()
            } else {
                msg_trial_code()
            }
        } else {
            api_error_message(error.status)
        }),
{
    if error.status == 401 {
        if with_google {
            String::from_str("Googleログインを確認できませんでした。")
        } else {
            String::from_str("試用コードを確認してください。")
        }
    } else {
        String::from_str(error.message())
    }
}

/// What the reply to a saved creation request does.
#[derive(Clone, Debug, PartialEq, Eq)]
pub enum CreationOutcome {
    /// The event exists: the saved request is marked accepted.
    Accepted,
    /// The request was refused before anything was stored: the saved request is
    /// discarded and the form opens again with it.
    EditAgain,
    Setback(Setback),
}

pub open spec fn msg_edit_again() -> Seq<char> {
    "日時やタイムゾーンを確認してください。夏時間の切り替えで存在しない時刻や、二通りになる時刻は保存できません。"@
}

/// The message shown when the form opens again after a refused creation.
pub fn edit_again_message() -> (m: String)
    ensures
        m@ == msg_edit_again(),
{
    String::from_str(
        "日時やタイムゾーンを確認してください。夏時間の切り替えで存在しない時刻や、二通りになる時刻は保存できません。",
    )
}

/// Only a 400 reply with the code `invalid_request` guarantees that nothing was stored,
/// so only it lets the organizer edit anew.
pub fn creation_outcome(reply: &Result<(), ApiError>) -> (o: CreationOutcome)
    ensures
        match reply {
            Ok(_) => o == CreationOutcome::Accepted,
            Err(e) => if e.status == 400 && e.code@ == "invalid_request"@ {
                o == CreationOutcome::EditAgain
            } else {
                o matches CreationOutcome::Setback(s) && is_setback_for(s, *e)
            },
        },
{
    match reply {
        Ok(_) => CreationOutcome::Accepted,
        Err(e) => {
            proof {
                reveal_strlit("invalid_request");
            }
            if e.status == 400 && str_eq(e.code.as_str(), "invalid_request") {
                CreationOutcome::EditAgain
            } else {
                CreationOutcome::Setback(setback_for(e))
            }
        },
    }
}

/// The field that takes the focus after the creation form is refused: the first field,
/// in the form's order, that has an error.
pub fn creation_focus_target(errors: &EventCreationErrors) -> (t: &'static str)
    ensures
        t@ == (if errors.name is Some {
            "event-name"@
        } else if errors.organizer_note is Some {
            "organizer-note"@
        } else if errors.candidates is Some {
            "candidate-time"@
        } else {
            "event-time-zone"@
        }),
{
    if errors.name.is_some() {
        "event-name"
    } else if errors.organizer_note.is_some() {
        "organizer-note"
    } else if errors.candidates.is_some() {
        "candidate-time"
    } else {
        "event-time-zone"
    }
}

/// The name field is at fault: blank once trimmed, over 100 characters, or holding a
/// control character.
pub open spec fn answer_name_at_fault(name: Seq<char>) -> bool {
    ||| trimmed(name).len() == 0
    ||| name.len() > 100
    ||| exists|i: int| 0 <= i < name.len() && is_control(#[trigger] name[i])
}

pub open spec fn availability_field(id: Seq<char>) -> Seq<char> {
    "availability-"@ + id + "-available"@
}

/// The field that takes the focus after an answer is refused: the name field if it is at
/// fault, else the first candidate without a choice, else the name field.
pub fn answer_focus_target(event: &Event, name: &str, choices: &Vec<Selection>) -> (t: String)
    ensures
        ({
            let cands = cloud_candidates_view(event.candidates@);
            let c = selections_view(choices@);
            if answer_name_at_fault(name@) {
                t@ == "respondent-name"@
            } else if exists|k: int| 0 <= k < cands.len() && !has_key(c, #[trigger] cands[k].0) {
                exists|k: int|
                    0 <= k < cands.len() && !has_key(c, #[trigger] cands[k].0) && (forall|j: int|
                        0 <= j < k ==> has_key(c, #[trigger] cands[j].0)) && t@
                        == availability_field(cands[k].0)
            } else {
                t@ == "respondent-name"@
            }
        }),
{
    proof {
        reveal_strlit("respondent-name");
        reveal_strlit("availability-");
        reveal_strlit("-available");
    }
    let trimmed_name = trim(name);
    if trimmed_name.as_str().unicode_len() == 0 || name.unicode_len() > 100 || str_has_control(
        name,
    ) {
        return String::from_str("respondent-name");
    }
    assert(!answer_name_at_fault(name@));
    let ghost cands = cloud_candidates_view(event.candidates@);
    let ghost c = selections_view(choices@);
    let mut k: usize = 0;
    while k < event.candidates.len()
        invariant
            k <= event.candidates@.len(),
            cands == cloud_candidates_view(event.candidates@),
            c == selections_view(choices@),
            !answer_name_at_fault(name@),
            forall|j: int| 0 <= j < k ==> has_key(c, #[trigger] cands[j].0),
        decreases event.candidates.len() - k,
    {
        assert(cands[k as int] == event.candidates@[k as int]@);
        if !chosen(choices, &event.candidates[k].id) {
            let mut t = String::from_str("availability-");
            t.append(event.candidates[k].id.as_str());
            t.append("-available");
            assert(t@ == availability_field(cands[k as int].0));
            assert(!has_key(c, cands[k as int].0) && (forall|j: int|
                0 <= j < k ==> has_key(c, #[trigger] cands[j].0)));
            return t;
        }
        k = k + 1;
    }
    String::from_str("respondent-name")
}

/// Whether some choice is for `id`.
fn chosen(choices: &Vec<Selection>, id: &String) -> (b: bool)
    ensures
        b == has_key(selections_view(choices@), id@),
{
    let ghost c = selections_view(choices@);
    let mut i: usize = 0;
    while i < choices.len()
        invariant
            i <= choices@.len(),
            c == selections_view(choices@),
            forall|j: int| 0 <= j < i ==> #[trigger] c[j].0 != id@,
        decreases choices.len() - i,
    {
        assert(c[i as int] == choices@[i as int]@);
        if str_eq(choices[i].candidate_id.as_str(), id.as_str()) {
            assert(c[i as int].0 == id@);
            return true;
        }
        i = i + 1;
    }
    false
}

pub open spec fn availability_label(a: Availability) -> Seq<char> {
    match a {
        Availability::Available => "○ 行ける"@,
        Availability::Maybe => "△ 条件次第・たぶん行ける"@,
        Availability::Unavailable => "× 難しい"@,
    }
}

/// What a saved answer chose for a candidate: the label of the first choice for it, or
/// "未回答" where there is none.
pub fn saved_choice_label(answer: &Answer, candidate_id: &str) -> (l: &'static str)
    ensures
        ({
            let c = selections_view(answer.availabilities@);
            if exists|i: int| 0 <= i < c.len() && #[trigger] c[i].0 == candidate_id@ {
                exists|i: int|
                    0 <= i < c.len() && #[trigger] c[i].0 == candidate_id@ && (forall|j: int|
                        0 <= j < i ==> #[trigger] c[j].0 != candidate_id@) && l@
                        == availability_label(c[i].1)
            } else {
                l@ == "未回答"@
            }
        }),
{
    let ghost c = selections_view(answer.availabilities@);
    let mut i: usize = 0;
    while i < answer.availabilities.len()
        invariant
            i <= answer.availabilities@.len(),
            c == selections_view(answer.availabilities@),
            forall|j: int| 0 <= j < i ==> #[trigger] c[j].0 != candidate_id@,
        decreases answer.availabilities.len() - i,
    {
        assert(c[i as int] == answer.availabilities@[i as int]@);
        if str_eq(answer.availabilities[i].candidate_id.as_str(), candidate_id) {
            assert(c[i as int].0 == candidate_id@);
            return answer.availabilities[i].availability.accessible_label();
        }
        i = i + 1;
    }
    "未回答"
}

} // verus!
