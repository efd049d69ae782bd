//! Account-private follow-up events and per-event traces.

use vstd::prelude::*;
use vstd::string::*;
use crate::domain::account::{text_of, HistoryDecision};
use crate::domain::event::{
    creation_errors_message,
    event_validation, EventCreationErrors, EventCreationErrorsView, NewEventInput,
    NewEventInputView,
};
use crate::domain::fields::{is_public_id, public_id_is_valid};
use crate::domain::response::Availability;
use crate::text::{join_present, message_views, present_messages, space_joined, trim, trimmed};

verus! {

pub open spec fn msg_continuation_unknown() -> Seq<char> {
    "続きのイベントを確認できませんでした。"@
}

pub open spec fn msg_event_unknown() -> Seq<char> {
    "イベントを確認できませんでした。"@
}

/// Untrusted request for an organizer-owned event continuation plan.
#[derive(Clone, Debug, PartialEq, Eq)]
pub struct EventContinuationPlanInput {
    pub origin_event_public_id: String,
}

/// Validation errors for a private continuation request and its event form.
#[derive(Clone, Debug, PartialEq, Eq)]
pub struct EventContinuationErrors {
    pub request: Option<String>,
    pub event: EventCreationErrors,
}

impl Default for EventContinuationErrors {
    fn default() -> (e: Self)
        ensures
            e.request is None,
            e.event@.is_empty(),
    {
        EventContinuationErrors { request: None, event: EventCreationErrors::default() }
    }
}

impl EventContinuationErrors {
    pub fn is_empty(&self) -> (b: bool)
        ensures
            b == (self.request is None && self.event@.is_empty()),
    {
        self.request.is_none() && self.event.is_empty()
    }

    /// The request message and the event errors' message, each where present and not
    /// empty, joined by a space.
    pub fn message(&self) -> (s: String)
        ensures
            s@ == space_joined(
                present_messages(
                    seq![
                        non_empty(text_of(self.request)),
                        if self.event@.is_empty() {
                            None
                        } else {
                            non_empty(Some(creation_errors_message(self.event@)))
                        },
                    ],
                ),
            ),
    {
        let request = match &self.request {
            Some(r) => if r.as_str().unicode_len() > 0 {
                Some(r.clone())
            } else {
                None
            },
            None => None,
        };
        let event = if self.event.is_empty() {
            None
        } else {
            let m = self.event.message();
            if m.as_str().unicode_len() > 0 {
                Some(m)
            } else {
                None
            }
        };
        let ghost first = text_of(request);
        let ghost second = text_of(event);
        let parts = vec![request, event];
        proof {
            assert(message_views(parts@) =~= seq![first, second]);
        }
        join_present(parts)
    }
}

/// A message, unless it is empty.
pub open spec fn non_empty(m: Option<Seq<char>>) -> Option<Seq<char>> {
    match m {
        Some(t) => if t.len() > 0 { Some(t) } else { None },
        None => None,
    }
}

impl EventContinuationPlanInput {
    /// Normalize the public origin without accepting account or series identity.
    pub fn normalized_and_validated(&self) -> (r: Result<Self, EventContinuationErrors>)
        ensures
            ({
                let id = trimmed(self.origin_event_public_id@);
                match r {
                    Ok(v) => is_public_id(id) && v.origin_event_public_id@ == id,
                    Err(e) => !is_public_id(id) && text_of(e.request) == Some(
                        msg_continuation_unknown(),
                    ) && e.event@.is_empty(),
                }
            }),
    {
        let origin_event_public_id = trim(self.origin_event_public_id.as_str());
        if public_id_is_valid(origin_event_public_id.as_str()) {
            Ok(EventContinuationPlanInput { origin_event_public_id })
        } else {
            Err(EventContinuationErrors {
                request: Some(String::from_str("続きのイベントを確認できませんでした。")),
                event: EventCreationErrors::default(),
            })
        }
    }
}

/// Untrusted request to create one event in an explicitly selected series.
#[derive(Clone, Debug, PartialEq, Eq)]
pub struct EventContinuationCreateInput {
    pub origin_event_public_id: String,
    pub expected_tail_event_public_id: String,
    pub event: NewEventInput,
}

impl EventContinuationCreateInput {
    /// Revalidate both public identifiers and the complete nested event draft.
    pub fn normalized_and_validated(&self) -> (r: Result<Self, EventContinuationErrors>)
        ensures
            ({
                let origin = trimmed(self.origin_event_public_id@);
                let tail = trimmed(self.expected_tail_event_public_id@);
                let ids_ok = is_public_id(origin) && is_public_id(tail);
                let request = if ids_ok { None } else { Some(msg_continuation_unknown()) };
                match r {
                    Ok(v) => ids_ok && v.origin_event_public_id@ == origin
                        && v.expected_tail_event_public_id@ == tail && event_validation(self.event@)
                        == Ok::<NewEventInputView, EventCreationErrorsView>(v.event@),
                    Err(e) => text_of(e.request) == request && match event_validation(self.event@) {
                        Ok(_) => !ids_ok && e.event@.is_empty(),
                        Err(ve) => e.event@ == ve,
                    },
                }
            }),
    {
        let origin_event_public_id = trim(self.origin_event_public_id.as_str());
        let expected_tail_event_public_id = trim(self.expected_tail_event_public_id.as_str());
        let event = self.event.normalized_and_validated();
        let mut errors = EventContinuationErrors::default();
        if !public_id_is_valid(origin_event_public_id.as_str()) || !public_id_is_valid(
            expected_tail_event_public_id.as_str(),
        ) {
            errors.request = Some(String::from_str("続きのイベントを確認できませんでした。"));
        }
        match event {
            Ok(event) => {
                if errors.is_empty() {
                    Ok(EventContinuationCreateInput {
                        origin_event_public_id,
                        expected_tail_event_public_id,
                        event,
                    })
                } else {
                    Err(errors)
                }
            },
            Err(event) => {
                errors.event = event;
                Err(errors)
            },
        }
    }
}

/// Private organizer projection used to prefill, but never submit, a next name.
#[derive(Clone, Debug, PartialEq, Eq)]
pub struct EventContinuationPlan {
    pub origin_event_public_id: String,
    pub origin_event_name: String,
    pub series_name: String,
    pub tail_event_public_id: String,
    pub suggested_event_name: Option<String>,
}

/// Private continuation-plan result without account or session material.
#[derive(Clone, Debug, PartialEq, Eq)]
pub enum AccountEventContinuationState {
    Guest,
    Expired,
    Authenticated(EventContinuationPlan),
}

/// Untrusted request for one account-private event trace.
#[derive(Clone, Debug, PartialEq, Eq)]
pub struct AccountEventTraceInput {
    pub event_public_id: String,
}

/// Validation errors that do not reveal whether an event or account link exists.
#[derive(Clone, Debug, PartialEq, Eq)]
pub struct AccountEventTraceErrors {
    pub request: Option<String>,
}

impl Default for AccountEventTraceErrors {
    fn default() -> (e: Self)
        ensures
            e.request is None,
    {
        AccountEventTraceErrors { request: None }
    }
}

impl AccountEventTraceErrors {
    pub fn is_empty(&self) -> (b: bool)
        ensures
            b == self.request is None,
    {
        self.request.is_none()
    }

    /// The request message, or nothing.
    pub fn message(&self) -> (s: String)
        ensures
            s@ == match self.request {
                Some(r) => r@,
                None => Seq::<char>::empty(),
            },
    {
        match &self.request {
            Some(r) => r.clone(),
            None => String::new(),
        }
    }
}

impl AccountEventTraceInput {
    /// Trim and validate the public identifier without accepting account authority.
    pub fn normalized_and_validated(&self) -> (r: Result<Self, AccountEventTraceErrors>)
        ensures
            ({
                let id = trimmed(self.event_public_id@);
                match r {
                    Ok(v) => is_public_id(id) && v.event_public_id@ == id,
                    Err(e) => !is_public_id(id) && text_of(e.request) == Some(msg_event_unknown()),
                }
            }),
    {
        let event_public_id = trim(self.event_public_id.as_str());
        if public_id_is_valid(event_public_id.as_str()) {
            Ok(AccountEventTraceInput { event_public_id })
        } else {
            Err(
                AccountEventTraceErrors {
                    request: Some(String::from_str("イベントを確認できませんでした。")),
                },
            )
        }
    }
}

/// The current account's read relationship to one event, decided only by the server.
#[derive(Clone, Copy, Debug, PartialEq, Eq, Structural)]
pub enum AccountEventTraceRelationship {
    Organized,
    Participated,
    OrganizedAndParticipated,
}

/// One candidate date in authored order without an internal database identifier.
#[derive(Clone, Debug, PartialEq, Eq)]
pub struct AccountEventTraceCandidate {
    pub local_date: String,
    pub local_time: String,
}

/// One response visible within the current account's role-scoped trace.
#[derive(Clone, Debug, PartialEq, Eq)]
pub struct AccountEventTraceResponse {
    pub respondent_name: String,
    pub comment: Option<String>,
    pub availabilities: Vec<Availability>,
    pub is_current_account: bool,
}

/// Existing event facts projected only after account authentication and authorization.
#[derive(Clone, Debug, PartialEq, Eq)]
pub struct AccountEventTrace {
    pub public_id: String,
    pub name: String,
    pub organizer_note: Option<String>,
    pub time_zone: String,
    pub relationship: AccountEventTraceRelationship,
    pub candidates: Vec<AccountEventTraceCandidate>,
    pub decision: Option<HistoryDecision>,
    pub responses: Vec<AccountEventTraceResponse>,
}

/// Account-private trace loading result without session material.
#[derive(Clone, Debug, PartialEq, Eq)]
pub enum AccountEventTraceState {
    Guest,
    Expired,
    Authenticated(AccountEventTrace),
}

} // verus!
