//! What the server functions answer for each outcome of validation and storage.

use vstd::prelude::*;
use vstd::string::*;
use crate::auth::{origin_allowed, request_origin_is_allowed, str_text, PresentedSession};
use crate::domain::account::{AccountAuthErrors, AccountHistory, AccountHistoryState};
use crate::domain::continuation::{
    AccountEventContinuationState, AccountEventTrace, AccountEventTraceState, EventContinuationPlan,
};
use crate::domain::organizer::{OrganizerDecisionErrors, OrganizerSummaryErrors};
use crate::domain::response::{AvailabilityResponseErrors, ResponseCommentErrors};
use crate::series_store::EventContinuationStorageError;
use crate::storage::{
    AccountEventTraceStorageError, AccountHistoryStorageError, OrganizerDecisionStorageError,
    OrganizerResponseMatrixStorageError, OrganizerSummaryStorageError, ResponseCommentStorageError,
    ResponseStorageError, StoredAccountCredentials,
};
use crate::calendar::{rendered, render_icalendar, uuid_parses, uuid_text_parses, IcalendarEvent};
use crate::domain::event::{PublicEvent, PublicEventDecision};
use crate::storage::PublicEventStorageError;
use crate::text::str_eq;

verus! {

/// How a server function fails, as the browser sees it.
#[derive(Clone, Debug, PartialEq, Eq)]
pub enum ServerFailure {
    /// A failure with its own HTTP status and a message for the user.
    Status { code: u16, message: String },
    /// An internal failure with a generic message for the user.
    Internal { message: String },
}

impl View for ServerFailure {
    /// The status, where the failure has its own, and the message.
    type V = (Option<u16>, Seq<char>);

    open spec fn view(&self) -> (Option<u16>, Seq<char>) {
        match self {
            ServerFailure::Status { code, message } => (Some(*code), message@),
            ServerFailure::Internal { message } => (None, message@),
        }
    }
}

fn status(code: u16, message: &str) -> (f: ServerFailure)
    ensures
        f@ == (Some(code), message@),
{
    ServerFailure::Status { code, message: String::from_str(message) }
}

fn internal(message: &str) -> (f: ServerFailure)
    ensures
        f@ == (None::<u16>, message@),
{
    ServerFailure::Internal { message: String::from_str(message) }
}

/// Registration failures that disclose neither passwords nor whether an account exists.
#[derive(Clone, Debug, PartialEq, Eq)]
pub enum AccountRegistrationError {
    Validation(AccountAuthErrors),
    Unavailable,
    RateLimited(i64),
    Storage,
}

/// Login failures with one answer for unknown identifiers and wrong passwords alike.
#[derive(Clone, Debug, PartialEq, Eq)]
pub enum AccountLoginError {
    Validation(AccountAuthErrors),
    InvalidCredentials,
    RateLimited(i64),
    Storage,
}

/// Account-store failures that the stored data cause.
#[derive(Clone, Copy, Debug, PartialEq, Eq, Structural)]
pub enum AccountStorageError {
    LoginIdTaken,
    AccountNotFound,
}

impl AccountStorageError {
    /// The operator-facing description of the failure.
    pub fn message(&self) -> (s: String)
        ensures
            s@ == match *self {
                AccountStorageError::LoginIdTaken => "account could not be created"@,
                AccountStorageError::AccountNotFound => "account not found"@,
            },
    {
        match self {
            AccountStorageError::LoginIdTaken => String::from_str("account could not be created"),
            AccountStorageError::AccountNotFound => String::from_str("account not found"),
        }
    }
}

pub open spec fn msg_registration_failed() -> Seq<char> {
    "アカウントを作成できませんでした。"@
}

pub open spec fn msg_registration_throttled() -> Seq<char> {
    "アカウント作成をしばらく試せません。時間を置いてお試しください。"@
}

pub open spec fn msg_invalid_credentials() -> Seq<char> {
    "ログインIDまたはpasswordを確認してください。"@
}

pub open spec fn msg_login_throttled() -> Seq<char> {
    "ログインをしばらく試せません。時間を置いてお試しください。"@
}

pub open spec fn msg_login_failed() -> Seq<char> {
    "ログインできませんでした。"@
}

/// The registration failure a store failure stands for: a taken identifier is reported
/// as a plain refusal, anything else as a storage failure.
pub fn registration_error_from_storage(e: AccountStorageError) -> (r: AccountRegistrationError)
    ensures
        r == match e {
            AccountStorageError::LoginIdTaken => AccountRegistrationError::Unavailable,
            AccountStorageError::AccountNotFound => AccountRegistrationError::Storage,
        },
{
    match e {
        AccountStorageError::LoginIdTaken => AccountRegistrationError::Unavailable,
        AccountStorageError::AccountNotFound => AccountRegistrationError::Storage,
    }
}

impl AccountRegistrationError {
    /// The user-facing description of the failure.
    pub fn message(&self) -> (s: String)
        ensures
            s@ == match self {
                AccountRegistrationError::Validation(errors) => crate::domain::account::auth_errors_message(*errors),
                AccountRegistrationError::RateLimited(_) => msg_registration_throttled(),
                _ => msg_registration_failed(),
            },
    {
        match self {
            AccountRegistrationError::Validation(errors) => errors.message(),
            AccountRegistrationError::RateLimited(_) => String::from_str(
                "アカウント作成をしばらく試せません。時間を置いてお試しください。",
            ),
            _ => String::from_str("アカウントを作成できませんでした。"),
        }
    }

    /// The answer to the browser, with the seconds to announce in `Retry-After` when the
    /// attempt was throttled.
    pub fn failure(&self) -> (r: (ServerFailure, Option<i64>))
        ensures
            r.0@ == match self {
                AccountRegistrationError::Validation(errors) => (
                    Some(422u16),
                    crate::domain::account::auth_errors_message(*errors),
                ),
                AccountRegistrationError::Unavailable => (Some(409u16), msg_registration_failed()),
                AccountRegistrationError::RateLimited(_) => (Some(429u16), msg_registration_throttled()),
                AccountRegistrationError::Storage => (None::<u16>, msg_registration_failed()),
            },
            r.1 == match self {
                AccountRegistrationError::RateLimited(s) => Some(*s),
                _ => None::<i64>,
            },
    {
        match self {
            AccountRegistrationError::Validation(errors) => (
                ServerFailure::Status { code: 422, message: errors.message() },
                None,
            ),
            AccountRegistrationError::Unavailable => (
                status(409, "アカウントを作成できませんでした。"),
                None,
            ),
            AccountRegistrationError::RateLimited(s) => (
                status(429, "アカウント作成をしばらく試せません。時間を置いてお試しください。"),
                Some(*s),
            ),
            AccountRegistrationError::Storage => (
                internal("アカウントを作成できませんでした。"),
                None,
            ),
        }
    }
}

impl AccountLoginError {
    /// The user-facing description of the failure.
    pub fn message(&self) -> (s: String)
        ensures
            s@ == match self {
                AccountLoginError::Validation(errors) => crate::domain::account::auth_errors_message(*errors),
                AccountLoginError::InvalidCredentials => msg_invalid_credentials(),
                AccountLoginError::RateLimited(_) => msg_login_throttled(),
                AccountLoginError::Storage => msg_login_failed(),
            },
    {
        match self {
            AccountLoginError::Validation(errors) => errors.message(),
            AccountLoginError::InvalidCredentials => String::from_str(
                "ログインIDまたはpasswordを確認してください。",
            ),
            AccountLoginError::RateLimited(_) => String::from_str(
                "ログインをしばらく試せません。時間を置いてお試しください。",
            ),
            AccountLoginError::Storage => String::from_str("ログインできませんでした。"),
        }
    }

    /// The answer to the browser, with the seconds to announce in `Retry-After` when the
    /// attempt was throttled.
    pub fn failure(&self) -> (r: (ServerFailure, Option<i64>))
        ensures
            r.0@ == match self {
                AccountLoginError::Validation(errors) => (
                    Some(422u16),
                    crate::domain::account::auth_errors_message(*errors),
                ),
                AccountLoginError::InvalidCredentials => (Some(401u16), msg_invalid_credentials()),
                AccountLoginError::RateLimited(_) => (Some(429u16), msg_login_throttled()),
                AccountLoginError::Storage => (None::<u16>, msg_login_failed()),
            },
            r.1 == match self {
                AccountLoginError::RateLimited(s) => Some(*s),
                _ => None::<i64>,
            },
    {
        match self {
            AccountLoginError::Validation(errors) => (
                ServerFailure::Status { code: 422, message: errors.message() },
                None,
            ),
            AccountLoginError::InvalidCredentials => (
                status(401, "ログインIDまたはpasswordを確認してください。"),
                None,
            ),
            AccountLoginError::RateLimited(s) => (
                status(429, "ログインをしばらく試せません。時間を置いてお試しください。"),
                Some(*s),
            ),
            AccountLoginError::Storage => (internal("ログインできませんでした。"), None),
        }
    }
}

/// The password hash a login checks: the stored one, or the dummy hash when the identifier
/// is unknown, so that both paths do the same work.
pub fn password_hash_to_check<'a>(stored: &'a Option<StoredAccountCredentials>, dummy: &'a str) -> (r:
    &'a str)
    ensures
        r@ == match stored {
            Some(account) => account.password_hash_phc@,
            None => dummy@,
        },
{
    match stored {
        Some(account) => account.password_hash_phc.as_str(),
        None => dummy,
    }
}

/// The account a login signs in: a known identifier whose password verified; anything else
/// is the one generic credential failure.
pub fn verified_login(stored: Option<StoredAccountCredentials>, verified: bool) -> (r: Result<
    StoredAccountCredentials,
    AccountLoginError,
>)
    ensures
        match r {
            Ok(account) => verified && stored == Some(account),
            Err(e) => (!verified || stored is None) && e == AccountLoginError::InvalidCredentials,
        },
{
    match stored {
        Some(account) => if verified {
            Ok(account)
        } else {
            Err(AccountLoginError::InvalidCredentials)
        },
        None => Err(AccountLoginError::InvalidCredentials),
    }
}

/// What an account-private read does with the session cookie it was given.
#[derive(Clone, Copy, PartialEq, Eq)]
pub enum SessionGate {
    /// No cookie: the browser is a guest.
    Guest,
    /// A malformed cookie: the session has expired.
    Expired,
    /// A well-formed cookie: look the session up by this digest.
    Lookup([u8; 32]),
}

/// Sort a presented cookie into guest, expired, or one to look up.
pub fn session_gate(presented: PresentedSession) -> (g: SessionGate)
    ensures
        g == match presented {
            PresentedSession::Absent => SessionGate::Guest,
            PresentedSession::Invalid => SessionGate::Expired,
            PresentedSession::Digest(d) => SessionGate::Lookup(d),
        },
{
    match presented {
        PresentedSession::Absent => SessionGate::Guest,
        PresentedSession::Invalid => SessionGate::Expired,
        PresentedSession::Digest(d) => SessionGate::Lookup(d),
    }
}

/// The history answer: the history itself, `Expired` for a session that no longer
/// resolves, and a generic failure for corrupt data.
pub fn history_outcome(r: Result<AccountHistory, AccountHistoryStorageError>) -> (o: Result<
    AccountHistoryState,
    ServerFailure,
>)
    ensures
        match r {
            Ok(h) => o == Ok::<AccountHistoryState, ServerFailure>(AccountHistoryState::Authenticated(h)),
            Err(AccountHistoryStorageError::Unauthenticated) => o == Ok::<
                AccountHistoryState,
                ServerFailure,
            >(AccountHistoryState::Expired),
            Err(AccountHistoryStorageError::DataInvariantViolation) => o matches Err(f) && f@ == (
                None::<u16>,
                "履歴を読み込めませんでした。"@,
            ),
        },
{
    match r {
        Ok(h) => Ok(AccountHistoryState::Authenticated(h)),
        Err(AccountHistoryStorageError::Unauthenticated) => Ok(AccountHistoryState::Expired),
        Err(AccountHistoryStorageError::DataInvariantViolation) => Err(
            internal("履歴を読み込めませんでした。"),
        ),
    }
}

/// The event-trace answer: the trace, `Expired` for a session that no longer resolves,
/// 404 for an event outside the account's reach, and a generic failure for corrupt data.
pub fn trace_outcome(r: Result<AccountEventTrace, AccountEventTraceStorageError>) -> (o: Result<
    AccountEventTraceState,
    ServerFailure,
>)
    ensures
        match r {
            Ok(t) => o == Ok::<AccountEventTraceState, ServerFailure>(
                AccountEventTraceState::Authenticated(t),
            ),
            Err(AccountEventTraceStorageError::Unauthenticated) => o == Ok::<
                AccountEventTraceState,
                ServerFailure,
            >(AccountEventTraceState::Expired),
            Err(AccountEventTraceStorageError::NotFound) => o matches Err(f) && f@ == (
                Some(404u16),
                "記録が見つかりません。"@,
            ),
            Err(AccountEventTraceStorageError::DataInvariantViolation) => o matches Err(f) && f@ == (
                None::<u16>,
                "記録を読み込めませんでした。"@,
            ),
        },
{
    match r {
        Ok(t) => Ok(AccountEventTraceState::Authenticated(t)),
        Err(AccountEventTraceStorageError::Unauthenticated) => Ok(AccountEventTraceState::Expired),
        Err(AccountEventTraceStorageError::NotFound) => Err(status(404, "記録が見つかりません。")),
        Err(AccountEventTraceStorageError::DataInvariantViolation) => Err(
            internal("記録を読み込めませんでした。"),
        ),
    }
}

/// The continuation-plan answer: the plan, `Expired` for a session that no longer
/// resolves, 404 for an event the account did not organize, and a generic failure
/// otherwise.
pub fn continuation_plan_outcome(r: Result<EventContinuationPlan, EventContinuationStorageError>) -> (o:
    Result<AccountEventContinuationState, ServerFailure>)
    ensures
        match r {
            Ok(p) => o == Ok::<AccountEventContinuationState, ServerFailure>(
                AccountEventContinuationState::Authenticated(p),
            ),
            Err(EventContinuationStorageError::Unauthenticated) => o == Ok::<
                AccountEventContinuationState,
                ServerFailure,
            >(AccountEventContinuationState::Expired),
            Err(EventContinuationStorageError::NotFound) => o matches Err(f) && f@ == (
                Some(404u16),
                "続きの情報が見つかりません。"@,
            ),
            Err(_) => o matches Err(f) && f@ == (None::<u16>, "続きの情報を読み込めませんでした。"@),
        },
{
    match r {
        Ok(p) => Ok(AccountEventContinuationState::Authenticated(p)),
        Err(EventContinuationStorageError::Unauthenticated) => Ok(
            AccountEventContinuationState::Expired,
        ),
        Err(EventContinuationStorageError::NotFound) => Err(
            status(404, "続きの情報が見つかりません。"),
        ),
        Err(_) => Err(internal("続きの情報を読み込めませんでした。")),
    }
}

pub open spec fn msg_login_required() -> Seq<char> {
    "ログインが必要です。"@
}

/// The answer when creating a continuation fails.
pub fn continuation_create_failure(e: EventContinuationStorageError) -> (f: ServerFailure)
    ensures
        f@ == match e {
            EventContinuationStorageError::Unauthenticated => (Some(401u16), msg_login_required()),
            EventContinuationStorageError::NotFound => (Some(404u16), "続きの情報が見つかりません。"@),
            EventContinuationStorageError::Stale => (
                Some(409u16),
                "続きの情報が更新されています。最新の情報を読み直してください。"@,
            ),
            EventContinuationStorageError::DataInvariantViolation => (
                None::<u16>,
                "続きのイベントを作成できませんでした。"@,
            ),
        },
{
    match e {
        EventContinuationStorageError::Unauthenticated => status(401, "ログインが必要です。"),
        EventContinuationStorageError::NotFound => status(404, "続きの情報が見つかりません。"),
        EventContinuationStorageError::Stale => status(
            409,
            "続きの情報が更新されています。最新の情報を読み直してください。",
        ),
        EventContinuationStorageError::DataInvariantViolation => internal(
            "続きのイベントを作成できませんでした。",
        ),
    }
}

/// Creating a continuation needs a session: without a well-formed cookie the request is
/// refused before anything is written.
pub fn continuation_session(presented: PresentedSession) -> (r: Result<[u8; 32], ServerFailure>)
    ensures
        match presented {
            PresentedSession::Digest(d) => r == Ok::<[u8; 32], ServerFailure>(d),
            _ => r matches Err(f) && f@ == (Some(401u16), msg_login_required()),
        },
{
    match presented {
        PresentedSession::Digest(d) => Ok(d),
        _ => Err(status(401, "ログインが必要です。")),
    }
}

/// Organizer-summary failures kept typed until the answer is chosen.
#[derive(Clone, Debug, PartialEq, Eq)]
pub enum OrganizerSummaryReadError {
    Validation(OrganizerSummaryErrors),
    Storage(OrganizerSummaryStorageError),
}

/// Organizer-matrix failures kept typed until the answer is chosen.
#[derive(Clone, Debug, PartialEq, Eq)]
pub enum OrganizerResponseMatrixReadError {
    Validation(OrganizerSummaryErrors),
    Storage(OrganizerResponseMatrixStorageError),
}

/// Organizer-decision failures kept typed until the answer is chosen.
#[derive(Clone, Debug, PartialEq, Eq)]
pub enum OrganizerEventDecisionSubmissionError {
    Validation(OrganizerDecisionErrors),
    Storage(OrganizerDecisionStorageError),
}

/// Response-submission failures kept typed until the answer is chosen.
#[derive(Clone, Debug, PartialEq, Eq)]
pub enum AvailabilityResponseSubmissionError {
    Validation(AvailabilityResponseErrors),
    Storage(ResponseStorageError),
}

/// Comment-submission failures kept typed until the answer is chosen.
#[derive(Clone, Debug, PartialEq, Eq)]
pub enum ResponseCommentSubmissionError {
    Validation(ResponseCommentErrors),
    Storage(ResponseCommentStorageError),
}

pub open spec fn request_message(request: Option<String>) -> Seq<char> {
    match request {
        Some(r) => r@,
        None => Seq::empty(),
    }
}

impl OrganizerSummaryReadError {
    /// The answer to the browser.
    pub fn failure(&self) -> (f: ServerFailure)
        ensures
            f@ == match self {
                OrganizerSummaryReadError::Validation(errors) => (
                    Some(422u16),
                    request_message(errors.request),
                ),
                OrganizerSummaryReadError::Storage(OrganizerSummaryStorageError::NotFound) => (
                    Some(404u16),
                    "回答サマリーが見つかりません。"@,
                ),
                OrganizerSummaryReadError::Storage(_) => (None::<u16>, "回答サマリーを読み込めませんでした。"@),
            },
    {
        match self {
            OrganizerSummaryReadError::Validation(errors) => ServerFailure::Status {
                code: 422,
                message: errors.message(),
            },
            OrganizerSummaryReadError::Storage(OrganizerSummaryStorageError::NotFound) => status(
                404,
                "回答サマリーが見つかりません。",
            ),
            OrganizerSummaryReadError::Storage(_) => internal("回答サマリーを読み込めませんでした。"),
        }
    }
}

impl OrganizerResponseMatrixReadError {
    /// The answer to the browser.
    pub fn failure(&self) -> (f: ServerFailure)
        ensures
            f@ == match self {
                OrganizerResponseMatrixReadError::Validation(errors) => (
                    Some(422u16),
                    request_message(errors.request),
                ),
                OrganizerResponseMatrixReadError::Storage(
                    OrganizerResponseMatrixStorageError::NotFound,
                ) => (Some(404u16), "回答集計表が見つかりません。"@),
                OrganizerResponseMatrixReadError::Storage(_) => (
                    None::<u16>,
                    "回答集計表を読み込めませんでした。"@,
                ),
            },
    {
        match self {
            OrganizerResponseMatrixReadError::Validation(errors) => ServerFailure::Status {
                code: 422,
                message: errors.message(),
            },
            OrganizerResponseMatrixReadError::Storage(
                OrganizerResponseMatrixStorageError::NotFound,
            ) => status(404, "回答集計表が見つかりません。"),
            OrganizerResponseMatrixReadError::Storage(_) => internal("回答集計表を読み込めませんでした。"),
        }
    }
}

impl OrganizerEventDecisionSubmissionError {
    /// The answer to the browser.
    pub fn failure(&self) -> (f: ServerFailure)
        ensures
            f@ == match self {
                OrganizerEventDecisionSubmissionError::Validation(errors) => (
                    Some(422u16),
                    request_message(errors.request),
                ),
                OrganizerEventDecisionSubmissionError::Storage(
                    OrganizerDecisionStorageError::NotFound,
                ) => (Some(404u16), "イベントを確認できませんでした。"@),
                OrganizerEventDecisionSubmissionError::Storage(
                    OrganizerDecisionStorageError::CandidateMismatch,
                ) => (Some(422u16), "候補日時を確認してください。"@),
                OrganizerEventDecisionSubmissionError::Storage(
                    OrganizerDecisionStorageError::Conflict,
                ) => (Some(409u16), "別の候補日時がすでに確定されています。"@),
            },
    {
        match self {
            OrganizerEventDecisionSubmissionError::Validation(errors) => ServerFailure::Status {
                code: 422,
                message: errors.message(),
            },
            OrganizerEventDecisionSubmissionError::Storage(
                OrganizerDecisionStorageError::NotFound,
            ) => status(404, "イベントを確認できませんでした。"),
            OrganizerEventDecisionSubmissionError::Storage(
                OrganizerDecisionStorageError::CandidateMismatch,
            ) => status(422, "候補日時を確認してください。"),
            OrganizerEventDecisionSubmissionError::Storage(
                OrganizerDecisionStorageError::Conflict,
            ) => status(409, "別の候補日時がすでに確定されています。"),
        }
    }
}

impl AvailabilityResponseSubmissionError {
    /// The answer to the browser.
    pub fn failure(&self) -> (f: ServerFailure)
        ensures
            f@ == match self {
                AvailabilityResponseSubmissionError::Validation(errors) => (
                    Some(422u16),
                    crate::domain::response::availability_errors_message(*errors),
                ),
                AvailabilityResponseSubmissionError::Storage(ResponseStorageError::EventNotFound) => (
                    Some(404u16),
                    "イベントが見つかりません。"@,
                ),
                AvailabilityResponseSubmissionError::Storage(
                    ResponseStorageError::CandidateSetMismatch,
                ) => (Some(422u16), "候補日時への回答を確認してください。"@),
                AvailabilityResponseSubmissionError::Storage(ResponseStorageError::EventDecided) => (
                    Some(409u16),
                    "日程が確定しています。共有URLを開き直して確認してください。"@,
                ),
                AvailabilityResponseSubmissionError::Storage(
                    ResponseStorageError::CapabilityConflict,
                ) => (Some(409u16), "同じ回答を別の内容へ変更できません。"@),
            },
    {
        match self {
            AvailabilityResponseSubmissionError::Validation(errors) => ServerFailure::Status {
                code: 422,
                message: errors.message(),
            },
            AvailabilityResponseSubmissionError::Storage(ResponseStorageError::EventNotFound) => status(
                404,
                "イベントが見つかりません。",
            ),
            AvailabilityResponseSubmissionError::Storage(
                ResponseStorageError::CandidateSetMismatch,
            ) => status(422, "候補日時への回答を確認してください。"),
            AvailabilityResponseSubmissionError::Storage(ResponseStorageError::EventDecided) => status(
                409,
                "日程が確定しています。共有URLを開き直して確認してください。",
            ),
            AvailabilityResponseSubmissionError::Storage(
                ResponseStorageError::CapabilityConflict,
            ) => status(409, "同じ回答を別の内容へ変更できません。"),
        }
    }
}

impl ResponseCommentSubmissionError {
    /// The answer to the browser.
    pub fn failure(&self) -> (f: ServerFailure)
        ensures
            f@ == match self {
                ResponseCommentSubmissionError::Validation(errors) => (
                    Some(422u16),
                    crate::domain::response::comment_errors_message(*errors),
                ),
                ResponseCommentSubmissionError::Storage(
                    ResponseCommentStorageError::ResponseNotFound,
                ) => (Some(404u16), "回答を確認できませんでした。"@),
                ResponseCommentSubmissionError::Storage(
                    ResponseCommentStorageError::CommentConflict,
                ) => (Some(409u16), "異なるひとことがすでに送信されています。"@),
            },
    {
        match self {
            ResponseCommentSubmissionError::Validation(errors) => ServerFailure::Status {
                code: 422,
                message: errors.message(),
            },
            ResponseCommentSubmissionError::Storage(
                ResponseCommentStorageError::ResponseNotFound,
            ) => status(404, "回答を確認できませんでした。"),
            ResponseCommentSubmissionError::Storage(
                ResponseCommentStorageError::CommentConflict,
            ) => status(409, "異なるひとことがすでに送信されています。"),
        }
    }
}

/// A path whose answers are private: never stored by caches nor sniffed.
pub open spec fn private_path(path: Seq<char>) -> bool {
    ||| path == "/history"@
    ||| (path.len() >= 9 && path.take(9) == "/history/"@)
    ||| path == "/api/auth"@
    ||| (path.len() >= 10 && path.take(10) == "/api/auth/"@)
    ||| path == "/api/account"@
    ||| (path.len() >= 13 && path.take(13) == "/api/account/"@)
    ||| path == "/api/answers/submit"@
}

fn starts_with(s: &str, prefix: &str) -> (b: bool)
    ensures
        b == (s@.len() >= prefix@.len() && s@.take(prefix@.len() as int) == prefix@),
{
    let n = prefix.unicode_len();
    if s.unicode_len() < n {
        return false;
    }
    let head = s.substring_char(0, n);
    assert(head@ =~= s@.take(n as int));
    str_eq(head, prefix)
}

/// Whether answers on `path` get the private-cache headers.
pub fn is_private_api_path(path: &str) -> (b: bool)
    ensures
        b == private_path(path@),
{
    proof {
        reveal_strlit("/history");
        reveal_strlit("/history/");
        reveal_strlit("/api/auth");
        reveal_strlit("/api/auth/");
        reveal_strlit("/api/account");
        reveal_strlit("/api/account/");
        reveal_strlit("/api/answers/submit");
    }
    let history = str_eq(path, "/history");
    let under_history = starts_with(path, "/history/");
    let auth = str_eq(path, "/api/auth");
    let under_auth = starts_with(path, "/api/auth/");
    let account = str_eq(path, "/api/account");
    let under_account = starts_with(path, "/api/account/");
    let submit = str_eq(path, "/api/answers/submit");
    history || under_history || auth || under_auth || account || under_account || submit
}

/// What the guard in front of the API does with a request.
#[derive(Clone, Copy, Debug, PartialEq, Eq, Structural)]
pub enum ApiGuardVerdict {
    /// The request goes on to its handler.
    Pass,
    /// 403: the request's origin cannot be confirmed.
    Forbidden,
    /// 500: the server's public origin is misconfigured.
    Misconfigured,
}

/// An unsafe method on the API.
pub open spec fn unsafe_api_request(method: Seq<char>, path: Seq<char>) -> bool {
    &&& (method == "POST"@ || method == "PUT"@ || method == "PATCH"@ || method == "DELETE"@)
    &&& (path == "/api"@ || (path.len() >= 5 && path.take(5) == "/api/"@))
}

/// A request header: absent, present but not text, or text.
pub open spec fn header_text(h: Option<Option<&str>>) -> Option<Option<Seq<char>>> {
    match h {
        None => None,
        Some(None) => Some(None),
        Some(Some(t)) => Some(Some(t@)),
    }
}

/// What happens to an API request: safe requests pass; an unsafe one passes only with a Host
/// header in text, a valid public origin for that host, Origin and Referer headers in text
/// where they are sent, and an origin equal to the public one.
pub open spec fn api_guard(
    method: Seq<char>,
    path: Seq<char>,
    host_readable: bool,
    public_origin: Option<Seq<char>>,
    origin: Option<Option<Seq<char>>>,
    referer: Option<Option<Seq<char>>>,
) -> ApiGuardVerdict {
    if !unsafe_api_request(method, path) {
        ApiGuardVerdict::Pass
    } else if !host_readable {
        ApiGuardVerdict::Forbidden
    } else {
        match public_origin {
            None => ApiGuardVerdict::Misconfigured,
            Some(expected) => if origin == Some(None::<Seq<char>>) || referer == Some(None::<Seq<char>>) {
                ApiGuardVerdict::Forbidden
            } else {
                let o = match origin {
                    Some(Some(t)) => Some(t),
                    _ => None,
                };
                let r = match referer {
                    Some(Some(t)) => Some(t),
                    _ => None,
                };
                if origin_allowed(method, path, o, r, expected) {
                    ApiGuardVerdict::Pass
                } else {
                    ApiGuardVerdict::Forbidden
                }
            },
        }
    }
}

/// Whether the guard examines this request at all.
pub fn is_unsafe_api_request(method: &str, path: &str) -> (b: bool)
    ensures
        b == unsafe_api_request(method@, path@),
{
    proof {
        reveal_strlit("/api/");
    }
    (str_eq(method, "POST") || str_eq(method, "PUT") || str_eq(method, "PATCH") || str_eq(
        method,
        "DELETE",
    )) && (str_eq(path, "/api") || starts_with(path, "/api/"))
}

/// Decide an API request. `host_readable` says whether the Host header was present as text;
/// `public_origin` is the public origin configured for that host, `None` where the
/// configuration is invalid; each of `origin` and `referer` is `None` when absent,
/// `Some(None)` when not text.
pub fn api_guard_verdict(
    method: &str,
    path: &str,
    host_readable: bool,
    public_origin: Option<&str>,
    origin: Option<Option<&str>>,
    referer: Option<Option<&str>>,
) -> (v: ApiGuardVerdict)
    ensures
        v == api_guard(
            method@,
            path@,
            host_readable,
            str_text(public_origin),
            header_text(origin),
            header_text(referer),
        ),
{
    if !is_unsafe_api_request(method, path) {
        return ApiGuardVerdict::Pass;
    }
    if !host_readable {
        return ApiGuardVerdict::Forbidden;
    }
    let expected = match public_origin {
        None => return ApiGuardVerdict::Misconfigured,
        Some(e) => e,
    };
    let o = match origin {
        None => None,
        Some(None) => return ApiGuardVerdict::Forbidden,
        Some(Some(t)) => Some(t),
    };
    let r = match referer {
        None => None,
        Some(None) => return ApiGuardVerdict::Forbidden,
        Some(Some(t)) => Some(t),
    };
    if request_origin_is_allowed(method, path, o, r, expected) {
        ApiGuardVerdict::Pass
    } else {
        ApiGuardVerdict::Forbidden
    }
}

impl ApiGuardVerdict {
    /// The status and plain-text message of a refusal; `None` for a request that passes.
    pub fn refusal(&self) -> (r: Option<(u16, String)>)
        ensures
            match *self {
                ApiGuardVerdict::Pass => r is None,
                ApiGuardVerdict::Forbidden => r matches Some((c, m)) && c == 403 && m@
                    == "request originを確認できませんでした。"@,
                ApiGuardVerdict::Misconfigured => r matches Some((c, m)) && c == 500 && m@
                    == "server設定を確認できませんでした。"@,
            },
    {
        match self {
            ApiGuardVerdict::Pass => None,
            ApiGuardVerdict::Forbidden => Some(
                (403, String::from_str("request originを確認できませんでした。")),
            ),
            ApiGuardVerdict::Misconfigured => Some(
                (500, String::from_str("server設定を確認できませんでした。")),
            ),
        }
    }
}


/// The raw answer of a calendar download.
#[derive(Clone, Debug, PartialEq, Eq)]
pub struct CalendarReply {
    pub status: u16,
    pub content_type: String,
    pub content_disposition: Option<String>,
    pub body: String,
}

/// A calendar reply as plain values: status, content type, disposition and body.
pub open spec fn calendar_reply_view(r: CalendarReply) -> (u16, Seq<char>, Option<Seq<char>>, Seq<char>) {
    (r.status, r.content_type@, crate::domain::account::text_of(r.content_disposition), r.body@)
}

pub open spec fn plain_reply(status: u16, message: Seq<char>) -> (u16, Seq<char>, Option<Seq<char>>, Seq<char>) {
    (status, "text/plain; charset=utf-8"@, None, message)
}

pub open spec fn msg_calendar_not_found() -> Seq<char> {
    "予定が見つかりません。"@
}

pub open spec fn msg_calendar_failed() -> Seq<char> {
    "カレンダーを作成できませんでした。"@
}

/// The calendar entry of a decided public event.
pub open spec fn calendar_event_of(e: PublicEvent, d: PublicEventDecision, generated_at_utc: String) -> IcalendarEvent {
    IcalendarEvent {
        public_id: e.public_id,
        name: e.name,
        organizer_note: e.organizer_note,
        time_zone: e.time_zone,
        local_date: d.local_date,
        local_time: d.local_time,
        generated_at_utc,
    }
}

/// The attachment name a download is offered under.
pub open spec fn calendar_disposition(public_id: Seq<char>) -> Seq<char> {
    "attachment; filename=\"tsunoru-"@ + public_id + ".ics\""@
}

fn plain(status: u16, message: &str) -> (r: CalendarReply)
    ensures
        calendar_reply_view(r) == plain_reply(status, message@),
{
    CalendarReply {
        status,
        content_type: String::from_str("text/plain; charset=utf-8"),
        content_disposition: None,
        body: String::from_str(message),
    }
}

/// Whether a calendar path names something that can be an event: a UUID in any form the
/// `uuid` crate reads.
pub fn calendar_request_is_valid(public_id: &str) -> (b: bool)
    ensures
        b == uuid_parses(public_id@),
{
    uuid_text_parses(public_id)
}

/// The answer to a calendar path that names no event.
pub fn calendar_not_found() -> (r: CalendarReply)
    ensures
        calendar_reply_view(r) == plain_reply(404, msg_calendar_not_found()),
{
    plain(404, "予定が見つかりません。")
}

/// The answer to a calendar download, from what the lookup of `public_id` found: 404 for no
/// event, 409 for an undecided one, the rendered calendar for a decided one, and 500 where
/// the data are corrupt or cannot form a calendar.
pub fn calendar_reply(
    public_id: &str,
    found: Result<Option<PublicEvent>, PublicEventStorageError>,
    generated_at_utc: String,
) -> (r: CalendarReply)
    ensures
        calendar_reply_view(r) == match found {
            Err(_) => plain_reply(500, msg_calendar_failed()),
            Ok(None) => plain_reply(404, msg_calendar_not_found()),
            Ok(Some(e)) => match e.decision {
                None => plain_reply(409, "このイベントの日程はまだ決まっていません。"@),
                Some(d) => match rendered(calendar_event_of(e, d, generated_at_utc)) {
                    Some(body) => (
                        200u16,
                        "text/calendar; charset=utf-8"@,
                        Some(calendar_disposition(public_id@)),
                        body,
                    ),
                    None => plain_reply(500, msg_calendar_failed()),
                },
            },
        },
{
    let event = match found {
        Err(_) => return plain(500, "カレンダーを作成できませんでした。"),
        Ok(None) => return plain(404, "予定が見つかりません。"),
        Ok(Some(e)) => e,
    };
    let ghost spec_event = event;
    let PublicEvent { public_id: event_id, name, organizer_note, time_zone, candidates: _, decision } =
        event;
    let decision = match decision {
        None => return plain(409, "このイベントの日程はまだ決まっていません。"),
        Some(d) => d,
    };
    let ghost spec_decision = decision;
    let calendar = IcalendarEvent {
        public_id: event_id,
        name,
        organizer_note,
        time_zone,
        local_date: decision.local_date,
        local_time: decision.local_time,
        generated_at_utc,
    };
    assert(calendar == calendar_event_of(spec_event, spec_decision, generated_at_utc));
    match render_icalendar(&calendar) {
        Ok(body) => {
            let disposition = String::from_str("attachment; filename=\"tsunoru-").concat(public_id).concat(
                ".ics\"",
            );
            CalendarReply {
                status: 200,
                content_type: String::from_str("text/calendar; charset=utf-8"),
                content_disposition: Some(disposition),
                body,
            }
        },
        Err(_) => plain(500, "カレンダーを作成できませんでした。"),
    }
}

} // verus!
