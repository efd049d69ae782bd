//! Account registration and login input, and the private history projections.

use vstd::prelude::*;
use vstd::string::*;
use vstd::utf8::encode_utf8;
use crate::text::{
    copy_message, join_present, message_views, present_messages, space_joined,
    ascii_lowercased, char_is_ascii_alphanumeric, lemma_utf8_length_bound, is_ascii_alphanumeric, to_ascii_lowercase, trim,
    trimmed,
};

verus! {

pub const LOGIN_ID_MIN_CHARS: usize = 3;
pub const LOGIN_ID_MAX_CHARS: usize = 32;
pub const PASSWORD_MIN_CHARS: usize = 15;
pub const PASSWORD_MAX_CHARS: usize = 128;
pub const PASSWORD_MAX_OCTETS: usize = 512;

pub open spec fn msg_login_id() -> Seq<char> {
    "ログインIDは3〜32文字の半角英数字から始め、半角英数字と . _ - で入力してください。"@
}

pub open spec fn msg_password() -> Seq<char> {
    "passwordは15〜128文字で入力してください。"@
}

pub open spec fn msg_password_confirmation() -> Seq<char> {
    "password確認が一致しません。"@
}

/// A login identifier after normalisation: 3 to 32 ASCII characters, starting
/// with a letter or digit, continuing with letters, digits, `.`, `_` or `-`.
pub open spec fn is_login_id(s: Seq<char>) -> bool {
    &&& 3 <= s.len() <= 32
    &&& is_ascii_alphanumeric(s[0])
    &&& forall|i: int|
        1 <= i < s.len() ==> #[trigger] is_ascii_alphanumeric(s[i]) || s[i] == '.' || s[i] == '_'
            || s[i] == '-'
}

/// The public identifier as it is stored: trimmed and ASCII-lowercased.
pub open spec fn normalized_login_id(s: Seq<char>) -> Seq<char> {
    ascii_lowercased(trimmed(s))
}

/// A password of 15 to 128 characters whose UTF-8 form fits in 512 octets.
pub open spec fn is_acceptable_password(p: Seq<char>) -> bool {
    15 <= p.len() <= 128 && encode_utf8(p).len() <= 512
}

pub open spec fn login_id_error(login_id: Seq<char>) -> Option<Seq<char>> {
    if is_login_id(login_id) { None } else { Some(msg_login_id()) }
}

pub open spec fn password_error(password: Seq<char>) -> Option<Seq<char>> {
    if is_acceptable_password(password) { None } else { Some(msg_password()) }
}

pub open spec fn text_of(o: Option<String>) -> Option<Seq<char>> {
    match o {
        Some(s) => Some(s@),
        None => None,
    }
}

/// Untrusted account-registration fields crossing the browser/server boundary.
#[derive(Clone, PartialEq, Eq)]
pub struct AccountRegistrationInput {
    pub login_id: String,
    pub password: String,
    pub password_confirmation: String,
}

/// Validated registration data used only while hashing and storing one account.
#[derive(Clone, PartialEq, Eq)]
pub struct PreparedAccountRegistration {
    pub login_id: String,
    pub password: String,
}

/// Untrusted login fields crossing the browser/server boundary.
#[derive(Clone, PartialEq, Eq)]
pub struct AccountLoginInput {
    pub login_id: String,
    pub password: String,
}

/// Validated login data used only during one password verification.
#[derive(Clone, PartialEq, Eq)]
pub struct PreparedAccountLogin {
    pub login_id: String,
    pub password: String,
}

/// Field and request errors shared by registration and login forms.
#[derive(Clone, Debug, PartialEq, Eq)]
pub struct AccountAuthErrors {
    pub login_id: Option<String>,
    pub password: Option<String>,
    pub password_confirmation: Option<String>,
    pub request: Option<String>,
}

impl Default for AccountAuthErrors {
    fn default() -> (e: Self)
        ensures
            e.login_id is None,
            e.password is None,
            e.password_confirmation is None,
            e.request is None,
    {
        AccountAuthErrors { login_id: None, password: None, password_confirmation: None, request: None }
    }
}

/// The present account-form messages, joined by spaces.
pub open spec fn auth_errors_message(e: AccountAuthErrors) -> Seq<char> {
    space_joined(
        present_messages(
            seq![
                text_of(e.login_id),
                text_of(e.password),
                text_of(e.password_confirmation),
                text_of(e.request),
            ],
        ),
    )
}

impl AccountAuthErrors {
    pub open spec fn spec_is_empty(&self) -> bool {
        self.login_id is None && self.password is None && self.password_confirmation is None
            && self.request is None
    }

    pub fn is_empty(&self) -> (b: bool)
        ensures
            b == self.spec_is_empty(),
    {
        self.login_id.is_none() && self.password.is_none() && self.password_confirmation.is_none()
            && self.request.is_none()
    }

    /// The present messages, joined by spaces.
    pub fn message(&self) -> (s: String)
        ensures
            s@ == auth_errors_message(*self),
    {
        let parts = vec![
            copy_message(&self.login_id),
            copy_message(&self.password),
            copy_message(&self.password_confirmation),
            copy_message(&self.request),
        ];
        proof {
            assert(message_views(parts@) =~= seq![
                text_of(self.login_id),
                text_of(self.password),
                text_of(self.password_confirmation),
                text_of(self.request),
            ]);
        }
        join_present(parts)
    }
}

/// Trim the public identifier and lower its ASCII capitals.
pub fn normalize_login_id(value: &str) -> (s: String)
    ensures
        s@ == normalized_login_id(value@),
{
    let t = trim(value);
    to_ascii_lowercase(t.as_str())
}

fn login_id_shape_is_valid(login_id: &str) -> (b: bool)
    ensures
        b == is_login_id(login_id@),
{
    let n = login_id.unicode_len();
    if n < 3 || n > 32 || !char_is_ascii_alphanumeric(login_id.get_char(0)) {
        return false;
    }
    let mut i: usize = 1;
    while i < n
        invariant
            n == login_id@.len(),
            1 <= i <= n,
            forall|k: int|
                1 <= k < i ==> #[trigger] is_ascii_alphanumeric(login_id@[k]) || login_id@[k] == '.'
                    || login_id@[k] == '_' || login_id@[k] == '-',
        decreases n - i,
    {
        let c = login_id.get_char(i);
        if !(char_is_ascii_alphanumeric(c) || c == '.' || c == '_' || c == '-') {
            return false;
        }
        i = i + 1;
    }
    true
}

/// Record a login-identifier error unless `login_id` has the accepted shape.
pub fn validate_login_id(login_id: &str, errors: &mut AccountAuthErrors)
    ensures
        text_of(final(errors).login_id) == (if is_login_id(login_id@) {
            text_of(old(errors).login_id)
        } else {
            Some(msg_login_id())
        }),
        final(errors).password == old(errors).password,
        final(errors).password_confirmation == old(errors).password_confirmation,
        final(errors).request == old(errors).request,
{
    let valid = login_id_shape_is_valid(login_id);
    if !valid {
        errors.login_id = Some(
            String::from_str(
                "ログインIDは3〜32文字の半角英数字から始め、半角英数字と . _ - で入力してください。",
            ),
        );
    }
}

/// Record a password error unless the password has an accepted length.
pub fn validate_password(password: &str, errors: &mut AccountAuthErrors)
    ensures
        text_of(final(errors).password) == (if is_acceptable_password(password@) {
            text_of(old(errors).password)
        } else {
            Some(msg_password())
        }),
        final(errors).login_id == old(errors).login_id,
        final(errors).password_confirmation == old(errors).password_confirmation,
        final(errors).request == old(errors).request,
{
    let char_count = password.unicode_len();
    proof {
        lemma_utf8_length_bound(password@);
    }
    if !(15 <= char_count && char_count <= 128) {
        errors.password = Some(String::from_str("passwordは15〜128文字で入力してください。"));
    }
}

impl AccountRegistrationInput {
    /// Normalise the public identifier while preserving the password exactly.
    pub fn prepare(&self) -> (r: Result<PreparedAccountRegistration, AccountAuthErrors>)
        ensures
            ({
                let login = normalized_login_id(self.login_id@);
                let le = login_id_error(login);
                let pe = password_error(self.password@);
                let ce = if self.password@ == self.password_confirmation@ {
                    None
                } else {
                    Some(msg_password_confirmation())
                };
                match r {
                    Ok(p) => le is None && pe is None && ce is None && p.login_id@ == login
                        && p.password@ == self.password@,
                    Err(e) => !(le is None && pe is None && ce is None) && text_of(e.login_id)
                        == le && text_of(e.password) == pe && text_of(e.password_confirmation)
                        == ce && e.request is None,
                }
            }),
    {
        let login_id = normalize_login_id(self.login_id.as_str());
        let mut errors = AccountAuthErrors::default();
        validate_login_id(login_id.as_str(), &mut errors);
        validate_password(self.password.as_str(), &mut errors);
        if self.password != self.password_confirmation {
            errors.password_confirmation = Some(String::from_str("password確認が一致しません。"));
        }
        if errors.is_empty() {
            Ok(PreparedAccountRegistration { login_id, password: self.password.clone() })
        } else {
            Err(errors)
        }
    }
}

impl AccountLoginInput {
    /// Normalise and bound credentials before password verification.
    pub fn prepare(&self) -> (r: Result<PreparedAccountLogin, AccountAuthErrors>)
        ensures
            ({
                let login = normalized_login_id(self.login_id@);
                let le = login_id_error(login);
                let pe = password_error(self.password@);
                match r {
                    Ok(p) => le is None && pe is None && p.login_id@ == login && p.password@
                        == self.password@,
                    Err(e) => !(le is None && pe is None) && text_of(e.login_id) == le && text_of(
                        e.password,
                    ) == pe && e.password_confirmation is None && e.request is None,
                }
            }),
    {
        let login_id = normalize_login_id(self.login_id.as_str());
        let mut errors = AccountAuthErrors::default();
        validate_login_id(login_id.as_str(), &mut errors);
        validate_password(self.password.as_str(), &mut errors);
        if errors.is_empty() {
            Ok(PreparedAccountLogin { login_id, password: self.password.clone() })
        } else {
            Err(errors)
        }
    }
}

/// Public account identity returned to the authenticated browser.
#[derive(Clone, Debug, PartialEq, Eq)]
pub struct CurrentAccount {
    pub login_id: String,
}

/// A decided start projected into a compact history item.
#[derive(Clone, Debug, PartialEq, Eq)]
pub struct HistoryDecision {
    pub local_date: String,
    pub local_time: String,
}

/// One event linked when the current account created it.
#[derive(Clone, Debug, PartialEq, Eq)]
pub struct OrganizedEventHistoryItem {
    pub public_id: String,
    pub name: String,
    pub time_zone: String,
    pub decision: Option<HistoryDecision>,
    pub response_count: u64,
}

/// One explicitly linked recurring activity and its organizer-owned events.
#[derive(Clone, Debug, PartialEq, Eq)]
pub struct OrganizedEventSeriesHistory {
    pub series_name: String,
    pub events: Vec<OrganizedEventHistoryItem>,
}

/// One event linked when the current account answered it.
#[derive(Clone, Debug, PartialEq, Eq)]
pub struct ParticipatedEventHistoryItem {
    pub public_id: String,
    pub name: String,
    pub time_zone: String,
    pub decision: Option<HistoryDecision>,
}

/// Minimal private history projection for one authenticated account.
#[derive(Clone, Debug, PartialEq, Eq)]
pub struct AccountHistory {
    pub login_id: String,
    pub organized_standalone: Vec<OrganizedEventHistoryItem>,
    pub organized_series: Vec<OrganizedEventSeriesHistory>,
    pub participated: Vec<ParticipatedEventHistoryItem>,
}

/// Authenticated-history loading result without exposing session material.
#[derive(Clone, Debug, PartialEq, Eq)]
pub enum AccountHistoryState {
    Guest,
    Expired,
    Authenticated(AccountHistory),
}

} // verus!
