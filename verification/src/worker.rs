//! The cloud worker's request rules: routing, authorization, rate limits, signed session
//! cookies, identity-token claims and the validation of events and answers it stores.

use vstd::prelude::*;
use base64::Engine;
use hmac::Mac;
use subtle::ConstantTimeEq;
use vstd::string::*;
use vstd::utf8::encode_utf8;
use crate::auth::{sha256, sha256_digest};
use crate::calendar::{zone_offsets, ZoneLookup};
use crate::cloud::{
    cloud_candidates_view, copy_selection, is_cloud_id, keys_distinct, selection_keys_distinct,
    selections_view, valid_id, Answer, Candidate, CreateRequest, ResponseView, Selection,
};
use crate::domain::response::Availability;
use crate::ui::{lemma_text_le_total, lemma_text_le_transitive, text_le, text_less_or_equal};
use crate::text::{
    all_digits, char_is_ascii_alphanumeric, char_is_control, digits_value, find_char,
    first_index, is_ascii_alphanumeric, is_ascii_digit, is_control, lemma_first_index,
    lemma_first_index_bound, parse_digits_u64, push_char, push_decimal, str_all_digits, str_eq,
    trim, trimmed, decimal,
};

verus! {

/// The largest request body, in octets.
pub const MAX_BODY_BYTES: usize = 65536;

/// How long stored events are kept: thirty days.
pub const RETENTION_SECONDS: u64 = 2592000;

/// The length of one rate-limit window.
pub const RATE_WINDOW_SECONDS: u64 = 60;

/// How long signed session cookies last: twelve hours.
pub const LIFETIME_SECONDS: u64 = 43200;

/// An API failure: HTTP status, error code and, for rate limits, the seconds to wait.
#[derive(Clone, Copy, Debug, PartialEq, Eq)]
pub struct ApiError {
    pub status: u16,
    pub code: &'static str,
    pub retry_after: Option<u64>,
}

impl ApiError {
    pub fn new(status: u16, code: &'static str) -> (e: Self)
        ensures
            e.status == status,
            e.code@ == code@,
            e.retry_after is None,
    {
        ApiError { status, code, retry_after: None }
    }

    pub fn invalid() -> (e: Self)
        ensures
            e.status == 400,
            e.code@ == "invalid_request"@,
            e.retry_after is None,
    {
        Self::new(400, "invalid_request")
    }

    pub fn rate_limited(retry_after: u64) -> (e: Self)
        ensures
            e.status == 429,
            e.code@ == "rate_limited"@,
            e.retry_after == Some(retry_after),
    {
        ApiError { status: 429, code: "rate_limited", retry_after: Some(retry_after) }
    }
}

pub open spec fn is_error(r: Result<(), ApiError>, status: u16, code: Seq<char>) -> bool {
    r matches Err(e) && e.status == status && e.code@ == code && e.retry_after is None
}

/// The result is the failure with this status and code.
pub open spec fn fails_with<T>(r: Result<T, ApiError>, status: u16, code: Seq<char>) -> bool {
    r matches Err(e) && e.status == status && e.code@ == code && e.retry_after is None
}

pub open spec fn is_ascii_hex_digit(c: char) -> bool {
    is_ascii_digit(c) || ('a' <= c && c <= 'f') || ('A' <= c && c <= 'F')
}

/// Exactly 64 hexadecimal digits of either case.
pub open spec fn is_hex_capability(s: Seq<char>) -> bool {
    s.len() == 64 && forall|i: int| 0 <= i < s.len() ==> #[trigger] is_ascii_hex_digit(s[i])
}

/// A display name: 1 to 100 characters, none of them a control character.
pub open spec fn is_display_name(s: Seq<char>) -> bool {
    1 <= s.len() <= 100 && forall|i: int| 0 <= i < s.len() ==> !is_control(#[trigger] s[i])
}

pub fn capability_valid(value: &str) -> (b: bool)
    ensures
        b == is_hex_capability(value@),
{
    let n = value.unicode_len();
    if n != 64 {
        return false;
    }
    let mut i: usize = 0;
    while i < n
        invariant
            n == value@.len(),
            i <= n,
            forall|k: int| 0 <= k < i ==> #[trigger] is_ascii_hex_digit(value@[k]),
        decreases n - i,
    {
        let c = value.get_char(i);
        if !(('0' <= c && c <= '9') || ('a' <= c && c <= 'f') || ('A' <= c && c <= 'F')) {
            assert(!is_ascii_hex_digit(value@[i as int]));
            return false;
        }
        i = i + 1;
    }
    true
}

pub fn identifier_valid(value: &str) -> (b: bool)
    ensures
        b == is_cloud_id(value@),
{
    valid_id(value)
}

pub fn name_valid(value: &str) -> (b: bool)
    ensures
        b == is_display_name(value@),
{
    let n = value.unicode_len();
    if n == 0 || n > 100 {
        return false;
    }
    let mut i: usize = 0;
    while i < n
        invariant
            n == value@.len(),
            i <= n,
            forall|k: int| 0 <= k < i ==> !is_control(#[trigger] value@[k]),
        decreases n - i,
    {
        if char_is_control(value.get_char(i)) {
            return false;
        }
        i = i + 1;
    }
    true
}

/// Requests allowed per source and window for each kind of operation.
pub open spec fn rate_limit_of(operation: Seq<char>) -> u64 {
    if operation == "create"@ {
        60
    } else if operation == "response"@ {
        120
    } else if operation == "read"@ {
        240
    } else {
        60
    }
}

pub fn rate_limit_for(operation: &str) -> (n: u64)
    ensures
        n == rate_limit_of(operation@),
{
    if str_eq(operation, "create") {
        60
    } else if str_eq(operation, "response") {
        120
    } else if str_eq(operation, "read") {
        240
    } else {
        60
    }
}

/// The start of the rate-limit window that `now` falls in.
pub fn rate_window_start(now: u64) -> (s: u64)
    ensures
        s == now - now % RATE_WINDOW_SECONDS,
        s % RATE_WINDOW_SECONDS == 0,
        s <= now < s + RATE_WINDOW_SECONDS,
{
    now - (now % RATE_WINDOW_SECONDS)
}

/// The verdict on a request, given the number of requests counted in its window (`None`
/// when the count could not be read): over the limit, it waits for the window to end.
pub fn rate_limit_verdict(now: u64, count: Option<u64>, operation: &str) -> (r: Result<
    (),
    ApiError,
>)
    ensures
        ({
            let limit = rate_limit_of(operation@);
            let over = match count {
                Some(c) => c > limit,
                None => true,
            };
            if over {
                r matches Err(e) && e.status == 429 && e.code@ == "rate_limited"@ && e.retry_after
                    == Some((RATE_WINDOW_SECONDS - now % RATE_WINDOW_SECONDS) as u64)
            } else {
                r is Ok
            }
        }),
{
    let limit = rate_limit_for(operation);
    let over = match count {
        Some(c) => c > limit,
        None => true,
    };
    if over {
        return Err(ApiError::rate_limited(RATE_WINDOW_SECONDS - (now % RATE_WINDOW_SECONDS)));
    }
    Ok(())
}

/// The source a rate limit counts: the digest of the connecting address, or of `unknown`
/// when the platform did not name one.
pub fn rate_limit_source(connecting_ip: Option<&str>) -> (s: String)
    ensures
        s@ == hex_text(
            sha256(
                encode_utf8(
                    "tsunoru-rate-limit:v1\n"@ + match connecting_ip {
                        Some(ip) => ip@,
                        None => "unknown"@,
                    },
                ),
            ),
        ),
{
    let source = match connecting_ip {
        Some(ip) => ip,
        None => "unknown",
    };
    let keyed = String::from_str("tsunoru-rate-limit:v1\n").concat(source);
    hash(keyed.as_str())
}

/// The media type of a `Content-Type` value: the text before its first `;`, trimmed.
pub open spec fn media_type(content_type: Seq<char>) -> Seq<char> {
    trimmed(content_type.take(first_index(content_type, ';')))
}

/// The request declares a JSON body: its media type is `application/json` in any case.
pub open spec fn declares_json(content_type: Option<Seq<char>>) -> bool {
    crate::text::ascii_lowercased(
        media_type(
            match content_type {
                Some(t) => t,
                None => Seq::empty(),
            },
        ),
    ) == "application/json"@
}

/// The request declares a length over the body limit.
pub open spec fn declares_oversized(content_length: Option<Seq<char>>) -> bool {
    match content_length {
        Some(l) => match u64_text_value(l) {
            Some(n) => n > MAX_BODY_BYTES,
            None => false,
        },
        None => false,
    }
}

/// Check a request's headers before its body is read: a JSON media type is required (415),
/// and a declared length over the limit is refused (413).
pub fn body_headers_check(content_type: Option<&str>, content_length: Option<&str>) -> (r: Result<
    (),
    ApiError,
>)
    ensures
        if !declares_json(opt_text(content_type)) {
            is_error(r, 415, "unsupported_media_type"@)
        } else if declares_oversized(opt_text(content_length)) {
            is_error(r, 413, "payload_too_large"@)
        } else {
            r is Ok
        },
{
    let text = match content_type {
        Some(t) => t,
        None => "",
    };
    let n = text.unicode_len();
    let end = find_char(text, ';', 0);
    proof {
        lemma_first_index(text@, ';', end as int);
    }
    let head = text.substring_char(0, end);
    assert(head@ =~= text@.take(end as int));
    let media = trim(head);
    let lowered = crate::text::to_ascii_lowercase(media.as_str());
    proof {
        reveal_strlit("");
        if content_type is None {
            assert(text@ =~= Seq::<char>::empty());
        }
        assert(media_type(text@) == media@);
        assert(declares_json(opt_text(content_type)) == (lowered@ == "application/json"@));
    }
    if !str_eq(lowered.as_str(), "application/json") {
        return Err(ApiError::new(415, "unsupported_media_type"));
    }
    let too_large = match content_length {
        Some(l) => match parse_u64_text(l) {
            Some(v) => v > MAX_BODY_BYTES as u64,
            None => false,
        },
        None => false,
    };
    if too_large {
        return Err(ApiError::new(413, "payload_too_large"));
    }
    Ok(())
}

/// Take a chunk of `chunk_len` octets after `received` octets of body: the running total,
/// or 413 when the chunk would pass the limit.
pub fn accept_body_chunk(received: usize, chunk_len: usize) -> (r: Result<usize, ApiError>)
    requires
        received <= MAX_BODY_BYTES,
    ensures
        if chunk_len > MAX_BODY_BYTES - received {
            fails_with(r, 413, "payload_too_large"@)
        } else {
            r == Ok::<usize, ApiError>((received + chunk_len) as usize)
        },
{
    if chunk_len > MAX_BODY_BYTES - received {
        return Err(ApiError::new(413, "payload_too_large"));
    }
    Ok(received + chunk_len)
}

/// A capability read from a request header: 64 hexadecimal digits, or 403.
pub fn header_capability(value: Option<&str>) -> (r: Result<String, ApiError>)
    ensures
        match value {
            Some(v) => if is_hex_capability(v@) {
                r matches Ok(c) && c@ == v@
            } else {
                fails_with(r, 403, "forbidden"@)
            },
            None => fails_with(r, 403, "forbidden"@),
        },
{
    match value {
        Some(v) => if capability_valid(v) {
            Ok(String::from_str(v))
        } else {
            Err(ApiError::new(403, "forbidden"))
        },
        None => Err(ApiError::new(403, "forbidden")),
    }
}

/// The status of an event-creation write, from whether the event stored under its
/// identifier has this organizer and payload and whether this write created it: 201 for a
/// new event, 200 for a replay, 409 for an identifier taken by another event.
pub fn creation_write_status(saved: bool, created: bool) -> (r: Result<u16, ApiError>)
    ensures
        if !saved {
            fails_with(r, 409, "event_conflict"@)
        } else {
            r == Ok::<u16, ApiError>(if created { 201u16 } else { 200u16 })
        },
{
    if !saved {
        return Err(ApiError::new(409, "event_conflict"));
    }
    Ok(if created { 201 } else { 200 })
}

/// The status of a response write: 404 when the event is missing, 400 when no response was
/// stored because the choices do not match the candidates, 409 when the capability holds
/// another event's or another payload's response, and otherwise 201 for a new response and
/// 200 for a replay. `stored` is the event and payload digest of the response under the
/// capability, where there is one.
pub fn response_write_status(
    event_found: bool,
    stored: Option<(&str, &str)>,
    event_id: &str,
    payload_hash: &str,
    created: bool,
) -> (r: Result<u16, ApiError>)
    ensures
        if !event_found {
            fails_with(r, 404, "event_not_found"@)
        } else {
            match stored {
                None => fails_with(r, 400, "candidate_set_mismatch"@),
                Some((e, p)) => if e@ != event_id@ || p@ != payload_hash@ {
                    fails_with(r, 409, "response_conflict"@)
                } else {
                    r == Ok::<u16, ApiError>(if created { 201u16 } else { 200u16 })
                },
            }
        },
{
    if !event_found {
        return Err(ApiError::new(404, "event_not_found"));
    }
    match stored {
        None => Err(ApiError::new(400, "candidate_set_mismatch")),
        Some((e, p)) => if !str_eq(e, event_id) || !str_eq(p, payload_hash) {
            Err(ApiError::new(409, "response_conflict"))
        } else {
            Ok(if created { 201 } else { 200 })
        },
    }
}

/// The cut-offs of the periodic cleanup at `now`: events created before the first are
/// deleted, rate-limit windows started before the second.
pub fn cleanup_cutoffs(now: u64) -> (r: (u64, u64))
    ensures
        r.0 == (if now >= RETENTION_SECONDS {
            now - RETENTION_SECONDS
        } else {
            0
        }),
        r.1 == (if now >= 86400 {
            now - 86400
        } else {
            0
        }),
{
    (now.saturating_sub(RETENTION_SECONDS), now.saturating_sub(86400))
}

/// An API path without `/api/`, split at its first `/` into resource and remainder.
pub open spec fn api_route(path: Seq<char>) -> Option<(Seq<char>, Seq<char>)> {
    if "/api/"@.is_prefix_of(path) {
        let rest = path.skip(5);
        let i = first_index(rest, '/');
        if i < rest.len() {
            Some((rest.take(i), rest.skip(i + 1)))
        } else {
            Some((rest, Seq::empty()))
        }
    } else {
        None
    }
}

fn starts_with(s: &str, prefix: &str) -> (r: bool)
    ensures
        r == prefix@.is_prefix_of(s@),
{
    let n = prefix.unicode_len();
    if n > s.unicode_len() {
        return false;
    }
    let mut i: usize = 0;
    while i < n
        invariant
            n == prefix@.len(),
            n <= s@.len(),
            i <= n,
            forall|k: int| 0 <= k < i ==> prefix@[k] == s@[k],
        decreases n - i,
    {
        if prefix.get_char(i) != s.get_char(i) {
            return false;
        }
        i = i + 1;
    }
    true
}

/// Classifies the API path before authorization and dispatch.
pub fn route<'a>(path: &'a str) -> (r: Option<(&'a str, &'a str)>)
    ensures
        match r {
            Some((a, b)) => api_route(path@) == Some((a@, b@)),
            None => api_route(path@) is None,
        },
{
    proof {
        reveal_strlit("/api/");
    }
    if !starts_with(path, "/api/") {
        return None;
    }
    let n = path.unicode_len();
    let rest = path.substring_char(5, n);
    let m = rest.unicode_len();
    let i = find_char(rest, '/', 0);
    proof {
        lemma_first_index(rest@, '/', i as int);
        assert(rest@ =~= path@.skip(5));
    }
    if i < m {
        let resource = rest.substring_char(0, i);
        let remainder = rest.substring_char(i + 1, m);
        assert(resource@ =~= rest@.take(i as int));
        assert(remainder@ =~= rest@.skip(i + 1));
        Some((resource, remainder))
    } else {
        let empty = rest.substring_char(m, m);
        assert(empty@ =~= Seq::<char>::empty());
        Some((rest, empty))
    }
}

/// `s` split at every `c`, as `str::split` yields it.
pub open spec fn split_all(s: Seq<char>, c: char) -> Seq<Seq<char>>
    decreases s.len(),
{
    let i = first_index(s, c);
    if i >= s.len() {
        seq![s]
    } else {
        proof {
            lemma_first_index_bound(s, c);
        }
        seq![s.take(i)] + split_all(s.skip(i + 1), c)
    }
}

/// The pieces of `s` between the characters `c`.
pub fn split_text(s: &str, c: char) -> (r: Vec<String>)
    ensures
        r@.map_values(|p: String| p@) == split_all(s@, c),
{
    let n = s.unicode_len();
    let mut out: Vec<String> = Vec::new();
    let mut start: usize = 0;
    assert(s@.skip(0) =~= s@);
    loop
        invariant
            n == s@.len(),
            start <= n,
            split_all(s@, c) == out@.map_values(|p: String| p@) + split_all(
                s@.skip(start as int),
                c,
            ),
        decreases n - start,
    {
        let ghost rest = s@.skip(start as int);
        let ghost before = out@.map_values(|p: String| p@);
        let end = find_char(s, c, start);
        proof {
            lemma_first_index(rest, c, end - start);
            assert(rest.take(end - start) =~= s@.subrange(start as int, end as int));
        }
        let piece = String::from_str(s.substring_char(start, end));
        out.push(piece);
        assert(out@.map_values(|p: String| p@) =~= before.push(
            s@.subrange(start as int, end as int),
        ));
        if end >= n {
            assert(split_all(rest, c) == seq![rest]);
            assert(rest =~= s@.subrange(start as int, end as int));
            assert(before + seq![rest] =~= before.push(rest));
            assert(split_all(s@, c) == out@.map_values(|p: String| p@));
            return out;
        }
        proof {
            assert(rest.skip(end - start + 1) =~= s@.skip(end + 1));
            assert(before + (seq![s@.subrange(start as int, end as int)] + split_all(
                s@.skip(end + 1),
                c,
            )) =~= before.push(s@.subrange(start as int, end as int)) + split_all(
                s@.skip(end + 1),
                c,
            ));
        }
        start = end + 1;
    }
}

/// An HTTP request method.
#[derive(Clone, Copy, Debug, PartialEq, Eq, Structural)]
pub enum HttpMethod {
    Get,
    Head,
    Post,
    Put,
    Patch,
    Delete,
    Options,
    Other,
}

/// The session a request must present before it is handled.
#[derive(Clone, Copy, Debug, PartialEq, Eq, Structural)]
pub enum Authorization {
    /// None beyond what the handler itself checks.
    Open,
    /// The staging trial session.
    Staging,
    /// The organizer's signed-in session.
    Organizer,
}

/// The rate-limited kind of an API operation.
#[derive(Clone, Copy, Debug, PartialEq, Eq, Structural)]
pub enum Operation {
    Create,
    Response,
    Read,
}

impl Operation {
    pub fn name(self) -> (s: &'static str)
        ensures
            s@ == match self {
                Operation::Create => "create"@,
                Operation::Response => "response"@,
                Operation::Read => "read"@,
            },
    {
        match self {
            Operation::Create => "create",
            Operation::Response => "response",
            Operation::Read => "read",
        }
    }
}

/// The handler of an API request.
#[derive(Clone, Debug, PartialEq, Eq)]
pub enum Endpoint {
    CreateEvent,
    GetEvent(String),
    SubmitResponse(String),
    GetResponses(String),
    DeleteEvent(String),
    RevokeResponse(String, String),
    NotFound,
}

/// What the worker does with a request.
#[derive(Clone, Debug, PartialEq, Eq)]
pub enum RouteDecision {
    Health,
    Asset,
    NotFound,
    StagingSession,
    OrganizerSession,
    OrganizerConfig,
    Api { authorization: Authorization, operation: Option<Operation>, endpoint: Endpoint },
}

pub open spec fn segments_are(segs: Seq<Seq<char>>, expected: Seq<Seq<char>>) -> bool {
    segs == expected
}

/// `/api/events`.
pub open spec fn is_events(segs: Seq<Seq<char>>) -> bool {
    segs == seq![Seq::<char>::empty(), "api"@, "events"@]
}

/// `/api/events/{id}`.
pub open spec fn is_event(segs: Seq<Seq<char>>) -> bool {
    segs.len() == 4 && segs[0].len() == 0 && segs[1] == "api"@ && segs[2] == "events"@
}

/// `/api/events/{id}/responses`.
pub open spec fn is_event_responses(segs: Seq<Seq<char>>) -> bool {
    segs.len() == 5 && segs[0].len() == 0 && segs[1] == "api"@ && segs[2] == "events"@ && segs[4]
        == "responses"@
}

/// `/api/events/{id}/responses/{response}/capability`.
pub open spec fn is_response_capability(segs: Seq<Seq<char>>) -> bool {
    segs.len() == 7 && segs[0].len() == 0 && segs[1] == "api"@ && segs[2] == "events"@ && segs[4]
        == "responses"@ && segs[6] == "capability"@
}

/// The requests that only the organizer may make.
pub open spec fn is_organizer_mutation(method: HttpMethod, segs: Seq<Seq<char>>) -> bool {
    ||| method == HttpMethod::Post && is_events(segs)
    ||| method == HttpMethod::Get && is_event_responses(segs)
    ||| method == HttpMethod::Delete && is_event(segs)
    ||| method == HttpMethod::Delete && is_response_capability(segs)
}

pub open spec fn authorization_for(method: HttpMethod, segs: Seq<Seq<char>>, google_enabled: bool) -> Authorization {
    if is_organizer_mutation(method, segs) {
        if google_enabled {
            Authorization::Organizer
        } else {
            Authorization::Staging
        }
    } else if !google_enabled {
        Authorization::Staging
    } else {
        Authorization::Open
    }
}

pub open spec fn operation_for(method: HttpMethod, segs: Seq<Seq<char>>) -> Option<Operation> {
    if method == HttpMethod::Post && is_events(segs) {
        Some(Operation::Create)
    } else if method == HttpMethod::Post && is_event_responses(segs) {
        Some(Operation::Response)
    } else if method == HttpMethod::Get && (is_event(segs) || is_event_responses(segs)) {
        Some(Operation::Read)
    } else {
        None
    }
}

pub open spec fn endpoint_view(e: Endpoint) -> (int, Seq<char>, Seq<char>) {
    match e {
        Endpoint::CreateEvent => (0, Seq::empty(), Seq::empty()),
        Endpoint::GetEvent(id) => (1, id@, Seq::empty()),
        Endpoint::SubmitResponse(id) => (2, id@, Seq::empty()),
        Endpoint::GetResponses(id) => (3, id@, Seq::empty()),
        Endpoint::DeleteEvent(id) => (4, id@, Seq::empty()),
        Endpoint::RevokeResponse(a, b) => (5, a@, b@),
        Endpoint::NotFound => (6, Seq::empty(), Seq::empty()),
    }
}

pub open spec fn endpoint_for(method: HttpMethod, segs: Seq<Seq<char>>) -> (int, Seq<char>, Seq<char>) {
    if method == HttpMethod::Post && is_events(segs) {
        (0, Seq::empty(), Seq::empty())
    } else if method == HttpMethod::Get && is_event(segs) && is_cloud_id(segs[3]) {
        (1, segs[3], Seq::empty())
    } else if method == HttpMethod::Post && is_event_responses(segs) && is_cloud_id(segs[3]) {
        (2, segs[3], Seq::empty())
    } else if method == HttpMethod::Get && is_event_responses(segs) && is_cloud_id(segs[3]) {
        (3, segs[3], Seq::empty())
    } else if method == HttpMethod::Delete && is_event(segs) && is_cloud_id(segs[3]) {
        (4, segs[3], Seq::empty())
    } else if method == HttpMethod::Delete && is_response_capability(segs) && is_cloud_id(segs[3])
        && is_cloud_id(segs[5]) {
        (5, segs[3], segs[5])
    } else {
        (6, Seq::empty(), Seq::empty())
    }
}

/// The route of a request, in the order the worker checks: health, static assets, the two
/// session endpoints and the organizer configuration, then the event API.
pub open spec fn route_decision_for(
    method: HttpMethod,
    path: Seq<char>,
    google_enabled: bool,
    d: RouteDecision,
) -> bool {
    if path == "/health"@ && method == HttpMethod::Get {
        d == RouteDecision::Health
    } else if !"/api/"@.is_prefix_of(path) {
        if method == HttpMethod::Get || method == HttpMethod::Head {
            d == RouteDecision::Asset
        } else {
            d == RouteDecision::NotFound
        }
    } else if path == "/api/staging/session"@ {
        d == RouteDecision::StagingSession
    } else if path == "/api/organizer/session"@ {
        d == RouteDecision::OrganizerSession
    } else if path == "/api/organizer/config"@ && method == HttpMethod::Get {
        d == RouteDecision::OrganizerConfig
    } else {
        let segs = split_all(path, '/');
        d matches RouteDecision::Api { authorization, operation, endpoint } && authorization
            == authorization_for(method, segs, google_enabled) && operation == operation_for(
            method,
            segs,
        ) && endpoint_view(endpoint) == endpoint_for(method, segs)
    }
}

fn segs_view(v: &Vec<String>) -> (r: Ghost<Seq<Seq<char>>>)
    ensures
        r@ == v@.map_values(|p: String| p@),
{
    Ghost(v@.map_values(|p: String| p@))
}

/// Decide what the worker does with a request.
pub fn route_request(method: HttpMethod, path: &str, google_enabled: bool) -> (d: RouteDecision)
    ensures
        route_decision_for(method, path@, google_enabled, d),
{
    if str_eq(path, "/health") && method == HttpMethod::Get {
        return RouteDecision::Health;
    }
    if !starts_with(path, "/api/") {
        if method == HttpMethod::Get || method == HttpMethod::Head {
            return RouteDecision::Asset;
        }
        return RouteDecision::NotFound;
    }
    if str_eq(path, "/api/staging/session") {
        return RouteDecision::StagingSession;
    }
    if str_eq(path, "/api/organizer/session") {
        return RouteDecision::OrganizerSession;
    }
    if str_eq(path, "/api/organizer/config") && method == HttpMethod::Get {
        return RouteDecision::OrganizerConfig;
    }
    let parts = split_text(path, '/');
    let ghost segs = parts@.map_values(|p: String| p@);
    let n = parts.len();
    let head = n >= 3 && parts[0].as_str().unicode_len() == 0 && str_eq(parts[1].as_str(), "api")
        && str_eq(parts[2].as_str(), "events");
    let events = head && n == 3;
    let event = head && n == 4;
    let responses = head && n == 5 && str_eq(parts[4].as_str(), "responses");
    let capability = head && n == 7 && str_eq(parts[4].as_str(), "responses") && str_eq(
        parts[6].as_str(),
        "capability",
    );
    proof {
        if n >= 3 {
            assert(segs[0] == parts@[0]@ && segs[1] == parts@[1]@ && segs[2] == parts@[2]@);
        }
        if n >= 5 {
            assert(segs[4] == parts@[4]@);
        }
        if n >= 7 {
            assert(segs[6] == parts@[6]@);
        }
        if events {
            assert(segs[0] =~= Seq::<char>::empty());
            assert(segs =~= seq![Seq::<char>::empty(), "api"@, "events"@]);
        }
        if is_events(segs) {
            let lit = seq![Seq::<char>::empty(), "api"@, "events"@];
            assert(lit.len() == 3 && lit[0] == Seq::<char>::empty() && lit[1] == "api"@ && lit[2]
                == "events"@);
            assert(n == 3);
            assert(parts@[0]@.len() == 0);
            assert(parts@[1]@ == "api"@);
            assert(parts@[2]@ == "events"@);
        }
        assert(events == is_events(segs));
        assert(event == is_event(segs));
        assert(responses == is_event_responses(segs));
        assert(capability == is_response_capability(segs));
    }
    let organizer_mutation = (method == HttpMethod::Post && events) || (method == HttpMethod::Get
        && responses) || (method == HttpMethod::Delete && event) || (method == HttpMethod::Delete
        && capability);
    let authorization = if organizer_mutation {
        if google_enabled {
            Authorization::Organizer
        } else {
            Authorization::Staging
        }
    } else if !google_enabled {
        Authorization::Staging
    } else {
        Authorization::Open
    };
    let operation = if method == HttpMethod::Post && events {
        Some(Operation::Create)
    } else if method == HttpMethod::Post && responses {
        Some(Operation::Response)
    } else if method == HttpMethod::Get && (event || responses) {
        Some(Operation::Read)
    } else {
        None
    };
    let endpoint = if method == HttpMethod::Post && events {
        Endpoint::CreateEvent
    } else if method == HttpMethod::Get && event && valid_id(parts[3].as_str()) {
        Endpoint::GetEvent(parts[3].clone())
    } else if method == HttpMethod::Post && responses && valid_id(parts[3].as_str()) {
        Endpoint::SubmitResponse(parts[3].clone())
    } else if method == HttpMethod::Get && responses && valid_id(parts[3].as_str()) {
        Endpoint::GetResponses(parts[3].clone())
    } else if method == HttpMethod::Delete && event && valid_id(parts[3].as_str()) {
        Endpoint::DeleteEvent(parts[3].clone())
    } else if method == HttpMethod::Delete && capability && valid_id(parts[3].as_str()) && valid_id(
        parts[5].as_str(),
    ) {
        Endpoint::RevokeResponse(parts[3].clone(), parts[5].clone())
    } else {
        Endpoint::NotFound
    };
    proof {
        if n >= 4 {
            assert(segs[3] == parts@[3]@);
        }
        if n >= 6 {
            assert(segs[5] == parts@[5]@);
        }
    }
    RouteDecision::Api { authorization, operation, endpoint }
}

/// The headers a response gets besides the fixed security headers: `no-store` caching
/// for API and health replies and every error, and a bearer challenge on 401.
pub fn response_cache_policy(path: &str, status: u16) -> (r: (bool, bool))
    ensures
        r.0 == ("/api/"@.is_prefix_of(path@) || path@ == "/health"@ || status >= 400),
        r.1 == (status == 401),
{
    let private_response = starts_with(path, "/api/") || str_eq(path, "/health");
    (private_response || status >= 400, status == 401)
}

// ---------------------------------------------------------------------------
// Digests, MACs and signed session cookies
// ---------------------------------------------------------------------------

/// The staging trial session's cookie.
pub const STAGING_COOKIE: &'static str = "__Host-tsunoru_staging";

/// The organizer session's cookie.
pub const ORGANIZER_COOKIE: &'static str = "__Host-tsunoru_organizer";

/// The lowercase hexadecimal digit of `n` (0 to 15).
pub open spec fn hex_digit(n: int) -> char {
    if n < 10 {
        ((48 + n) as u32) as char
    } else {
        ((87 + n) as u32) as char
    }
}

/// Each octet as two lowercase hexadecimal digits.
pub open spec fn hex_text(b: Seq<u8>) -> Seq<char>
    decreases b.len(),
{
    if b.len() == 0 {
        Seq::empty()
    } else {
        hex_text(b.drop_last()) + seq![hex_digit((b.last() / 16) as int), hex_digit((b.last() % 16) as int)]
    }
}

fn hex_char(n: u8) -> (c: char)
    requires
        n < 16,
    ensures
        c == hex_digit(n as int),
{
    if n < 10 {
        (48 + n) as char
    } else {
        (87 + n) as char
    }
}

/// The octets in lowercase hexadecimal.
pub fn hex_lower(bytes: &[u8]) -> (s: String)
    ensures
        s@ == hex_text(bytes@),
{
    let mut out = String::new();
    let mut i: usize = 0;
    while i < bytes.len()
        invariant
            i <= bytes@.len(),
            out@ == hex_text(bytes@.take(i as int)),
        decreases bytes.len() - i,
    {
        let b = bytes[i];
        assert(bytes@.take(i + 1).drop_last() =~= bytes@.take(i as int));
        push_char(&mut out, hex_char(b / 16));
        push_char(&mut out, hex_char(b % 16));
        assert(out@ =~= hex_text(bytes@.take(i + 1)));
        i = i + 1;
    }
    assert(bytes@.take(bytes@.len() as int) =~= bytes@);
    out
}

/// The stored form of a secret: its SHA-256 digest in lowercase hexadecimal.
pub fn hash(value: &str) -> (s: String)
    ensures
        s@ == hex_text(sha256(encode_utf8(value@))),
{
    let d = sha256_digest(value.as_bytes());
    hex_lower(&d)
}

/// The HMAC-SHA-256 tag of `message` under `key`.
pub uninterp spec fn hmac_sha256(key: Seq<u8>, message: Seq<u8>) -> Seq<u8>;

/// `Hmac::<Sha256>::new_from_slice(key)`, updated with `message` and finalised. The
/// constructor's signature allows a key-length error, but HMAC takes keys of every length
/// (short ones are padded, long ones hashed first), so a tag always comes back.
#[verifier::external_body]
fn hmac_sha256_tag(key: &[u8], message: &[u8]) -> (r: Option<[u8; 32]>)
    ensures
        r is Some,
        r matches Some(t) ==> t@ == hmac_sha256(key@, message@),
{
    let mut mac = hmac::Hmac::<sha2::Sha256>::new_from_slice(key).ok()?;
    mac.update(message);
    Some(mac.finalize().into_bytes().into())
}

/// `subtle::ConstantTimeEq::ct_eq` on two octet slices: true exactly when they have the
/// same length and the same octets.
#[verifier::external_body]
fn constant_time_equal(a: &[u8], b: &[u8]) -> (r: bool)
    ensures
        r == (a@ == b@),
{
    bool::from(a.ct_eq(b))
}

/// The value `u64::from_str` reads from `s`: an optional `+`, then at least one digit,
/// at most `u64::MAX`.
pub open spec fn u64_text_value(s: Seq<char>) -> Option<nat> {
    let body = if s.len() > 0 && s[0] == '+' {
        s.drop_first()
    } else {
        s
    };
    if body.len() > 0 && all_digits(body) && digits_value(body) <= u64::MAX {
        Some(digits_value(body))
    } else {
        None
    }
}

/// `u64::from_str`.
pub fn parse_u64_text(s: &str) -> (r: Option<u64>)
    ensures
        match r {
            Some(v) => u64_text_value(s@) == Some(v as nat),
            None => u64_text_value(s@) is None,
        },
{
    let n = s.unicode_len();
    let start: usize = if n > 0 && s.get_char(0) == '+' {
        1
    } else {
        0
    };
    if start >= n {
        return None;
    }
    let body = s.substring_char(start, n);
    proof {
        if start == 1 {
            assert(body@ =~= s@.drop_first());
        } else {
            assert(body@ =~= s@);
        }
    }
    if !str_all_digits(body) {
        return None;
    }
    parse_digits_u64(body)
}

/// The value of a `name=value` cookie pair, after trimming, when its name is `name`.
pub open spec fn pair_value(pair: Seq<char>, name: Seq<char>) -> Option<Seq<char>> {
    let p = trimmed(pair);
    let i = first_index(p, '=');
    if i < p.len() && p.take(i) == name {
        Some(p.skip(i + 1))
    } else {
        None
    }
}

/// The values of every cookie pair named `name`, in order.
pub open spec fn cookie_values(pairs: Seq<Seq<char>>, name: Seq<char>) -> Seq<Seq<char>>
    decreases pairs.len(),
{
    if pairs.len() == 0 {
        Seq::empty()
    } else {
        let rest = cookie_values(pairs.drop_last(), name);
        match pair_value(pairs.last(), name) {
            Some(v) => rest.push(v),
            None => rest,
        }
    }
}

fn pair_value_of(pair: &str, name: &str) -> (r: Option<String>)
    ensures
        match r {
            Some(v) => pair_value(pair@, name@) == Some(v@),
            None => pair_value(pair@, name@) is None,
        },
{
    let p = trim(pair);
    let m = p.as_str().unicode_len();
    let i = find_char(p.as_str(), '=', 0);
    proof {
        lemma_first_index(p@, '=', i as int);
    }
    if i < m && str_eq(p.as_str().substring_char(0, i), name) {
        let v = String::from_str(p.as_str().substring_char(i + 1, m));
        assert(p@.subrange(0, i as int) =~= p@.take(i as int));
        assert(v@ =~= p@.skip(i + 1));
        Some(v)
    } else {
        proof {
            if i < m {
                assert(p@.subrange(0, i as int) =~= p@.take(i as int));
            }
        }
        None
    }
}

/// The values of the cookies named `name` in a `Cookie` header.
pub fn cookie_values_in(header: &str, name: &str) -> (r: Vec<String>)
    ensures
        r@.map_values(|v: String| v@) == cookie_values(split_all(header@, ';'), name@),
{
    let pairs = split_text(header, ';');
    let ghost pv = pairs@.map_values(|p: String| p@);
    let mut out: Vec<String> = Vec::new();
    let mut i: usize = 0;
    assert(pv.take(0) =~= Seq::<Seq<char>>::empty());
    while i < pairs.len()
        invariant
            i <= pairs@.len(),
            pv == pairs@.map_values(|p: String| p@),
            pv == split_all(header@, ';'),
            out@.map_values(|v: String| v@) == cookie_values(pv.take(i as int), name@),
        decreases pairs.len() - i,
    {
        let ghost before = out@.map_values(|v: String| v@);
        assert(pv.take(i + 1).drop_last() =~= pv.take(i as int));
        assert(pv.take(i + 1).last() == pairs@[i as int]@);
        match pair_value_of(pairs[i].as_str(), name) {
            Some(v) => {
                out.push(v);
                assert(out@.map_values(|v: String| v@) =~= before.push(
                    out@[out@.len() - 1]@,
                ));
            },
            None => {},
        }
        i = i + 1;
    }
    assert(pv.take(pairs@.len() as int) =~= pv);
    out
}

/// The value of a hexadecimal digit of either case.
pub open spec fn hex_value(c: char) -> int {
    if is_ascii_digit(c) {
        c as int - 48
    } else if 'a' <= c && c <= 'f' {
        c as int - 87
    } else {
        c as int - 55
    }
}

/// Hexadecimal digits read two at a time as octets.
pub open spec fn hex_decoded(s: Seq<char>) -> Seq<u8> {
    Seq::new(s.len() / 2, |i: int| (hex_value(s[2 * i]) * 16 + hex_value(s[2 * i + 1])) as u8)
}

fn hex_char_value(c: char) -> (v: u8)
    requires
        is_ascii_hex_digit(c),
    ensures
        v == hex_value(c),
        v < 16,
{
    if '0' <= c && c <= '9' {
        (c as u32 - 48) as u8
    } else if 'a' <= c && c <= 'f' {
        (c as u32 - 87) as u8
    } else {
        (c as u32 - 55) as u8
    }
}

/// Decode 64 hexadecimal digits into 32 octets.
fn decode_hex_32(s: &str) -> (r: Vec<u8>)
    requires
        is_hex_capability(s@),
    ensures
        r@ == hex_decoded(s@),
{
    let mut out: Vec<u8> = Vec::new();
    let mut i: usize = 0;
    while i < 32
        invariant
            is_hex_capability(s@),
            i <= 32,
            out@.len() == i,
            forall|k: int| 0 <= k < i ==> #[trigger] out@[k] == hex_decoded(s@)[k],
        decreases 32 - i,
    {
        let high = hex_char_value(s.get_char(2 * i));
        let low = hex_char_value(s.get_char(2 * i + 1));
        out.push(high * 16 + low);
        i = i + 1;
    }
    assert(out@ =~= hex_decoded(s@));
    out
}

/// The message that a staging cookie expiring at `expires` signs.
pub open spec fn staging_message(origin: Seq<char>, expires: nat) -> Seq<char> {
    "tsunoru-staging-session:v1\n"@ + origin + "\n"@ + decimal(expires)
}

/// The expiry and signature of the single staging cookie in `header`, when it has the
/// form `v1.{expiry}.{signature}`, is still fresh at `now`, and its signature is 64
/// hexadecimal digits.
pub open spec fn staging_cookie_candidate(header: Option<Seq<char>>, now: int) -> Option<
    (nat, Seq<char>),
> {
    match header {
        None => None,
        Some(h) => {
            let values = cookie_values(split_all(h, ';'), STAGING_COOKIE@);
            if values.len() != 1 {
                None
            } else {
                let fields = split_all(values[0], '.');
                if fields.len() == 3 && fields[0] == "v1"@ {
                    match u64_text_value(fields[1]) {
                        Some(expires) => if now < expires <= now + LIFETIME_SECONDS
                            && is_hex_capability(fields[2]) {
                            Some((expires, fields[2]))
                        } else {
                            None
                        },
                        None => None,
                    }
                } else {
                    None
                }
            }
        },
    }
}

pub open spec fn opt_text(o: Option<&str>) -> Option<Seq<char>> {
    match o {
        Some(s) => Some(s@),
        None => None,
    }
}

/// The message a staging cookie signs, built from its parts.
fn staging_message_text(origin: &str, expires: u64) -> (m: String)
    ensures
        m@ == staging_message(origin@, expires as nat),
{
    let mut m = String::from_str("tsunoru-staging-session:v1\n").concat(origin);
    push_char(&mut m, '\n');
    push_decimal(&mut m, expires);
    proof {
        reveal_strlit("\n");
    }
    assert(m@ =~= staging_message(origin@, expires as nat));
    m
}

/// Whether the request carries a valid staging cookie signed with `token` for `origin`.
pub fn staging_cookie_valid(token: &str, origin: &str, cookie_header: Option<&str>, now: u64) -> (r:
    Result<bool, ApiError>)
    requires
        now + LIFETIME_SECONDS <= u64::MAX,
    ensures
        match staging_cookie_candidate(opt_text(cookie_header), now as int) {
            None => r == Ok::<bool, ApiError>(false),
            Some((expires, signature)) => match r {
                Ok(b) => b == (hmac_sha256(
                    encode_utf8(token@),
                    encode_utf8(staging_message(origin@, expires)),
                ) == hex_decoded(signature)),
                Err(_) => false,
            },
        },
{
    let header = match cookie_header {
        Some(h) => h,
        None => return Ok(false),
    };
    let values = cookie_values_in(header, STAGING_COOKIE);
    if values.len() != 1 {
        return Ok(false);
    }
    let fields = split_text(values[0].as_str(), '.');
    let ghost fv = fields@.map_values(|f: String| f@);
    if fields.len() != 3 || !str_eq(fields[0].as_str(), "v1") {
        proof {
            if fields@.len() == 3 {
                assert(fv[0] == fields@[0]@);
            }
        }
        return Ok(false);
    }
    assert(fv[0] == fields@[0]@ && fv[1] == fields@[1]@ && fv[2] == fields@[2]@);
    let expires = match parse_u64_text(fields[1].as_str()) {
        Some(e) => e,
        None => return Ok(false),
    };
    if expires <= now || expires > now + LIFETIME_SECONDS || !capability_valid(
        fields[2].as_str(),
    ) {
        return Ok(false);
    }
    let supplied = decode_hex_32(fields[2].as_str());
    let message = staging_message_text(origin, expires);
    let tag = match hmac_sha256_tag(token.as_bytes(), message.as_str().as_bytes()) {
        Some(t) => t,
        None => return Err(ApiError::new(503, "staging_unavailable")),
    };
    Ok(constant_time_equal(&tag, supplied.as_slice()))
}

/// The parts of a parsed URL that origin checks read.
pub struct UrlParts {
    pub scheme: String,
    pub host: Option<String>,
    pub username: String,
    pub has_password: bool,
    pub path: String,
    pub has_query: bool,
    pub has_fragment: bool,
    pub origin: String,
}

pub struct UrlPartsView {
    pub scheme: Seq<char>,
    pub host: Option<Seq<char>>,
    pub username: Seq<char>,
    pub has_password: bool,
    pub path: Seq<char>,
    pub has_query: bool,
    pub has_fragment: bool,
    pub origin: Seq<char>,
}

impl View for UrlParts {
    type V = UrlPartsView;

    open spec fn view(&self) -> UrlPartsView {
        UrlPartsView {
            scheme: self.scheme@,
            host: crate::domain::account::text_of(self.host),
            username: self.username@,
            has_password: self.has_password,
            path: self.path@,
            has_query: self.has_query,
            has_fragment: self.has_fragment,
            origin: self.origin@,
        }
    }
}

/// What `url::Url::parse` reads from `text`, if it parses.
pub uninterp spec fn url_parts(text: Seq<char>) -> Option<UrlPartsView>;

/// `url::Url::parse(text)` with its scheme, host, user name, whether it has a password,
/// its path, whether it has a query or fragment, and the ASCII serialisation of its
/// origin.
#[verifier::external_body]
fn parse_url(text: &str) -> (r: Option<UrlParts>)
    ensures
        url_parts(text@) == match r {
            Some(u) => Some(u@),
            None => None::<UrlPartsView>,
        },
{
    let url = url::Url::parse(text).ok()?;
    Some(UrlParts {
        scheme: url.scheme().to_owned(),
        host: url.host_str().map(str::to_owned),
        username: url.username().to_owned(),
        has_password: url.password().is_some(),
        path: url.path().to_owned(),
        has_query: url.query().is_some(),
        has_fragment: url.fragment().is_some(),
        origin: url.origin().ascii_serialization(),
    })
}

/// An origin the worker may be configured with: HTTPS, or HTTP on `localhost` or
/// `127.0.0.1`, with no credentials, path, query or fragment, written exactly as its own
/// serialisation.
pub open spec fn origin_acceptable(text: Seq<char>) -> bool {
    match url_parts(text) {
        None => false,
        Some(u) => (u.scheme == "https"@ || (u.scheme == "http"@ && (u.host == Some("localhost"@)
            || u.host == Some("127.0.0.1"@)))) && u.username.len() == 0 && !u.has_password
            && u.path == "/"@ && !u.has_query && !u.has_fragment && u.origin == text,
    }
}

pub fn valid_origin(origin: &str) -> (b: bool)
    ensures
        b == origin_acceptable(origin@),
{
    let u = match parse_url(origin) {
        Some(u) => u,
        None => return false,
    };
    let local = match &u.host {
        Some(h) => str_eq(h.as_str(), "localhost") || str_eq(h.as_str(), "127.0.0.1"),
        None => false,
    };
    (str_eq(u.scheme.as_str(), "https") || (str_eq(u.scheme.as_str(), "http") && local))
        && u.username.as_str().unicode_len() == 0 && !u.has_password && str_eq(
        u.path.as_str(),
        "/",
    ) && !u.has_query && !u.has_fragment && str_eq(u.origin.as_str(), origin)
}

/// A usable staging configuration: a 64-digit hexadecimal token and an acceptable origin.
pub fn staging_config_valid(token: &str, origin: &str) -> (b: bool)
    ensures
        b == (is_hex_capability(token@) && origin_acceptable(origin@)),
{
    capability_valid(token) && valid_origin(origin)
}

/// Whether `supplied` is the staging access code: 64 hexadecimal digits whose SHA-256
/// digest equals the token's.
pub fn matches_code(token: &str, supplied: &str) -> (b: bool)
    ensures
        b == (is_hex_capability(supplied@) && sha256(encode_utf8(token@)) == sha256(
            encode_utf8(supplied@),
        )),
{
    let expected = sha256_digest(token.as_bytes());
    let actual = sha256_digest(supplied.as_bytes());
    capability_valid(supplied) && constant_time_equal(&expected, &actual)
}

/// The origin check: a sent `Origin` must be the expected one, and it must be sent when
/// `required`.
pub open spec fn origin_refused(sent: Option<Seq<char>>, expected: Seq<char>, required: bool) -> bool {
    (sent matches Some(o) && o != expected) || (required && sent is None)
}

pub fn check_origin(sent: Option<&str>, expected: &str, required: bool) -> (r: Result<(), ApiError>)
    ensures
        if origin_refused(opt_text(sent), expected@, required) {
            is_error(r, 403, "origin_forbidden"@)
        } else {
            r is Ok
        },
{
    let refused = match sent {
        Some(o) => !str_eq(o, expected),
        None => required,
    };
    if refused {
        return Err(ApiError::new(403, "origin_forbidden"));
    }
    Ok(())
}

/// A method that does not change state.
pub open spec fn is_safe_method(method: HttpMethod) -> bool {
    method == HttpMethod::Get || method == HttpMethod::Head || method == HttpMethod::Options
}

/// What follows `Bearer ` in an `Authorization` header, or nothing.
pub open spec fn bearer_code(header: Seq<char>) -> Seq<char> {
    if "Bearer "@.is_prefix_of(header) {
        header.skip(7)
    } else {
        Seq::empty()
    }
}

/// Authorize a request for the staging trial: a bearer access code, or else a valid
/// staging cookie, in which case a state-changing request must also carry the origin.
pub fn staging_authorize(
    token: &str,
    origin: &str,
    method: HttpMethod,
    authorization: Option<&str>,
    cookie_header: Option<&str>,
    origin_header: Option<&str>,
    now: u64,
) -> (r: Result<(), ApiError>)
    requires
        now + LIFETIME_SECONDS <= u64::MAX,
    ensures
        match authorization {
            Some(h) => if !(is_hex_capability(bearer_code(h@)) && sha256(encode_utf8(token@))
                == sha256(encode_utf8(bearer_code(h@)))) {
                is_error(r, 401, "unauthorized"@)
            } else if origin_refused(opt_text(origin_header), origin@, false) {
                is_error(r, 403, "origin_forbidden"@)
            } else {
                r is Ok
            },
            None => match staging_cookie_candidate(opt_text(cookie_header), now as int) {
                None => is_error(r, 401, "unauthorized"@),
                Some((expires, signature)) => if hmac_sha256(
                    encode_utf8(token@),
                    encode_utf8(staging_message(origin@, expires)),
                ) != hex_decoded(signature) {
                    is_error(r, 401, "unauthorized"@)
                } else if origin_refused(
                    opt_text(origin_header),
                    origin@,
                    !is_safe_method(method),
                ) {
                    is_error(r, 403, "origin_forbidden"@)
                } else {
                    r is Ok
                },
            },
        },
{
    proof {
        reveal_strlit("Bearer ");
    }
    let using_cookie = match authorization {
        Some(h) => {
            let code = if starts_with(h, "Bearer ") {
                h.substring_char(7, h.unicode_len())
            } else {
                ""
            };
            proof {
                if "Bearer "@.is_prefix_of(h@) {
                    assert(code@ =~= h@.skip(7));
                } else {
                    reveal_strlit("");
                    assert(code@ =~= Seq::<char>::empty());
                }
            }
            if !matches_code(token, code) {
                return Err(ApiError::new(401, "unauthorized"));
            }
            false
        },
        None => {
            match staging_cookie_valid(token, origin, cookie_header, now) {
                Ok(true) => {},
                Ok(false) => return Err(ApiError::new(401, "unauthorized")),
                Err(e) => return Err(e),
            }
            true
        },
    };
    let mutation = !(method == HttpMethod::Get || method == HttpMethod::Head || method
        == HttpMethod::Options);
    check_origin(origin_header, origin, using_cookie && mutation)
}

/// The cookie line of a fresh staging session signed at `now`.
pub open spec fn staging_cookie_text(token: Seq<char>, origin: Seq<char>, now: nat) -> Seq<char> {
    let expires = (now + LIFETIME_SECONDS) as nat;
    STAGING_COOKIE@ + "=v1."@ + decimal(expires) + "."@ + hex_text(
        hmac_sha256(encode_utf8(token), encode_utf8(staging_message(origin, expires))),
    ) + "; Path=/; HttpOnly; Secure; SameSite=Strict; Max-Age=43200"@
}

/// A lowercase hexadecimal digit names the number it was made from.
proof fn lemma_hex_digit(n: int)
    requires
        0 <= n < 16,
    ensures
        is_ascii_hex_digit(hex_digit(n)),
        hex_value(hex_digit(n)) == n,
        !crate::text::is_white_space(hex_digit(n)),
        hex_digit(n) != '.' && hex_digit(n) != ';' && hex_digit(n) != '=',
{
    if n < 10 {
        assert(hex_digit(n) as int == 48 + n);
    } else {
        assert(hex_digit(n) as int == 87 + n);
    }
}

/// Each octet becomes two hexadecimal digits, the high one first.
proof fn lemma_hex_text_digits(b: Seq<u8>)
    ensures
        hex_text(b).len() == 2 * b.len(),
        forall|i: int|
            0 <= i < b.len() ==> #[trigger] hex_text(b)[2 * i] == hex_digit((b[i] / 16) as int)
                && hex_text(b)[2 * i + 1] == hex_digit((b[i] % 16) as int),
    decreases b.len(),
{
    if b.len() > 0 {
        let init = b.drop_last();
        lemma_hex_text_digits(init);
        assert forall|i: int| 0 <= i < b.len() implies #[trigger] hex_text(b)[2 * i] == hex_digit(
            (b[i] / 16) as int,
        ) && hex_text(b)[2 * i + 1] == hex_digit((b[i] % 16) as int) by {
            if i < init.len() {
                assert(b[i] == init[i]);
                assert(hex_text(init)[2 * i] == hex_digit((init[i] / 16) as int));
            }
        }
    }
}

/// The hexadecimal text of octets is a signature-shaped string of digits that decodes to
/// the same octets.
proof fn lemma_hex_text_decodes(b: Seq<u8>)
    ensures
        hex_text(b).len() == 2 * b.len(),
        forall|k: int| 0 <= k < hex_text(b).len() ==> is_ascii_hex_digit(#[trigger] hex_text(b)[k])
            && !crate::text::is_white_space(hex_text(b)[k]) && hex_text(b)[k] != '.'
            && hex_text(b)[k] != ';' && hex_text(b)[k] != '=',
        hex_decoded(hex_text(b)) == b,
{
    lemma_hex_text_digits(b);
    let h = hex_text(b);
    assert forall|k: int| 0 <= k < h.len() implies is_ascii_hex_digit(#[trigger] h[k])
        && !crate::text::is_white_space(h[k]) && h[k] != '.' && h[k] != ';' && h[k] != '=' by {
        let i = k / 2;
        assert(0 <= i < b.len());
        assert(h[2 * i] == hex_digit((b[i] / 16) as int));
        lemma_hex_digit((b[i] / 16) as int);
        lemma_hex_digit((b[i] % 16) as int);
        if k % 2 == 0 {
            assert(k == 2 * i);
        } else {
            assert(k == 2 * i + 1);
        }
    }
    assert forall|i: int| 0 <= i < b.len() implies #[trigger] hex_decoded(h)[i] == b[i] by {
        assert(h[2 * i] == hex_digit((b[i] / 16) as int));
        lemma_hex_digit((b[i] / 16) as int);
        lemma_hex_digit((b[i] % 16) as int);
        assert((b[i] / 16) * 16 + b[i] % 16 == b[i]);
    }
    assert(hex_decoded(h) =~= b);
}

/// The pair a browser sends back for a staging cookie with expiry `expires` and tag `tag`.
pub open spec fn staging_cookie_pair(expires: nat, tag: Seq<u8>) -> Seq<char> {
    STAGING_COOKIE@ + "=v1."@ + decimal(expires) + "."@ + hex_text(tag)
}

/// An issued staging session is accepted until it lapses: the cookie issued at `now` is its
/// pair followed by attributes, and that pair, sent back at any moment before the expiry, is
/// read as the expiry and signature it was issued with, whose digits decode to the tag.
#[verifier::spinoff_prover]
#[verifier::rlimit(60)]
pub proof fn lemma_issued_staging_cookie_read_back(
    token: Seq<char>,
    origin: Seq<char>,
    now: nat,
    at: int,
)
    requires
        now + LIFETIME_SECONDS <= u64::MAX,
        now <= at < now + LIFETIME_SECONDS,
        hmac_sha256(
            encode_utf8(token),
            encode_utf8(staging_message(origin, (now + LIFETIME_SECONDS) as nat)),
        ).len() == 32,
    ensures
        ({
            let expires = (now + LIFETIME_SECONDS) as nat;
            let tag = hmac_sha256(encode_utf8(token), encode_utf8(staging_message(origin, expires)));
            &&& staging_cookie_text(token, origin, now) == staging_cookie_pair(expires, tag)
                + "; Path=/; HttpOnly; Secure; SameSite=Strict; Max-Age=43200"@
            &&& staging_cookie_candidate(Some(staging_cookie_pair(expires, tag)), at) == Some(
                (expires, hex_text(tag)),
            )
            &&& hex_decoded(hex_text(tag)) == tag
        }),
{
    let expires = (now + LIFETIME_SECONDS) as nat;
    let tag = hmac_sha256(encode_utf8(token), encode_utf8(staging_message(origin, expires)));
    reveal_strlit("__Host-tsunoru_staging");
    reveal_strlit("=v1.");
    reveal_strlit(".");
    reveal_strlit("=");
    reveal_strlit("v1.");
    reveal_strlit("v1");
    let name = STAGING_COOKIE@;
    let d = decimal(expires);
    let hx = hex_text(tag);
    crate::text::lemma_decimal_digits(expires);
    lemma_hex_text_decodes(tag);
    assert forall|k: int| 0 <= k < d.len() implies #[trigger] d[k] != '.' && d[k] != ';' && d[k] != '='
        && d[k] != '+' && !crate::text::is_white_space(d[k]) by {
        assert(is_ascii_digit(d[k]));
    }
    let v = "v1."@ + d + "."@ + hx;
    let h = staging_cookie_pair(expires, tag);
    assert(h =~= name + "="@ + v);
    assert(staging_cookie_text(token, origin, now) =~= h
        + "; Path=/; HttpOnly; Secure; SameSite=Strict; Max-Age=43200"@);
    // The pair holds no `;`, so it is the only piece of the header.
    assert forall|k: int| 0 <= k < h.len() implies h[k] != ';' by {
        if k >= name.len() + 4 && k < name.len() + 4 + d.len() {
            assert(h[k] == d[k - name.len() - 4]);
        } else if k > name.len() + 4 + d.len() {
            assert(h[k] == hx[k - name.len() - 5 - d.len()]);
        }
    }
    lemma_first_index(h, ';', h.len() as int);
    assert(split_all(h, ';') =~= seq![h]);
    // The pair is named `STAGING_COOKIE` and holds `v`.
    assert(h.take(h.len() as int) =~= h);
    assert(h[0] == '_');
    assert(h.last() == hx.last());
    crate::text::lemma_trimmed_identity(h);
    assert forall|k: int| 0 <= k < name.len() implies h[k] != '=' by {
        assert(h[k] == name[k]);
    }
    lemma_first_index(h, '=', name.len() as int);
    assert(h.take(name.len() as int) =~= name);
    assert(h.skip(name.len() as int + 1) =~= v);
    assert(pair_value(h, name) == Some(v));
    assert(seq![h].drop_last() =~= Seq::<Seq<char>>::empty());
    assert(seq![h].last() == h);
    assert(cookie_values(Seq::<Seq<char>>::empty(), name) =~= Seq::<Seq<char>>::empty());
    assert(cookie_values(seq![h], name) == Seq::<Seq<char>>::empty().push(v));
    assert(cookie_values(seq![h], name) =~= seq![v]);
    // The value splits into the version, the expiry and the signature.
    lemma_first_index(v, '.', 2);
    let rest1 = v.skip(3);
    assert(rest1 =~= d + "."@ + hx);
    assert(v.take(2) =~= "v1"@);
    assert forall|k: int| 0 <= k < d.len() implies rest1[k] != '.' by {
        assert(rest1[k] == d[k]);
    }
    lemma_first_index(rest1, '.', d.len() as int);
    let rest2 = rest1.skip(d.len() as int + 1);
    assert(rest2 =~= hx);
    assert(rest1.take(d.len() as int) =~= d);
    lemma_first_index(hx, '.', hx.len() as int);
    assert(split_all(hx, '.') =~= seq![hx]);
    assert(split_all(rest1, '.') =~= seq![d] + seq![hx]);
    assert(split_all(v, '.') =~= seq!["v1"@] + (seq![d] + seq![hx]));
    let fields = split_all(v, '.');
    assert(fields.len() == 3 && fields[0] == "v1"@ && fields[1] == d && fields[2] == hx);
    assert(u64_text_value(d) == Some(expires));
}

/// Issue a staging session cookie valid for twelve hours from `now`.
pub fn issue_staging_cookie(token: &str, origin: &str, now: u64) -> (r: Result<String, ApiError>)
    requires
        now + LIFETIME_SECONDS <= u64::MAX,
    ensures
        match r {
            Ok(c) => c@ == staging_cookie_text(token@, origin@, now as nat),
            Err(_) => false,
        },
{
    let expires = now + LIFETIME_SECONDS;
    let message = staging_message_text(origin, expires);
    let tag = match hmac_sha256_tag(token.as_bytes(), message.as_str().as_bytes()) {
        Some(t) => t,
        None => return Err(ApiError::new(503, "staging_unavailable")),
    };
    let signature = hex_lower(&tag);
    let mut cookie = String::from_str(STAGING_COOKIE).concat("=v1.");
    push_decimal(&mut cookie, expires);
    let cookie = cookie.concat(".").concat(signature.as_str()).concat(
        "; Path=/; HttpOnly; Secure; SameSite=Strict; Max-Age=43200",
    );
    Ok(cookie)
}

/// The cookie line that ends a staging session.
pub fn staging_logout_cookie() -> (c: String)
    ensures
        c@ == STAGING_COOKIE@ + "=; Path=/; HttpOnly; Secure; SameSite=Strict; Max-Age=0"@,
{
    String::from_str(STAGING_COOKIE).concat("=; Path=/; HttpOnly; Secure; SameSite=Strict; Max-Age=0")
}

/// A staging sign-in: the origin must be sent and match, and the access code must be
/// the token's; the reply sets a fresh session cookie.
pub fn staging_login(
    token: &str,
    origin: &str,
    origin_header: Option<&str>,
    access_code: &str,
    now: u64,
) -> (r: Result<String, ApiError>)
    requires
        now + LIFETIME_SECONDS <= u64::MAX,
    ensures
        if origin_refused(opt_text(origin_header), origin@, true) {
            r matches Err(e) && e.status == 403 && e.code@ == "origin_forbidden"@
        } else if !(is_hex_capability(access_code@) && sha256(encode_utf8(token@)) == sha256(
            encode_utf8(access_code@),
        )) {
            r matches Err(e) && e.status == 401 && e.code@ == "unauthorized"@
        } else {
            match r {
                Ok(c) => c@ == staging_cookie_text(token@, origin@, now as nat),
                Err(_) => false,
            }
        },
{
    match check_origin(origin_header, origin, true) {
        Ok(()) => {},
        Err(e) => return Err(e),
    }
    if !matches_code(token, access_code) {
        return Err(ApiError::new(401, "unauthorized"));
    }
    issue_staging_cookie(token, origin, now)
}

// ---------------------------------------------------------------------------
// Organizer sign-in: identity tokens and the organizer session cookie
// ---------------------------------------------------------------------------

/// A usable organizer configuration: a client identifier, a 64-digit hexadecimal
/// session secret and an acceptable origin.
pub fn organizer_config_valid(client: &str, secret: &str, origin: &str) -> (b: bool)
    ensures
        b == (client@.len() > 0 && is_hex_capability(secret@) && origin_acceptable(origin@)),
{
    client.unicode_len() > 0 && capability_valid(secret) && valid_origin(origin)
}

/// The three dot-separated parts of an identity token, within their size limits.
pub open spec fn token_parts(token: Seq<char>) -> Option<(Seq<char>, Seq<char>, Seq<char>)> {
    let parts = split_all(token, '.');
    if parts.len() == 3 && encode_utf8(parts[0]).len() <= 4096 && encode_utf8(parts[1]).len()
        <= 8192 && encode_utf8(parts[2]).len() <= 4096 {
        Some((parts[0], parts[1], parts[2]))
    } else {
        None
    }
}

/// Split an identity token into header, payload and signature.
pub fn parse_token(token: &str) -> (r: Result<(String, String, String), ApiError>)
    ensures
        match token_parts(token@) {
            Some((h, p, s)) => r matches Ok((a, b, c)) && a@ == h && b@ == p && c@ == s,
            None => r matches Err(e) && e.status == 401 && e.code@ == "invalid_identity"@
                && e.retry_after is None,
        },
{
    let parts = split_text(token, '.');
    let ghost pv = parts@.map_values(|p: String| p@);
    if parts.len() != 3 {
        return Err(ApiError::new(401, "invalid_identity"));
    }
    assert(pv[0] == parts@[0]@ && pv[1] == parts@[1]@ && pv[2] == parts@[2]@);
    if parts[0].as_str().as_bytes().len() > 4096 || parts[1].as_str().as_bytes().len() > 8192
        || parts[2].as_str().as_bytes().len() > 4096 {
        return Err(ApiError::new(401, "invalid_identity"));
    }
    Ok((parts[0].clone(), parts[1].clone(), parts[2].clone()))
}

/// The claims of an identity token that the worker checks.
pub struct Claims {
    pub iss: String,
    pub sub: String,
    pub aud: String,
    pub exp: u64,
    pub nonce: Option<String>,
}

/// Claims from Google for this client and nonce, unexpired at `now`, with a subject of
/// 1 to 255 octets.
pub open spec fn claims_acceptable(c: Claims, client_id: Seq<char>, nonce: Seq<char>, now: int) -> bool {
    &&& (c.iss@ == "https://accounts.google.com"@ || c.iss@ == "accounts.google.com"@)
    &&& c.aud@ == client_id
    &&& c.sub@.len() > 0
    &&& encode_utf8(c.sub@).len() <= 255
    &&& c.exp > now
    &&& c.nonce matches Some(n) && n@ == nonce
}

/// Check an identity token's claims at `current_time`, giving back its subject.
pub fn verify_claims_at(claims: Claims, client_id: &str, nonce: &str, current_time: u64) -> (r:
    Result<String, ApiError>)
    ensures
        if claims_acceptable(claims, client_id@, nonce@, current_time as int) {
            r matches Ok(s) && s@ == claims.sub@
        } else {
            r matches Err(e) && e.status == 401 && e.code@ == "invalid_identity"@
        },
{
    let issuer_ok = str_eq(claims.iss.as_str(), "https://accounts.google.com") || str_eq(
        claims.iss.as_str(),
        "accounts.google.com",
    );
    let nonce_ok = match &claims.nonce {
        Some(n) => str_eq(n.as_str(), nonce),
        None => false,
    };
    if !issuer_ok || !str_eq(claims.aud.as_str(), client_id) || claims.sub.as_str().unicode_len()
        == 0 || claims.sub.as_str().as_bytes().len() > 255 || claims.exp <= current_time
        || !nonce_ok {
        return Err(ApiError::new(401, "invalid_identity"));
    }
    Ok(claims.sub)
}

/// The octets that base64url without padding decodes `text` to, if it is such text.
pub uninterp spec fn base64url_decoded(text: Seq<char>) -> Option<Seq<u8>>;

/// `URL_SAFE_NO_PAD.decode(text)` of the `base64` crate.
#[verifier::external_body]
fn decode_base64url(text: &str) -> (r: Option<Vec<u8>>)
    ensures
        base64url_decoded(text@) == match r {
            Some(v) => Some(v@),
            None => None::<Seq<u8>>,
        },
{
    base64::engine::general_purpose::URL_SAFE_NO_PAD.decode(text).ok()
}

/// The `alg` and `kid` text fields of a JSON object, when `data` is JSON at all.
pub uninterp spec fn jwt_header_fields(data: Seq<u8>) -> Option<(Option<Seq<char>>, Option<Seq<char>>)>;

/// `serde_json::from_slice::<serde_json::Value>(data)` and then the string values under
/// `alg` and `kid`, each absent when missing or not a string.
#[verifier::external_body]
fn read_jwt_header(data: &[u8]) -> (r: Option<(Option<String>, Option<String>)>)
    ensures
        jwt_header_fields(data@) == match r {
            Some((a, k)) => Some(
                (crate::domain::account::text_of(a), crate::domain::account::text_of(k)),
            ),
            None => None::<(Option<Seq<char>>, Option<Seq<char>>)>,
        },
{
    let value: serde_json::Value = serde_json::from_slice(data).ok()?;
    Some((
        value.get("alg").and_then(|v| v.as_str()).map(str::to_owned),
        value.get("kid").and_then(|v| v.as_str()).map(str::to_owned),
    ))
}

/// The decoded parts of an identity token and the key identifier its header names.
pub struct DecodedToken {
    pub header: String,
    pub payload: String,
    pub payload_bytes: Vec<u8>,
    pub signature_bytes: Vec<u8>,
    pub kid: String,
}

/// What decoding a token gives: all three parts decode, the header is JSON whose `alg`
/// is `RS256` and which names a `kid`.
pub open spec fn token_decoding(token: Seq<char>) -> Option<(Seq<char>, Seq<char>, Seq<u8>, Seq<u8>, Seq<char>)> {
    match token_parts(token) {
        None => None,
        Some((h, p, s)) => match (base64url_decoded(h), base64url_decoded(p), base64url_decoded(s)) {
            (Some(hb), Some(pb), Some(sb)) => match jwt_header_fields(hb) {
                Some((alg, kid)) => if alg == Some("RS256"@) {
                    match kid {
                        Some(k) => Some((h, p, pb, sb, k)),
                        None => None,
                    }
                } else {
                    None
                },
                None => None,
            },
            _ => None,
        },
    }
}

/// Decode an identity token as far as it can be read without the signing keys.
pub fn decode_token(token: &str) -> (r: Result<DecodedToken, ApiError>)
    ensures
        match token_decoding(token@) {
            Some((h, p, pb, sb, k)) => r matches Ok(d) && d.header@ == h && d.payload@ == p
                && d.payload_bytes@ == pb && d.signature_bytes@ == sb && d.kid@ == k,
            None => r matches Err(e) && e.status == 401 && e.code@ == "invalid_identity"@,
        },
{
    let (header, payload, signature) = match parse_token(token) {
        Ok(t) => t,
        Err(e) => return Err(e),
    };
    let invalid = ApiError::new(401, "invalid_identity");
    let header_bytes = match decode_base64url(header.as_str()) {
        Some(b) => b,
        None => return Err(invalid),
    };
    let payload_bytes = match decode_base64url(payload.as_str()) {
        Some(b) => b,
        None => return Err(invalid),
    };
    let signature_bytes = match decode_base64url(signature.as_str()) {
        Some(b) => b,
        None => return Err(invalid),
    };
    let (alg, kid) = match read_jwt_header(header_bytes.as_slice()) {
        Some(f) => f,
        None => return Err(invalid),
    };
    let rs256 = match &alg {
        Some(a) => str_eq(a.as_str(), "RS256"),
        None => false,
    };
    if !rs256 {
        return Err(invalid);
    }
    let kid = match kid {
        Some(k) => k,
        None => return Err(invalid),
    };
    Ok(DecodedToken { header, payload, payload_bytes, signature_bytes, kid })
}

/// One published signing key.
pub struct Jwk {
    pub kid: String,
    pub kty: String,
    pub alg: String,
    pub n: String,
    pub e: String,
}

pub open spec fn key_fits(k: Jwk, kid: Seq<char>) -> bool {
    k.kid@ == kid && k.kty@ == "RSA"@ && k.alg@ == "RS256"@
}

/// The first published RSA key for RS256 with identifier `kid`.
pub fn find_signing_key(keys: &Vec<Jwk>, kid: &str) -> (r: Option<usize>)
    ensures
        match r {
            Some(i) => i < keys@.len() && key_fits(keys@[i as int], kid@) && forall|j: int|
                0 <= j < i ==> !key_fits(#[trigger] keys@[j], kid@),
            None => forall|j: int| 0 <= j < keys@.len() ==> !key_fits(#[trigger] keys@[j], kid@),
        },
{
    let mut i: usize = 0;
    while i < keys.len()
        invariant
            i <= keys@.len(),
            forall|j: int| 0 <= j < i ==> !key_fits(#[trigger] keys@[j], kid@),
        decreases keys.len() - i,
    {
        let k = &keys[i];
        if str_eq(k.kid.as_str(), kid) && str_eq(k.kty.as_str(), "RSA") && str_eq(
            k.alg.as_str(),
            "RS256",
        ) {
            return Some(i);
        }
        i = i + 1;
    }
    None
}

/// The message that an organizer cookie for `subject` expiring at `expiry` signs.
pub open spec fn organizer_message(subject: Seq<char>, expiry: nat) -> Seq<char> {
    "tsunoru-organizer:v1\n"@ + subject + "\n"@ + decimal(expiry)
}

fn organizer_message_text(subject: &str, expiry: u64) -> (m: String)
    ensures
        m@ == organizer_message(subject@, expiry as nat),
{
    let mut m = String::from_str("tsunoru-organizer:v1\n").concat(subject);
    push_char(&mut m, '\n');
    push_decimal(&mut m, expiry);
    proof {
        reveal_strlit("\n");
    }
    assert(m@ =~= organizer_message(subject@, expiry as nat));
    m
}

/// The cookie line of a fresh organizer session for `subject` signed at `now`.
pub open spec fn organizer_cookie_text(secret: Seq<char>, subject: Seq<char>, now: nat) -> Seq<char> {
    let expiry = (now + LIFETIME_SECONDS) as nat;
    ORGANIZER_COOKIE@ + "=v1."@ + decimal(expiry) + "."@ + hex_text(
        hmac_sha256(encode_utf8(secret), encode_utf8(organizer_message(subject, expiry))),
    ) + "; Path=/; HttpOnly; Secure; SameSite=Lax; Max-Age=43200"@
}

/// Issue an organizer session cookie valid for twelve hours from `now`.
pub fn organizer_cookie(secret: &str, subject: &str, now: u64) -> (r: Result<String, ApiError>)
    requires
        now + LIFETIME_SECONDS <= u64::MAX,
    ensures
        match r {
            Ok(c) => c@ == organizer_cookie_text(secret@, subject@, now as nat),
            Err(_) => false,
        },
{
    let expiry = now + LIFETIME_SECONDS;
    let message = organizer_message_text(subject, expiry);
    let tag = match hmac_sha256_tag(secret.as_bytes(), message.as_str().as_bytes()) {
        Some(t) => t,
        None => return Err(ApiError::new(503, "auth_unavailable")),
    };
    let signature = hex_lower(&tag);
    let mut cookie = String::from_str(ORGANIZER_COOKIE).concat("=v1.");
    push_decimal(&mut cookie, expiry);
    Ok(
        cookie.concat(".").concat(signature.as_str()).concat(
            "; Path=/; HttpOnly; Secure; SameSite=Lax; Max-Age=43200",
        ),
    )
}

/// The cookie line that ends an organizer session.
pub fn organizer_logout_cookie() -> (c: String)
    ensures
        c@ == ORGANIZER_COOKIE@ + "=; Path=/; HttpOnly; Secure; SameSite=Lax; Max-Age=0"@,
{
    String::from_str(ORGANIZER_COOKIE).concat("=; Path=/; HttpOnly; Secure; SameSite=Lax; Max-Age=0")
}

/// What follows `prefix` in the first trimmed cookie pair that starts with it.
pub open spec fn first_prefixed(pairs: Seq<Seq<char>>, prefix: Seq<char>) -> Option<Seq<char>>
    decreases pairs.len(),
{
    if pairs.len() == 0 {
        None
    } else if prefix.is_prefix_of(trimmed(pairs[0])) {
        Some(trimmed(pairs[0]).skip(prefix.len() as int))
    } else {
        first_prefixed(pairs.drop_first(), prefix)
    }
}

/// The expiry and signature of the organizer cookie in `header`, when it has the form
/// `v1.{expiry}.{signature}`, is fresh at `now`, and its signature is 64 octets long.
pub open spec fn organizer_cookie_candidate(header: Option<Seq<char>>, now: int) -> Option<(nat, Seq<char>)> {
    match header {
        None => None,
        Some(h) => match first_prefixed(split_all(h, ';'), ORGANIZER_COOKIE@ + "=v1."@) {
            None => None,
            Some(raw) => {
                let fields = split_all(raw, '.');
                if fields.len() != 2 {
                    None
                } else {
                    match u64_text_value(fields[0]) {
                        Some(expiry) => if now < expiry <= now + LIFETIME_SECONDS && encode_utf8(
                            fields[1],
                        ).len() == 64 {
                            Some((expiry, fields[1]))
                        } else {
                            None
                        },
                        None => None,
                    }
                }
            },
        },
    }
}

fn first_prefixed_in(header: &str, prefix: &str) -> (r: Option<String>)
    ensures
        text_of_opt(r) == first_prefixed(split_all(header@, ';'), prefix@),
{
    let pairs = split_text(header, ';');
    let ghost pv = pairs@.map_values(|p: String| p@);
    let mut i: usize = 0;
    assert(pv.skip(0) =~= pv);
    while i < pairs.len()
        invariant
            i <= pairs@.len(),
            pv == pairs@.map_values(|p: String| p@),
            pv == split_all(header@, ';'),
            first_prefixed(pv, prefix@) == first_prefixed(pv.skip(i as int), prefix@),
        decreases pairs.len() - i,
    {
        let t = trim(pairs[i].as_str());
        assert(pv.skip(i as int)[0] == pairs@[i as int]@);
        assert(pv.skip(i as int).drop_first() =~= pv.skip(i + 1));
        if starts_with(t.as_str(), prefix) {
            let rest = String::from_str(t.as_str().substring_char(prefix.unicode_len(), t.as_str().unicode_len()));
            assert(rest@ =~= t@.skip(prefix@.len() as int));
            return Some(rest);
        }
        i = i + 1;
    }
    None
}

pub open spec fn text_of_opt(o: Option<String>) -> Option<Seq<char>> {
    match o {
        Some(s) => Some(s@),
        None => None,
    }
}

/// Authorize a request by its organizer cookie, signed with `secret`.
pub fn organizer_authorize(secret: &str, cookie_header: Option<&str>, now: u64) -> (r: Result<
    (),
    ApiError,
>)
    requires
        now + LIFETIME_SECONDS <= u64::MAX,
    ensures
        match organizer_cookie_candidate(opt_text(cookie_header), now as int) {
            None => is_error(r, 401, "unauthorized"@),
            Some((expiry, signature)) => if is_hex_capability(
                signature,
            ) && hmac_sha256(
                encode_utf8(secret@),
                encode_utf8(organizer_message(Seq::empty(), expiry)),
            ) == hex_decoded(signature) {
                r is Ok
            } else {
                is_error(r, 401, "unauthorized"@)
            },
        },
{
    let unauthorized = ApiError::new(401, "unauthorized");
    let header = match cookie_header {
        Some(h) => h,
        None => return Err(unauthorized),
    };
    let prefix = String::from_str(ORGANIZER_COOKIE).concat("=v1.");
    let raw = match first_prefixed_in(header, prefix.as_str()) {
        Some(r) => r,
        None => return Err(unauthorized),
    };
    let fields = split_text(raw.as_str(), '.');
    let ghost fv = fields@.map_values(|f: String| f@);
    if fields.len() != 2 {
        return Err(unauthorized);
    }
    assert(fv[0] == fields@[0]@ && fv[1] == fields@[1]@);
    let expiry = match parse_u64_text(fields[0].as_str()) {
        Some(e) => e,
        None => return Err(unauthorized),
    };
    if expiry <= now || expiry > now + LIFETIME_SECONDS || fields[1].as_str().as_bytes().len()
        != 64 {
        return Err(unauthorized);
    }
    let message = organizer_message_text("", expiry);
    proof {
        reveal_strlit("");
    }
    let tag = match hmac_sha256_tag(secret.as_bytes(), message.as_str().as_bytes()) {
        Some(t) => t,
        None => return Err(ApiError::new(503, "auth_unavailable")),
    };
    if !capability_valid(fields[1].as_str()) {
        return Err(unauthorized);
    }
    let supplied = decode_hex_32(fields[1].as_str());
    if !constant_time_equal(&tag, supplied.as_slice()) {
        return Err(unauthorized);
    }
    Ok(())
}

/// The pair a browser sends back for an organizer cookie with expiry `expiry` and tag `tag`.
pub open spec fn organizer_cookie_pair(expiry: nat, tag: Seq<u8>) -> Seq<char> {
    ORGANIZER_COOKIE@ + "=v1."@ + decimal(expiry) + "."@ + hex_text(tag)
}

/// An organizer session issued without a subject is accepted until it lapses: the cookie
/// issued at `now` is its pair followed by attributes, and that pair, sent back at any
/// moment before the expiry, is read as the expiry it was issued with and a signature of
/// 64 hexadecimal digits that decode to the tag the authorization expects. (The check
/// signs an empty subject, so a cookie issued for any other subject is refused.)
#[verifier::spinoff_prover]
#[verifier::rlimit(60)]
pub proof fn lemma_issued_organizer_cookie_read_back(secret: Seq<char>, now: nat, at: int)
    requires
        now + LIFETIME_SECONDS <= u64::MAX,
        now <= at < now + LIFETIME_SECONDS,
        hmac_sha256(
            encode_utf8(secret),
            encode_utf8(organizer_message(Seq::empty(), (now + LIFETIME_SECONDS) as nat)),
        ).len() == 32,
    ensures
        ({
            let expiry = (now + LIFETIME_SECONDS) as nat;
            let tag = hmac_sha256(
                encode_utf8(secret),
                encode_utf8(organizer_message(Seq::empty(), expiry)),
            );
            &&& organizer_cookie_text(secret, Seq::empty(), now) == organizer_cookie_pair(
                expiry,
                tag,
            ) + "; Path=/; HttpOnly; Secure; SameSite=Lax; Max-Age=43200"@
            &&& organizer_cookie_candidate(Some(organizer_cookie_pair(expiry, tag)), at) == Some(
                (expiry, hex_text(tag)),
            )
            &&& is_hex_capability(hex_text(tag))
            &&& hex_decoded(hex_text(tag)) == tag
        }),
{
    let expiry = (now + LIFETIME_SECONDS) as nat;
    let tag = hmac_sha256(encode_utf8(secret), encode_utf8(organizer_message(Seq::empty(), expiry)));
    reveal_strlit("__Host-tsunoru_organizer");
    reveal_strlit("=v1.");
    reveal_strlit(".");
    let name = ORGANIZER_COOKIE@;
    let prefix = name + "=v1."@;
    let d = decimal(expiry);
    let hx = hex_text(tag);
    crate::text::lemma_decimal_digits(expiry);
    lemma_hex_text_decodes(tag);
    assert forall|k: int| 0 <= k < d.len() implies #[trigger] d[k] != '.' && d[k] != ';'
        && !crate::text::is_white_space(d[k]) by {
        assert(is_ascii_digit(d[k]));
    }
    let raw = d + "."@ + hx;
    let h = organizer_cookie_pair(expiry, tag);
    assert(h =~= prefix + raw);
    assert(organizer_cookie_text(secret, Seq::empty(), now) =~= h
        + "; Path=/; HttpOnly; Secure; SameSite=Lax; Max-Age=43200"@);
    // The pair holds no `;`, so it is the only piece of the header.
    assert forall|k: int| 0 <= k < h.len() implies h[k] != ';' by {
        if k >= prefix.len() && k < prefix.len() + d.len() {
            assert(h[k] == d[k - prefix.len()]);
        } else if k > prefix.len() + d.len() {
            assert(h[k] == hx[k - prefix.len() - 1 - d.len()]);
        }
    }
    lemma_first_index(h, ';', h.len() as int);
    assert(split_all(h, ';') =~= seq![h]);
    // Untrimmed, it starts with the prefix, after which comes `raw`.
    assert(h[0] == '_');
    assert(h.last() == hx.last());
    crate::text::lemma_trimmed_identity(h);
    assert(h.take(prefix.len() as int) =~= prefix);
    assert(prefix.is_prefix_of(h));
    assert(h.skip(prefix.len() as int) =~= raw);
    assert(first_prefixed(seq![h], prefix) == Some(raw));
    // `raw` splits into the expiry and the signature.
    assert forall|k: int| 0 <= k < d.len() implies raw[k] != '.' by {
        assert(raw[k] == d[k]);
    }
    lemma_first_index(raw, '.', d.len() as int);
    assert(raw.take(d.len() as int) =~= d);
    assert(raw.skip(d.len() as int + 1) =~= hx);
    lemma_first_index(hx, '.', hx.len() as int);
    assert(split_all(hx, '.') =~= seq![hx]);
    assert(split_all(raw, '.') =~= seq![d] + seq![hx]);
    let fields = split_all(raw, '.');
    assert(fields.len() == 2 && fields[0] == d && fields[1] == hx);
    assert(d[0] != '+') by {
        assert(is_ascii_digit(d[0]));
    }
    assert(expiry <= u64::MAX);
    assert(u64_text_value(d) == Some(expiry));
    // The signature is ASCII, one octet per digit.
    assert(vstd::utf8::is_ascii_chars(hx)) by {
        assert forall|k: int| 0 <= k < hx.len() implies '\0' <= #[trigger] hx[k] <= '\u{7f}' by {
            assert(is_ascii_hex_digit(hx[k]));
        }
    }
    vstd::utf8::is_ascii_chars_encode_utf8(hx);
    assert(encode_utf8(hx).len() == 64);
}

/// The checks before an organizer sign-in is verified: the configured origin must be
/// sent, and the nonce must be 1 to 128 octets.
pub fn organizer_login_precheck(origin: &str, origin_header: Option<&str>, nonce: &str) -> (r:
    Result<(), ApiError>)
    ensures
        if !(origin_header matches Some(o) && o@ == origin@) {
            is_error(r, 403, "origin_forbidden"@)
        } else if nonce@.len() == 0 || encode_utf8(nonce@).len() > 128 {
            is_error(r, 401, "invalid_identity"@)
        } else {
            r is Ok
        },
{
    let same = match origin_header {
        Some(o) => str_eq(o, origin),
        None => false,
    };
    if !same {
        return Err(ApiError::new(403, "origin_forbidden"));
    }
    if nonce.unicode_len() == 0 || nonce.as_bytes().len() > 128 {
        return Err(ApiError::new(401, "invalid_identity"));
    }
    Ok(())
}

/// A submission needs the configured origin when organizer sign-in is enabled;
/// `app_origin` is `None` when the worker has no origin configured.
pub fn submission_origin_check(
    google_enabled: bool,
    app_origin: Option<&str>,
    origin_header: Option<&str>,
) -> (r: Result<(), ApiError>)
    ensures
        if !google_enabled {
            r is Ok
        } else {
            match app_origin {
                None => is_error(r, 503, "auth_unavailable"@),
                Some(a) => if origin_header matches Some(o) && o@ == a@ {
                    r is Ok
                } else {
                    is_error(r, 403, "origin_forbidden"@)
                },
            }
        },
{
    if !google_enabled {
        return Ok(());
    }
    let origin = match app_origin {
        Some(a) => a,
        None => return Err(ApiError::new(503, "auth_unavailable")),
    };
    let same = match origin_header {
        Some(o) => str_eq(o, origin),
        None => false,
    };
    if !same {
        return Err(ApiError::new(403, "origin_forbidden"));
    }
    Ok(())
}

// ---------------------------------------------------------------------------
// Stored events and answers
// ---------------------------------------------------------------------------

/// The format of a candidate's local date.
pub const LOCAL_DATE_FORMAT: &'static str = "%Y-%m-%d";

/// The format of a candidate's local time.
pub const LOCAL_TIME_FORMAT: &'static str = "%H:%M";

/// The date that chrono reads from `text` in the format `format`: its year and the
/// seconds from 1970-01-01 to its midnight.
pub uninterp spec fn naive_date_read(text: Seq<char>, format: Seq<char>) -> Option<(int, int)>;

/// The time that chrono reads from `text` in the format `format`, in seconds from
/// midnight.
pub uninterp spec fn naive_time_read(text: Seq<char>, format: Seq<char>) -> Option<int>;

/// A candidate's local date as chrono reads it.
pub open spec fn naive_date_fields(text: Seq<char>) -> Option<(int, int)> {
    naive_date_read(text, LOCAL_DATE_FORMAT@)
}

/// A candidate's local time as chrono reads it.
pub open spec fn naive_time_seconds(text: Seq<char>) -> Option<int> {
    naive_time_read(text, LOCAL_TIME_FORMAT@)
}

/// `NaiveDate::parse_from_str(text, format)`, giving the date's year and the timestamp of
/// its midnight.
#[verifier::external_body]
fn parse_naive_date(text: &str, format: &str) -> (r: Option<(i32, i64)>)
    ensures
        naive_date_read(text@, format@) == match r {
            Some((y, d)) => Some((y as int, d as int)),
            None => None::<(int, int)>,
        },
{
    chrono::NaiveDate::parse_from_str(text, format).ok().map(
        |d| (chrono::Datelike::year(&d), d.and_time(chrono::NaiveTime::MIN).and_utc().timestamp()),
    )
}

/// `NaiveTime::parse_from_str(text, format)`, giving its seconds from midnight.
#[verifier::external_body]
fn parse_naive_time(text: &str, format: &str) -> (r: Option<u32>)
    ensures
        naive_time_read(text@, format@) == match r {
            Some(t) => Some(t as int),
            None => None::<int>,
        },
{
    chrono::NaiveTime::parse_from_str(text, format).ok().map(
        |t| chrono::Timelike::num_seconds_from_midnight(&t),
    )
}

/// `YYYY-MM-DD` and `HH:MM` made of ASCII digits.
pub open spec fn datetime_shape(date: Seq<char>, time: Seq<char>) -> bool {
    &&& encode_utf8(date).len() == 10
    &&& encode_utf8(time).len() == 5
    &&& date.len() == 10 && time.len() == 5
    &&& forall|i: int|
        0 <= i < 10 ==> if i == 4 || i == 7 {
            date[i] == '-'
        } else {
            is_ascii_digit(#[trigger] date[i])
        }
    &&& forall|i: int|
        0 <= i < 5 ==> if i == 2 {
            time[i] == ':'
        } else {
            is_ascii_digit(#[trigger] time[i])
        }
}

/// A candidate start that exists exactly once in `zone`: well shaped, a real date from
/// year 1 on and a real time, and not skipped or repeated by a clock change.
pub open spec fn datetime_acceptable(date: Seq<char>, time: Seq<char>, zone: Seq<char>) -> bool {
    datetime_shape(date, time) && match (naive_date_fields(date), naive_time_seconds(time)) {
        (Some((year, midnight)), Some(seconds)) => year >= 1 && midnight + seconds <= i64::MAX
            && zone_offsets(zone, midnight + seconds) is Single,
        _ => false,
    }
}

fn ascii_shape(s: &str, separator_at: usize, separator_at2: usize, separator: char) -> (b: bool)
    ensures
        b == forall|i: int|
            0 <= i < s@.len() ==> if i == separator_at || i == separator_at2 {
                s@[i] == separator
            } else {
                is_ascii_digit(#[trigger] s@[i])
            },
{
    let n = s.unicode_len();
    let mut i: usize = 0;
    while i < n
        invariant
            n == s@.len(),
            i <= n,
            forall|k: int|
                0 <= k < i ==> if k == separator_at || k == separator_at2 {
                    s@[k] == separator
                } else {
                    is_ascii_digit(#[trigger] s@[k])
                },
        decreases n - i,
    {
        let c = s.get_char(i);
        let ok = if i == separator_at || i == separator_at2 {
            c == separator
        } else {
            '0' <= c && c <= '9'
        };
        if !ok {
            return false;
        }
        i = i + 1;
    }
    true
}

/// Whether a candidate's start exists exactly once in `time_zone`.
pub fn datetime_valid(local_date: &str, local_time: &str, time_zone: &str) -> (b: bool)
    ensures
        b == datetime_acceptable(local_date@, local_time@, time_zone@),
{
    if local_date.as_bytes().len() != 10 || local_time.as_bytes().len() != 5 {
        return false;
    }
    if local_date.unicode_len() != 10 || local_time.unicode_len() != 5 || !ascii_shape(
        local_date,
        4,
        7,
        '-',
    ) || !ascii_shape(local_time, 2, 2, ':') {
        proof {
            crate::text::lemma_utf8_length_bound(local_date@);
            if local_date@.len() == 10 && local_time@.len() == 5 {
            }
        }
        return false;
    }
    let (year, midnight) = match parse_naive_date(local_date, LOCAL_DATE_FORMAT) {
        Some(d) => d,
        None => return false,
    };
    let seconds = match parse_naive_time(local_time, LOCAL_TIME_FORMAT) {
        Some(t) => t,
        None => return false,
    };
    if year < 1 {
        return false;
    }
    let local = match midnight.checked_add(seconds as i64) {
        Some(l) => l,
        None => {
            return false;
        },
    };
    match crate::calendar::lookup_zone_offsets(time_zone, local) {
        crate::calendar::ZoneLookup::Single(_) => true,
        _ => false,
    }
}

/// Candidates in identifier order.
pub open spec fn sorted_by_id(v: Seq<(Seq<char>, Seq<char>, Seq<char>)>) -> bool {
    forall|i: int, j: int| 0 <= i < j < v.len() ==> text_le(v[i].0, v[j].0)
}

/// Choices in candidate-identifier order.
pub open spec fn selections_sorted(v: Seq<(Seq<char>, Availability)>) -> bool {
    forall|i: int, j: int| 0 <= i < j < v.len() ==> text_le(v[i].0, v[j].0)
}

proof fn lemma_text_order(a: Seq<char>, b: Seq<char>, c: Seq<char>)
    ensures
        text_le(a, b) || text_le(b, a),
        text_le(a, b) && text_le(b, c) ==> text_le(a, c),
{
    lemma_text_le_total(a, b);
    if text_le(a, b) && text_le(b, c) {
        lemma_text_le_transitive(a, b, c);
    }
}

/// The candidates in identifier order.
fn sort_by_id(items: &Vec<Candidate>) -> (r: Vec<Candidate>)
    ensures
        sorted_by_id(cloud_candidates_view(r@)),
        cloud_candidates_view(r@).to_multiset() == cloud_candidates_view(items@).to_multiset(),
{
    let mut r: Vec<Candidate> = Vec::new();
    let mut i: usize = 0;
    assert(cloud_candidates_view(items@).take(0) =~= Seq::<(Seq<char>, Seq<char>, Seq<char>)>::empty());
    assert(cloud_candidates_view(r@) =~= Seq::<(Seq<char>, Seq<char>, Seq<char>)>::empty());
    while i < items.len()
        invariant
            i <= items@.len(),
            sorted_by_id(cloud_candidates_view(r@)),
            cloud_candidates_view(r@).to_multiset() == cloud_candidates_view(items@).take(
                i as int,
            ).to_multiset(),
        decreases items.len() - i,
    {
        let x = Candidate {
            id: items[i].id.clone(),
            local_date: items[i].local_date.clone(),
            local_time: items[i].local_time.clone(),
        };
        let ghost rv = cloud_candidates_view(r@);
        let mut p: usize = 0;
        while p < r.len() && text_less_or_equal(r[p].id.as_str(), x.id.as_str())
            invariant
                p <= r@.len(),
                rv == cloud_candidates_view(r@),
                forall|q: int| 0 <= q < p ==> text_le(rv[q].0, x@.0),
            decreases r.len() - p,
        {
            p = p + 1;
        }
        proof {
            if p < r@.len() {
                lemma_text_order(rv[p as int].0, x@.0, x@.0);
                assert forall|q: int| p <= q < rv.len() implies text_le(x@.0, rv[q].0) by {
                    lemma_text_order(x@.0, rv[p as int].0, rv[q].0);
                }
            }
        }
        r.insert(p, x);
        proof {
            let nv = cloud_candidates_view(r@);
            assert(nv =~= rv.insert(p as int, x@));
            assert forall|a: int, b: int| 0 <= a < b < nv.len() implies text_le(nv[a].0, nv[b].0) by {
                if a < p && b > p {
                    lemma_text_order(rv[a].0, x@.0, rv[b - 1].0);
                }
            }
            assert(cloud_candidates_view(items@).take(i + 1) =~= cloud_candidates_view(items@).take(
                i as int,
            ).push(x@));
            vstd::seq_lib::to_multiset_insert(rv, p as int, x@);
            vstd::seq_lib::to_multiset_build(cloud_candidates_view(items@).take(i as int), x@);
        }
        i = i + 1;
    }
    assert(cloud_candidates_view(items@).take(items@.len() as int) =~= cloud_candidates_view(items@));
    r
}

/// The choices in candidate-identifier order.
fn sort_selections(items: &Vec<Selection>) -> (r: Vec<Selection>)
    ensures
        selections_sorted(selections_view(r@)),
        selections_view(r@).to_multiset() == selections_view(items@).to_multiset(),
{
    let mut r: Vec<Selection> = Vec::new();
    let mut i: usize = 0;
    assert(selections_view(items@).take(0) =~= Seq::<(Seq<char>, Availability)>::empty());
    assert(selections_view(r@) =~= Seq::<(Seq<char>, Availability)>::empty());
    while i < items.len()
        invariant
            i <= items@.len(),
            selections_sorted(selections_view(r@)),
            selections_view(r@).to_multiset() == selections_view(items@).take(i as int).to_multiset(),
        decreases items.len() - i,
    {
        let x = copy_selection(&items[i]);
        let ghost rv = selections_view(r@);
        let mut p: usize = 0;
        while p < r.len() && text_less_or_equal(r[p].candidate_id.as_str(), x.candidate_id.as_str())
            invariant
                p <= r@.len(),
                rv == selections_view(r@),
                forall|q: int| 0 <= q < p ==> text_le(rv[q].0, x@.0),
            decreases r.len() - p,
        {
            p = p + 1;
        }
        proof {
            if p < r@.len() {
                lemma_text_order(rv[p as int].0, x@.0, x@.0);
                assert forall|q: int| p <= q < rv.len() implies text_le(x@.0, rv[q].0) by {
                    lemma_text_order(x@.0, rv[p as int].0, rv[q].0);
                }
            }
        }
        r.insert(p, x);
        proof {
            let nv = selections_view(r@);
            assert(nv =~= rv.insert(p as int, x@));
            assert forall|a: int, b: int| 0 <= a < b < nv.len() implies text_le(nv[a].0, nv[b].0) by {
                if a < p && b > p {
                    lemma_text_order(rv[a].0, x@.0, rv[b - 1].0);
                }
            }
            assert(selections_view(items@).take(i + 1) =~= selections_view(items@).take(
                i as int,
            ).push(x@));
            vstd::seq_lib::to_multiset_insert(rv, p as int, x@);
            vstd::seq_lib::to_multiset_build(selections_view(items@).take(i as int), x@);
        }
        i = i + 1;
    }
    assert(selections_view(items@).take(items@.len() as int) =~= selections_view(items@));
    r
}

/// The candidates with their dates and times trimmed.
pub open spec fn trimmed_candidates(v: Seq<(Seq<char>, Seq<char>, Seq<char>)>) -> Seq<
    (Seq<char>, Seq<char>, Seq<char>),
> {
    v.map_values(|c: (Seq<char>, Seq<char>, Seq<char>)| (c.0, trimmed(c.1), trimmed(c.2)))
}

/// A note as stored: trimmed, and absent when blank.
pub open spec fn stored_note(note: Option<Seq<char>>) -> Option<Seq<char>> {
    match note {
        Some(n) => if trimmed(n).len() > 0 {
            Some(trimmed(n))
        } else {
            None
        },
        None => None,
    }
}

/// Everything an event must satisfy to be stored, read on its normalized fields.
pub open spec fn new_event_acceptable(e: CreateRequest) -> bool {
    let name = trimmed(e.name@);
    let note = stored_note(crate::domain::account::text_of(e.organizer_note));
    let zone = trimmed(e.time_zone@);
    let cs = trimmed_candidates(cloud_candidates_view(e.candidates@));
    &&& is_cloud_id(e.id@)
    &&& is_display_name(name)
    &&& (note matches Some(n) ==> n.len() <= 500)
    &&& encode_utf8(zone).len() <= 64
    &&& is_hex_capability(e.organizer_capability@)
    &&& 1 <= cs.len() <= 20
    &&& crate::domain::fields::known_time_zone(zone)
    &&& forall|i: int| 0 <= i < cs.len() ==> #[trigger] candidate_acceptable(cs[i], zone)
    &&& forall|i: int, j: int|
        0 <= i < j < cs.len() ==> (cs[i].1, cs[i].2) != (cs[j].1, cs[j].2) && cs[i].0 != cs[j].0
}

/// A candidate with a well-formed identifier whose start exists once in `zone`.
pub open spec fn candidate_acceptable(c: (Seq<char>, Seq<char>, Seq<char>), zone: Seq<char>) -> bool {
    is_cloud_id(c.0) && datetime_acceptable(c.1, c.2, zone)
}

fn trim_note(note: &Option<String>) -> (r: Option<String>)
    ensures
        crate::domain::account::text_of(r) == stored_note(crate::domain::account::text_of(*note)),
{
    match note {
        Some(n) => {
            let t = trim(n.as_str());
            if t.as_str().unicode_len() > 0 {
                Some(t)
            } else {
                None
            }
        },
        None => None,
    }
}

/// Validate and normalize an event before it is stored: trimmed name, note and time
/// zone, trimmed candidate dates and times, candidates in identifier order.
#[verifier::loop_isolation(false)]
pub fn normalized_new_event(input: &CreateRequest) -> (r: Result<CreateRequest, ApiError>)
    ensures
        if new_event_acceptable(*input) {
            r matches Ok(e) && e.id@ == input.id@ && e.name@ == trimmed(input.name@)
                && crate::domain::account::text_of(e.organizer_note) == stored_note(
                crate::domain::account::text_of(input.organizer_note),
            ) && e.time_zone@ == trimmed(input.time_zone@) && e.organizer_capability@
                == input.organizer_capability@ && sorted_by_id(cloud_candidates_view(e.candidates@))
                && cloud_candidates_view(e.candidates@).to_multiset() == trimmed_candidates(
                cloud_candidates_view(input.candidates@),
            ).to_multiset()
        } else {
            r matches Err(e) && e.status == 400 && e.code@ == "invalid_request"@
        },
{
    let name = trim(input.name.as_str());
    let note = trim_note(&input.organizer_note);
    let zone = trim(input.time_zone.as_str());
    let n = input.candidates.len();
    let note_too_long = match &note {
        Some(t) => t.as_str().unicode_len() > 500,
        None => false,
    };
    if !identifier_valid(input.id.as_str()) || !name_valid(name.as_str()) || note_too_long
        || zone.as_str().as_bytes().len() > 64 || !capability_valid(
        input.organizer_capability.as_str(),
    ) || n == 0 || n > 20 {
        return Err(ApiError::invalid());
    }
    if !crate::domain::fields::time_zone_is_known(zone.as_str()) {
        return Err(ApiError::invalid());
    }
    let ghost raw = cloud_candidates_view(input.candidates@);
    let ghost cs = trimmed_candidates(raw);
    let mut trimmed_list: Vec<Candidate> = Vec::new();
    let mut i: usize = 0;
    while i < n
        invariant
            n == input.candidates@.len(),
            raw == cloud_candidates_view(input.candidates@),
            cs == trimmed_candidates(raw),
            i <= n,
            trimmed_list@.len() == i,
            forall|k: int| 0 <= k < i ==> #[trigger] trimmed_list@[k]@ == cs[k],
            forall|k: int| 0 <= k < i ==> #[trigger] candidate_acceptable(cs[k], zone@),
        decreases n - i,
    {
        let c = &input.candidates[i];
        let t = Candidate {
            id: c.id.clone(),
            local_date: trim(c.local_date.as_str()),
            local_time: trim(c.local_time.as_str()),
        };
        if !identifier_valid(t.id.as_str()) || !datetime_valid(
            t.local_date.as_str(),
            t.local_time.as_str(),
            zone.as_str(),
        ) {
            assert(t@ == cs[i as int]);
            assert(!candidate_acceptable(cs[i as int], zone@));
            return Err(ApiError::invalid());
        }
        assert(candidate_acceptable(cs[i as int], zone@));
        trimmed_list.push(t);
        i = i + 1;
    }
    assert(cloud_candidates_view(trimmed_list@) =~= cs);
    let mut a: usize = 0;
    while a < n
        invariant
            n == trimmed_list@.len(),
            cs == cloud_candidates_view(trimmed_list@),
            a <= n,
            forall|x: int, y: int|
                0 <= x < y < n && x < a ==> (cs[x].1, cs[x].2) != (cs[y].1, cs[y].2) && cs[x].0
                    != cs[y].0,
        decreases n - a,
    {
        let mut b: usize = a + 1;
        while b < n
            invariant
                n == trimmed_list@.len(),
                cs == cloud_candidates_view(trimmed_list@),
                a < n,
                a + 1 <= b <= n,
                forall|x: int, y: int|
                    0 <= x < y < n && x < a ==> (cs[x].1, cs[x].2) != (cs[y].1, cs[y].2) && cs[x].0
                        != cs[y].0,
                forall|y: int|
                    a < y < b ==> (cs[a as int].1, cs[a as int].2) != (cs[y].1, cs[y].2)
                        && cs[a as int].0 != cs[y].0,
            decreases n - b,
        {
            let x = &trimmed_list[a];
            let y = &trimmed_list[b];
            if (str_eq(x.local_date.as_str(), y.local_date.as_str()) && str_eq(
                x.local_time.as_str(),
                y.local_time.as_str(),
            )) || str_eq(x.id.as_str(), y.id.as_str()) {
                assert(cs[a as int] == trimmed_list@[a as int]@);
                assert(cs[b as int] == trimmed_list@[b as int]@);
                return Err(ApiError::invalid());
            }
            assert(cs[a as int] == trimmed_list@[a as int]@);
            assert(cs[b as int] == trimmed_list@[b as int]@);
            b = b + 1;
        }
        a = a + 1;
    }
    let sorted = sort_by_id(&trimmed_list);
    Ok(
        CreateRequest {
            id: input.id.clone(),
            name,
            organizer_capability: input.organizer_capability.clone(),
            time_zone: zone,
            organizer_note: note,
            candidates: sorted,
        },
    )
}

/// Everything an answer must satisfy to be stored.
pub open spec fn new_response_acceptable(a: Answer) -> bool {
    let c = selections_view(a.availabilities@);
    &&& is_display_name(trimmed(a.respondent_name@))
    &&& 1 <= c.len() <= 20
    &&& forall|i: int| 0 <= i < c.len() ==> is_cloud_id(#[trigger] c[i].0)
    &&& keys_distinct(c)
}

/// Validate and normalize an answer before it is stored: trimmed name, choices in
/// candidate-identifier order.
pub fn normalized_new_response(input: &Answer) -> (r: Result<Answer, ApiError>)
    ensures
        if new_response_acceptable(*input) {
            r matches Ok(a) && a.respondent_name@ == trimmed(input.respondent_name@)
                && selections_sorted(selections_view(a.availabilities@)) && selections_view(
                a.availabilities@,
            ).to_multiset() == selections_view(input.availabilities@).to_multiset()
        } else {
            r matches Err(e) && e.status == 400 && e.code@ == "invalid_request"@
        },
{
    let name = trim(input.respondent_name.as_str());
    let n = input.availabilities.len();
    if !name_valid(name.as_str()) || n == 0 || n > 20 {
        return Err(ApiError::invalid());
    }
    let ghost c = selections_view(input.availabilities@);
    let mut i: usize = 0;
    while i < n
        invariant
            n == input.availabilities@.len(),
            c == selections_view(input.availabilities@),
            i <= n,
            forall|k: int| 0 <= k < i ==> is_cloud_id(#[trigger] c[k].0),
        decreases n - i,
    {
        if !identifier_valid(input.availabilities[i].candidate_id.as_str()) {
            assert(!is_cloud_id(c[i as int].0));
            return Err(ApiError::invalid());
        }
        i = i + 1;
    }
    if !selection_keys_distinct(&input.availabilities) {
        return Err(ApiError::invalid());
    }
    let sorted = sort_selections(&input.availabilities);
    Ok(Answer { respondent_name: name, availabilities: sorted })
}

/// One answered candidate of one stored response, as the organizer's query returns it.
pub struct AnswerRow {
    pub response_id: String,
    pub respondent_name: String,
    pub candidate_id: String,
    pub availability: Availability,
}

impl View for AnswerRow {
    type V = (Seq<char>, Seq<char>, Seq<char>, Availability);

    open spec fn view(&self) -> (Seq<char>, Seq<char>, Seq<char>, Availability) {
        (self.response_id@, self.respondent_name@, self.candidate_id@, self.availability)
    }
}

pub type RowView = (Seq<char>, Seq<char>, Seq<char>, Availability);

pub type GroupView = (Seq<char>, Seq<char>, Seq<(Seq<char>, Availability)>);

pub open spec fn rows_view(v: Seq<AnswerRow>) -> Seq<RowView> {
    v.map_values(|r: AnswerRow| r@)
}

pub open spec fn groups_view(v: Seq<ResponseView>) -> Seq<GroupView> {
    v.map_values(|g: ResponseView| (g.response_id@, g.respondent_name@, selections_view(g.availabilities@)))
}

/// `a` comes strictly before `b`.
pub open spec fn text_lt(a: Seq<char>, b: Seq<char>) -> bool {
    text_le(a, b) && a != b
}

/// The first group with identifier `id`.
pub open spec fn group_index(gs: Seq<GroupView>, id: Seq<char>) -> Option<int>
    decreases gs.len(),
{
    if gs.len() == 0 {
        None
    } else if gs[0].0 == id {
        Some(0)
    } else {
        match group_index(gs.drop_first(), id) {
            Some(i) => Some(i + 1),
            None => None,
        }
    }
}

/// How many groups have an identifier before `id`.
pub open spec fn groups_before(gs: Seq<GroupView>, id: Seq<char>) -> int
    decreases gs.len(),
{
    if gs.len() == 0 {
        0
    } else {
        groups_before(gs.drop_last(), id) + if text_lt(gs.last().0, id) {
            1int
        } else {
            0int
        }
    }
}

/// One row added to the groups: appended to its response's group, or starting a new
/// group at its place in identifier order.
pub open spec fn add_row(gs: Seq<GroupView>, r: RowView) -> Seq<GroupView> {
    match group_index(gs, r.0) {
        Some(i) => gs.update(i, (gs[i].0, gs[i].1, gs[i].2.push((r.2, r.3)))),
        None => gs.insert(groups_before(gs, r.0), (r.0, r.1, seq![(r.2, r.3)])),
    }
}

/// The rows grouped by response, the groups in identifier order, each keeping the
/// respondent name of its first row and its rows' choices in row order.
pub open spec fn grouped(rows: Seq<RowView>) -> Seq<GroupView>
    decreases rows.len(),
{
    if rows.len() == 0 {
        Seq::empty()
    } else {
        add_row(grouped(rows.drop_last()), rows.last())
    }
}

proof fn lemma_group_index(gs: Seq<GroupView>, id: Seq<char>, i: int)
    requires
        0 <= i <= gs.len(),
        forall|k: int| 0 <= k < i ==> gs[k].0 != id,
        i == gs.len() || gs[i].0 == id,
    ensures
        group_index(gs, id) == if i == gs.len() {
            None
        } else {
            Some(i)
        },
    decreases i,
{
    if i > 0 {
        lemma_group_index(gs.drop_first(), id, i - 1);
    }
}

/// Group the organizer's answer rows into one view per response.
pub fn group_answer_rows(rows: Vec<AnswerRow>) -> (r: Vec<ResponseView>)
    ensures
        groups_view(r@) == grouped(rows_view(rows@)),
{
    let mut groups: Vec<ResponseView> = Vec::new();
    let ghost rv = rows_view(rows@);
    let mut i: usize = 0;
    assert(rv.take(0) =~= Seq::<RowView>::empty());
    assert(groups_view(groups@) =~= Seq::<GroupView>::empty());
    while i < rows.len()
        invariant
            i <= rows@.len(),
            rv == rows_view(rows@),
            groups_view(groups@) == grouped(rv.take(i as int)),
        decreases rows.len() - i,
    {
        let row = &rows[i];
        let ghost gv = groups_view(groups@);
        assert(rv.take(i + 1).drop_last() =~= rv.take(i as int));
        assert(rv.take(i + 1).last() == row@);
        let mut j: usize = 0;
        while j < groups.len() && !str_eq(groups[j].response_id.as_str(), row.response_id.as_str())
            invariant
                j <= groups@.len(),
                gv == groups_view(groups@),
                forall|k: int| 0 <= k < j ==> gv[k].0 != row.response_id@,
            decreases groups.len() - j,
        {
            j = j + 1;
        }
        proof {
            lemma_group_index(gv, row.response_id@, j as int);
        }
        let selection = Selection {
            candidate_id: row.candidate_id.clone(),
            availability: row.availability,
        };
        if j < groups.len() {
            let mut g = ResponseView {
                response_id: groups[j].response_id.clone(),
                respondent_name: groups[j].respondent_name.clone(),
                availabilities: Vec::new(),
            };
            let mut k: usize = 0;
            while k < groups[j].availabilities.len()
                invariant
                    j < groups@.len(),
                    k <= groups@[j as int].availabilities@.len(),
                    g.response_id@ == groups@[j as int].response_id@,
                    g.respondent_name@ == groups@[j as int].respondent_name@,
                    g.availabilities@.len() == k,
                    forall|m: int| 0 <= m < k ==> #[trigger] g.availabilities@[m]@
                        == groups@[j as int].availabilities@[m]@,
                decreases groups@[j as int].availabilities@.len() - k,
            {
                g.availabilities.push(copy_selection(&groups[j].availabilities[k]));
                k = k + 1;
            }
            g.availabilities.push(selection);
            proof {
                assert(selections_view(g.availabilities@) =~= selections_view(
                    groups@[j as int].availabilities@,
                ).push((row.candidate_id@, row.availability)));
            }
            let ghost gnew = (g.response_id@, g.respondent_name@, selections_view(g.availabilities@));
            let ghost old_groups = groups@;
            assert(gv[j as int] == (groups@[j as int].response_id@, groups@[j as int].respondent_name@, selections_view(groups@[j as int].availabilities@)));
            assert(gnew.0 == gv[j as int].0);
            assert(gnew.1 == gv[j as int].1);
            assert(gnew.2 == gv[j as int].2.push((row.candidate_id@, row.availability)));
            assert(gnew == (gv[j as int].0, gv[j as int].1, gv[j as int].2.push(
                (row.candidate_id@, row.availability),
            )));
            groups.set(j, g);
            proof {
                assert(groups@ == old_groups.update(j as int, groups@[j as int]));
                assert(groups_view(groups@) =~= gv.update(j as int, gnew));
                assert(add_row(gv, row@) == gv.update(j as int, gnew));
            }
        } else {
            let mut p: usize = 0;
            let mut count: usize = 0;
            assert(gv.take(0) =~= Seq::<GroupView>::empty());
            while p < groups.len()
                invariant
                    p <= groups@.len(),
                    gv == groups_view(groups@),
                    count <= p,
                    count == groups_before(gv.take(p as int), row.response_id@),
                decreases groups.len() - p,
            {
                assert(gv.take(p + 1).drop_last() =~= gv.take(p as int));
                let before = text_less_or_equal(groups[p].response_id.as_str(), row.response_id.as_str())
                    && !str_eq(groups[p].response_id.as_str(), row.response_id.as_str());
                if before {
                    count = count + 1;
                }
                p = p + 1;
            }
            assert(gv.take(gv.len() as int) =~= gv);
            let mut sels: Vec<Selection> = Vec::new();
            sels.push(selection);
            groups.insert(
                count,
                ResponseView {
                    response_id: row.response_id.clone(),
                    respondent_name: row.respondent_name.clone(),
                    availabilities: sels,
                },
            );
            proof {
                assert(selections_view(groups@[count as int].availabilities@) =~= seq![
                    (row.candidate_id@, row.availability),
                ]);
                assert(groups_view(groups@) =~= add_row(gv, row@));
            }
        }
        i = i + 1;
    }
    assert(rv.take(rows@.len() as int) =~= rv);
    groups
}

} // verus!
