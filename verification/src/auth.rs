//! Session tokens, cookies, request origins and the login throttle.

use vstd::prelude::*;
use vstd::string::*;
use vstd::utf8::encode_utf8;
use sha2::Digest;
use argon2::{PasswordHasher, PasswordVerifier};
use crate::domain::account::text_of;
use crate::domain::fields::{capability_is_valid, is_capability};
use crate::text::{
    ascii_lowercased, decimal, find_char, first_index, is_white_space, lemma_decimal_digits,
    lemma_first_index, lemma_first_index_bound, lemma_trimmed_identity, push_char, push_decimal,
    str_eq, to_ascii_lowercase, trim, trimmed,
};

verus! {

/// Hexadecimal digits in a raw session token.
pub const SESSION_TOKEN_HEX_LENGTH: usize = 64;

/// Lifetime of an account session cookie: thirty days.
pub const SESSION_MAX_AGE_SECONDS: i64 = 2592000;

/// Identifiers a login throttle tracks unless told otherwise.
pub const DEFAULT_MAXIMUM_TRACKED_IDENTIFIERS: usize = 4096;

/// Memory cost of a password hash, in KiB.
pub const PASSWORD_MEMORY_KIB: u32 = 19456;

/// Passes over the memory of a password hash.
pub const PASSWORD_PASSES: u32 = 2;

/// Lanes of a password hash.
pub const PASSWORD_LANES: u32 = 1;

/// Octets of a password hash's output.
pub const PASSWORD_HASH_BYTES: usize = 32;

/// The Argon2 version number of a password hash (version 1.3).
pub const PASSWORD_ARGON2_VERSION: u32 = 0x13;

/// The PHC string that Argon2id with `memory_kib` KiB of memory, `passes` passes, `lanes`
/// lanes, an `output_len`-octet output and version `version` gives for `password` under
/// `salt`, or `None` where the `argon2` crate refuses them.
pub uninterp spec fn argon2id_phc(
    password: Seq<u8>,
    salt: Seq<u8>,
    memory_kib: u32,
    passes: u32,
    lanes: u32,
    output_len: usize,
    version: u32,
) -> Option<Seq<char>>;

/// What `Argon2::verify_password`, on a context built with the given cost parameters and
/// version, answers for `password` against the PHC string `phc`: whether it matches, or
/// `None` where the `argon2` crate cannot read `phc` or refuses the parameters.
pub uninterp spec fn argon2id_verifies(
    password: Seq<u8>,
    phc: Seq<char>,
    memory_kib: u32,
    passes: u32,
    lanes: u32,
    output_len: usize,
    version: u32,
) -> Option<bool>;

/// The PHC string of a password hash under this library's parameters.
pub open spec fn password_phc(password: Seq<u8>, salt: Seq<u8>) -> Option<Seq<char>> {
    argon2id_phc(
        password,
        salt,
        PASSWORD_MEMORY_KIB,
        PASSWORD_PASSES,
        PASSWORD_LANES,
        PASSWORD_HASH_BYTES,
        PASSWORD_ARGON2_VERSION,
    )
}

/// Whether `password` matches the PHC string `phc`, checked under this library's parameters.
pub open spec fn password_verifies(password: Seq<u8>, phc: Seq<char>) -> Option<bool> {
    argon2id_verifies(
        password,
        phc,
        PASSWORD_MEMORY_KIB,
        PASSWORD_PASSES,
        PASSWORD_LANES,
        PASSWORD_HASH_BYTES,
        PASSWORD_ARGON2_VERSION,
    )
}

/// `Argon2::hash_password` with Argon2id, the given cost parameters and version, and the
/// salt `salt` (in its B64 form); the contract names the result and claims nothing more
/// of it.
#[verifier::external_body]
fn argon2id_hash(
    password: &[u8],
    salt: &[u8],
    memory_kib: u32,
    passes: u32,
    lanes: u32,
    output_len: usize,
    version: u32,
) -> (r: Option<String>)
    ensures
        text_of(r) == argon2id_phc(password@, salt@, memory_kib, passes, lanes, output_len, version),
{
    let params = argon2::Params::new(memory_kib, passes, lanes, Some(output_len)).ok()?;
    let version = argon2::Version::try_from(version).ok()?;
    let context = argon2::Argon2::new(argon2::Algorithm::Argon2id, version, params);
    let salt = argon2::password_hash::SaltString::encode_b64(salt).ok()?;
    context.hash_password(password, &salt).ok().map(|hash| hash.to_string())
}

/// `PasswordHash::new` on `phc` followed by `Argon2::verify_password` on an Argon2id
/// context with the given cost parameters and version; the contract names the result and
/// claims nothing more of it.
#[verifier::external_body]
fn argon2id_check(
    password: &[u8],
    phc: &str,
    memory_kib: u32,
    passes: u32,
    lanes: u32,
    output_len: usize,
    version: u32,
) -> (r: Option<bool>)
    ensures
        r == argon2id_verifies(password@, phc@, memory_kib, passes, lanes, output_len, version),
{
    let parsed = argon2::PasswordHash::new(phc).ok()?;
    let params = argon2::Params::new(memory_kib, passes, lanes, Some(output_len)).ok()?;
    let version = argon2::Version::try_from(version).ok()?;
    let context = argon2::Argon2::new(argon2::Algorithm::Argon2id, version, params);
    Some(context.verify_password(password, &parsed).is_ok())
}

/// The Argon2id PHC string of `password` under `salt`.
pub fn hash_password_with_salt(password: &str, salt: &[u8]) -> (r: Option<String>)
    ensures
        text_of(r) == password_phc(encode_utf8(password@), salt@),
{
    argon2id_hash(
        password.as_bytes(),
        salt,
        PASSWORD_MEMORY_KIB,
        PASSWORD_PASSES,
        PASSWORD_LANES,
        PASSWORD_HASH_BYTES,
        PASSWORD_ARGON2_VERSION,
    )
}

/// Whether `password` matches the stored PHC string; `None` for a malformed one.
pub fn verify_password_phc(password: &str, phc: &str) -> (r: Option<bool>)
    ensures
        r == password_verifies(encode_utf8(password@), phc@),
{
    argon2id_check(
        password.as_bytes(),
        phc,
        PASSWORD_MEMORY_KIB,
        PASSWORD_PASSES,
        PASSWORD_LANES,
        PASSWORD_HASH_BYTES,
        PASSWORD_ARGON2_VERSION,
    )
}

/// The SHA-256 digest of `data`.
pub uninterp spec fn sha256(data: Seq<u8>) -> Seq<u8>;

/// `sha2::Sha256::digest`: the 32-octet SHA-256 digest of `data`.
#[verifier::external_body]
pub(crate) fn sha256_digest(data: &[u8]) -> (d: [u8; 32])
    ensures
        d@ == sha256(data@),
{
    sha2::Sha256::digest(data).into()
}

/// Two `uuid::Uuid::new_v4()` values in their simple form, each 32 lowercase hexadecimal
/// digits: a fresh random 64-digit bearer token.
#[verifier::external_body]
pub fn issue_session_token() -> (t: String)
    ensures
        is_capability(t@),
{
    format!("{}{}", uuid::Uuid::new_v4().simple(), uuid::Uuid::new_v4().simple())
}

/// The stored digest of a raw session token.
pub open spec fn session_digest(raw_token: Seq<char>) -> Seq<u8> {
    sha256(encode_utf8(raw_token))
}

/// Validate and hash a raw session bearer: 64 lowercase hexadecimal digits, hashed with
/// SHA-256.
pub fn hash_session_token(raw_token: &str) -> (r: Option<[u8; 32]>)
    ensures
        match r {
            Some(d) => is_capability(raw_token@) && d@ == session_digest(raw_token@),
            None => !is_capability(raw_token@),
        },
{
    if !capability_is_valid(raw_token) {
        return None;
    }
    Some(sha256_digest(raw_token.as_bytes()))
}

/// A host-specific account cookie, keeping malformed material apart for explicit expiry.
#[derive(Clone, Copy, PartialEq, Eq)]
pub enum PresentedSession {
    Absent,
    Invalid,
    Digest([u8; 32]),
}

impl PresentedSession {
    pub fn digest(&self) -> (r: Option<&[u8; 32]>)
        ensures
            match *self {
                PresentedSession::Digest(d) => r == Some(&d),
                _ => r is None,
            },
    {
        match self {
            PresentedSession::Digest(digest) => Some(digest),
            PresentedSession::Absent => None,
            PresentedSession::Invalid => None,
        }
    }
}

/// Cookie attributes derived only from an explicit HTTPS or loopback HTTP origin.
#[derive(Clone, Debug, PartialEq, Eq)]
pub struct SessionCookiePolicy {
    origin: String,
    name: String,
    secure: bool,
}

pub open spec fn secure_suffix(secure: bool) -> Seq<char> {
    if secure {
        "; Secure"@
    } else {
        Seq::empty()
    }
}

/// The value of the first cookie pair in `header` named `name`: pairs are separated by
/// `;`, trimmed, and split at their first `=`; a pair without `=` is skipped.
pub open spec fn cookie_value(header: Seq<char>, name: Seq<char>) -> Option<Seq<char>>
    decreases header.len(),
{
    proof {
        lemma_first_index_bound(header, ';');
    }
    let end = first_index(header, ';');
    let pair = trimmed(header.take(end));
    let eq = first_index(pair, '=');
    if eq < pair.len() && pair.take(eq) == name {
        Some(pair.skip(eq + 1))
    } else if end >= header.len() {
        None
    } else {
        cookie_value(header.skip(end + 1), name)
    }
}

/// A cookie name that reads back unambiguously: not empty, not starting with white space,
/// and without `;` or `=`.
pub open spec fn plain_cookie_name(n: Seq<char>) -> bool {
    &&& n.len() > 0
    &&& !is_white_space(n[0])
    &&& forall|i: int| 0 <= i < n.len() ==> #[trigger] n[i] != ';' && n[i] != '='
}

/// A `name=value` pair, sent alone, reads back as its value.
proof fn lemma_cookie_pair_read_back(name: Seq<char>, value: Seq<char>)
    requires
        plain_cookie_name(name),
        value.len() > 0,
        !is_white_space(value.last()),
        forall|i: int| 0 <= i < value.len() ==> #[trigger] value[i] != ';',
    ensures
        cookie_value(name + "="@ + value, name) == Some(value),
{
    reveal_strlit("=");
    let h = name + "="@ + value;
    assert forall|k: int| 0 <= k < h.len() implies h[k] != ';' by {
        if k < name.len() {
            assert(h[k] == name[k]);
        } else if k > name.len() {
            assert(h[k] == value[k - name.len() - 1]);
        }
    }
    lemma_first_index(h, ';', h.len() as int);
    assert(h.take(h.len() as int) =~= h);
    assert(h[0] == name[0]);
    assert(h.last() == value.last());
    lemma_trimmed_identity(h);
    assert forall|k: int| 0 <= k < name.len() implies h[k] != '=' by {
        assert(h[k] == name[k]);
    }
    assert(h[name.len() as int] == '=');
    lemma_first_index(h, '=', name.len() as int);
    assert(h.take(name.len() as int) =~= name);
    assert(h.skip(name.len() as int + 1) =~= value);
}

/// The session cookie a policy sets comes back from the browser's `Cookie` header as the
/// same token: for every origin a policy accepts and every well-formed token, the pair
/// `name=token` reads back as the token, so the presented session is that token's digest.
pub proof fn lemma_session_cookie_read_back(parts: Option<UriPartsView>, loopback: bool, token: Seq<char>)
    requires
        origin_policy(parts, loopback) is Ok,
        is_capability(token),
    ensures
        ({
            let name = origin_policy(parts, loopback)->Ok_0.1;
            cookie_value(name + "="@ + token, name) == Some(token)
        }),
{
    let name = origin_policy(parts, loopback)->Ok_0.1;
    reveal_strlit("__Host-tsunoru-session");
    reveal_strlit("tsunoru-session-local-");
    let p = parts->Some_0;
    if p.scheme == Some("https"@) {
        assert(name == "__Host-tsunoru-session"@);
    } else {
        let port: u16 = match p.port {
            Some(x) => x,
            None => 80,
        };
        let prefix = "tsunoru-session-local-"@;
        let digits = decimal(port as nat);
        lemma_decimal_digits(port as nat);
        assert(name == prefix + digits);
        assert forall|i: int| 0 <= i < name.len() implies #[trigger] name[i] != ';' && name[i] != '=' by {
            if i >= prefix.len() {
                assert(name[i] == digits[i - prefix.len()]);
                assert(crate::text::is_ascii_digit(digits[i - prefix.len()]));
            }
        }
        assert(name[0] == 't');
    }
    assert(token.last() == token[token.len() - 1]);
    assert(crate::text::is_lower_hex(token[token.len() - 1]));
    assert forall|i: int| 0 <= i < token.len() implies #[trigger] token[i] != ';' by {
        assert(crate::text::is_lower_hex(token[i]));
    }
    lemma_cookie_pair_read_back(name, token);
}

impl SessionCookiePolicy {
    pub closed spec fn spec_origin(&self) -> Seq<char> {
        self.origin@
    }

    pub closed spec fn spec_name(&self) -> Seq<char> {
        self.name@
    }

    pub closed spec fn spec_secure(&self) -> bool {
        self.secure
    }

    pub fn origin(&self) -> (s: &str)
        ensures
            s@ == self.spec_origin(),
    {
        self.origin.as_str()
    }

    pub fn name(&self) -> (s: &str)
        ensures
            s@ == self.spec_name(),
    {
        self.name.as_str()
    }

    /// The cookie that carries `raw_token` for thirty days.
    pub fn set_cookie_header(&self, raw_token: &str) -> (h: String)
        requires
            is_capability(raw_token@),
        ensures
            h@ == self.spec_name() + "="@ + raw_token@
                + "; Path=/; HttpOnly; SameSite=Lax; Max-Age=2592000"@ + secure_suffix(
                self.spec_secure(),
            ),
    {
        let h = self.name.clone().concat("=").concat(raw_token).concat(
            "; Path=/; HttpOnly; SameSite=Lax; Max-Age=2592000",
        );
        if self.secure {
            h.concat("; Secure")
        } else {
            proof {
                assert(h@ + Seq::<char>::empty() =~= h@);
            }
            h
        }
    }

    /// The cookie that expires the session at once.
    pub fn clear_cookie_header(&self) -> (h: String)
        ensures
            h@ == self.spec_name() + "=; Path=/; HttpOnly; SameSite=Lax; Max-Age=0"@
                + secure_suffix(self.spec_secure()),
    {
        let h = self.name.clone().concat("=; Path=/; HttpOnly; SameSite=Lax; Max-Age=0");
        if self.secure {
            h.concat("; Secure")
        } else {
            proof {
                assert(h@ + Seq::<char>::empty() =~= h@);
            }
            h
        }
    }

    /// The session that a request's `Cookie` header presents under this policy's name.
    pub fn presented_session_from_cookie_header(&self, cookie_header: Option<&str>) -> (r:
        PresentedSession)
        ensures
            match cookie_header {
                None => r == PresentedSession::Absent,
                Some(h) => match cookie_value(h@, self.spec_name()) {
                    None => r == PresentedSession::Absent,
                    Some(v) => if is_capability(v) {
                        r matches PresentedSession::Digest(d) && d@ == session_digest(v)
                    } else {
                        r == PresentedSession::Invalid
                    },
                },
            },
    {
        let header = match cookie_header {
            Some(h) => h,
            None => return PresentedSession::Absent,
        };
        let n = header.unicode_len();
        let mut start: usize = 0;
        proof {
            assert(header@.skip(0) =~= header@);
        }
        loop
            invariant
                cookie_header == Some(header),
                n == header@.len(),
                start <= n,
                cookie_value(header@, self.name@) == cookie_value(
                    header@.skip(start as int),
                    self.name@,
                ),
            decreases n - start,
        {
            let ghost rest = header@.skip(start as int);
            let end = find_char(header, ';', start);
            proof {
                lemma_first_index(rest, ';', end - start);
                assert(rest.take(end - start) =~= header@.subrange(start as int, end as int));
            }
            let pair = trim(header.substring_char(start, end));
            let m = pair.as_str().unicode_len();
            let eq = find_char(pair.as_str(), '=', 0);
            proof {
                lemma_first_index(pair@, '=', eq as int);
            }
            let found = eq < m && str_eq(pair.as_str().substring_char(0, eq), self.name.as_str());
            proof {
                let cut = end - start;
                assert(first_index(rest, ';') == cut);
                assert(pair@ == trimmed(rest.take(cut)));
                assert(first_index(pair@, '=') == eq);
                if eq < m {
                    assert(pair@.subrange(0, eq as int) =~= pair@.take(eq as int));
                }
                assert(found == (eq < pair@.len() && pair@.take(eq as int) == self.name@));
                assert(rest.len() == n - start);
                if !found && end < n {
                    assert(rest.skip(cut + 1) =~= header@.skip(end + 1));
                }
                assert(cookie_value(rest, self.name@) == if found {
                    Some(pair@.skip(eq + 1))
                } else if end >= n {
                    None
                } else {
                    cookie_value(header@.skip(end + 1), self.name@)
                });
            }
            if found {
                let value = pair.as_str().substring_char(eq + 1, m);
                proof {
                    assert(pair@.skip(eq + 1) =~= value@);
                }
                return match hash_session_token(value) {
                    Some(d) => PresentedSession::Digest(d),
                    None => PresentedSession::Invalid,
                };
            }
            if end >= n {
                return PresentedSession::Absent;
            }
            start = end + 1;
        }
    }
}

// ---------------------------------------------------------------------------
// URIs and origins
// ---------------------------------------------------------------------------

/// The parts of a parsed URI that origin checks read.
pub struct UriParts {
    pub scheme: Option<String>,
    pub authority: Option<String>,
    pub host: Option<String>,
    pub port: Option<u16>,
    pub path: String,
    pub has_query: bool,
}

pub struct UriPartsView {
    pub scheme: Option<Seq<char>>,
    pub authority: Option<Seq<char>>,
    pub host: Option<Seq<char>>,
    pub port: Option<u16>,
    pub path: Seq<char>,
    pub has_query: bool,
}

impl View for UriParts {
    type V = UriPartsView;

    open spec fn view(&self) -> UriPartsView {
        UriPartsView {
            scheme: text_of(self.scheme),
            authority: text_of(self.authority),
            host: text_of(self.host),
            port: self.port,
            path: self.path@,
            has_query: self.has_query,
        }
    }
}

/// What `http::Uri` parses out of `text`, if it parses at all.
pub uninterp spec fn uri_parts(text: Seq<char>) -> Option<UriPartsView>;

/// `text.parse::<http::Uri>()` with its scheme, authority, the authority's host and
/// port, its path and whether it has a query; the host is present exactly when the
/// authority is, being read from it.
#[verifier::external_body]
fn parse_uri(text: &str) -> (r: Option<UriParts>)
    ensures
        uri_parts(text@) == match r {
            Some(p) => Some(p@),
            None => None::<UriPartsView>,
        },
        r matches Some(p) ==> (p.authority is Some <==> p.host is Some),
{
    let uri = text.parse::<http::Uri>().ok()?;
    Some(UriParts {
        scheme: uri.scheme_str().map(str::to_owned),
        authority: uri.authority().map(|a| a.as_str().to_owned()),
        host: uri.authority().map(|a| a.host().to_owned()),
        port: uri.authority().and_then(|a| a.port_u16()),
        path: uri.path().to_owned(),
        has_query: uri.query().is_some(),
    })
}

/// The origin, `scheme://authority`, of an absolute URI.
pub open spec fn uri_origin_text(value: Seq<char>) -> Option<Seq<char>> {
    match uri_parts(value) {
        Some(p) => match (p.scheme, p.authority) {
            (Some(scheme), Some(authority)) => Some(scheme + "://"@ + authority),
            _ => None,
        },
        None => None,
    }
}

/// The origin of `value`, when it is an absolute URI.
pub fn uri_origin(value: &str) -> (r: Option<String>)
    ensures
        text_of(r) == uri_origin_text(value@),
{
    let parts = match parse_uri(value) {
        Some(p) => p,
        None => return None,
    };
    match (parts.scheme, parts.authority) {
        (Some(scheme), Some(authority)) => Some(scheme.concat("://").concat(authority.as_str())),
        _ => None,
    }
}

/// Whether `prefix` begins `s`.
fn str_starts_with(s: &str, prefix: &str) -> (r: bool)
    ensures
        r == prefix@.is_prefix_of(s@),
{
    let n = prefix.unicode_len();
    if n > s.unicode_len() {
        return false;
    }
    let mut i: usize = 0;
    while i < n
        invariant
            n == prefix@.len(),
            n <= s@.len(),
            i <= n,
            forall|k: int| 0 <= k < i ==> prefix@[k] == s@[k],
        decreases n - i,
    {
        if prefix.get_char(i) != s.get_char(i) {
            return false;
        }
        i = i + 1;
    }
    true
}

/// A method that changes state.
pub open spec fn is_unsafe_method(method: Seq<char>) -> bool {
    method == "POST"@ || method == "PUT"@ || method == "PATCH"@ || method == "DELETE"@
}

/// A path under `/api`.
pub open spec fn is_api_path(path: Seq<char>) -> bool {
    path == "/api"@ || "/api/"@.is_prefix_of(path)
}

/// Same-origin browser writes pass; an unsafe API request passes only when its `Origin`,
/// or in its absence the origin of its `Referer`, is the expected origin.
pub open spec fn origin_allowed(
    method: Seq<char>,
    path: Seq<char>,
    origin: Option<Seq<char>>,
    referer: Option<Seq<char>>,
    expected: Seq<char>,
) -> bool {
    if !(is_unsafe_method(method) && is_api_path(path)) {
        true
    } else {
        match origin {
            Some(o) => o == expected,
            None => match referer {
                Some(r) => uri_origin_text(r) == Some(expected),
                None => false,
            },
        }
    }
}

pub open spec fn str_text(o: Option<&str>) -> Option<Seq<char>> {
    match o {
        Some(s) => Some(s@),
        None => None,
    }
}

/// Accept same-origin browser writes and reject unverifiable unsafe API requests.
pub fn request_origin_is_allowed(
    method: &str,
    path: &str,
    origin: Option<&str>,
    referer: Option<&str>,
    expected_origin: &str,
) -> (b: bool)
    ensures
        b == origin_allowed(method@, path@, str_text(origin), str_text(referer), expected_origin@),
{
    let unsafe_method = str_eq(method, "POST") || str_eq(method, "PUT") || str_eq(method, "PATCH")
        || str_eq(method, "DELETE");
    let api = str_eq(path, "/api") || str_starts_with(path, "/api/");
    if !(unsafe_method && api) {
        return true;
    }
    match origin {
        Some(o) => str_eq(o, expected_origin),
        None => match referer {
            Some(r) => match uri_origin(r) {
                Some(found) => str_eq(found.as_str(), expected_origin),
                None => false,
            },
            None => false,
        },
    }
}

pub open spec fn msg_origin_not_uri() -> Seq<char> {
    "public origin must be an absolute HTTP URI"@
}

pub open spec fn msg_origin_no_scheme() -> Seq<char> {
    "public origin is missing its scheme"@
}

pub open spec fn msg_origin_no_authority() -> Seq<char> {
    "public origin is missing its authority"@
}

pub open spec fn msg_origin_has_path() -> Seq<char> {
    "public origin must not contain a path or query"@
}

pub open spec fn msg_origin_insecure() -> Seq<char> {
    "insecure account cookies are limited to loopback development"@
}

pub open spec fn msg_host_invalid() -> Seq<char> {
    "request Host is not a valid authority"@
}

pub open spec fn msg_host_no_authority() -> Seq<char> {
    "request Host is missing its authority"@
}

pub open spec fn msg_host_not_loopback() -> Seq<char> {
    "unconfigured public origin is not loopback"@
}

/// The cookie policy, as (origin, cookie name, secure), for a parsed public origin whose
/// host is loopback or not: HTTPS gets a `__Host-` cookie; plain HTTP is allowed on a
/// loopback host only, with a cookie named after the port.
pub open spec fn origin_policy(parts: Option<UriPartsView>, loopback: bool) -> Result<
    (Seq<char>, Seq<char>, bool),
    Seq<char>,
> {
    match parts {
        None => Err(msg_origin_not_uri()),
        Some(p) => match p.scheme {
            None => Err(msg_origin_no_scheme()),
            Some(scheme) => match p.authority {
                None => Err(msg_origin_no_authority()),
                Some(authority) => if p.has_query || !(p.path == Seq::<char>::empty() || p.path
                    == "/"@) {
                    Err(msg_origin_has_path())
                } else {
                    let origin = scheme + "://"@ + authority;
                    if scheme == "https"@ {
                        Ok((origin, "__Host-tsunoru-session"@, true))
                    } else if scheme != "http"@ || !loopback {
                        Err(msg_origin_insecure())
                    } else {
                        let port: u16 = match p.port {
                            Some(x) => x,
                            None => 80,
                        };
                        Ok((origin, "tsunoru-session-local-"@ + decimal(port as nat), false))
                    }
                },
            },
        },
    }
}

/// A constructed policy, or an error message, as plain text.
pub open spec fn policy_outcome(r: Result<SessionCookiePolicy, String>) -> Result<
    (Seq<char>, Seq<char>, bool),
    Seq<char>,
> {
    match r {
        Ok(p) => Ok((p.spec_origin(), p.spec_name(), p.spec_secure())),
        Err(e) => Err(e@),
    }
}

pub open spec fn request_origin_text(authority: Seq<char>, host: Seq<char>, port: Option<u16>) -> Seq<
    char,
> {
    match port {
        None => "http://"@ + authority,
        Some(x) => "http://"@ + (if host.contains(':') {
            "["@ + host + "]"@
        } else {
            host
        }) + ":"@ + decimal(x as nat),
    }
}

/// `verdict` is an answer that `is_loopback_host` may give about `host`.
pub open spec fn loopback_answer<F: Fn(&str) -> bool>(
    is_loopback_host: F,
    host: Seq<char>,
    verdict: bool,
) -> bool {
    exists|s: &str| s@ == host && #[trigger] is_loopback_host.ensures((s,), verdict)
}

/// `out` is the policy for `origin`, given what `is_loopback_host` answers about its host
/// (a host-less origin counts as not loopback).
pub open spec fn origin_policy_outcome<F: Fn(&str) -> bool>(
    is_loopback_host: F,
    origin: Seq<char>,
    out: Result<(Seq<char>, Seq<char>, bool), Seq<char>>,
) -> bool {
    match uri_parts(origin) {
        Some(p) => match p.host {
            Some(h) => exists|b: bool|
                loopback_answer(is_loopback_host, h, b) && out == origin_policy(
                    uri_parts(origin),
                    b,
                ),
            None => out == origin_policy(uri_parts(origin), false),
        },
        None => out == origin_policy(uri_parts(origin), false),
    }
}

impl SessionCookiePolicy {
    /// The policy for a parsed public origin, given whether its host is loopback.
    pub fn from_uri_parts(parts: Option<UriParts>, host_is_loopback: bool) -> (r: Result<
        Self,
        String,
    >)
        ensures
            policy_outcome(r) == origin_policy(
                match parts {
                    Some(p) => Some(p@),
                    None => None::<UriPartsView>,
                },
                host_is_loopback,
            ),
    {
        let p = match parts {
            Some(p) => p,
            None => return Err(String::from_str("public origin must be an absolute HTTP URI")),
        };
        let scheme = match p.scheme {
            Some(s) => s,
            None => return Err(String::from_str("public origin is missing its scheme")),
        };
        let authority = match p.authority {
            Some(a) => a,
            None => return Err(String::from_str("public origin is missing its authority")),
        };
        if p.has_query || !(p.path.as_str().unicode_len() == 0 || str_eq(p.path.as_str(), "/")) {
            return Err(String::from_str("public origin must not contain a path or query"));
        }
        proof {
            if p.path@.len() == 0 {
                assert(p.path@ =~= Seq::<char>::empty());
            }
        }
        let origin = scheme.clone().concat("://").concat(authority.as_str());
        if str_eq(scheme.as_str(), "https") {
            return Ok(
                SessionCookiePolicy {
                    origin,
                    name: String::from_str("__Host-tsunoru-session"),
                    secure: true,
                },
            );
        }
        if !str_eq(scheme.as_str(), "http") || !host_is_loopback {
            return Err(
                String::from_str("insecure account cookies are limited to loopback development"),
            );
        }
        let port: u16 = match p.port {
            Some(x) => x,
            None => 80,
        };
        let mut name = String::from_str("tsunoru-session-local-");
        push_decimal(&mut name, port as u64);
        Ok(SessionCookiePolicy { origin, name, secure: false })
    }

    /// The policy for an explicit public origin; `is_loopback_host` tells whether a host
    /// names the local machine, and is asked about the origin's host alone.
    pub fn for_origin<F: Fn(&str) -> bool>(origin: &str, is_loopback_host: F) -> (r: Result<
        Self,
        String,
    >)
        requires
            forall|h: &str| #[trigger] is_loopback_host.requires((h,)),
        ensures
            origin_policy_outcome(is_loopback_host, origin@, policy_outcome(r)),
    {
        let parts = parse_uri(origin);
        let loopback = match &parts {
            Some(p) => match &p.host {
                Some(h) => {
                    let b = is_loopback_host(h.as_str());
                    assert(loopback_answer(is_loopback_host, h@, b));
                    b
                },
                None => false,
            },
            None => false,
        };
        let r = Self::from_uri_parts(parts, loopback);
        assert(policy_outcome(r) == origin_policy(uri_parts(origin@), loopback));
        r
    }

    /// The policy for a loopback request without a configured origin: the request's own
    /// host, on the development server's port when one is given.
    pub fn for_request_host<F: Fn(&str) -> bool>(
        host_header: &str,
        devserver_port: Option<u16>,
        is_loopback_host: F,
    ) -> (r: Result<Self, String>)
        requires
            forall|h: &str| #[trigger] is_loopback_host.requires((h,)),
        ensures
            match uri_parts("http://"@ + host_header@) {
                None => policy_outcome(r) == Err::<(Seq<char>, Seq<char>, bool), Seq<char>>(
                    msg_host_invalid(),
                ),
                Some(p) => match (p.authority, p.host) {
                    (Some(authority), Some(host)) => {
                        ||| loopback_answer(is_loopback_host, host, false) && policy_outcome(r)
                            == Err::<(Seq<char>, Seq<char>, bool), Seq<char>>(
                            msg_host_not_loopback(),
                        )
                        ||| loopback_answer(is_loopback_host, host, true)
                            && origin_policy_outcome(
                            is_loopback_host,
                            request_origin_text(authority, host, devserver_port),
                            policy_outcome(r),
                        )
                    },
                    _ => policy_outcome(r) == Err::<(Seq<char>, Seq<char>, bool), Seq<char>>(
                        msg_host_no_authority(),
                    ),
                },
            },
    {
        let text = String::from_str("http://").concat(host_header);
        let backend = match parse_uri(text.as_str()) {
            Some(p) => p,
            None => return Err(String::from_str("request Host is not a valid authority")),
        };
        let (authority, host) = match (backend.authority, backend.host) {
            (Some(a), Some(h)) => (a, h),
            _ => return Err(String::from_str("request Host is missing its authority")),
        };
        let loopback = is_loopback_host(host.as_str());
        assert(loopback_answer(is_loopback_host, host@, loopback));
        if !loopback {
            return Err(String::from_str("unconfigured public origin is not loopback"));
        }
        let origin = match devserver_port {
            None => String::from_str("http://").concat(authority.as_str()),
            Some(port) => {
                let shown = if crate::text::str_contains_char(host.as_str(), ':') {
                    String::from_str("[").concat(host.as_str()).concat("]")
                } else {
                    host.clone()
                };
                let mut origin = String::from_str("http://").concat(shown.as_str()).concat(":");
                push_decimal(&mut origin, port as u64);
                origin
            },
        };
        assert(origin@ =~= request_origin_text(authority@, host@, devserver_port));
        Self::for_origin(origin.as_str(), is_loopback_host)
    }
}

// ---------------------------------------------------------------------------
// Login throttle
// ---------------------------------------------------------------------------

/// The throttle key of a login identifier: the SHA-256 digest of its trimmed,
/// ASCII-lowercased form.
pub open spec fn login_key(login_id: Seq<char>) -> Seq<u8> {
    sha256(encode_utf8(ascii_lowercased(trimmed(login_id))))
}

/// `a - b`, clamped to the range of `i64` as `i64::saturating_sub` does.
pub open spec fn saturating_diff(a: int, b: int) -> int {
    if a - b < i64::MIN {
        i64::MIN as int
    } else if a - b > i64::MAX {
        i64::MAX as int
    } else {
        a - b
    }
}

/// A window that started at `started_at` is still open at `now`.
pub open spec fn window_open(now: int, started_at: int, window_seconds: int) -> bool {
    saturating_diff(now, started_at) < window_seconds
}

/// A window (start, attempts) as it stands at `now`: gone once it has closed.
pub open spec fn open_window(w: Option<(int, int)>, now: int, window_seconds: int) -> Option<
    (int, int),
> {
    match w {
        Some((started_at, attempts)) => if window_open(now, started_at, window_seconds) {
            w
        } else {
            None
        },
        None => None,
    }
}

/// Seconds until a full window frees another attempt: what is left of it, at least one.
pub open spec fn retry_after(now: int, started_at: int, window_seconds: int) -> int {
    let left = saturating_diff(window_seconds, saturating_diff(now, started_at));
    if left < 1 {
        1
    } else {
        left
    }
}

/// The window of one identifier after a failure at `now`, given its window before, when
/// the throttle has room for it: a closed or missing window opens anew with one attempt, a
/// full one stays as it is, any other counts one more.
pub open spec fn window_after_failure(before: Option<(int, int)>, now: int, w: int, max: int) -> Option<
    (int, int),
> {
    match open_window(before, now, w) {
        None => Some((now, 1)),
        Some((started_at, attempts)) => if attempts >= max {
            Some((started_at, attempts))
        } else {
            Some((started_at, attempts + 1))
        },
    }
}

/// The answer to a failure at `now`, given the identifier's window before, when the
/// throttle has room for it: refused with the seconds left while its open window is full.
pub open spec fn failure_answer(before: Option<(int, int)>, now: int, w: int, max: int) -> Result<
    (),
    i64,
> {
    match open_window(before, now, w) {
        None => Ok(()),
        Some((started_at, attempts)) => if attempts >= max {
            Err(retry_after(now, started_at, w) as i64)
        } else {
            Ok(())
        },
    }
}

/// The window of one identifier after failures at `times`, in order, from none.
pub open spec fn window_after_failures(times: Seq<int>, w: int, max: int) -> Option<(int, int)>
    decreases times.len(),
{
    if times.len() == 0 {
        None
    } else {
        window_after_failure(window_after_failures(times.drop_last(), w, max), times.last(), w, max)
    }
}

/// Failures within one window count up from the first of them, to at most `max`.
proof fn lemma_failures_count(times: Seq<int>, w: int, max: int)
    requires
        0 < max,
        0 < w <= i64::MAX,
        times.len() >= 1,
        forall|i: int| 0 <= i < times.len() ==> times[0] <= #[trigger] times[i] < times[0] + w,
    ensures
        window_after_failures(times, w, max) == Some(
            (times[0], if times.len() < max { times.len() as int } else { max }),
        ),
    decreases times.len(),
{
    let init = times.drop_last();
    if times.len() == 1 {
        assert(init.len() == 0);
        assert(window_after_failures(init, w, max) is None);
    } else {
        assert forall|i: int| 0 <= i < init.len() implies init[0] <= #[trigger] init[i] < init[0] + w by {
            assert(init[i] == times[i]);
        }
        lemma_failures_count(init, w, max);
        let last = times[times.len() - 1];
        assert(times.last() == last);
        assert(init[0] == times[0]);
        assert(times[0] <= last < times[0] + w);
        assert(saturating_diff(last, times[0]) == last - times[0]);
        assert(window_open(last, times[0], w));
    }
}

/// The lockout: after `max` failures of one identifier within a window, every further
/// attempt before the window ends is refused, with the seconds left (at least one), and
/// leaves the window as it is.
pub proof fn lemma_failures_lock_out(times: Seq<int>, later: int, w: int, max: int)
    requires
        0 < max,
        0 < w <= i64::MAX,
        times.len() >= max,
        forall|i: int| 0 <= i < times.len() ==> times[0] <= #[trigger] times[i] < times[0] + w,
        times[0] <= later < times[0] + w,
    ensures
        window_after_failures(times, w, max) == Some((times[0], max)),
        failure_answer(window_after_failures(times, w, max), later, w, max) == Err::<(), i64>(
            retry_after(later, times[0], w) as i64,
        ),
        1 <= retry_after(later, times[0], w) <= w,
        window_after_failure(window_after_failures(times, w, max), later, w, max)
            == window_after_failures(times, w, max),
{
    lemma_failures_count(times, w, max);
}

/// One tracked login identifier and its current window.
#[derive(Clone, Copy)]
struct TrackedLogin {
    key: [u8; 32],
    started_at: i64,
    attempts: u32,
}

spec fn find_key(es: Seq<TrackedLogin>, key: Seq<u8>) -> Option<(int, int)>
    decreases es.len(),
{
    if es.len() == 0 {
        None
    } else if es.last().key@ == key {
        Some((es.last().started_at as int, es.last().attempts as int))
    } else {
        find_key(es.drop_last(), key)
    }
}

spec fn still_open(es: Seq<TrackedLogin>, now: int, window_seconds: int) -> Seq<TrackedLogin>
    decreases es.len(),
{
    if es.len() == 0 {
        es
    } else {
        let rest = still_open(es.drop_last(), now, window_seconds);
        if window_open(now, es.last().started_at as int, window_seconds) {
            rest.push(es.last())
        } else {
            rest
        }
    }
}

spec fn keys_distinct(es: Seq<TrackedLogin>) -> bool {
    forall|i: int, j: int| 0 <= i < j < es.len() ==> es[i].key@ != es[j].key@
}

proof fn lemma_find_key_absent(es: Seq<TrackedLogin>, key: Seq<u8>)
    ensures
        find_key(es, key) is None <==> forall|i: int| 0 <= i < es.len() ==> es[i].key@ != key,
    decreases es.len(),
{
    if es.len() > 0 {
        lemma_find_key_absent(es.drop_last(), key);
        if find_key(es, key) is None {
            assert forall|i: int| 0 <= i < es.len() implies es[i].key@ != key by {
                if i < es.len() - 1 {
                    assert(es[i] == es.drop_last()[i]);
                }
            }
        } else if es.last().key@ != key {
            let i = choose|i: int| 0 <= i < es.drop_last().len() && es.drop_last()[i].key@ == key;
            assert(es[i] == es.drop_last()[i]);
        }
    }
}

proof fn lemma_find_key_at(es: Seq<TrackedLogin>, i: int)
    requires
        keys_distinct(es),
        0 <= i < es.len(),
    ensures
        find_key(es, es[i].key@) == Some((es[i].started_at as int, es[i].attempts as int)),
    decreases es.len(),
{
    if i < es.len() - 1 {
        assert(es.last().key@ != es[i].key@);
        assert(es.drop_last()[i] == es[i]);
        lemma_find_key_at(es.drop_last(), i);
    }
}

proof fn lemma_still_open(es: Seq<TrackedLogin>, now: int, window_seconds: int)
    requires
        keys_distinct(es),
    ensures
        keys_distinct(still_open(es, now, window_seconds)),
        still_open(es, now, window_seconds).len() <= es.len(),
        forall|k: Seq<u8>|
            #[trigger] find_key(still_open(es, now, window_seconds), k) == open_window(
                find_key(es, k),
                now,
                window_seconds,
            ),
        forall|i: int|
            0 <= i < still_open(es, now, window_seconds).len() ==> exists|j: int|
                0 <= j < es.len() && #[trigger] still_open(es, now, window_seconds)[i] == es[j],
    decreases es.len(),
{
    if es.len() > 0 {
        let d = es.drop_last();
        assert(keys_distinct(d)) by {
            assert forall|i: int, j: int| 0 <= i < j < d.len() implies d[i].key@ != d[j].key@ by {
                assert(d[i] == es[i] && d[j] == es[j]);
            }
        }
        lemma_still_open(d, now, window_seconds);
        let rest = still_open(d, now, window_seconds);
        let out = still_open(es, now, window_seconds);
        let last = es.last();
        assert forall|i: int| 0 <= i < rest.len() implies #[trigger] rest[i].key@ != last.key@ by {
            let j = choose|j: int| 0 <= j < d.len() && rest[i] == d[j];
            assert(d[j] == es[j]);
        }
        lemma_find_key_absent(d, last.key@);
        lemma_find_key_absent(rest, last.key@);
        assert forall|k: Seq<u8>| #[trigger] find_key(out, k) == open_window(
            find_key(es, k),
            now,
            window_seconds,
        ) by {
            if window_open(now, last.started_at as int, window_seconds) {
                assert(out.drop_last() =~= rest);
            }
        }
        if window_open(now, last.started_at as int, window_seconds) {
            assert forall|i: int, j: int| 0 <= i < j < out.len() implies out[i].key@
                != out[j].key@ by {
                if j < out.len() - 1 {
                    assert(out[i] == rest[i] && out[j] == rest[j]);
                } else {
                    assert(out[i] == rest[i]);
                }
            }
            assert forall|i: int| 0 <= i < out.len() implies exists|j: int|
                0 <= j < es.len() && #[trigger] out[i] == es[j] by {
                if i < out.len() - 1 {
                    let j = choose|j: int| 0 <= j < d.len() && rest[i] == d[j];
                    assert(out[i] == rest[i] && d[j] == es[j]);
                } else {
                    assert(out[i] == es[es.len() - 1]);
                }
            }
        } else {
            assert forall|i: int| 0 <= i < out.len() implies exists|j: int|
                0 <= j < es.len() && #[trigger] out[i] == es[j] by {
                let j = choose|j: int| 0 <= j < d.len() && rest[i] == d[j];
                assert(d[j] == es[j]);
            }
        }
    }
}

/// Single-process login failure limiter keyed by a digest of the normalized identifier.
pub struct LoginRateLimiter {
    maximum_attempts: u32,
    window_seconds: i64,
    maximum_identifiers: usize,
    entries: Vec<TrackedLogin>,
}

fn digests_equal(a: &[u8; 32], b: &[u8; 32]) -> (r: bool)
    ensures
        r == (a@ == b@),
{
    let mut i: usize = 0;
    while i < 32
        invariant
            i <= 32,
            a@.len() == 32,
            b@.len() == 32,
            forall|k: int| 0 <= k < i ==> a@[k] == b@[k],
        decreases 32 - i,
    {
        if a[i] != b[i] {
            return false;
        }
        i = i + 1;
    }
    assert(a@ =~= b@);
    true
}

fn saturating_sub_i64(a: i64, b: i64) -> (r: i64)
    ensures
        r == saturating_diff(a as int, b as int),
{
    match a.checked_sub(b) {
        Some(d) => d,
        None => if b > 0 {
            i64::MIN
        } else {
            i64::MAX
        },
    }
}

/// The throttle key of `login_id`.
fn throttle_key(login_id: &str) -> (k: [u8; 32])
    ensures
        k@ == login_key(login_id@),
{
    let normalized = to_ascii_lowercase(trim(login_id).as_str());
    sha256_digest(normalized.as_str().as_bytes())
}

impl LoginRateLimiter {
    /// Well formed: positive limits, distinct keys, at most `maximum_identifiers` of them,
    /// and every window holding between one and `maximum_attempts` attempts.
    pub closed spec fn wf(&self) -> bool {
        &&& self.maximum_attempts > 0
        &&& self.window_seconds > 0
        &&& self.maximum_identifiers > 0
        &&& self.entries@.len() <= self.maximum_identifiers
        &&& keys_distinct(self.entries@)
        &&& forall|i: int|
            0 <= i < self.entries@.len() ==> 1 <= #[trigger] self.entries@[i].attempts
                <= self.maximum_attempts
    }

    pub closed spec fn spec_maximum_attempts(&self) -> int {
        self.maximum_attempts as int
    }

    pub closed spec fn spec_window_seconds(&self) -> int {
        self.window_seconds as int
    }

    pub closed spec fn spec_maximum_identifiers(&self) -> int {
        self.maximum_identifiers as int
    }

    /// The window (start, attempts) tracked for `key`.
    pub closed spec fn spec_window(&self, key: Seq<u8>) -> Option<(int, int)> {
        find_key(self.entries@, key)
    }

    /// How many identifiers are tracked.
    pub closed spec fn spec_tracked(&self) -> int {
        self.entries@.len() as int
    }

    /// How many tracked identifiers still have an open window at `now`.
    pub closed spec fn spec_open_tracked(&self, now: int) -> int {
        still_open(self.entries@, now, self.window_seconds as int).len() as int
    }

    /// Every window holds between one and `maximum_attempts` attempts, and no more than
    /// `maximum_identifiers` identifiers are tracked.
    pub proof fn lemma_bounds(&self, key: Seq<u8>)
        requires
            self.wf(),
        ensures
            0 <= self.spec_tracked() <= self.spec_maximum_identifiers(),
            self.spec_window(key) matches Some((s, a)) ==> 1 <= a <= self.spec_maximum_attempts(),
    {
        if let Some((s, a)) = self.spec_window(key) {
            lemma_find_key_absent(self.entries@, key);
            let i = choose|i: int| 0 <= i < self.entries@.len() && self.entries@[i].key@ == key;
            lemma_find_key_at(self.entries@, i);
            assert(1 <= self.entries@[i].attempts <= self.maximum_attempts);
        }
    }

    pub fn new(maximum_attempts: u32, window_seconds: i64) -> (l: Self)
        requires
            maximum_attempts > 0,
            window_seconds > 0,
        ensures
            l.wf(),
            l.spec_maximum_attempts() == maximum_attempts,
            l.spec_window_seconds() == window_seconds,
            l.spec_maximum_identifiers() == DEFAULT_MAXIMUM_TRACKED_IDENTIFIERS,
            l.spec_tracked() == 0,
            forall|k: Seq<u8>| #[trigger] l.spec_window(k) is None,
    {
        Self::with_capacity(maximum_attempts, window_seconds, DEFAULT_MAXIMUM_TRACKED_IDENTIFIERS)
    }

    pub fn with_capacity(maximum_attempts: u32, window_seconds: i64, maximum_identifiers: usize) -> (l:
        Self)
        requires
            maximum_attempts > 0,
            window_seconds > 0,
            maximum_identifiers > 0,
        ensures
            l.wf(),
            l.spec_maximum_attempts() == maximum_attempts,
            l.spec_window_seconds() == window_seconds,
            l.spec_maximum_identifiers() == maximum_identifiers,
            l.spec_tracked() == 0,
            forall|k: Seq<u8>| #[trigger] l.spec_window(k) is None,
    {
        LoginRateLimiter { maximum_attempts, window_seconds, maximum_identifiers, entries: Vec::new() }
    }

    pub fn tracked_identifier_count(&self) -> (n: usize)
        ensures
            n == self.spec_tracked(),
    {
        self.entries.len()
    }

    /// Reserve one attempt before password work; `Err` carries the seconds until another
    /// attempt is allowed.  Closed windows are forgotten first.  A new identifier is
    /// refused while `maximum_identifiers` others are tracked; a known one is refused once
    /// its window holds `maximum_attempts` attempts.
    #[verifier::loop_isolation(false)]
    pub fn record_attempt(&mut self, login_id: &str, now: i64) -> (r: Result<(), i64>)
        requires
            old(self).wf(),
        ensures
            final(self).wf(),
            final(self).spec_maximum_attempts() == old(self).spec_maximum_attempts(),
            final(self).spec_window_seconds() == old(self).spec_window_seconds(),
            final(self).spec_maximum_identifiers() == old(self).spec_maximum_identifiers(),
            ({
                let key = login_key(login_id@);
                let w = old(self).spec_window_seconds();
                let open_count = old(self).spec_open_tracked(now as int);
                &&& forall|k: Seq<u8>|
                    k != key ==> #[trigger] final(self).spec_window(k) == open_window(
                        old(self).spec_window(k),
                        now as int,
                        w,
                    )
                &&& match open_window(old(self).spec_window(key), now as int, w) {
                    None => if open_count >= old(self).spec_maximum_identifiers() {
                        &&& r == Err::<(), i64>(w as i64)
                        &&& final(self).spec_window(key) is None
                        &&& final(self).spec_tracked() == open_count
                    } else {
                        &&& r == Ok::<(), i64>(())
                        &&& final(self).spec_window(key) == Some((now as int, 1int))
                        &&& final(self).spec_tracked() == open_count + 1
                    },
                    Some((started_at, attempts)) => {
                        &&& final(self).spec_tracked() == open_count
                        &&& if attempts >= old(self).spec_maximum_attempts() {
                            &&& r == Err::<(), i64>(retry_after(now as int, started_at, w) as i64)
                            &&& final(self).spec_window(key) == Some((started_at, attempts))
                        } else {
                            &&& r == Ok::<(), i64>(())
                            &&& final(self).spec_window(key) == Some((started_at, attempts + 1))
                        }
                    },
                }
            }),
    {
        let key = throttle_key(login_id);
        let ghost old_entries = self.entries@;
        let ghost w = self.window_seconds as int;
        let mut kept: Vec<TrackedLogin> = Vec::new();
        let mut i: usize = 0;
        while i < self.entries.len()
            invariant
                self.entries@ == old_entries,
                w == self.window_seconds,
                i <= old_entries.len(),
                kept@ == still_open(old_entries.take(i as int), now as int, w),
            decreases self.entries.len() - i,
        {
            let e = self.entries[i];
            assert(old_entries.take(i + 1).drop_last() =~= old_entries.take(i as int));
            assert(old_entries.take(i + 1).last() == e);
            if saturating_sub_i64(now, e.started_at) < self.window_seconds {
                kept.push(e);
            }
            i = i + 1;
        }
        assert(old_entries.take(old_entries.len() as int) =~= old_entries);
        proof {
            lemma_still_open(old_entries, now as int, w);
        }
        self.entries = kept;
        let ghost pruned = self.entries@;
        assert(self.wf()) by {
            assert forall|i: int| 0 <= i < pruned.len() implies 1 <= #[trigger] pruned[i].attempts
                <= self.maximum_attempts by {
                let j = choose|j: int| 0 <= j < old_entries.len() && pruned[i] == old_entries[j];
                assert(1 <= old_entries[j].attempts <= self.maximum_attempts);
            }
        }
        let mut j: usize = 0;
        while j < self.entries.len() && !digests_equal(&self.entries[j].key, &key)
            invariant
                self.entries@ == pruned,
                j <= pruned.len(),
                forall|k: int| 0 <= k < j ==> pruned[k].key@ != key@,
            decreases self.entries.len() - j,
        {
            j = j + 1;
        }
        let found: Option<usize> = if j < self.entries.len() {
            Some(j)
        } else {
            None
        };
        match found {
            None => {
                proof {
                    lemma_find_key_absent(pruned, key@);
                }
                if self.entries.len() >= self.maximum_identifiers {
                    return Err(self.window_seconds);
                }
                self.entries.push(TrackedLogin { key, started_at: now, attempts: 1 });
                proof {
                    let es = self.entries@;
                    assert(es.drop_last() =~= pruned);
                    assert forall|a: int, b: int| 0 <= a < b < es.len() implies es[a].key@
                        != es[b].key@ by {
                        if b < es.len() - 1 {
                            assert(es[a] == pruned[a] && es[b] == pruned[b]);
                        } else {
                            assert(es[a] == pruned[a]);
                        }
                    }
                    assert forall|k: Seq<u8>| k != key@ implies #[trigger] find_key(es, k)
                        == find_key(pruned, k) by {}
                }
                Ok(())
            },
            Some(idx) => {
                let e = self.entries[idx];
                proof {
                    lemma_find_key_at(pruned, idx as int);
                }
                if e.attempts >= self.maximum_attempts {
                    let elapsed = saturating_sub_i64(now, e.started_at);
                    let left = saturating_sub_i64(self.window_seconds, elapsed);
                    return Err(
                        if left < 1 {
                            1
                        } else {
                            left
                        },
                    );
                }
                self.entries.set(
                    idx,
                    TrackedLogin { key: e.key, started_at: e.started_at, attempts: e.attempts + 1 },
                );
                proof {
                    let es = self.entries@;
                    assert forall|a: int, b: int| 0 <= a < b < es.len() implies es[a].key@
                        != es[b].key@ by {
                        assert(es[a].key@ == pruned[a].key@ && es[b].key@ == pruned[b].key@);
                    }
                    lemma_find_key_at(es, idx as int);
                    assert forall|k: Seq<u8>| k != key@ implies #[trigger] find_key(es, k)
                        == find_key(pruned, k) by {
                        lemma_find_key_absent(es, k);
                        lemma_find_key_absent(pruned, k);
                        if find_key(pruned, k) is Some {
                            let m = choose|m: int| 0 <= m < pruned.len() && pruned[m].key@ == k;
                            lemma_find_key_at(pruned, m);
                            assert(es[m] == pruned[m]);
                            lemma_find_key_at(es, m);
                        } else {
                            assert forall|m: int| 0 <= m < es.len() implies es[m].key@ != k by {
                                assert(es[m].key@ == pruned[m].key@);
                            }
                        }
                    }
                }
                Ok(())
            },
        }
    }

    /// Another name for `record_attempt`, for callers that reserve after a failure.
    pub fn record_failure(&mut self, login_id: &str, now: i64) -> (r: Result<(), i64>)
        requires
            old(self).wf(),
        ensures
            ({
                let key = login_key(login_id@);
                let w = old(self).spec_window_seconds();
                let max = old(self).spec_maximum_attempts();
                open_window(old(self).spec_window(key), now as int, w) is Some
                    || old(self).spec_open_tracked(now as int) < old(self).spec_maximum_identifiers()
                    ==> final(self).spec_window(key) == window_after_failure(
                    old(self).spec_window(key),
                    now as int,
                    w,
                    max,
                ) && r == failure_answer(old(self).spec_window(key), now as int, w, max)
            }),
            final(self).wf(),
            final(self).spec_maximum_attempts() == old(self).spec_maximum_attempts(),
            final(self).spec_window_seconds() == old(self).spec_window_seconds(),
            final(self).spec_maximum_identifiers() == old(self).spec_maximum_identifiers(),
            ({
                let key = login_key(login_id@);
                let w = old(self).spec_window_seconds();
                let open_count = old(self).spec_open_tracked(now as int);
                &&& forall|k: Seq<u8>|
                    k != key ==> #[trigger] final(self).spec_window(k) == open_window(
                        old(self).spec_window(k),
                        now as int,
                        w,
                    )
                &&& match open_window(old(self).spec_window(key), now as int, w) {
                    None => if open_count >= old(self).spec_maximum_identifiers() {
                        &&& r == Err::<(), i64>(w as i64)
                        &&& final(self).spec_window(key) is None
                        &&& final(self).spec_tracked() == open_count
                    } else {
                        &&& r == Ok::<(), i64>(())
                        &&& final(self).spec_window(key) == Some((now as int, 1int))
                        &&& final(self).spec_tracked() == open_count + 1
                    },
                    Some((started_at, attempts)) => {
                        &&& final(self).spec_tracked() == open_count
                        &&& if attempts >= old(self).spec_maximum_attempts() {
                            &&& r == Err::<(), i64>(retry_after(now as int, started_at, w) as i64)
                            &&& final(self).spec_window(key) == Some((started_at, attempts))
                        } else {
                            &&& r == Ok::<(), i64>(())
                            &&& final(self).spec_window(key) == Some((started_at, attempts + 1))
                        }
                    },
                }
            }),
    {
        self.record_attempt(login_id, now)
    }

    /// Forget the identifier's window after a successful login.
    #[verifier::loop_isolation(false)]
    pub fn record_success(&mut self, login_id: &str)
        requires
            old(self).wf(),
        ensures
            final(self).wf(),
            final(self).spec_maximum_attempts() == old(self).spec_maximum_attempts(),
            final(self).spec_window_seconds() == old(self).spec_window_seconds(),
            final(self).spec_maximum_identifiers() == old(self).spec_maximum_identifiers(),
            final(self).spec_window(login_key(login_id@)) is None,
            forall|k: Seq<u8>|
                k != login_key(login_id@) ==> #[trigger] final(self).spec_window(k)
                    == old(self).spec_window(k),
            final(self).spec_tracked() == old(self).spec_tracked() - (if old(self).spec_window(
                login_key(login_id@),
            ) is Some {
                1int
            } else {
                0int
            }),
    {
        let key = throttle_key(login_id);
        let ghost before = self.entries@;
        let mut j: usize = 0;
        while j < self.entries.len()
            invariant
                self.entries@ == before,
                self.wf(),
                self.maximum_attempts == old(self).maximum_attempts,
                self.window_seconds == old(self).window_seconds,
                self.maximum_identifiers == old(self).maximum_identifiers,
                j <= before.len(),
                forall|k: int| 0 <= k < j ==> before[k].key@ != key@,
            decreases self.entries.len() - j,
        {
            if digests_equal(&self.entries[j].key, &key) {
                proof {
                    lemma_find_key_at(before, j as int);
                }
                self.entries.remove(j);
                proof {
                    let es = self.entries@;
                    assert forall|a: int| 0 <= a < es.len() implies #[trigger] es[a] == (if a < j {
                        before[a]
                    } else {
                        before[a + 1]
                    }) by {}
                    assert forall|a: int, b: int| 0 <= a < b < es.len() implies es[a].key@
                        != es[b].key@ by {
                        assert(es[a] == (if a < j { before[a] } else { before[a + 1] }));
                        assert(es[b] == (if b < j { before[b] } else { before[b + 1] }));
                    }
                    lemma_find_key_absent(es, key@);
                    assert forall|m: int| 0 <= m < es.len() implies es[m].key@ != key@ by {
                        assert(es[m] == (if m < j { before[m] } else { before[m + 1] }));
                    }
                    assert forall|k: Seq<u8>| k != key@ implies #[trigger] find_key(es, k)
                        == find_key(before, k) by {
                        lemma_find_key_absent(es, k);
                        lemma_find_key_absent(before, k);
                        if find_key(before, k) is Some {
                            let m = choose|m: int| 0 <= m < before.len() && before[m].key@ == k;
                            lemma_find_key_at(before, m);
                            let p = if m < j { m } else { m - 1 };
                            assert(m != j);
                            assert(es[p] == before[m]);
                            lemma_find_key_at(es, p);
                        } else {
                            assert forall|m: int| 0 <= m < es.len() implies es[m].key@ != k by {
                                assert(es[m] == (if m < j { before[m] } else { before[m + 1] }));
                            }
                        }
                    }
                    assert forall|i: int| 0 <= i < es.len() implies 1 <= #[trigger] es[i].attempts
                        <= self.maximum_attempts by {
                        assert(es[i] == (if i < j { before[i] } else { before[i + 1] }));
                    }
                }
                return;
            }
            j = j + 1;
        }
        proof {
            lemma_find_key_absent(before, key@);
        }
    }
}

} // verus!
