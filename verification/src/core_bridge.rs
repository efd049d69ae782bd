//! The operations of the synchronous bridge a worker calls with JSON requests.

use vstd::prelude::*;
use vstd::string::*;
use vstd::utf8::encode_utf8;
use crate::auth::{password_phc, password_verifies, hash_password_with_salt, verify_password_phc};
use crate::text::str_eq;

verus! {

/// Longest password, in UTF-8 octets, that the bridge hashes or verifies.
pub const BRIDGE_PASSWORD_MAX_BYTES: usize = 512;

/// Octets of salt the bridge's hash operation takes.
pub const BRIDGE_SALT_BYTES: usize = 16;

/// One operation of the bridge.
#[derive(Clone, Copy, Debug, PartialEq, Eq, Structural)]
pub enum BridgeOperation {
    /// Validate a new event.
    Event,
    /// Validate an availability response.
    Answer,
    /// Validate a response comment.
    Comment,
    /// Validate an organizer summary request.
    Organizer,
    /// Validate an organizer decision.
    Decision,
    /// Validate a continuation to create.
    Continuation,
    /// Validate a continuation-plan request.
    Plan,
    /// Validate an event-trace request.
    Trace,
    /// Prepare a registration.
    Register,
    /// Prepare a login.
    Login,
    /// Hash a password under a given salt.
    Hash,
    /// Verify a password against a PHC string.
    Verify,
    /// Attach the candidate facts to a summary.
    Facts,
}

/// The operation a name selects.
pub open spec fn operation_named(op: Seq<char>) -> Option<BridgeOperation> {
    if op == "event"@ {
        Some(BridgeOperation::Event)
    } else if op == "answer"@ {
        Some(BridgeOperation::Answer)
    } else if op == "comment"@ {
        Some(BridgeOperation::Comment)
    } else if op == "organizer"@ {
        Some(BridgeOperation::Organizer)
    } else if op == "decision"@ {
        Some(BridgeOperation::Decision)
    } else if op == "continuation"@ {
        Some(BridgeOperation::Continuation)
    } else if op == "plan"@ {
        Some(BridgeOperation::Plan)
    } else if op == "trace"@ {
        Some(BridgeOperation::Trace)
    } else if op == "register"@ {
        Some(BridgeOperation::Register)
    } else if op == "login"@ {
        Some(BridgeOperation::Login)
    } else if op == "hash"@ {
        Some(BridgeOperation::Hash)
    } else if op == "verify"@ {
        Some(BridgeOperation::Verify)
    } else if op == "facts"@ {
        Some(BridgeOperation::Facts)
    } else {
        None
    }
}

/// Read an operation name; an unknown one selects nothing.
pub fn bridge_operation(op: &str) -> (r: Option<BridgeOperation>)
    ensures
        r == operation_named(op@),
{
    if str_eq(op, "event") {
        Some(BridgeOperation::Event)
    } else if str_eq(op, "answer") {
        Some(BridgeOperation::Answer)
    } else if str_eq(op, "comment") {
        Some(BridgeOperation::Comment)
    } else if str_eq(op, "organizer") {
        Some(BridgeOperation::Organizer)
    } else if str_eq(op, "decision") {
        Some(BridgeOperation::Decision)
    } else if str_eq(op, "continuation") {
        Some(BridgeOperation::Continuation)
    } else if str_eq(op, "plan") {
        Some(BridgeOperation::Plan)
    } else if str_eq(op, "trace") {
        Some(BridgeOperation::Trace)
    } else if str_eq(op, "register") {
        Some(BridgeOperation::Register)
    } else if str_eq(op, "login") {
        Some(BridgeOperation::Login)
    } else if str_eq(op, "hash") {
        Some(BridgeOperation::Hash)
    } else if str_eq(op, "verify") {
        Some(BridgeOperation::Verify)
    } else if str_eq(op, "facts") {
        Some(BridgeOperation::Facts)
    } else {
        None
    }
}

/// The bridge's error for an unknown operation.
pub fn unknown_operation() -> (s: String)
    ensures
        s@ == "unknown operation"@,
{
    String::from_str("unknown operation")
}

/// The hash operation: a password of at most 512 octets and a salt of 16 octets give the
/// Argon2id PHC string.
pub fn bridge_hash(password: &str, salt: &[u8]) -> (r: Result<String, String>)
    ensures
        match r {
            Ok(phc) => encode_utf8(password@).len() <= BRIDGE_PASSWORD_MAX_BYTES && salt@.len()
                == BRIDGE_SALT_BYTES && password_phc(encode_utf8(password@), salt@) == Some(phc@),
            Err(e) => if encode_utf8(password@).len() > BRIDGE_PASSWORD_MAX_BYTES {
                e@ == "password too long"@
            } else if salt@.len() != BRIDGE_SALT_BYTES {
                e@ == "salt length"@
            } else {
                password_phc(encode_utf8(password@), salt@) is None && e@ == "hash failed"@
            },
        },
{
    if password.as_bytes().len() > BRIDGE_PASSWORD_MAX_BYTES {
        return Err(String::from_str("password too long"));
    }
    if salt.len() != BRIDGE_SALT_BYTES {
        return Err(String::from_str("salt length"));
    }
    match hash_password_with_salt(password, salt) {
        Some(phc) => Ok(phc),
        None => Err(String::from_str("hash failed")),
    }
}

/// The verify operation: a password of at most 512 octets is compared with a PHC string.
pub fn bridge_verify(password: &str, phc: &str) -> (r: Result<bool, String>)
    ensures
        match r {
            Ok(b) => encode_utf8(password@).len() <= BRIDGE_PASSWORD_MAX_BYTES && password_verifies(
                encode_utf8(password@),
                phc@,
            ) == Some(b),
            Err(e) => if encode_utf8(password@).len() > BRIDGE_PASSWORD_MAX_BYTES {
                e@ == "password too long"@
            } else {
                password_verifies(encode_utf8(password@), phc@) is None && e@ == "invalid hash"@
            },
        },
{
    if password.as_bytes().len() > BRIDGE_PASSWORD_MAX_BYTES {
        return Err(String::from_str("password too long"));
    }
    match verify_password_phc(password, phc) {
        Some(b) => Ok(b),
        None => Err(String::from_str("invalid hash")),
    }
}

} // verus!
