//! What the library needs of the browser it runs in: its local storage.

use vstd::prelude::*;
use crate::cloud::Store;

verus! {

/// The message shown when the browser cannot keep what is about to be sent.
pub fn storage_error() -> (s: String)
    ensures
        s@ == msg_storage(),
{
    String::from_str(
        "このブラウザーに送信内容を保存できません。サイトの保存を許可してから、もう一度お試しください。送信は始めていません。",
    )
}

pub open spec fn msg_storage() -> Seq<char> {
    "このブラウザーに送信内容を保存できません。サイトの保存を許可してから、もう一度お試しください。送信は始めていません。"@
}

/// A write to the browser's storage counts only when reading the key back gives the
/// value written; `read_back` is that read, `Err` when it failed. Anything else is the
/// storage message.
pub fn confirm_written(value: &str, read_back: Result<Option<String>, ()>) -> (r: Result<(), String>)
    ensures
        r is Ok <==> (read_back matches Ok(Some(v)) && v@ == value@),
        r matches Err(e) ==> e@ == msg_storage(),
{
    match read_back {
        Ok(Some(v)) => if crate::text::str_eq(v.as_str(), value) {
            Ok(())
        } else {
            Err(storage_error())
        },
        _ => Err(storage_error()),
    }
}

/// A removal from the browser's storage counts only when reading the key back finds
/// nothing; `read_back` is that read, `Err` when it failed. Anything else is the storage
/// message.
pub fn confirm_removed(read_back: Result<Option<String>, ()>) -> (r: Result<(), String>)
    ensures
        r is Ok <==> read_back matches Ok(None),
        r matches Err(e) ==> e@ == msg_storage(),
{
    match read_back {
        Ok(None) => Ok(()),
        _ => Err(storage_error()),
    }
}

/// The browser's local storage. Where the library runs outside a browser there is
/// none: nothing is ever found, and each write or removal is refused with the
/// storage message, so no submission starts without its record kept.
#[derive(Clone, Copy)]
pub struct LocalStore;

impl Store for LocalStore {
    open spec fn read_gives(&self, key: Seq<char>, r: Result<Option<String>, String>) -> bool {
        r == Ok::<Option<String>, String>(None)
    }

    fn read(&self, key: &str) -> (r: Result<Option<String>, String>)
        ensures
            r == Ok::<Option<String>, String>(None),
    {
        Ok(None)
    }

    open spec fn write_gives(&self, key: Seq<char>, value: Seq<char>, r: Result<(), String>) -> bool {
        r matches Err(e) && e@ == msg_storage()
    }

    fn write(&self, key: &str, value: &str) -> (r: Result<(), String>)
        ensures
            r matches Err(e) && e@ == msg_storage(),
    {
        Err(storage_error())
    }

    fn remove(&self, key: &str) -> (r: Result<(), String>)
        ensures
            r matches Err(e) && e@ == msg_storage(),
    {
        Err(storage_error())
    }
}

} // verus!
