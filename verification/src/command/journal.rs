//! Naming and size rules of the durable, write-once execution journal. The caller
//! does the file operations; these functions decide names and limits.

use vstd::prelude::*;
use crate::error::{RuntimeError, RuntimeResult};
use crate::text::{chars_of, ends_with_seq, ends_with_str, extend_str, string_from_chars};

verus! {

pub const MAX_RECORD_BYTES: u64 = 8388608;
pub const MAX_JOURNAL_FILES: usize = 2048;

/// An ASCII hexadecimal digit, in either case.
pub open spec fn is_hex_digit(c: char) -> bool {
    ('0' <= c && c <= '9') || ('a' <= c && c <= 'f') || ('A' <= c && c <= 'F')
}

/// A storage key is a SHA-256 digest: exactly 64 hexadecimal digits.
pub open spec fn valid_storage_key(k: Seq<char>) -> bool {
    k.len() == 64 && forall|i: int| 0 <= i < k.len() ==> is_hex_digit(#[trigger] k[i])
}

fn corrupt_name() -> (e: RuntimeError)
    ensures
        e.code@ == "execution_journal_corrupt"@,
{
    RuntimeError::new("execution_journal_corrupt", "command execution journal contains an invalid record name")
}

/// Refuses record names that are not storage keys.
pub fn validate_storage_key(key: &str) -> (r: RuntimeResult<()>)
    ensures
        r is Ok <==> valid_storage_key(key@),
        r matches Err(e) ==> e.code@ == "execution_journal_corrupt"@,
{
    let chars = chars_of(key);
    if chars.len() != 64 {
        return Err(corrupt_name());
    }
    let mut i: usize = 0;
    while i < chars.len()
        invariant
            chars@ == key@,
            i <= chars@.len(),
            forall|k: int| 0 <= k < i ==> is_hex_digit(#[trigger] chars@[k]),
        decreases chars.len() - i,
    {
        let c = chars[i];
        if !(('0' <= c && c <= '9') || ('a' <= c && c <= 'f') || ('A' <= c && c <= 'F')) {
            return Err(corrupt_name());
        }
        i = i + 1;
    }
    Ok(())
}

/// What a file in the journal directory is: the records of one key, running or finished.
pub open spec fn record_name(name: Seq<char>) -> Option<(Seq<char>, bool)> {
    if ends_with_seq(name, ".finished.json"@) {
        Some((name.subrange(0, name.len() - 14), true))
    } else if ends_with_seq(name, ".running.json"@) {
        Some((name.subrange(0, name.len() - 13), false))
    } else {
        None
    }
}

/// Classifies a journal file name: `Some((key, finished))` for a record, `None` for
/// another file. A record whose key is not a storage key makes the journal corrupt.
pub fn classify_record_name(name: &str) -> (r: RuntimeResult<Option<(String, bool)>>)
    ensures
        match record_name(name@) {
            None => r == Ok::<Option<(String, bool)>, RuntimeError>(None),
            Some((key, finished)) => if valid_storage_key(key) {
                r matches Ok(Some((k, f))) && k@ == key && f == finished
            } else {
                r matches Err(e) && e.code@ == "execution_journal_corrupt"@
            },
        },
{
    let chars = chars_of(name);
    proof {
        reveal_strlit(".finished.json");
        reveal_strlit(".running.json");
    }
    let (cut, finished) = if ends_with_str(chars.as_slice(), ".finished.json") {
        (14usize, true)
    } else if ends_with_str(chars.as_slice(), ".running.json") {
        (13usize, false)
    } else {
        return Ok(None);
    };
    let mut key: Vec<char> = Vec::new();
    let mut i: usize = 0;
    while i < chars.len() - cut
        invariant
            chars@ == name@,
            cut <= chars@.len(),
            i <= chars@.len() - cut,
            key@ == chars@.subrange(0, i as int),
        decreases chars.len() - cut - i,
    {
        key.push(chars[i]);
        i = i + 1;
    }
    let key = string_from_chars(key.as_slice());
    validate_storage_key(key.as_str())?;
    Ok(Some((key, finished)))
}

/// The journal refuses to load more records than it can hold.
pub fn check_journal_size(finished: usize, running: usize) -> (r: RuntimeResult<()>)
    ensures
        r is Ok <==> finished + running <= MAX_JOURNAL_FILES,
        r matches Err(e) ==> e.code@ == "execution_journal_full"@,
{
    if finished.saturating_add(running) > MAX_JOURNAL_FILES {
        Err(RuntimeError::new("execution_journal_full", "command execution journal contains too many records"))
    } else {
        Ok(())
    }
}

/// A record of `size` bytes fits the journal.
pub fn check_record_size(size: u64) -> (r: RuntimeResult<()>)
    ensures
        r is Ok <==> size <= MAX_RECORD_BYTES,
        r matches Err(e) ==> e.code@ == "execution_record_too_large"@,
{
    if size > MAX_RECORD_BYTES {
        Err(RuntimeError::new("execution_record_too_large", "command execution record exceeds its durable size limit"))
    } else {
        Ok(())
    }
}

/// The path of a key's record in `state` (`running` or `finished`) under `directory`.
pub fn record_path(directory: &str, storage_key: &str, state: &str) -> (r: RuntimeResult<String>)
    ensures
        r is Ok <==> valid_storage_key(storage_key@),
        r matches Ok(p) ==> p@ == directory@ + "/"@ + storage_key@ + "."@ + state@ + ".json"@,
        r matches Err(e) ==> e.code@ == "execution_journal_corrupt"@,
{
    validate_storage_key(storage_key)?;
    let mut v: Vec<char> = Vec::new();
    extend_str(&mut v, directory);
    extend_str(&mut v, "/");
    extend_str(&mut v, storage_key);
    extend_str(&mut v, ".");
    extend_str(&mut v, state);
    extend_str(&mut v, ".json");
    Ok(string_from_chars(v.as_slice()))
}

} // verus!
