//! Writing a file atomically: the content is streamed into a temporary file beside the
//! target (checked as UTF-8 on the way when it is text), synchronized as asked, and then
//! renamed over the target or published where nothing was.

use vstd::prelude::*;
use crate::digest::{decode_base64, spec_base64_decode};
use crate::error::{RuntimeError, RuntimeResult};
use crate::utf8::{cut_character, is_cut_character, utf8_valid_up_to, valid_up_to};

verus! {

/// How far a write is made durable.
#[derive(Debug, Clone, Copy, PartialEq, Eq, Structural)]
pub enum DurabilityMode {
    /// No synchronization (`none` on the wire).
    Unsynced,
    /// The file's data is synchronized.
    Data,
    /// The file and its directory entry are synchronized.
    Full,
}

/// The bytes of text being streamed, checked as UTF-8 across chunk boundaries: the bytes
/// of a character cut by the end of a chunk are kept for the next one.
#[derive(Debug)]
pub struct Utf8Stream {
    pub tail: Vec<u8>,
}

impl Utf8Stream {
    /// Nothing streamed yet.
    pub fn new() -> (s: Self)
        ensures
            s.tail@.len() == 0,
    {
        Utf8Stream { tail: Vec::new() }
    }

    /// Checks the kept bytes followed by `chunk`: valid text keeps nothing, a character cut
    /// off at the end is kept, anything else is invalid.
    pub fn feed(&mut self, chunk: &[u8]) -> (r: RuntimeResult<()>)
        ensures
            ({
                let joined = old(self).tail@ + chunk@;
                let v = valid_up_to(joined, 0);
                if v >= joined.len() {
                    r is Ok && final(self).tail@.len() == 0
                } else if cut_character(joined.subrange(v, joined.len() as int)) {
                    r is Ok && final(self).tail@ == joined.subrange(v, joined.len() as int)
                } else {
                    r matches Err(e) && e.code@ == "invalid_utf8"@
                }
            }),
    {
        let mut joined: Vec<u8> = Vec::new();
        let mut k: usize = 0;
        while k < self.tail.len()
            invariant
                k <= self.tail@.len(),
                joined@ == self.tail@.subrange(0, k as int),
            decreases self.tail.len() - k,
        {
            joined.push(self.tail[k]);
            k = k + 1;
            assert(joined@ =~= self.tail@.subrange(0, k as int));
        }
        let mut j: usize = 0;
        while j < chunk.len()
            invariant
                k == self.tail@.len(),
                j <= chunk@.len(),
                joined@ == self.tail@ + chunk@.subrange(0, j as int),
            decreases chunk.len() - j,
        {
            joined.push(chunk[j]);
            j = j + 1;
            assert(joined@ =~= self.tail@ + chunk@.subrange(0, j as int));
        }
        assert(joined@ =~= old(self).tail@ + chunk@);
        let valid = utf8_valid_up_to(joined.as_slice());
        if valid == joined.len() {
            self.tail = Vec::new();
            return Ok(());
        }
        let mut rest: Vec<u8> = Vec::new();
        let mut t: usize = valid;
        while t < joined.len()
            invariant
                valid <= t <= joined@.len(),
                rest@ == joined@.subrange(valid as int, t as int),
            decreases joined.len() - t,
        {
            rest.push(joined[t]);
            t = t + 1;
            assert(rest@ =~= joined@.subrange(valid as int, t as int));
        }
        if is_cut_character(rest.as_slice()) {
            self.tail = rest;
            return Ok(());
        }
        Err(RuntimeError::new("invalid_utf8", "text is not valid UTF-8"))
    }

    /// The text ended: a character still cut off is invalid.
    pub fn finish(&self) -> (r: RuntimeResult<()>)
        ensures
            r is Ok <==> self.tail@.len() == 0,
            r matches Err(e) ==> e.code@ == "invalid_utf8"@,
    {
        if self.tail.len() > 0 {
            return Err(RuntimeError::new("invalid_utf8", "text ends with an incomplete UTF-8 sequence"));
        }
        Ok(())
    }
}

/// A write stops before its commit when it is cancelled.
pub fn check_write_cancelled(cancelled: bool) -> (r: RuntimeResult<()>)
    ensures
        r is Ok <==> !cancelled,
        r matches Err(e) ==> e.code@ == "operationCancelled"@,
{
    if cancelled {
        return Err(RuntimeError::new("operationCancelled", "write cancelled before commit"));
    }
    Ok(())
}

/// A target version can only be expected of a target that exists.
pub fn check_expected_target(expected_version_given: bool, target_exists: bool) -> (r: RuntimeResult<()>)
    ensures
        r is Ok <==> (!expected_version_given || target_exists),
        r matches Err(e) ==> e.code@ == "targetMissing"@,
{
    if expected_version_given && !target_exists {
        return Err(RuntimeError::new("targetMissing", "expectedVersion requires an existing target"));
    }
    Ok(())
}

/// How the temporary file is committed.
#[derive(Debug, Clone, Copy, PartialEq, Eq, Structural)]
pub enum CommitKind {
    /// Renamed over the existing target.
    Replace,
    /// Published where no target was, failing if one appears.
    CreateNew,
}

/// How a write commits: over a target that existed when the write began only when
/// overwriting is allowed; where none was, only if none appeared since.
pub fn commit_kind(existed: bool, overwrite: bool, appeared: bool) -> (r: RuntimeResult<CommitKind>)
    ensures
        existed && !overwrite ==> (r matches Err(e) && e.code@ == "already_exists"@),
        existed && overwrite ==> r == Ok::<CommitKind, RuntimeError>(CommitKind::Replace),
        !existed && appeared ==> (r matches Err(e) && e.code@ == "writeConflict"@),
        !existed && !appeared ==> r == Ok::<CommitKind, RuntimeError>(CommitKind::CreateNew),
{
    if existed {
        if !overwrite {
            return Err(RuntimeError::new("already_exists", "destination exists and overwrite is false"));
        }
        return Ok(CommitKind::Replace);
    }
    if appeared {
        return Err(RuntimeError::new("writeConflict", "destination appeared before commit"));
    }
    Ok(CommitKind::CreateNew)
}

/// The temporary file's data is synchronized for the data and full modes.
pub fn syncs_data(durability: DurabilityMode) -> (r: bool)
    ensures
        r == (durability == DurabilityMode::Data || durability == DurabilityMode::Full),
{
    durability == DurabilityMode::Data || durability == DurabilityMode::Full
}

/// The existing target's permissions carry over when they are to be preserved and there
/// was a target.
pub fn preserves_metadata(preserve: bool, existed: bool) -> (r: bool)
    ensures
        r == (preserve && existed),
{
    preserve && existed
}

/// The durability a committed write achieved: a full write is full only where the
/// parent directory could be synchronized; elsewhere its data was, with a warning.
pub fn durability_achieved(requested: DurabilityMode, parent_synced: bool) -> (r: (DurabilityMode, Option<String>))
    ensures
        requested != DurabilityMode::Full ==> r.0 == requested && r.1 is None,
        requested == DurabilityMode::Full && parent_synced ==> r.0 == DurabilityMode::Full && r.1 is None,
        requested == DurabilityMode::Full && !parent_synced ==> r.0 == DurabilityMode::Data
            && (r.1 matches Some(w) && w@ == "parent directory sync is unavailable on this platform; file data was synchronized"@),
{
    if requested != DurabilityMode::Full {
        return (requested, None);
    }
    if parent_synced {
        (DurabilityMode::Full, None)
    } else {
        (DurabilityMode::Data, Some("parent directory sync is unavailable on this platform; file data was synchronized".to_owned()))
    }
}

/// The bytes of raw content given as Base64.
pub fn decode_raw_content(base64: &str) -> (r: RuntimeResult<Vec<u8>>)
    ensures
        match spec_base64_decode(base64@) {
            Some(b) => r matches Ok(v) && v@ == b,
            None => r matches Err(e) && e.code@ == "invalid_base64"@,
        },
{
    match decode_base64(base64) {
        Some(v) => Ok(v),
        None => Err(RuntimeError::new("invalid_base64", "raw file content is not valid Base64")),
    }
}

} // verus!
