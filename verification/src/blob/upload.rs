//! Chunked uploads: writing chunks in order and sealing a complete upload.
//!
//! Each step that needs the upload's file is split in two: the store decides and
//! hands back what to do with the file, and a second call records the outcome
//! once the caller has done it.

use vstd::prelude::*;
use super::{
    BlobEntry, BlobState, BlobStatus, BlobStore, BlobToolBudget, ChunkRecord, MAX_BLOB_BYTES,
    access_effect, access_error, blob_gate, blob_tracker, blob_tracker_budget, entry_mut,
    hash_body, index_of_upload, is_status_of, normalize_hash, paths_view, quota_error,
    reserved_bytes, state_error, status, upload_expired, valid_hash,
};
use crate::budget::{BudgetTracker, BudgetUsage, checkpoint_error, sat_add, usage_at, zero_usage};
use crate::context::opt_view;
use crate::digest::{decode_base64, opt_bytes, sha256_hex, spec_base64_decode, spec_sha256_hex};
use crate::error::{RuntimeError, RuntimeResult};

verus! {

/// One chunk of an upload, Base64-encoded, written at `offset`.
pub struct BlobChunkRequest {
    pub upload_id: String,
    pub offset: u64,
    pub data_base64: String,
    pub chunk_sha256: Option<String>,
    pub budget: BlobToolBudget,
}

/// The last record written at `offset` (a later record at an offset replaces an earlier one).
pub open spec fn chunk_at(c: Seq<ChunkRecord>, offset: u64) -> Option<int>
    decreases c.len(),
{
    if c.len() == 0 {
        None
    } else if c.last().offset == offset {
        Some(c.len() - 1)
    } else {
        chunk_at(c.drop_last(), offset)
    }
}

fn find_chunk(c: &Vec<ChunkRecord>, offset: u64) -> (r: Option<usize>)
    ensures
        match r {
            Some(k) => k < c@.len() && chunk_at(c@, offset) == Some(k as int),
            None => chunk_at(c@, offset) is None,
        },
{
    let mut i: usize = c.len();
    assert(c@.subrange(0, c@.len() as int) =~= c@);
    while i > 0
        invariant
            i <= c@.len(),
            chunk_at(c@, offset) == chunk_at(c@.subrange(0, i as int), offset),
        decreases i,
    {
        let ghost p = c@.subrange(0, i as int);
        assert(p.drop_last() =~= c@.subrange(0, i - 1));
        if c[i - 1].offset == offset {
            return Some(i - 1);
        }
        i = i - 1;
    }
    None
}

/// What checking a declared chunk digest against the decoded bytes fails with.
pub open spec fn chunk_digest_error(declared: Option<String>, bytes: Seq<u8>) -> Option<Seq<char>> {
    match declared {
        None => None,
        Some(h) => if !valid_hash(hash_body(h@)) {
            Some("invalidSha256"@)
        } else if hash_body(h@) != spec_sha256_hex(bytes) {
            Some("blobIntegrityMismatch"@)
        } else {
            None
        },
    }
}

/// What upload `e` makes of `bytes` written at `offset`: `Ok(true)` replays a chunk
/// already written with the same bytes, `Ok(false)` is the next chunk, `Err` the error code.
pub open spec fn chunk_decision(e: BlobEntry, offset: u64, bytes: Seq<u8>) -> Result<bool, Seq<char>> {
    if e.state != BlobState::Uploading {
        Err("blobStateConflict"@)
    } else if bytes.len() > e.chunk_size {
        Err("blobChunkTooLarge"@)
    } else if offset < e.received {
        match chunk_at(e.chunks@, offset) {
            Some(k) => if e.chunks@[k].length == bytes.len() && e.chunks@[k].sha256@ == spec_sha256_hex(bytes) {
                Ok(true)
            } else {
                Err("blobChunkConflict"@)
            },
            None => Err("blobChunkConflict"@),
        }
    } else if offset != e.received {
        Err("blobOffsetMismatch"@)
    } else if e.received + bytes.len() > MAX_BLOB_BYTES || e.received + bytes.len() > reserved_bytes(e) {
        Err("blobQuotaExceeded"@)
    } else {
        Ok(false)
    }
}

/// A chunk accepted for appending: the caller appends `bytes` to the file at `path`,
/// then records the chunk with `BlobStore::commit_chunk`.
pub struct ChunkAppend {
    pub upload_id: String,
    pub path: String,
    pub offset: u64,
    pub bytes: Vec<u8>,
    pub sha256: String,
    pub tracker: BudgetTracker,
}

/// The outcome of a chunk write.
pub enum ChunkWrite {
    /// The same bytes were already written at this offset; nothing is to be done.
    Replayed(BlobStatus),
    /// The next chunk, to be appended.
    Append(ChunkAppend),
}

/// `f` is `e` with one more chunk of `length` bytes with digest `sha` at `offset`.
pub open spec fn with_chunk(e: BlobEntry, f: BlobEntry, offset: u64, length: int, sha: Seq<char>) -> bool {
    &&& f == BlobEntry { received: f.received, chunks: f.chunks, ..e }
    &&& f.received == offset + length
    &&& f.chunks@.len() == e.chunks@.len() + 1
    &&& f.chunks@.drop_last() == e.chunks@
    &&& f.chunks@.last().offset == offset
    &&& f.chunks@.last().length == length
    &&& f.chunks@.last().sha256@ == sha
}

/// Nothing of the store changed.
pub open spec fn same_store(before: BlobStore, after: BlobStore) -> bool {
    &&& after.root == before.root
    &&& after.entries@ == before.entries@
    &&& after.removed_paths@ == before.removed_paths@
}

/// The result of `write_chunk` on store `before` leaving `after`.
pub open spec fn chunk_written(
    before: BlobStore,
    after: BlobStore,
    context: crate::context::OperationContext,
    request: BlobChunkRequest,
    now_ms: u64,
    r: RuntimeResult<ChunkWrite>,
) -> bool {
    let unchanged = same_store(before, after);
    let gate = blob_gate(context, now_ms);
    if gate is Some {
        &&& r matches Err(x) && x.code@ == gate->0 && opt_view(x.phase) == Some("decodingChunk"@)
        &&& unchanged
    } else if request.budget.max_open_files < 2 {
        &&& r matches Err(x) && x.code@ == "openFileBudgetExceeded"@
        &&& unchanged
    } else {
        match spec_base64_decode(request.data_base64@) {
            None => {
                &&& r matches Err(x) && x.code@ == "invalid_base64"@
                &&& unchanged
            },
            Some(bytes) => {
                let uid = request.upload_id@;
                if chunk_digest_error(request.chunk_sha256, bytes) is Some {
                    &&& r matches Err(x) && x.code@ == chunk_digest_error(request.chunk_sha256, bytes)->0
                    &&& unchanged
                } else if access_error(before.entries@, context, uid, now_ms) is Some {
                    &&& r matches Err(x) && x.code@ == access_error(before.entries@, context, uid, now_ms)->0
                    &&& access_effect(before, after, index_of_upload(before.entries@, uid),
                        upload_expired(before.entries@, context, uid, now_ms))
                } else {
                    let e = before.entries@[index_of_upload(before.entries@, uid)->0];
                    &&& unchanged
                    &&& match chunk_decision(e, request.offset, bytes) {
                        Err(code) => r matches Err(x) && x.code@ == code,
                        Ok(true) => r matches Ok(ChunkWrite::Replayed(st)) && is_status_of(st, e, zero_usage()),
                        Ok(false) => if bytes.len() > blob_tracker_budget(request.budget, now_ms).max_bytes_written->0 {
                            r matches Err(x) && x.code@ == "byteBudgetExceeded"@ && opt_view(x.phase) == Some("writingChunk"@)
                        } else {
                            r matches Ok(ChunkWrite::Append(a)) && {
                                &&& a.upload_id@ == uid
                                &&& a.path@ == e.path@
                                &&& a.offset == request.offset
                                &&& a.bytes@ == bytes
                                &&& a.sha256@ == spec_sha256_hex(bytes)
                                &&& !a.tracker.cancelled
                                &&& a.tracker.budget == blob_tracker_budget(request.budget, now_ms)
                                &&& a.tracker.started_ms == now_ms
                                &&& a.tracker.phase@ == "writingChunk"@
                                &&& a.tracker.counters == BudgetUsage { bytes_written: bytes.len() as u64, ..zero_usage() }
                            }
                        },
                    }
                }
            },
        }
    }
}

/// The result of `commit_chunk` of `a` on store `before` leaving `after`.
pub open spec fn chunk_committed(before: BlobStore, after: BlobStore, a: ChunkAppend, now_ms: u64, r: RuntimeResult<BlobStatus>) -> bool {
    &&& after.root == before.root
    &&& after.removed_paths == before.removed_paths
    &&& match index_of_upload(before.entries@, a.upload_id@) {
        None => r matches Err(x) && x.code@ == "blobNotFound"@ && after.entries@ == before.entries@,
        Some(i) => {
            let e = before.entries@[i];
            if e.state != BlobState::Uploading || e.received != a.offset || e.received + a.bytes@.len() > u64::MAX {
                r matches Err(x) && x.code@ == "blobStateConflict"@ && after.entries@ == before.entries@
            } else {
                let f = after.entries@[i];
                &&& after.entries@ == before.entries@.update(i, f)
                &&& with_chunk(e, f, a.offset, a.bytes@.len() as int, a.sha256@)
                &&& (checkpoint_error(a.tracker, now_ms) is None <==> r is Ok)
                &&& r matches Ok(st) ==> is_status_of(st, f, usage_at(a.tracker, now_ms))
                &&& r matches Err(x) ==> x.code@ == checkpoint_error(a.tracker, now_ms)->0
            }
        },
    }
}

/// After a chunk is recorded, writing at the same offset again is a replay when the bytes
/// are the same, and a `blobChunkConflict` when their length or digest differs; writing
/// past the bytes received is a `blobOffsetMismatch`.
pub proof fn lemma_written_chunk_decisions(e: BlobEntry, f: BlobEntry, offset: u64, bytes: Seq<u8>, other: Seq<u8>, later: u64)
    requires
        chunk_decision(e, offset, bytes) == Ok::<bool, Seq<char>>(false),
        bytes.len() > 0,
        with_chunk(e, f, offset, bytes.len() as int, spec_sha256_hex(bytes)),
        other.len() <= f.chunk_size,
        later > f.received,
    ensures
        chunk_decision(f, offset, bytes) == Ok::<bool, Seq<char>>(true),
        (other.len() != bytes.len() || spec_sha256_hex(other) != spec_sha256_hex(bytes))
            ==> chunk_decision(f, offset, other) == Err::<bool, Seq<char>>("blobChunkConflict"@),
        chunk_decision(f, later, other) == Err::<bool, Seq<char>>("blobOffsetMismatch"@),
{
    assert(chunk_at(f.chunks@, offset) == Some(f.chunks@.len() - 1));
}

impl BlobStore {
    /// Decodes and checks one chunk. A replay of a chunk already written is reported
    /// as such; the next chunk is handed back to be appended to the upload's file and
    /// then recorded with `commit_chunk`.
    pub fn write_chunk(&mut self, context: &crate::context::OperationContext, request: &BlobChunkRequest, now_ms: u64) -> (r: RuntimeResult<ChunkWrite>)
        requires
            old(self).wf(),
        ensures
            final(self).wf(),
            chunk_written(*old(self), *final(self), *context, *request, now_ms, r),
    {
        let mut tracker = blob_tracker(context, &request.budget, now_ms);
        tracker.set_phase("decodingChunk");
        tracker.checkpoint(now_ms)?;
        if request.budget.max_open_files < 2 {
            return Err(RuntimeError::new("openFileBudgetExceeded", "blob operation requires at least 2 open-file slots"));
        }
        let bytes = match decode_base64(request.data_base64.as_str()) {
            Some(b) => b,
            None => return Err(RuntimeError::new("invalid_base64", "blob chunk is not valid Base64")),
        };
        let hash = sha256_hex(bytes.as_slice());
        let declared = match &request.chunk_sha256 {
            Some(h) => normalize_hash(Some(h.as_str()))?,
            None => None,
        };
        if let Some(expected) = declared {
            if expected != hash {
                return Err(RuntimeError::new("blobIntegrityMismatch", "blob chunk SHA-256 does not match"));
            }
        }
        let i = self.checked_entry(context, request.upload_id.as_str(), now_ms)?;
        let e = &self.entries[i];
        if e.state != BlobState::Uploading {
            return Err(state_error("blob is not accepting chunks"));
        }
        if bytes.len() > e.chunk_size {
            return Err(RuntimeError::new("blobChunkTooLarge", "chunk exceeds negotiated chunkSizeBytes"));
        }
        let length = bytes.len() as u64;
        if request.offset < e.received {
            return match find_chunk(&e.chunks, request.offset) {
                Some(k) => {
                    if e.chunks[k].length == length && e.chunks[k].sha256 == hash {
                        Ok(ChunkWrite::Replayed(status(e, tracker.finish_usage(now_ms))))
                    } else {
                        Err(RuntimeError::new("blobChunkConflict", "chunk offset was already written with different bytes"))
                    }
                },
                None => Err(RuntimeError::new("blobChunkConflict", "chunk offset was already written with different bytes")),
            };
        }
        if request.offset != e.received {
            return Err(RuntimeError::new("blobOffsetMismatch", "chunk offset is not the next expected offset"));
        }
        let maximum = match e.expected_size {
            Some(s) => s,
            None => MAX_BLOB_BYTES,
        };
        if length > MAX_BLOB_BYTES || e.received > MAX_BLOB_BYTES - length || e.received + length > maximum {
            return Err(quota_error("chunk would exceed the blob size limit"));
        }
        let path = e.path.clone();
        tracker.set_phase("writingChunk");
        tracker.consume_write_bytes(length, now_ms)?;
        Ok(ChunkWrite::Append(ChunkAppend {
            upload_id: request.upload_id.clone(),
            path,
            offset: request.offset,
            bytes,
            sha256: hash,
            tracker,
        }))
    }

    /// Records a chunk after its bytes were appended to the upload's file.
    pub fn commit_chunk(&mut self, append: &ChunkAppend, now_ms: u64) -> (r: RuntimeResult<BlobStatus>)
        requires
            old(self).wf(),
        ensures
            final(self).wf(),
            chunk_committed(*old(self), *final(self), *append, now_ms, r),
    {
        let i = match self.find_upload(append.upload_id.as_str()) {
            Some(i) => i,
            None => return Err(RuntimeError::new("blobNotFound", "blob upload was not found")),
        };
        let length = append.bytes.len() as u64;
        {
            let e = &self.entries[i];
            if e.state != BlobState::Uploading || e.received != append.offset || e.received > u64::MAX - length {
                return Err(state_error("blob upload changed while its chunk was written"));
            }
        }
        let ghost before = *self;
        let e = entry_mut(&mut self.entries, i);
        e.chunks.push(ChunkRecord { offset: append.offset, length, sha256: append.sha256.clone() });
        e.received = append.offset + length;
        proof {
            let f = self.entries@[i as int];
            let old_e = before.entries@[i as int];
            assert(f.chunks@.drop_last() =~= old_e.chunks@);
            assert forall|a: int, b: int| 0 <= a < b < self.entries@.len() implies #[trigger] self.entries@[a].upload_id@ != #[trigger] self.entries@[b].upload_id@ by {
                assert(before.entries@[a].upload_id@ != before.entries@[b].upload_id@);
            }
        }
        append.tracker.checkpoint(now_ms)?;
        Ok(status(&self.entries[i], append.tracker.finish_usage(now_ms)))
    }
}

/// A request to seal an upload whose bytes are complete.
pub struct BlobSealRequest {
    pub upload_id: String,
    pub final_size_bytes: u64,
    pub sha256: String,
    pub budget: BlobToolBudget,
}

/// An upload ready to be sealed once the digest of its file is known: the caller
/// reads the file at `path` and hands its bytes to `BlobStore::finish_seal`.
pub struct SealCheck {
    pub upload_id: String,
    pub path: String,
    pub expected_sha256: String,
    pub tracker: BudgetTracker,
}

/// The first step of sealing.
pub enum SealStep {
    /// The upload is already sealed with this digest.
    Sealed(BlobStatus),
    /// The file must be read and its digest compared.
    Verify(SealCheck),
}

/// The result of `seal` on store `before` leaving `after`.
pub open spec fn seal_begun(
    before: BlobStore,
    after: BlobStore,
    context: crate::context::OperationContext,
    request: BlobSealRequest,
    now_ms: u64,
    r: RuntimeResult<SealStep>,
) -> bool {
    let unchanged = same_store(before, after);
    let gate = blob_gate(context, now_ms);
    let uid = request.upload_id@;
    let expected = hash_body(request.sha256@);
    if gate is Some {
        &&& r matches Err(x) && x.code@ == gate->0 && opt_view(x.phase) == Some("verifyingBlob"@)
        &&& unchanged
    } else if request.budget.max_open_files < 1 {
        &&& r matches Err(x) && x.code@ == "openFileBudgetExceeded"@
        &&& unchanged
    } else if !valid_hash(expected) {
        &&& r matches Err(x) && x.code@ == "invalidSha256"@
        &&& unchanged
    } else if access_error(before.entries@, context, uid, now_ms) is Some {
        &&& r matches Err(x) && x.code@ == access_error(before.entries@, context, uid, now_ms)->0
        &&& access_effect(before, after, index_of_upload(before.entries@, uid),
            upload_expired(before.entries@, context, uid, now_ms))
    } else {
        let e = before.entries@[index_of_upload(before.entries@, uid)->0];
        &&& unchanged
        &&& if e.state == BlobState::Sealed && opt_view(e.sha256) == Some(expected) {
            r matches Ok(SealStep::Sealed(st)) && is_status_of(st, e, zero_usage())
        } else if e.state != BlobState::Uploading {
            r matches Err(x) && x.code@ == "blobStateConflict"@
        } else if request.final_size_bytes != e.received || (e.expected_size matches Some(n) && n != e.received) {
            r matches Err(x) && x.code@ == "blobSizeMismatch"@
        } else {
            r matches Ok(SealStep::Verify(c)) && {
                &&& c.upload_id@ == uid
                &&& c.path@ == e.path@
                &&& c.expected_sha256@ == expected
                &&& !c.tracker.cancelled
                &&& c.tracker.budget == blob_tracker_budget(request.budget, now_ms)
                &&& c.tracker.started_ms == now_ms
                &&& c.tracker.phase@ == "verifyingBlob"@
                &&& c.tracker.counters == zero_usage()
            }
        }
    }
}

/// The result of `finish_seal` of `c` over the file bytes `contents`.
pub open spec fn seal_finished(before: BlobStore, after: BlobStore, c: SealCheck, contents: Seq<u8>, now_ms: u64, r: RuntimeResult<BlobStatus>) -> bool {
    let t = c.tracker;
    let read = sat_add(t.counters.bytes_read, contents.len() as u64);
    let h = spec_sha256_hex(contents);
    &&& after.root == before.root
    &&& after.removed_paths == before.removed_paths
    &&& if checkpoint_error(t, now_ms) is Some {
        r matches Err(x) && x.code@ == checkpoint_error(t, now_ms)->0 && after.entries@ == before.entries@
    } else if t.budget.max_bytes_read matches Some(limit) && read > limit {
        r matches Err(x) && x.code@ == "byteBudgetExceeded"@ && after.entries@ == before.entries@
    } else {
        match index_of_upload(before.entries@, c.upload_id@) {
            None => r matches Err(x) && x.code@ == "blobNotFound"@ && after.entries@ == before.entries@,
            Some(i) => {
                let e = before.entries@[i];
                if e.state != BlobState::Uploading {
                    r matches Err(x) && x.code@ == "blobStateConflict"@ && after.entries@ == before.entries@
                } else if h != c.expected_sha256@ || (e.expected_sha256 matches Some(x) && x@ != h) {
                    r matches Err(x) && x.code@ == "blobIntegrityMismatch"@ && after.entries@ == before.entries@
                } else {
                    let f = after.entries@[i];
                    &&& after.entries@ == before.entries@.update(i, f)
                    &&& f == BlobEntry { sha256: f.sha256, state: BlobState::Sealed, ..e }
                    &&& opt_view(f.sha256) == Some(h)
                    &&& r matches Ok(st) && is_status_of(st, f, BudgetUsage {
                        bytes_read: read,
                        elapsed_ms: crate::budget::sat_sub(now_ms, t.started_ms),
                        ..t.counters
                    })
                }
            },
        }
    }
}

impl BlobStore {
    /// Checks that an upload can be sealed with the declared size and digest. An upload
    /// already sealed with that digest is reported as it is.
    pub fn seal(&mut self, context: &crate::context::OperationContext, request: &BlobSealRequest, now_ms: u64) -> (r: RuntimeResult<SealStep>)
        requires
            old(self).wf(),
        ensures
            final(self).wf(),
            seal_begun(*old(self), *final(self), *context, *request, now_ms, r),
    {
        let mut tracker = blob_tracker(context, &request.budget, now_ms);
        tracker.set_phase("verifyingBlob");
        tracker.checkpoint(now_ms)?;
        if request.budget.max_open_files < 1 {
            return Err(RuntimeError::new("openFileBudgetExceeded", "blob operation requires at least 1 open-file slots"));
        }
        let expected = match normalize_hash(Some(request.sha256.as_str()))? {
            Some(h) => h,
            None => return Err(RuntimeError::new("blobIntegrityRequired", "final SHA-256 is required")),
        };
        let i = self.checked_entry(context, request.upload_id.as_str(), now_ms)?;
        let e = &self.entries[i];
        let already = match &e.sha256 {
            Some(h) => e.state == BlobState::Sealed && *h == expected,
            None => false,
        };
        if already {
            return Ok(SealStep::Sealed(status(e, tracker.finish_usage(now_ms))));
        }
        if e.state != BlobState::Uploading {
            return Err(state_error("blob cannot be sealed from its current state"));
        }
        let size_differs = match e.expected_size {
            Some(n) => n != e.received,
            None => false,
        };
        if request.final_size_bytes != e.received || size_differs {
            return Err(RuntimeError::new("blobSizeMismatch", "final blob size does not match uploaded or expected size"));
        }
        Ok(SealStep::Verify(SealCheck {
            upload_id: request.upload_id.clone(),
            path: e.path.clone(),
            expected_sha256: expected,
            tracker,
        }))
    }

    /// Seals an upload once the bytes of its file are read: their digest must match the
    /// declared one (and the one announced at the start, if any). A mismatch seals nothing.
    pub fn finish_seal(&mut self, check: SealCheck, contents: &[u8], now_ms: u64) -> (r: RuntimeResult<BlobStatus>)
        requires
            old(self).wf(),
        ensures
            final(self).wf(),
            seal_finished(*old(self), *final(self), check, contents@, now_ms, r),
    {
        let mut tracker = check.tracker;
        tracker.consume_read_bytes(contents.len() as u64, now_ms)?;
        let hash = sha256_hex(contents);
        let i = match self.find_upload(check.upload_id.as_str()) {
            Some(i) => i,
            None => return Err(RuntimeError::new("blobNotFound", "blob upload was not found")),
        };
        {
            let e = &self.entries[i];
            if e.state != BlobState::Uploading {
                return Err(state_error("blob cannot be sealed from its current state"));
            }
            let announced_differs = match &e.expected_sha256 {
                Some(x) => *x != hash,
                None => false,
            };
            if hash != check.expected_sha256 || announced_differs {
                return Err(RuntimeError::new("blobIntegrityMismatch", "final blob SHA-256 does not match"));
            }
        }
        let ghost before = *self;
        let e = entry_mut(&mut self.entries, i);
        e.sha256 = Some(hash);
        e.state = BlobState::Sealed;
        proof {
            assert forall|a: int, b: int| 0 <= a < b < self.entries@.len() implies #[trigger] self.entries@[a].upload_id@ != #[trigger] self.entries@[b].upload_id@ by {
                assert(before.entries@[a].upload_id@ != before.entries@[b].upload_id@);
            }
        }
        tracker.checkpoint(now_ms)?;
        Ok(status(&self.entries[i], tracker.finish_usage(now_ms)))
    }
}

} // verus!
