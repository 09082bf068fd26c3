//! Managed artifacts: immutable, task-scoped tool output kept in the blob store and
//! read back lazily, one bounded page at a time.

use vstd::prelude::*;
use vstd::utf8::{decode_utf8, valid_utf8};
use super::{
    BlobEntry, BlobOwner, BlobState, BlobStore, ChunkRecord, DEFAULT_CHUNK_BYTES, MAX_BLOB_BYTES,
    MAX_INLINE_BYTES, MAX_TTL_SECONDS, access_effect, artifact_error, blob_gate, blob_path,
    blob_tracker, blob_tracker_budget, context_owner, default_blob_budget, expired_for, expiry,
    index_of_content, index_of_upload, insert_spec, lemma_insert_spec_finds, owner, owner_view,
    paths_view, quota_error, quota_exceeded, removal_spec, retain_spec, unexpired, upload_file_path,
    usage,
};
use crate::budget::{BudgetTracker, BudgetUsage, checkpoint_error, sat_add, sat_sub, usage_at};
use crate::context::{OperationContext, clone_opt, opt_view};
use crate::digest::{sha256_hex, spec_sha256_hex};
use crate::error::{RuntimeError, RuntimeResult};
use crate::text::utf8_str;

verus! {

/// A stored artifact.
#[derive(Debug, Clone)]
pub struct ManagedArtifactRef {
    pub content_ref: String,
    pub size_bytes: u64,
    pub sha256: String,
    pub expires_at_ms: u64,
}

/// One page of an artifact's text.
#[derive(Debug, Clone)]
pub struct ManagedArtifactRead {
    pub content: String,
    pub truncated: bool,
    pub size_bytes: u64,
    pub sha256: String,
    pub expires_at_ms: u64,
    pub offset: u64,
    pub next_offset: Option<u64>,
    pub usage: BudgetUsage,
}

/// `e` is the sealed artifact entry that `store_artifact` records.
pub open spec fn is_new_artifact(
    e: BlobEntry,
    root: Seq<char>,
    context: OperationContext,
    contents: Seq<u8>,
    content_type: Option<Seq<char>>,
    ttl_seconds: u64,
    now_ms: u64,
    upload_id: Seq<char>,
    content_ref: Seq<char>,
) -> bool {
    &&& e.upload_id@ == upload_id
    &&& e.content_ref@ == content_ref
    &&& owner_view(e.owner) == context_owner(context)
    &&& e.purpose@ == "artifact"@
    &&& opt_view(e.content_type) == content_type
    &&& e.expected_size == Some(contents.len() as u64)
    &&& opt_view(e.expected_sha256) == Some(spec_sha256_hex(contents))
    &&& e.chunk_size == DEFAULT_CHUNK_BYTES
    &&& e.expires_at_ms == expiry(now_ms, Some(ttl_seconds))
    &&& e.path@ == blob_path(root, upload_id)
    &&& e.received == contents.len()
    &&& e.chunks@.len() == 0
    &&& opt_view(e.sha256) == Some(spec_sha256_hex(contents))
    &&& e.state == BlobState::Sealed
}

/// The longest prefix of `b` that is valid UTF-8, found by dropping bytes from the end.
pub open spec fn utf8_prefix(b: Seq<u8>) -> Seq<u8>
    decreases b.len(),
{
    if b.len() == 0 || valid_utf8(b) {
        b
    } else {
        utf8_prefix(b.drop_last())
    }
}

/// A page of an artifact to be read: the caller reads at most `take` bytes of the file
/// at `path` from `offset` and hands them to `finish_artifact_read`.
pub struct ArtifactRange {
    pub path: String,
    pub offset: u64,
    pub take: u64,
    pub max_bytes: usize,
    pub size_bytes: u64,
    pub sha256: String,
    pub expires_at_ms: u64,
    pub tracker: BudgetTracker,
}

/// The page size a reader asked for, kept between one byte and the inline limit.
pub open spec fn page_bytes(max_bytes: usize) -> int {
    if max_bytes < 1 {
        1
    } else if max_bytes > MAX_INLINE_BYTES {
        MAX_INLINE_BYTES as int
    } else {
        max_bytes as int
    }
}

/// The result of starting to read `content_ref` from `offset`.
pub open spec fn artifact_range_planned(
    before: BlobStore,
    after: BlobStore,
    context: OperationContext,
    content_ref: Seq<char>,
    offset: u64,
    max_bytes: usize,
    now_ms: u64,
    r: RuntimeResult<ArtifactRange>,
) -> bool {
    let gate = blob_gate(context, now_ms);
    let unchanged = after.root == before.root && after.entries@ == before.entries@ && after.removed_paths@ == before.removed_paths@;
    if gate is Some {
        r matches Err(x) && x.code@ == gate->0 && opt_view(x.phase) == Some("readingArtifact"@) && unchanged
    } else {
        match index_of_content(before.entries@, content_ref) {
            None => r matches Err(x) && x.code@ == "artifact_not_found"@ && unchanged,
            Some(i) => {
                let e = before.entries@[i];
                if artifact_error(e, context, now_ms) is Some {
                    &&& r matches Err(x) && x.code@ == artifact_error(e, context, now_ms)->0
                    &&& access_effect(before, after, Some(i), expired_for(e, context, now_ms, true))
                } else if e.purpose@ != "artifact"@ || e.state != BlobState::Sealed {
                    r matches Err(x) && x.code@ == "artifact_not_found"@ && unchanged
                } else if offset > e.received {
                    r matches Err(x) && x.code@ == "artifact_range_invalid"@ && unchanged
                } else {
                    &&& unchanged
                    &&& r matches Ok(a) && {
                        &&& a.path@ == e.path@
                        &&& a.offset == offset
                        &&& a.max_bytes == page_bytes(max_bytes)
                        &&& a.take == page_bytes(max_bytes) + 4
                        &&& a.size_bytes == e.received
                        &&& a.sha256@ == (match e.sha256 { Some(h) => h@, None => Seq::<char>::empty() })
                        &&& a.expires_at_ms == e.expires_at_ms
                        &&& !a.tracker.cancelled
                        &&& a.tracker.budget == blob_tracker_budget(default_blob_budget(), now_ms)
                        &&& a.tracker.started_ms == now_ms
                        &&& a.tracker.phase@ == "readingArtifact"@
                        &&& a.tracker.counters == crate::budget::zero_usage()
                    }
                }
            },
        }
    }
}

/// The page read from `bytes`, the bytes found at the range's offset.
pub open spec fn artifact_page(a: ArtifactRange, bytes: Seq<u8>, now_ms: u64, r: RuntimeResult<ManagedArtifactRead>) -> bool {
    let t = a.tracker;
    let read = sat_add(t.counters.bytes_read, bytes.len() as u64);
    let n = if bytes.len() > a.max_bytes { a.max_bytes as int } else { bytes.len() as int };
    let kept = utf8_prefix(bytes.subrange(0, n));
    let next = sat_add(a.offset, kept.len() as u64);
    if checkpoint_error(t, now_ms) is Some {
        r matches Err(x) && x.code@ == checkpoint_error(t, now_ms)->0
    } else if t.budget.max_bytes_read matches Some(limit) && read > limit {
        r matches Err(x) && x.code@ == "byteBudgetExceeded"@
    } else {
        r matches Ok(p) && {
            &&& p.content@ == decode_utf8(kept)
            &&& p.truncated == (sat_sub(a.size_bytes, a.offset) > a.max_bytes)
            &&& p.size_bytes == a.size_bytes
            &&& p.sha256@ == a.sha256@
            &&& p.expires_at_ms == a.expires_at_ms
            &&& p.offset == a.offset
            &&& p.next_offset == (if next < a.size_bytes { Some(next) } else { None })
            &&& p.usage == BudgetUsage { bytes_read: read, elapsed_ms: sat_sub(now_ms, t.started_ms), ..t.counters }
        }
    }
}

impl BlobStore {
    /// Stores `contents` as an immutable artifact of `context`'s agent and task, after
    /// purging expired uploads and checking the caller's quotas. The caller writes the
    /// bytes to the recorded path.
    pub fn store_artifact(
        &mut self,
        context: &OperationContext,
        contents: &[u8],
        content_type: Option<String>,
        ttl_seconds: u64,
        now_ms: u64,
        upload_id: &str,
        content_ref: &str,
    ) -> (r: RuntimeResult<ManagedArtifactRef>)
        requires
            old(self).wf(),
        ensures
            final(self).wf(),
            final(self).root == old(self).root,
            contents@.len() > MAX_BLOB_BYTES ==> {
                &&& r matches Err(e) && e.code@ == "blobQuotaExceeded"@
                &&& final(self).entries@ == old(self).entries@
                &&& final(self).removed_paths@ == old(self).removed_paths@
            },
            contents@.len() <= MAX_BLOB_BYTES ==> ({
                let purged = retain_spec(old(self).entries@, unexpired(now_ms));
                let s = final(self).entries@;
                &&& paths_view(final(self).removed_paths@) == paths_view(old(self).removed_paths@) + removal_spec(old(self).entries@, unexpired(now_ms), old(self).root@)
                &&& if quota_exceeded(purged, context_owner(*context), contents@.len() as u64) {
                    r matches Err(e) && e.code@ == "blobQuotaExceeded"@ && s == purged
                } else {
                    &&& r matches Ok(a) && a.content_ref@ == content_ref@ && a.size_bytes == contents@.len()
                        && a.sha256@ == spec_sha256_hex(contents@) && a.expires_at_ms == expiry(now_ms, Some(ttl_seconds))
                    &&& index_of_upload(s, upload_id@) is Some
                    &&& s == insert_spec(purged, s[index_of_upload(s, upload_id@)->0])
                    &&& is_new_artifact(s[index_of_upload(s, upload_id@)->0], old(self).root@, *context, contents@,
                        opt_view(content_type), ttl_seconds, now_ms, upload_id@, content_ref@)
                }
            }),
    {
        if contents.len() as u64 > MAX_BLOB_BYTES {
            return Err(quota_error("artifact exceeds the maximum size"));
        }
        let size_bytes = contents.len() as u64;
        let ttl = if ttl_seconds < 1 { 1 } else if ttl_seconds > MAX_TTL_SECONDS { MAX_TTL_SECONDS } else { ttl_seconds };
        let sha256 = sha256_hex(contents);
        let owner = owner(context);
        self.purge_expired(now_ms);
        let (owner_bytes, owner_uploads, global_bytes) = usage(&self.entries, &owner);
        if owner_uploads >= super::MAX_OWNER_UPLOADS || owner_bytes.saturating_add(size_bytes) > super::MAX_OWNER_BYTES
            || global_bytes.saturating_add(size_bytes) > super::MAX_GLOBAL_BYTES {
            return Err(quota_error("artifact quota exceeded"));
        }
        let expires_at_ms = now_ms.saturating_add(ttl * 1000);
        let entry = BlobEntry {
            upload_id: upload_id.to_owned(),
            content_ref: content_ref.to_owned(),
            owner,
            purpose: "artifact".to_owned(),
            content_type,
            expected_size: Some(size_bytes),
            expected_sha256: Some(sha256.clone()),
            chunk_size: DEFAULT_CHUNK_BYTES,
            expires_at_ms,
            path: upload_file_path(self.root.as_str(), upload_id, ".blob"),
            received: size_bytes,
            chunks: Vec::new(),
            sha256: Some(sha256.clone()),
            state: BlobState::Sealed,
        };
        let ghost e = entry;
        let ghost purged = self.entries@;
        self.insert_entry(entry);
        proof {
            reveal_strlit("artifact");
            lemma_insert_spec_finds(purged, e);
        }
        Ok(ManagedArtifactRef { content_ref: content_ref.to_owned(), size_bytes, sha256, expires_at_ms })
    }

    /// Starts reading one bounded page of an artifact from `offset`.
    pub fn read_artifact_text_range(&mut self, context: &OperationContext, content_ref: &str, offset: u64, max_bytes: usize, now_ms: u64) -> (r: RuntimeResult<ArtifactRange>)
        requires
            old(self).wf(),
        ensures
            final(self).wf(),
            artifact_range_planned(*old(self), *final(self), *context, content_ref@, offset, max_bytes, now_ms, r),
    {
        let budget = super::BlobToolBudget::default();
        let mut tracker = blob_tracker(context, &budget, now_ms);
        tracker.set_phase("readingArtifact");
        tracker.checkpoint(now_ms)?;
        let page = if max_bytes < 1 { 1 } else if max_bytes > MAX_INLINE_BYTES { MAX_INLINE_BYTES } else { max_bytes };
        let i = match self.find_content(content_ref) {
            Some(i) => i,
            None => return Err(RuntimeError::new("artifact_not_found", "artifact was not found")),
        };
        self.check_entry(i, context, now_ms, true)?;
        let e = &self.entries[i];
        if !crate::text::str_eq(e.purpose.as_str(), "artifact") || e.state != BlobState::Sealed {
            return Err(RuntimeError::new("artifact_not_found", "artifact is not available for lazy reading"));
        }
        if offset > e.received {
            return Err(RuntimeError::new("artifact_range_invalid", "artifact offset exceeds artifact size"));
        }
        let sha256 = match &e.sha256 {
            Some(h) => h.clone(),
            None => String::new(),
        };
        Ok(ArtifactRange {
            path: e.path.clone(),
            offset,
            take: page as u64 + 4,
            max_bytes: page,
            size_bytes: e.received,
            sha256,
            expires_at_ms: e.expires_at_ms,
            tracker,
        })
    }

    /// Starts reading an artifact from its beginning.
    pub fn read_artifact_text(&mut self, context: &OperationContext, content_ref: &str, max_bytes: usize, now_ms: u64) -> (r: RuntimeResult<ArtifactRange>)
        requires
            old(self).wf(),
        ensures
            final(self).wf(),
            artifact_range_planned(*old(self), *final(self), *context, content_ref@, 0, max_bytes, now_ms, r),
    {
        self.read_artifact_text_range(context, content_ref, 0, max_bytes, now_ms)
    }
}

/// Turns the bytes read for a page into text: at most `max_bytes` of them, cut back to
/// the last whole UTF-8 character, with the offset the next page starts at.
pub fn finish_artifact_read(range: ArtifactRange, bytes: &[u8], now_ms: u64) -> (r: RuntimeResult<ManagedArtifactRead>)
    ensures
        artifact_page(range, bytes@, now_ms, r),
{
    let mut tracker = range.tracker;
    tracker.consume_read_bytes(bytes.len() as u64, now_ms)?;
    tracker.checkpoint(now_ms)?;
    let available = range.size_bytes.saturating_sub(range.offset);
    let truncated = available > range.max_bytes as u64;
    let n = if bytes.len() > range.max_bytes { range.max_bytes } else { bytes.len() };
    let mut kept: Vec<u8> = Vec::new();
    let mut i: usize = 0;
    while i < n
        invariant
            i <= n <= bytes@.len(),
            kept@ == bytes@.subrange(0, i as int),
        decreases n - i,
    {
        kept.push(bytes[i]);
        i = i + 1;
    }
    let ghost whole = kept@;
    loop
        invariant
            utf8_prefix(whole) == utf8_prefix(kept@),
        ensures
            valid_utf8(kept@),
            kept@ == utf8_prefix(whole),
        decreases kept@.len(),
    {
        if kept.len() == 0 || utf8_str(kept.as_slice()).is_some() {
            break;
        }
        assert(kept@.drop_last() =~= kept@.subrange(0, kept@.len() - 1));
        kept.pop();
    }
    let text = match utf8_str(kept.as_slice()) {
        Some(s) => s.to_owned(),
        None => {
            proof {
                assert(valid_utf8(kept@));
            }
            String::new()
        },
    };
    let next = range.offset.saturating_add(kept.len() as u64);
    let next_offset = if next < range.size_bytes { Some(next) } else { None };
    Ok(ManagedArtifactRead {
        content: text,
        truncated,
        size_bytes: range.size_bytes,
        sha256: range.sha256,
        expires_at_ms: range.expires_at_ms,
        offset: range.offset,
        next_offset,
        usage: tracker.finish_usage(now_ms),
    })
}

} // verus!
