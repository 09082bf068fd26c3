//! Recovering the uploads of a blob store from its directory after a restart.

use vstd::prelude::*;
use super::{
    BlobEntry, BlobLease, BlobState, BlobStore, MAX_CHUNK_BYTES, MIN_CHUNK_BYTES, blob_path, context_owner, first_content,
    index_of_upload, insert_spec, leased, lemma_insert_spec_finds, owner_view, upload_file_path, valid_purpose,
    validate_purpose,
};
use crate::context::OperationContext;
use crate::error::RuntimeResult;
use crate::text::{chars_of, contains_str, ends_with_str, starts_with_seq, starts_with_str};

verus! {

/// What a file of the store's directory is to recovery.
#[derive(Debug, Clone, Copy, PartialEq, Eq, Structural)]
pub enum StoredFileKind {
    /// A temporary file of an interrupted write: it is deleted.
    Temporary,
    /// The metadata record of an upload.
    Metadata,
    /// Anything else (upload bytes are matched to their records afterwards).
    Other,
}

pub open spec fn stored_file_kind(name: Seq<char>) -> StoredFileKind {
    if crate::text::contains_seq(name, ".meta.tmp-"@) || crate::text::contains_seq(name, ".blob.tmp-"@) {
        StoredFileKind::Temporary
    } else if crate::text::ends_with_seq(name, ".meta.json"@) {
        StoredFileKind::Metadata
    } else {
        StoredFileKind::Other
    }
}

/// Classifies a file name of the store's directory.
pub fn classify_stored_file(name: &str) -> (r: StoredFileKind)
    ensures
        r == stored_file_kind(name@),
{
    let c = chars_of(name);
    if contains_str(c.as_slice(), ".meta.tmp-") || contains_str(c.as_slice(), ".blob.tmp-") {
        StoredFileKind::Temporary
    } else if ends_with_str(c.as_slice(), ".meta.json") {
        StoredFileKind::Metadata
    } else {
        StoredFileKind::Other
    }
}

/// A recorded upload survives a restart when it is live, its bytes file exists and holds
/// at least the bytes the record counts, and the record names a valid content reference
/// and purpose.
pub open spec fn survives(meta: BlobEntry, blob_len: Option<u64>, now_ms: u64) -> bool {
    &&& meta.expires_at_ms > now_ms
    &&& meta.state != BlobState::Aborted
    &&& meta.state != BlobState::Consumed
    &&& blob_len is Some
    &&& starts_with_seq(meta.content_ref@, "blob:v1:"@)
    &&& valid_purpose(meta.purpose@)
    &&& blob_len->0 >= meta.received
}

/// The entry a surviving record is recovered as: an upload interrupted while being
/// consumed is sealed again, its chunk size is kept within bounds, and its bytes are the
/// file named after its upload id.
pub open spec fn recovered_entry(root: Seq<char>, meta: BlobEntry, e: BlobEntry) -> bool {
    &&& e == BlobEntry { path: e.path, state: e.state, chunk_size: e.chunk_size, ..meta }
    &&& e.path@ == blob_path(root, meta.upload_id@)
    &&& e.state == (if meta.state == BlobState::Consuming { BlobState::Sealed } else { meta.state })
    &&& e.chunk_size == (if meta.chunk_size < MIN_CHUNK_BYTES { MIN_CHUNK_BYTES } else if meta.chunk_size > MAX_CHUNK_BYTES { MAX_CHUNK_BYTES } else { meta.chunk_size })
}

/// What to do with a recorded upload.
pub enum Recovery {
    /// Delete the record and the upload's bytes.
    Discard,
    /// Keep the upload; `truncate_to` is the length its file is cut back to, if it holds
    /// bytes past those recorded.
    Keep { entry: BlobEntry, truncate_to: Option<u64> },
}

/// Decides what becomes of a recorded upload found at start-up, given the length of its
/// bytes file (`None` when there is no such regular file).
pub fn recover_entry(root: &str, meta: BlobEntry, blob_len: Option<u64>, now_ms: u64) -> (r: Recovery)
    ensures
        !survives(meta, blob_len, now_ms) ==> r is Discard,
        survives(meta, blob_len, now_ms) ==> (r matches Recovery::Keep { entry, truncate_to } && {
            &&& recovered_entry(root@, meta, entry)
            &&& truncate_to == (if blob_len->0 > meta.received { Some(meta.received) } else { None::<u64> })
        }),
{
    let len = match blob_len {
        Some(l) => l,
        None => return Recovery::Discard,
    };
    if meta.expires_at_ms <= now_ms || meta.state == BlobState::Aborted || meta.state == BlobState::Consumed
        || !starts_with_str(chars_of(meta.content_ref.as_str()).as_slice(), "blob:v1:")
        || validate_purpose(meta.purpose.as_str()).is_err() || len < meta.received {
        return Recovery::Discard;
    }
    let truncate_to = if len > meta.received { Some(meta.received) } else { None };
    let path = upload_file_path(root, meta.upload_id.as_str(), ".blob");
    let state = if meta.state == BlobState::Consuming { BlobState::Sealed } else { meta.state };
    let chunk_size = if meta.chunk_size < MIN_CHUNK_BYTES { MIN_CHUNK_BYTES } else if meta.chunk_size > MAX_CHUNK_BYTES { MAX_CHUNK_BYTES } else { meta.chunk_size };
    Recovery::Keep { entry: BlobEntry { path, state, chunk_size, ..meta }, truncate_to }
}

impl BlobStore {
    /// Records a recovered upload (replacing a record with the same upload id).
    pub fn record_recovered(&mut self, entry: BlobEntry)
        requires
            old(self).wf(),
        ensures
            final(self).wf(),
            final(self).root == old(self).root,
            final(self).removed_paths == old(self).removed_paths,
            final(self).entries@ == insert_spec(old(self).entries@, entry),
    {
        self.insert_entry(entry);
    }
}

/// A bytes file left without a recovered upload: it is deleted.
pub open spec fn orphan_blob(name: Seq<char>, kept: Seq<BlobEntry>, root: Seq<char>) -> bool {
    crate::text::ends_with_seq(name, ".blob"@)
        && !exists|i: int| 0 <= i < kept.len() && (#[trigger] kept[i]).path@ == root + "/"@ + name
}

/// Decides whether a file named `name` in the store's directory is an orphaned bytes file.
pub fn is_orphan_blob(store: &BlobStore, name: &str) -> (r: bool)
    ensures
        r == orphan_blob(name@, store.entries@, store.root@),
{
    if !ends_with_str(chars_of(name).as_slice(), ".blob") {
        return false;
    }
    let mut v: Vec<char> = Vec::new();
    crate::text::extend_str(&mut v, store.root.as_str());
    crate::text::extend_str(&mut v, "/");
    crate::text::extend_str(&mut v, name);
    let path = crate::text::string_from_chars(v.as_slice());
    let mut i: usize = 0;
    while i < store.entries.len()
        invariant
            i <= store.entries@.len(),
            path@ == store.root@ + "/"@ + name@,
            forall|k: int| 0 <= k < i ==> (#[trigger] store.entries@[k]).path@ != path@,
        decreases store.entries.len() - i,
    {
        if crate::text::str_eq(store.entries[i].path.as_str(), path.as_str()) {
            return false;
        }
        i = i + 1;
    }
    true
}

proof fn lemma_only_content(s: Seq<BlobEntry>, r: Seq<char>, j: int, from: int)
    requires
        0 <= from <= j < s.len(),
        s[j].content_ref@ == r,
        forall|k: int| 0 <= k < s.len() && k != j ==> (#[trigger] s[k]).content_ref@ != r,
    ensures
        first_content(s, r, from) == Some(j),
    decreases j - from,
{
    if from < j {
        lemma_only_content(s, r, j, from + 1);
    }
}

/// An upload whose lease was never finished (the process stopped while its bytes were
/// being consumed) is sealed again after a restart, and its owner can lease it anew for
/// its purpose: when its record survives and is recovered into a store where no other
/// upload has its content reference, leasing it before it expires succeeds.
pub proof fn lemma_interrupted_consume_can_be_leased_again(
    root: Seq<char>, meta: BlobEntry, blob_len: Option<u64>, now_ms: u64, e: BlobEntry,
    before: BlobStore, after: BlobStore, leased_store: BlobStore, context: OperationContext, r: RuntimeResult<BlobLease>,
)
    requires
        meta.state == BlobState::Consuming,
        survives(meta, blob_len, now_ms),
        recovered_entry(root, meta, e),
        before.wf(),
        after.entries@ == insert_spec(before.entries@, e),
        forall|k: int| 0 <= k < before.entries@.len() ==> (#[trigger] before.entries@[k]).content_ref@ != meta.content_ref@,
        owner_view(meta.owner) == context_owner(context),
        leased(after, leased_store, context, meta.content_ref@, meta.purpose@, now_ms, r),
    ensures
        e.state == BlobState::Sealed,
        r is Ok,
{
    let s = after.entries@;
    lemma_insert_spec_finds(before.entries@, e);
    let j = index_of_upload(s, e.upload_id@)->0;
    assert forall|k: int| 0 <= k < s.len() && k != j implies (#[trigger] s[k]).content_ref@ != meta.content_ref@ by {
        match index_of_upload(before.entries@, e.upload_id@) {
            Some(m) => {
                assert(s == before.entries@.update(m, e));
                if k != m {
                    assert(s[k] == before.entries@[k]);
                } else {
                    assert(s[m] == e);
                    assert(s[j] == e);
                    assert(s[m].upload_id@ == e.upload_id@);
                    assert(false) by {
                        assert(s[j].upload_id@ == e.upload_id@);
                    }
                }
            },
            None => {
                assert(s == before.entries@.push(e));
                if k < before.entries@.len() {
                    assert(s[k] == before.entries@[k]);
                } else {
                    assert(s[k] == e);
                    assert(false) by {
                        assert(s[j].upload_id@ == e.upload_id@);
                    }
                }
            },
        }
    }
    lemma_only_content(s, meta.content_ref@, j, 0);
}

} // verus!
