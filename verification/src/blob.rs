//! Bounded, owner-scoped storage for large tool payloads.
//!
//! The store keeps the metadata of every upload and decides every transition;
//! the caller performs the file operations it reports (appending bytes,
//! deleting files listed in `removed_paths`, persisting entries).

use vstd::prelude::*;
use crate::budget::{BudgetTracker, BudgetUsage, ToolBudget, sat_add, unlimited, usage_at};
use crate::context::{OperationContext, clone_opt, opt_eq, opt_view};
use crate::error::{RuntimeError, RuntimeResult};
use crate::text::{chars_of, concat_str, lower_chars, lower_seq, str_eq, string_from_chars};

pub mod upload;
pub mod artifact;
pub mod recovery;

verus! {

pub const DEFAULT_CHUNK_BYTES: usize = 1048576;
pub const MAX_CHUNK_BYTES: usize = 1048576;
pub const MAX_INLINE_BYTES: usize = 262144;
pub const MIN_CHUNK_BYTES: usize = 4096;
pub const DEFAULT_TTL_SECONDS: u64 = 1800;
pub const MAX_TTL_SECONDS: u64 = 86400;
pub const MAX_BLOB_BYTES: u64 = 1073741824;
pub const MAX_OWNER_BYTES: u64 = 2147483648;
pub const MAX_GLOBAL_BYTES: u64 = 8589934592;
pub const MAX_OWNER_UPLOADS: usize = 16;
pub const BLOB_OPERATION_TIMEOUT_MS: u64 = 600000;
pub const DEFAULT_BLOB_TIMEOUT_MS: u64 = 60000;
pub const DEFAULT_BLOB_MAX_OPEN_FILES: u32 = 4;

/// Limits a caller asks for; they can only tighten the store's hard limits.
#[derive(Debug, Clone, Copy, PartialEq, Eq, Structural)]
pub struct BlobToolBudget {
    pub timeout_ms: u64,
    pub max_bytes_read: u64,
    pub max_bytes_written: u64,
    pub max_open_files: u32,
}

pub fn default_blob_timeout_ms() -> (r: u64)
    ensures
        r == DEFAULT_BLOB_TIMEOUT_MS,
{
    DEFAULT_BLOB_TIMEOUT_MS
}

pub fn default_blob_max_bytes() -> (r: u64)
    ensures
        r == MAX_BLOB_BYTES,
{
    MAX_BLOB_BYTES
}

pub fn default_blob_max_open_files() -> (r: u32)
    ensures
        r == DEFAULT_BLOB_MAX_OPEN_FILES,
{
    DEFAULT_BLOB_MAX_OPEN_FILES
}

pub open spec fn default_blob_budget() -> BlobToolBudget {
    BlobToolBudget {
        timeout_ms: DEFAULT_BLOB_TIMEOUT_MS,
        max_bytes_read: MAX_BLOB_BYTES,
        max_bytes_written: MAX_BLOB_BYTES,
        max_open_files: DEFAULT_BLOB_MAX_OPEN_FILES,
    }
}

impl Default for BlobToolBudget {
    fn default() -> (b: Self)
        ensures
            b == default_blob_budget(),
    {
        BlobToolBudget {
            timeout_ms: default_blob_timeout_ms(),
            max_bytes_read: default_blob_max_bytes(),
            max_bytes_written: default_blob_max_bytes(),
            max_open_files: default_blob_max_open_files(),
        }
    }
}

/// The life cycle of one upload.
#[derive(Debug, Clone, Copy, PartialEq, Eq, Structural)]
pub enum BlobState {
    Uploading,
    Sealed,
    Consuming,
    Consumed,
    Aborted,
}

/// The name a state is reported under.
pub open spec fn state_name(s: BlobState) -> Seq<char> {
    match s {
        BlobState::Uploading => "uploading"@,
        BlobState::Sealed => "sealed"@,
        BlobState::Consuming => "consuming"@,
        BlobState::Consumed => "consumed"@,
        BlobState::Aborted => "aborted"@,
    }
}

/// Uploads that still hold storage.
pub open spec fn is_active(s: BlobState) -> bool {
    s == BlobState::Uploading || s == BlobState::Sealed || s == BlobState::Consuming
}

/// The agent, task and turn an upload belongs to.
#[derive(Debug, Clone)]
pub struct BlobOwner {
    pub agent_id: String,
    pub task_id: Option<String>,
    pub turn_id: Option<String>,
}

pub type OwnerView = (Seq<char>, Option<Seq<char>>, Option<Seq<char>>);

pub open spec fn owner_view(o: BlobOwner) -> OwnerView {
    (o.agent_id@, opt_view(o.task_id), opt_view(o.turn_id))
}

pub open spec fn context_owner(c: OperationContext) -> OwnerView {
    (c.agent_id@, opt_view(c.task_id), opt_view(c.turn_id))
}

/// One chunk already written: its offset, length and SHA-256.
#[derive(Debug, Clone)]
pub struct ChunkRecord {
    pub offset: u64,
    pub length: u64,
    pub sha256: String,
}

/// The metadata of one upload.
#[derive(Debug, Clone)]
pub struct BlobEntry {
    pub upload_id: String,
    pub content_ref: String,
    pub owner: BlobOwner,
    pub purpose: String,
    pub content_type: Option<String>,
    pub expected_size: Option<u64>,
    pub expected_sha256: Option<String>,
    pub chunk_size: usize,
    pub expires_at_ms: u64,
    pub path: String,
    pub received: u64,
    pub chunks: Vec<ChunkRecord>,
    pub sha256: Option<String>,
    pub state: BlobState,
}

/// What a caller is told about an upload.
#[derive(Debug, Clone)]
pub struct BlobStatus {
    pub upload_id: String,
    pub content_ref: String,
    pub purpose: String,
    pub state: String,
    pub received_size_bytes: u64,
    pub next_offset: u64,
    pub expected_size_bytes: Option<u64>,
    pub sha256: Option<String>,
    pub expires_at_ms: u64,
    pub usage: BudgetUsage,
}

/// `st` reports `e` with `usage`.
pub open spec fn is_status_of(st: BlobStatus, e: BlobEntry, usage: BudgetUsage) -> bool {
    &&& st.upload_id@ == e.upload_id@
    &&& st.content_ref@ == e.content_ref@
    &&& st.purpose@ == e.purpose@
    &&& st.state@ == state_name(e.state)
    &&& st.received_size_bytes == e.received
    &&& st.next_offset == e.received
    &&& st.expected_size_bytes == e.expected_size
    &&& opt_view(st.sha256) == opt_view(e.sha256)
    &&& st.expires_at_ms == e.expires_at_ms
    &&& st.usage == usage
}

/// The storage an upload reserves against the quotas.
pub open spec fn reserved_bytes(e: BlobEntry) -> u64 {
    match e.expected_size {
        Some(s) => s,
        None => MAX_BLOB_BYTES,
    }
}

/// Reserved bytes of `owner`, its number of active uploads, and reserved bytes of everyone,
/// over the active uploads in `s` (byte sums saturate).
pub open spec fn usage_spec(s: Seq<BlobEntry>, owner: OwnerView) -> (u64, int, u64)
    decreases s.len(),
{
    if s.len() == 0 {
        (0, 0, 0)
    } else {
        let (ob, ou, gb) = usage_spec(s.drop_last(), owner);
        let e = s.last();
        if is_active(e.state) {
            if owner_view(e.owner) == owner {
                (sat_add(ob, reserved_bytes(e)), ou + 1, sat_add(gb, reserved_bytes(e)))
            } else {
                (ob, ou, sat_add(gb, reserved_bytes(e)))
            }
        } else {
            (ob, ou, gb)
        }
    }
}

/// What the quotas count of an owner: its reserved bytes are at least the reservation of
/// each of its active uploads and never more than everyone's; an owner without active
/// uploads has no bytes and no uploads counted; and when every active upload is the
/// owner's, its bytes and uploads are all of them.
pub proof fn lemma_owner_usage(s: Seq<BlobEntry>, owner: OwnerView)
    ensures
        forall|k: int| 0 <= k < s.len() && is_active(s[k].state) && owner_view(s[k].owner) == owner
            ==> usage_spec(s, owner).0 >= reserved_bytes(#[trigger] s[k]),
        usage_spec(s, owner).0 <= usage_spec(s, owner).2,
        0 <= usage_spec(s, owner).1 <= s.len(),
        (forall|k: int| 0 <= k < s.len() && is_active(s[k].state) ==> owner_view((#[trigger] s[k]).owner) != owner)
            ==> usage_spec(s, owner).0 == 0 && usage_spec(s, owner).1 == 0,
        (forall|k: int| 0 <= k < s.len() && is_active(s[k].state) ==> owner_view((#[trigger] s[k]).owner) == owner)
            ==> usage_spec(s, owner).0 == usage_spec(s, owner).2
                && usage_spec(s, owner).1 == count_active(s),
    decreases s.len(),
{
    if s.len() > 0 {
        let d = s.drop_last();
        lemma_owner_usage(d, owner);
        assert forall|k: int| 0 <= k < d.len() implies #[trigger] d[k] == s[k] by {}
        assert(usage_spec(s, owner).0 >= usage_spec(d, owner).0);
        assert forall|k: int| 0 <= k < s.len() && is_active(s[k].state) && owner_view(s[k].owner) == owner
            implies usage_spec(s, owner).0 >= reserved_bytes(#[trigger] s[k]) by {
            if k < d.len() {
                assert(d[k] == s[k]);
                assert(usage_spec(d, owner).0 >= reserved_bytes(d[k]));
            }
        }
    }
}

/// The number of active uploads.
pub open spec fn count_active(s: Seq<BlobEntry>) -> int
    decreases s.len(),
{
    if s.len() == 0 {
        0
    } else {
        count_active(s.drop_last()) + if is_active(s.last().state) { 1int } else { 0int }
    }
}

/// Bytes received by uploads that are neither consumed nor aborted (saturating).
pub open spec fn received_spec(s: Seq<BlobEntry>) -> u64
    decreases s.len(),
{
    if s.len() == 0 {
        0
    } else if s.last().state == BlobState::Consumed || s.last().state == BlobState::Aborted {
        received_spec(s.drop_last())
    } else {
        sat_add(received_spec(s.drop_last()), s.last().received)
    }
}

/// The index of the upload with this id.
pub open spec fn index_of_upload(s: Seq<BlobEntry>, id: Seq<char>) -> Option<int> {
    if exists|i: int| 0 <= i < s.len() && #[trigger] s[i].upload_id@ == id {
        Some(choose|i: int| 0 <= i < s.len() && #[trigger] s[i].upload_id@ == id)
    } else {
        None
    }
}

/// The index of the first upload at or after `from` with this content reference.
pub open spec fn first_content(s: Seq<BlobEntry>, r: Seq<char>, from: int) -> Option<int>
    decreases s.len() - from,
{
    if from < 0 || from >= s.len() {
        None
    } else if s[from].content_ref@ == r {
        Some(from)
    } else {
        first_content(s, r, from + 1)
    }
}

/// The index of the first upload with this content reference.
pub open spec fn index_of_content(s: Seq<BlobEntry>, r: Seq<char>) -> Option<int> {
    first_content(s, r, 0)
}

proof fn lemma_first_content_found(s: Seq<BlobEntry>, r: Seq<char>, from: int)
    requires
        first_content(s, r, from) is Some,
    ensures
        from <= first_content(s, r, from)->0 < s.len(),
        s[first_content(s, r, from)->0].content_ref@ == r,
    decreases s.len() - from,
{
    if 0 <= from < s.len() && s[from].content_ref@ != r {
        lemma_first_content_found(s, r, from + 1);
    }
}

proof fn lemma_first_content_same_refs(s: Seq<BlobEntry>, t: Seq<BlobEntry>, r: Seq<char>, from: int)
    requires
        s.len() == t.len(),
        forall|k: int| 0 <= k < s.len() ==> #[trigger] s[k].content_ref@ == t[k].content_ref@,
    ensures
        first_content(s, r, from) == first_content(t, r, from),
    decreases s.len() - from,
{
    if 0 <= from < s.len() {
        lemma_first_content_same_refs(s, t, r, from + 1);
    }
}

/// Bounded, owner-scoped storage for large tool payloads.
#[derive(Debug, Clone)]
pub struct BlobStore {
    pub root: String,
    pub entries: Vec<BlobEntry>,
    /// Files the caller must delete (upload bytes and their metadata records).
    pub removed_paths: Vec<String>,
}

impl BlobStore {
    /// Upload ids are unique.
    pub open spec fn wf(self) -> bool {
        forall|i: int, j: int|
            0 <= i < j < self.entries@.len() ==> #[trigger] self.entries@[i].upload_id@
                != #[trigger] self.entries@[j].upload_id@
    }
}

/// `purpose` names a tool that consumes blobs.
pub open spec fn valid_purpose(p: Seq<char>) -> bool {
    p == "fsWriteText"@ || p == "fsWriteRaw"@ || p == "fsApplyEdits"@ || p == "artifact"@
}

pub fn validate_purpose(purpose: &str) -> (r: RuntimeResult<()>)
    ensures
        r is Ok <==> valid_purpose(purpose@),
        r matches Err(e) ==> e.code@ == "invalidBlobPurpose"@,
{
    if str_eq(purpose, "fsWriteText") || str_eq(purpose, "fsWriteRaw") || str_eq(
        purpose,
        "fsApplyEdits",
    ) || str_eq(purpose, "artifact") {
        Ok(())
    } else {
        Err(
            RuntimeError::new(
                "invalidBlobPurpose",
                "purpose must be fsWriteText, fsWriteRaw, fsApplyEdits, or artifact",
            ),
        )
    }
}

/// An ASCII hexadecimal digit.
pub open spec fn is_hex(c: char) -> bool {
    ('0' <= c && c <= '9') || ('a' <= c && c <= 'f') || ('A' <= c && c <= 'F')
}

/// The text with an optional `sha256:` prefix removed, lower-cased.
pub open spec fn hash_body(v: Seq<char>) -> Seq<char> {
    if v.len() >= 7 && v.subrange(0, 7) == "sha256:"@ {
        lower_seq(v.subrange(7, v.len() as int))
    } else {
        lower_seq(v)
    }
}

/// A normalized SHA-256 is exactly 64 hexadecimal digits.
pub open spec fn valid_hash(h: Seq<char>) -> bool {
    h.len() == 64 && forall|i: int| 0 <= i < h.len() ==> is_hex(#[trigger] h[i])
}

fn all_hex(v: &[char]) -> (r: bool)
    ensures
        r == (forall|i: int| 0 <= i < v@.len() ==> is_hex(#[trigger] v@[i])),
{
    let mut i: usize = 0;
    while i < v.len()
        invariant
            i <= v.len(),
            forall|k: int| 0 <= k < i ==> is_hex(#[trigger] v@[k]),
        decreases v.len() - i,
    {
        let c = v[i];
        if !(('0' <= c && c <= '9') || ('a' <= c && c <= 'f') || ('A' <= c && c <= 'F')) {
            return false;
        }
        i = i + 1;
    }
    true
}

/// Accepts `sha256:`-prefixed or bare hexadecimal digests in any case and returns the
/// bare lower-case form; an absent value stays absent.
pub fn normalize_hash(value: Option<&str>) -> (r: RuntimeResult<Option<String>>)
    ensures
        match value {
            None => r == Ok::<Option<String>, RuntimeError>(None),
            Some(v) => match r {
                Ok(Some(h)) => valid_hash(hash_body(v@)) && h@ == hash_body(v@),
                Ok(None) => false,
                Err(e) => !valid_hash(hash_body(v@)) && e.code@ == "invalidSha256"@,
            },
        },
{
    let v = match value {
        None => return Ok(None),
        Some(v) => v,
    };
    let chars = chars_of(v);
    let prefix = chars_of("sha256:");
    proof {
        reveal_strlit("sha256:");
    }
    let mut body: Vec<char> = Vec::new();
    let has_prefix = chars.len() >= 7 && crate::text::matches_at(chars.as_slice(), prefix.as_slice(), 0);
    let mut i: usize = if has_prefix { 7 } else { 0 };
    let start = i;
    while i < chars.len()
        invariant
            start <= i <= chars@.len(),
            body@ == chars@.subrange(start as int, i as int),
        decreases chars.len() - i,
    {
        body.push(chars[i]);
        i = i + 1;
    }
    let lowered = lower_chars(body.as_slice());
    proof {
        if has_prefix {
            assert(chars@.subrange(0, 7) =~= "sha256:"@);
        } else if chars@.len() >= 7 {
            assert(!(chars@.subrange(0, 7) == "sha256:"@));
        }
        if !has_prefix {
            assert(body@ =~= chars@);
        }
    }
    if lowered.len() != 64 || !all_hex(lowered.as_slice()) {
        return Err(
            RuntimeError::new(
                "invalidSha256",
                "SHA-256 must contain exactly 64 hexadecimal characters",
            ),
        );
    }
    Ok(Some(string_from_chars(lowered.as_slice())))
}

fn state_error(message: &str) -> (e: RuntimeError)
    ensures
        e.code@ == "blobStateConflict"@,
{
    RuntimeError::new("blobStateConflict", message)
}

fn quota_error(message: &str) -> (e: RuntimeError)
    ensures
        e.code@ == "blobQuotaExceeded"@,
{
    RuntimeError::new("blobQuotaExceeded", message)
}

/// The owner of uploads made in `context`.
pub fn owner(context: &OperationContext) -> (o: BlobOwner)
    ensures
        owner_view(o) == context_owner(*context),
{
    BlobOwner {
        agent_id: context.agent_id.clone(),
        task_id: clone_opt(&context.task_id),
        turn_id: clone_opt(&context.turn_id),
    }
}

fn same_owner(a: &BlobOwner, b: &BlobOwner) -> (r: bool)
    ensures
        r == (owner_view(*a) == owner_view(*b)),
{
    a.agent_id == b.agent_id && opt_eq(&a.task_id, &b.task_id) && opt_eq(&a.turn_id, &b.turn_id)
}

fn state_label(s: BlobState) -> (r: &'static str)
    ensures
        r@ == state_name(s),
{
    match s {
        BlobState::Uploading => "uploading",
        BlobState::Sealed => "sealed",
        BlobState::Consuming => "consuming",
        BlobState::Consumed => "consumed",
        BlobState::Aborted => "aborted",
    }
}

/// Reports an upload.
pub fn status(entry: &BlobEntry, usage: BudgetUsage) -> (st: BlobStatus)
    ensures
        is_status_of(st, *entry, usage),
{
    BlobStatus {
        upload_id: entry.upload_id.clone(),
        content_ref: entry.content_ref.clone(),
        purpose: entry.purpose.clone(),
        state: state_label(entry.state).to_owned(),
        received_size_bytes: entry.received,
        next_offset: entry.received,
        expected_size_bytes: entry.expected_size,
        sha256: clone_opt(&entry.sha256),
        expires_at_ms: entry.expires_at_ms,
        usage,
    }
}

/// Reserved bytes of `owner`, its active uploads, and everyone's reserved bytes.
pub fn usage(entries: &Vec<BlobEntry>, owner: &BlobOwner) -> (r: (u64, usize, u64))
    ensures
        (r.0, r.1 as int, r.2) == usage_spec(entries@, owner_view(*owner)),
{
    let mut owner_bytes: u64 = 0;
    let mut owner_uploads: usize = 0;
    let mut global_bytes: u64 = 0;
    let mut i: usize = 0;
    while i < entries.len()
        invariant
            i <= entries@.len(),
            owner_uploads <= i,
            (owner_bytes, owner_uploads as int, global_bytes) == usage_spec(
                entries@.subrange(0, i as int),
                owner_view(*owner),
            ),
        decreases entries.len() - i,
    {
        let e = &entries[i];
        let ghost prefix = entries@.subrange(0, i + 1);
        assert(prefix.drop_last() =~= entries@.subrange(0, i as int));
        if e.state == BlobState::Uploading || e.state == BlobState::Sealed || e.state
            == BlobState::Consuming {
            let reserved = match e.expected_size {
                Some(s) => s,
                None => MAX_BLOB_BYTES,
            };
            global_bytes = global_bytes.saturating_add(reserved);
            if same_owner(&e.owner, owner) {
                owner_bytes = owner_bytes.saturating_add(reserved);
                owner_uploads = owner_uploads + 1;
            }
        }
        i = i + 1;
    }
    assert(entries@.subrange(0, entries@.len() as int) =~= entries@);
    (owner_bytes, owner_uploads, global_bytes)
}

impl BlobStore {
    /// An empty store rooted at `root`.
    pub fn new(root: &str) -> (s: Self)
        ensures
            s.wf(),
            s.root@ == root@,
            s.entries@.len() == 0,
            s.removed_paths@.len() == 0,
    {
        BlobStore { root: root.to_owned(), entries: Vec::new(), removed_paths: Vec::new() }
    }

    /// Bytes received by uploads that are neither consumed nor aborted (saturating).
    pub fn usage_bytes(&self) -> (r: u64)
        ensures
            r == received_spec(self.entries@),
    {
        let mut total: u64 = 0;
        let mut i: usize = 0;
        while i < self.entries.len()
            invariant
                i <= self.entries@.len(),
                total == received_spec(self.entries@.subrange(0, i as int)),
            decreases self.entries.len() - i,
        {
            let e = &self.entries[i];
            assert(self.entries@.subrange(0, i + 1).drop_last() =~= self.entries@.subrange(0, i as int));
            if !(e.state == BlobState::Consumed || e.state == BlobState::Aborted) {
                total = total.saturating_add(e.received);
            }
            i = i + 1;
        }
        assert(self.entries@.subrange(0, self.entries@.len() as int) =~= self.entries@);
        total
    }

    /// The position of the upload with this id.
    pub fn find_upload(&self, upload_id: &str) -> (r: Option<usize>)
        requires
            self.wf(),
        ensures
            match r {
                Some(i) => i < self.entries@.len() && index_of_upload(self.entries@, upload_id@)
                    == Some(i as int),
                None => index_of_upload(self.entries@, upload_id@) is None,
            },
    {
        let mut i: usize = 0;
        while i < self.entries.len()
            invariant
                self.wf(),
                i <= self.entries@.len(),
                forall|k: int| 0 <= k < i ==> #[trigger] self.entries@[k].upload_id@ != upload_id@,
            decreases self.entries.len() - i,
        {
            if str_eq(self.entries[i].upload_id.as_str(), upload_id) {
                let ghost j = choose|k: int|
                    0 <= k < self.entries@.len() && #[trigger] self.entries@[k].upload_id@
                        == upload_id@;
                assert(j == i) by {
                    if j < i {
                        assert(self.entries@[j].upload_id@ != self.entries@[i as int].upload_id@);
                    } else if j > i {
                        assert(self.entries@[i as int].upload_id@ != self.entries@[j].upload_id@);
                    }
                }
                return Some(i);
            }
            i = i + 1;
        }
        None
    }

    /// The position of the first upload with this content reference.
    pub fn find_content(&self, content_ref: &str) -> (r: Option<usize>)
        ensures
            match r {
                Some(i) => i < self.entries@.len() && index_of_content(self.entries@, content_ref@)
                    == Some(i as int),
                None => index_of_content(self.entries@, content_ref@) is None,
            },
    {
        let mut i: usize = 0;
        while i < self.entries.len()
            invariant
                i <= self.entries@.len(),
                first_content(self.entries@, content_ref@, 0) == first_content(self.entries@, content_ref@, i as int),
            decreases self.entries.len() - i,
        {
            if str_eq(self.entries[i].content_ref.as_str(), content_ref) {
                return Some(i);
            }
            i = i + 1;
        }
        None
    }
}

} // verus!

verus! {

/// The entries of `s` that `keep` accepts, in order.
pub open spec fn retain_spec(s: Seq<BlobEntry>, keep: spec_fn(BlobEntry) -> bool) -> Seq<BlobEntry>
    decreases s.len(),
{
    if s.len() == 0 {
        s
    } else if keep(s.last()) {
        retain_spec(s.drop_last(), keep).push(s.last())
    } else {
        retain_spec(s.drop_last(), keep)
    }
}

/// The file paths removed with the entries of `s` that `keep` rejects: each upload's
/// bytes and then its metadata record.
pub open spec fn removal_spec(s: Seq<BlobEntry>, keep: spec_fn(BlobEntry) -> bool, root: Seq<char>) -> Seq<Seq<char>>
    decreases s.len(),
{
    if s.len() == 0 {
        Seq::empty()
    } else if keep(s.last()) {
        removal_spec(s.drop_last(), keep, root)
    } else {
        removal_spec(s.drop_last(), keep, root).push(s.last().path@).push(meta_path(root, s.last().upload_id@))
    }
}

/// Where the metadata record of an upload is persisted.
pub open spec fn meta_path(root: Seq<char>, upload_id: Seq<char>) -> Seq<char> {
    root + "/"@ + upload_id + ".meta.json"@
}

/// Where the bytes of an upload are stored.
pub open spec fn blob_path(root: Seq<char>, upload_id: Seq<char>) -> Seq<char> {
    root + "/"@ + upload_id + ".blob"@
}

pub open spec fn paths_view(v: Seq<String>) -> Seq<Seq<char>> {
    v.map_values(|s: String| s@)
}

proof fn lemma_retain_members(s: Seq<BlobEntry>, keep: spec_fn(BlobEntry) -> bool, a: int)
    requires
        0 <= a < retain_spec(s, keep).len(),
    ensures
        exists|j: int| 0 <= j < s.len() && #[trigger] s[j] == retain_spec(s, keep)[a],
        keep(retain_spec(s, keep)[a]),
    decreases s.len(),
{
    let r = retain_spec(s.drop_last(), keep);
    if keep(s.last()) && a == r.len() {
        assert(s[s.len() - 1] == retain_spec(s, keep)[a]);
    } else {
        lemma_retain_members(s.drop_last(), keep, a);
        let j = choose|j: int| 0 <= j < s.drop_last().len() && #[trigger] s.drop_last()[j] == r[a];
        assert(s[j] == retain_spec(s, keep)[a]);
    }
}

proof fn lemma_retain_wf(s: Seq<BlobEntry>, keep: spec_fn(BlobEntry) -> bool)
    requires
        forall|i: int, j: int| 0 <= i < j < s.len() ==> #[trigger] s[i].upload_id@ != #[trigger] s[j].upload_id@,
    ensures
        forall|i: int, j: int|
            0 <= i < j < retain_spec(s, keep).len() ==> #[trigger] retain_spec(s, keep)[i].upload_id@
                != #[trigger] retain_spec(s, keep)[j].upload_id@,
    decreases s.len(),
{
    if s.len() > 0 {
        let d = s.drop_last();
        lemma_retain_wf(d, keep);
        let r = retain_spec(d, keep);
        let t = retain_spec(s, keep);
        if keep(s.last()) {
            assert forall|i: int, j: int| 0 <= i < j < t.len() implies #[trigger] t[i].upload_id@ != #[trigger] t[j].upload_id@ by {
                if j == r.len() {
                    lemma_retain_members(d, keep, i);
                    let k = choose|k: int| 0 <= k < d.len() && #[trigger] d[k] == r[i];
                    assert(s[k] == t[i]);
                    assert(s[s.len() - 1] == t[j]);
                } else {
                    assert(t[i] == r[i]);
                    assert(t[j] == r[j]);
                }
            }
        }
    }
}

proof fn lemma_retain_step(s: Seq<BlobEntry>, keep: spec_fn(BlobEntry) -> bool, root: Seq<char>, k: int)
    requires
        0 <= k < s.len(),
    ensures
        retain_spec(s.subrange(0, k + 1), keep) == (if keep(s[k]) {
            retain_spec(s.subrange(0, k), keep).push(s[k])
        } else {
            retain_spec(s.subrange(0, k), keep)
        }),
        removal_spec(s.subrange(0, k + 1), keep, root) == (if keep(s[k]) {
            removal_spec(s.subrange(0, k), keep, root)
        } else {
            removal_spec(s.subrange(0, k), keep, root).push(s[k].path@).push(meta_path(root, s[k].upload_id@))
        }),
{
    assert(s.subrange(0, k + 1).drop_last() =~= s.subrange(0, k));
}

/// An upload survives expiry purging while it is unexpired and neither aborted nor consumed.
pub open spec fn unexpired(now_ms: u64) -> spec_fn(BlobEntry) -> bool {
    |e: BlobEntry| e.expires_at_ms > now_ms && e.state != BlobState::Aborted && e.state != BlobState::Consumed
}

/// No upload survives.
pub open spec fn keep_none() -> spec_fn(BlobEntry) -> bool {
    |e: BlobEntry| false
}

/// An upload survives task cleanup unless it belongs to `task`.
pub open spec fn outside_task(task: Seq<char>) -> spec_fn(BlobEntry) -> bool {
    |e: BlobEntry| opt_view(e.owner.task_id) != Some(task)
}

/// Builds `root/upload_id` followed by `suffix`.
pub(crate) fn upload_file_path(root: &str, upload_id: &str, suffix: &str) -> (p: String)
    ensures
        p@ == root@ + "/"@ + upload_id@ + suffix@,
{
    let mut v: Vec<char> = Vec::new();
    crate::text::extend_str(&mut v, root);
    crate::text::extend_str(&mut v, "/");
    crate::text::extend_str(&mut v, upload_id);
    crate::text::extend_str(&mut v, suffix);
    string_from_chars(v.as_slice())
}

impl BlobStore {
    /// Drops every upload that `keep` rejects (per entry, decided by `keep_now`),
    /// recording the files to delete; returns how many were dropped.
    fn retain_entries(&mut self, keep: Ghost<spec_fn(BlobEntry) -> bool>, now_ms: u64, task: Option<&str>) -> (removed: usize)
        requires
            old(self).wf(),
            task is None ==> keep@ == unexpired(now_ms),
            task matches Some(t) ==> keep@ == outside_task(t@),
        ensures
            final(self).wf(),
            final(self).root == old(self).root,
            final(self).entries@ == retain_spec(old(self).entries@, keep@),
            paths_view(final(self).removed_paths@) == paths_view(old(self).removed_paths@) + removal_spec(
                old(self).entries@,
                keep@,
                old(self).root@,
            ),
            removed as int == old(self).entries@.len() - final(self).entries@.len(),
    {
        let ghost original = self.entries@;
        let ghost paths0 = paths_view(self.removed_paths@);
        let n = self.entries.len();
        let mut i: usize = 0;
        let mut k: usize = 0;
        proof {
            assert(original.subrange(0, 0) =~= Seq::<BlobEntry>::empty());
            assert(original.subrange(0, n as int) =~= original);
        }
        while k < n
            invariant
                n == original.len(),
                k <= n,
                i <= k,
                self.root == old(self).root,
                self.entries@ == retain_spec(original.subrange(0, k as int), keep@) + original.subrange(k as int, n as int),
                retain_spec(original.subrange(0, k as int), keep@).len() == i,
                paths_view(self.removed_paths@) == paths0 + removal_spec(original.subrange(0, k as int), keep@, self.root@),
                task is None ==> keep@ == unexpired(now_ms),
                task matches Some(t) ==> keep@ == outside_task(t@),
            decreases n - k,
        {
            proof {
                lemma_retain_step(original, keep@, self.root@, k as int);
                assert(self.entries@[i as int] == original[k as int]);
            }
            let keep_it = match task {
                None => {
                    let e = &self.entries[i];
                    e.expires_at_ms > now_ms && e.state != BlobState::Aborted && e.state != BlobState::Consumed
                },
                Some(t) => match &self.entries[i].owner.task_id {
                    Some(id) => !str_eq(id.as_str(), t),
                    None => true,
                },
            };
            assert(keep_it == keep@(original[k as int]));
            let ghost before = self.entries@;
            if keep_it {
                i = i + 1;
                assert(self.entries@ =~= retain_spec(original.subrange(0, k + 1), keep@) + original.subrange(k + 1, n as int));
            } else {
                let ghost pv = paths_view(self.removed_paths@);
                let entry = self.entries.remove(i);
                assert(entry == original[k as int]);
                let meta = upload_file_path(self.root.as_str(), entry.upload_id.as_str(), ".meta.json");
                let ghost ep = entry.path@;
                self.removed_paths.push(entry.path);
                self.removed_paths.push(meta);
                assert(paths_view(self.removed_paths@) =~= pv.push(ep).push(meta@));
                assert(self.entries@ =~= retain_spec(original.subrange(0, k + 1), keep@) + original.subrange(k + 1, n as int));
                assert(paths_view(self.removed_paths@) =~= paths0 + removal_spec(original.subrange(0, k + 1), keep@, self.root@));
            }
            k = k + 1;
        }
        proof {
            assert(original.subrange(n as int, n as int) =~= Seq::<BlobEntry>::empty());
            assert(original.subrange(0, n as int) =~= original);
            assert(self.entries@ =~= retain_spec(original, keep@));
            lemma_retain_wf(original, keep@);
        }
        n - i
    }

    /// Drops expired, aborted and consumed uploads, recording their files for deletion.
    pub fn purge_expired(&mut self, now_ms: u64)
        requires
            old(self).wf(),
        ensures
            final(self).wf(),
            final(self).root == old(self).root,
            final(self).entries@ == retain_spec(old(self).entries@, unexpired(now_ms)),
            paths_view(final(self).removed_paths@) == paths_view(old(self).removed_paths@) + removal_spec(
                old(self).entries@,
                unexpired(now_ms),
                old(self).root@,
            ),
    {
        self.retain_entries(Ghost(unexpired(now_ms)), now_ms, None);
    }

    /// Purges expired uploads and returns how many were dropped.
    pub fn gc(&mut self, now_ms: u64) -> (r: RuntimeResult<usize>)
        requires
            old(self).wf(),
        ensures
            final(self).wf(),
            final(self).root == old(self).root,
            final(self).entries@ == retain_spec(old(self).entries@, unexpired(now_ms)),
            paths_view(final(self).removed_paths@) == paths_view(old(self).removed_paths@) + removal_spec(
                old(self).entries@,
                unexpired(now_ms),
                old(self).root@,
            ),
            r matches Ok(n) && n as int == old(self).entries@.len() - final(self).entries@.len(),
    {
        let removed = self.retain_entries(Ghost(unexpired(now_ms)), now_ms, None);
        Ok(removed)
    }

    /// Removes every upload owned by a deleted task, recording its files for deletion.
    pub fn cleanup_task(&mut self, task_id: &str) -> (r: RuntimeResult<usize>)
        requires
            old(self).wf(),
        ensures
            final(self).wf(),
            final(self).root == old(self).root,
            final(self).entries@ == retain_spec(old(self).entries@, outside_task(task_id@)),
            paths_view(final(self).removed_paths@) == paths_view(old(self).removed_paths@) + removal_spec(
                old(self).entries@,
                outside_task(task_id@),
                old(self).root@,
            ),
            r matches Ok(n) && n as int == old(self).entries@.len() - final(self).entries@.len(),
    {
        let removed = self.retain_entries(Ghost(outside_task(task_id@)), 0, Some(task_id));
        Ok(removed)
    }

    /// Removes every upload, recording all files for deletion.
    pub fn cleanup_all(&mut self) -> (r: RuntimeResult<usize>)
        requires
            old(self).wf(),
        ensures
            final(self).wf(),
            final(self).root == old(self).root,
            final(self).entries@.len() == 0,
            paths_view(final(self).removed_paths@) == paths_view(old(self).removed_paths@) + removal_spec(
                old(self).entries@,
                keep_none(),
                old(self).root@,
            ),
            r matches Ok(n) && n as int == old(self).entries@.len(),
    {
        let ghost original = self.entries@;
        let ghost paths0 = paths_view(self.removed_paths@);
        let n = self.entries.len();
        let mut k: usize = 0;
        proof {
            assert(original.subrange(0, 0) =~= Seq::<BlobEntry>::empty());
        }
        while k < n
            invariant
                n == original.len(),
                k <= n,
                self.root == old(self).root,
                self.entries@ == original.subrange(k as int, n as int),
                paths_view(self.removed_paths@) == paths0 + removal_spec(original.subrange(0, k as int), keep_none(), self.root@),
            decreases n - k,
        {
            proof {
                lemma_retain_step(original, keep_none(), self.root@, k as int);
                assert(!keep_none()(original[k as int]));
            }
            let ghost pv = paths_view(self.removed_paths@);
            let entry = self.entries.remove(0);
            assert(entry == original[k as int]);
            let meta = upload_file_path(self.root.as_str(), entry.upload_id.as_str(), ".meta.json");
            let ghost ep = entry.path@;
            self.removed_paths.push(entry.path);
            self.removed_paths.push(meta);
            assert(paths_view(self.removed_paths@) =~= pv.push(ep).push(meta@));
            assert(self.entries@ =~= original.subrange(k + 1, n as int));
            assert(paths_view(self.removed_paths@) =~= paths0 + removal_spec(original.subrange(0, k + 1), keep_none(), self.root@));
            k = k + 1;
        }
        assert(original.subrange(0, n as int) =~= original);
        Ok(n)
    }
}

/// Task cleanup removes exactly the uploads of that task: every survivor belongs to
/// another task, and every upload of another task survives.
pub proof fn lemma_cleanup_removes_only_task(s: Seq<BlobEntry>, task: Seq<char>, e: BlobEntry)
    ensures
        retain_spec(s, outside_task(task)).contains(e) <==> (s.contains(e) && opt_view(e.owner.task_id) != Some(task)),
    decreases s.len(),
{
    if s.len() > 0 {
        lemma_cleanup_removes_only_task(s.drop_last(), task, e);
        let r = retain_spec(s.drop_last(), outside_task(task));
        if s.contains(e) && !s.drop_last().contains(e) {
            let j = choose|j: int| 0 <= j < s.len() && s[j] == e;
            if j < s.len() - 1 {
                assert(s.drop_last()[j] == e);
            }
        }
        if s.drop_last().contains(e) {
            let j = choose|j: int| 0 <= j < s.drop_last().len() && s.drop_last()[j] == e;
            assert(s[j] == e);
        }
        if outside_task(task)(s.last()) {
            assert(retain_spec(s, outside_task(task)) == r.push(s.last()));
            if r.push(s.last()).contains(e) && !r.contains(e) {
                let j = choose|j: int| 0 <= j < r.push(s.last()).len() && r.push(s.last())[j] == e;
                if j < r.len() {
                    assert(r[j] == e);
                }
            }
            if r.contains(e) {
                let j = choose|j: int| 0 <= j < r.len() && r[j] == e;
                assert(r.push(s.last())[j] == e);
            }
            if e == s.last() {
                assert(r.push(s.last())[r.len() as int] == e);
            }
        }
    }
}


/// The budget a blob operation runs under: the caller's limits, never above the store's
/// hard limits, and a deadline at least one millisecond and at most ten minutes away.
pub open spec fn blob_tracker_budget(b: BlobToolBudget, now_ms: u64) -> ToolBudget {
    let timeout: u64 = if b.timeout_ms > BLOB_OPERATION_TIMEOUT_MS {
        BLOB_OPERATION_TIMEOUT_MS
    } else if b.timeout_ms == 0 {
        1
    } else {
        b.timeout_ms
    };
    ToolBudget {
        deadline: Some(sat_add(now_ms, timeout)),
        max_files: None,
        max_entries: None,
        max_bytes_read: Some(if b.max_bytes_read < MAX_BLOB_BYTES { b.max_bytes_read } else { MAX_BLOB_BYTES }),
        max_bytes_written: Some(if b.max_bytes_written < MAX_BLOB_BYTES { b.max_bytes_written } else { MAX_BLOB_BYTES }),
        max_output_bytes: Some(MAX_INLINE_BYTES as u64),
        max_open_files: Some(if b.max_open_files < 128 { b.max_open_files } else { 128 }),
        max_progress_events: None,
        memory_reservation_bytes: Some(MAX_CHUNK_BYTES as u64),
    }
}

/// A fresh tracker for a blob operation in `context` under `requested`.
pub fn blob_tracker(context: &OperationContext, requested: &BlobToolBudget, now_ms: u64) -> (t: BudgetTracker)
    ensures
        t.cancelled == context.cancelled,
        t.started_ms == now_ms,
        t.phase@ == "starting"@,
        t.counters == crate::budget::zero_usage(),
        t.budget == blob_tracker_budget(*requested, now_ms),
{
    let capped = if requested.timeout_ms < BLOB_OPERATION_TIMEOUT_MS { requested.timeout_ms } else { BLOB_OPERATION_TIMEOUT_MS };
    let timeout_ms = if capped == 0 { 1 } else { capped };
    let budget = ToolBudget {
        max_bytes_read: Some(if requested.max_bytes_read < MAX_BLOB_BYTES { requested.max_bytes_read } else { MAX_BLOB_BYTES }),
        max_bytes_written: Some(if requested.max_bytes_written < MAX_BLOB_BYTES { requested.max_bytes_written } else { MAX_BLOB_BYTES }),
        max_output_bytes: Some(MAX_INLINE_BYTES as u64),
        max_open_files: Some(if requested.max_open_files < 128 { requested.max_open_files } else { 128 }),
        memory_reservation_bytes: Some(MAX_CHUNK_BYTES as u64),
        ..ToolBudget::default()
    }.with_timeout(now_ms, timeout_ms);
    let mut tracker = BudgetTracker::new(budget, now_ms);
    if context.cancelled {
        tracker.cancel();
    }
    tracker
}

/// The first checkpoint of a blob operation started at `now_ms`: cancellation, or a
/// deadline already reached because the clock is at its end.
pub open spec fn blob_gate(context: OperationContext, now_ms: u64) -> Option<Seq<char>> {
    if context.cancelled {
        Some("operationCancelled"@)
    } else if now_ms == u64::MAX {
        Some("timeBudgetExceeded"@)
    } else {
        None
    }
}

/// What looking up `upload_id` for `context` at `now_ms` fails with, if it fails.
pub open spec fn access_error(s: Seq<BlobEntry>, context: OperationContext, upload_id: Seq<char>, now_ms: u64) -> Option<Seq<char>> {
    match index_of_upload(s, upload_id) {
        None => Some("blobNotFound"@),
        Some(i) => entry_error(s[i], context, now_ms, "blobAccessDenied"@, "blobExpired"@),
    }
}

/// The owner and expiry check of one entry.
pub open spec fn entry_error(e: BlobEntry, context: OperationContext, now_ms: u64, denied: Seq<char>, expired: Seq<char>) -> Option<Seq<char>> {
    if owner_view(e.owner) != context_owner(context) {
        Some(denied)
    } else if e.expires_at_ms <= now_ms {
        Some(expired)
    } else {
        None
    }
}

/// The entry in state `st`.
pub open spec fn with_state(e: BlobEntry, st: BlobState) -> BlobEntry {
    BlobEntry { state: st, ..e }
}

/// The entry belongs to `context` but expired at `now_ms` (for artifacts: same agent and task).
pub open spec fn expired_for(e: BlobEntry, context: OperationContext, now_ms: u64, artifact: bool) -> bool {
    if artifact {
        !(e.owner.agent_id@ != context.agent_id@ || opt_view(e.owner.task_id) != opt_view(context.task_id) || context.task_id is None) && e.expires_at_ms <= now_ms
    } else {
        owner_view(e.owner) == context_owner(context) && e.expires_at_ms <= now_ms
    }
}

/// Looking up `upload_id` found an entry that had expired.
pub open spec fn upload_expired(s: Seq<BlobEntry>, context: OperationContext, upload_id: Seq<char>, now_ms: u64) -> bool {
    index_of_upload(s, upload_id) matches Some(i) && expired_for(s[i], context, now_ms, false)
}

/// `after` is `before` once an access check on entry `i` ended with `err`: an expired
/// entry is aborted and its bytes are deleted; otherwise nothing changes.
pub open spec fn access_effect(before: BlobStore, after: BlobStore, i: Option<int>, expired: bool) -> bool {
    &&& after.root == before.root
    &&& if expired && i is Some {
        &&& after.entries@ == before.entries@.update(i->0, with_state(before.entries@[i->0], BlobState::Aborted))
        &&& paths_view(after.removed_paths@) == paths_view(before.removed_paths@).push(before.entries@[i->0].path@)
    } else {
        &&& after.entries@ == before.entries@
        &&& after.removed_paths@ == before.removed_paths@
    }
}

/// A lease on a sealed upload, held while a tool consumes its bytes.
#[derive(Debug)]
pub struct BlobLease {
    pub upload_id: String,
    pub path: String,
    pub size_bytes: u64,
    pub sha256: String,
    pub finished: bool,
}

impl BlobLease {
    /// Where the leased bytes are stored.
    pub fn path(&self) -> (p: &str)
        ensures
            p@ == self.path@,
    {
        self.path.as_str()
    }

    /// Ends the lease: `consumed` marks the upload consumed (and its files deleted);
    /// otherwise the upload is sealed again and can be leased anew.
    pub fn finish(self, store: &mut BlobStore, consumed: bool) -> (r: RuntimeResult<()>)
        requires
            old(store).wf(),
        ensures
            final(store).wf(),
            finished_consume(*old(store), *final(store), self.upload_id@, consumed, r),
    {
        store.finish_consume(self.upload_id.as_str(), consumed)
    }
}

/// `after` and `r` are what ending a lease on `upload_id` gives from `before`.
pub open spec fn finished_consume(before: BlobStore, after: BlobStore, upload_id: Seq<char>, consumed: bool, r: RuntimeResult<()>) -> bool {
    &&& after.root == before.root
    &&& match index_of_upload(before.entries@, upload_id) {
        None => {
            &&& r matches Err(e) && e.code@ == "blobNotFound"@
            &&& after.entries@ == before.entries@
            &&& after.removed_paths@ == before.removed_paths@
        },
        Some(i) => {
            &&& r is Ok
            &&& if before.entries@[i].state == BlobState::Consuming {
                &&& after.entries@ == before.entries@.update(i, with_state(before.entries@[i], if consumed { BlobState::Consumed } else { BlobState::Sealed }))
                &&& paths_view(after.removed_paths@) == if consumed {
                    paths_view(before.removed_paths@).push(before.entries@[i].path@).push(meta_path(before.root@, upload_id))
                } else {
                    paths_view(before.removed_paths@)
                }
            } else {
                &&& after.entries@ == before.entries@
                &&& after.removed_paths@ == before.removed_paths@
            }
        },
    }
}

/// `after` and `r` are what leasing `content_ref` for `purpose` gives from `before`.
pub open spec fn leased(before: BlobStore, after: BlobStore, context: OperationContext, content_ref: Seq<char>, purpose: Seq<char>, now_ms: u64, r: RuntimeResult<BlobLease>) -> bool {
    &&& after.root == before.root
    &&& match index_of_content(before.entries@, content_ref) {
        None => {
            &&& r matches Err(e) && e.code@ == "blobNotFound"@
            &&& after.entries@ == before.entries@
            &&& after.removed_paths@ == before.removed_paths@
        },
        Some(i) => {
            let e = before.entries@[i];
            let err = entry_error(e, context, now_ms, "blobAccessDenied"@, "blobExpired"@);
            if err is Some {
                &&& r matches Err(x) && x.code@ == err->0
                &&& access_effect(before, after, Some(i), expired_for(e, context, now_ms, false))
            } else if e.purpose@ != purpose {
                &&& r matches Err(x) && x.code@ == "blobPurposeMismatch"@
                &&& after.entries@ == before.entries@
                &&& after.removed_paths@ == before.removed_paths@
            } else if e.state != BlobState::Sealed {
                &&& r matches Err(x) && x.code@ == "blobStateConflict"@
                &&& after.entries@ == before.entries@
                &&& after.removed_paths@ == before.removed_paths@
            } else {
                &&& r matches Ok(l) && l.upload_id@ == e.upload_id@ && l.path@ == e.path@
                    && l.size_bytes == e.received && l.sha256@ == (match e.sha256 { Some(h) => h@, None => Seq::<char>::empty() })
                    && !l.finished
                &&& after.entries@ == before.entries@.update(i, with_state(e, BlobState::Consuming))
                &&& after.removed_paths@ == before.removed_paths@
            }
        },
    }
}

fn entry_mut(entries: &mut Vec<BlobEntry>, i: usize) -> (e: &mut BlobEntry)
    requires
        i < old(entries)@.len(),
    ensures
        *e == old(entries)@[i as int],
        final(entries)@ == old(entries)@.update(i as int, *final(e)),
{
    &mut entries[i]
}

/// `after` and `r` are what aborting `upload_id` gives from `before`.
pub open spec fn aborted(before: BlobStore, after: BlobStore, context: OperationContext, upload_id: Seq<char>, now_ms: u64, r: RuntimeResult<BlobStatus>) -> bool {
    &&& blob_gate(context, now_ms) is Some ==> (r matches Err(e) && e.code@ == blob_gate(context, now_ms)->0 && after == before)
    &&& blob_gate(context, now_ms) is None ==> {
        &&& (access_error(before.entries@, context, upload_id, now_ms) is None <==> r is Ok)
        &&& r matches Err(x) ==> x.code@ == access_error(before.entries@, context, upload_id, now_ms)->0
            && access_effect(before, after, index_of_upload(before.entries@, upload_id),
                upload_expired(before.entries@, context, upload_id, now_ms))
        &&& r matches Ok(st) ==> {
            let i = index_of_upload(before.entries@, upload_id)->0;
            let e = before.entries@[i];
            &&& e.state == BlobState::Consumed ==> after.entries@ == before.entries@ && after.removed_paths@ == before.removed_paths@
            &&& e.state != BlobState::Consumed ==> after.entries@ == before.entries@.update(i, with_state(e, BlobState::Aborted))
                && paths_view(after.removed_paths@) == paths_view(before.removed_paths@).push(e.path@).push(meta_path(before.root@, e.upload_id@))
            &&& is_status_of(st, after.entries@[i], st.usage)
        }
    }
}

/// An aborted upload cannot be leased: once an abort of it succeeds, leasing its content
/// fails (it is no longer sealed), and the lease changes nothing.
pub proof fn lemma_aborted_upload_is_not_leased(
    s0: BlobStore, s1: BlobStore, s2: BlobStore, context: OperationContext, upload_id: Seq<char>,
    content_ref: Seq<char>, purpose: Seq<char>, now_ms: u64, r1: RuntimeResult<BlobStatus>, r2: RuntimeResult<BlobLease>,
)
    requires
        s0.wf(),
        aborted(s0, s1, context, upload_id, now_ms, r1),
        r1 is Ok,
        index_of_content(s0.entries@, content_ref) == index_of_upload(s0.entries@, upload_id),
        leased(s1, s2, context, content_ref, purpose, now_ms, r2),
    ensures
        r2 is Err,
        s2.entries@ == s1.entries@,
{
    let i = index_of_upload(s0.entries@, upload_id)->0;
    lemma_first_content_found(s0.entries@, content_ref, 0);
    assert forall|k: int| 0 <= k < s0.entries@.len() implies #[trigger] s0.entries@[k].content_ref@ == s1.entries@[k].content_ref@ by {
        if k != i {
            assert(s1.entries@[k] == s0.entries@[k]);
        }
    }
    lemma_first_content_same_refs(s0.entries@, s1.entries@, content_ref, 0);
}

impl BlobStore {
    /// Checks that the entry at `i` belongs to `context` and has not expired; an expired
    /// entry is aborted and its bytes are marked for deletion.
    fn check_entry(&mut self, i: usize, context: &OperationContext, now_ms: u64, artifact: bool) -> (r: RuntimeResult<()>)
        requires
            old(self).wf(),
            i < old(self).entries@.len(),
        ensures
            final(self).wf(),
            ({
                let e = old(self).entries@[i as int];
                let err = if artifact {
                    artifact_error(e, *context, now_ms)
                } else {
                    entry_error(e, *context, now_ms, "blobAccessDenied"@, "blobExpired"@)
                };
                &&& (err is None <==> r is Ok)
                &&& r matches Err(x) ==> x.code@ == err->0
                &&& access_effect(*old(self), *final(self), Some(i as int), expired_for(e, *context, now_ms, artifact))
            }),
    {
        let denied = if artifact {
            let e = &self.entries[i];
            let same_agent = e.owner.agent_id == context.agent_id;
            let same_task = opt_eq(&e.owner.task_id, &context.task_id);
            !same_agent || !same_task || context.task_id.is_none()
        } else {
            let o = owner(context);
            !same_owner(&self.entries[i].owner, &o)
        };
        if denied {
            if artifact {
                return Err(RuntimeError::new("artifactAccessDenied", "artifact belongs to a different agent or task"));
            }
            return Err(RuntimeError::new("blobAccessDenied", "blob belongs to a different agent, task, or turn"));
        }
        if self.entries[i].expires_at_ms <= now_ms {
            let ghost before = *self;
            let path = self.entries[i].path.clone();
            let e = entry_mut(&mut self.entries, i);
            e.state = BlobState::Aborted;
            self.removed_paths.push(path);
            proof {
                assert(paths_view(self.removed_paths@) =~= paths_view(before.removed_paths@).push(before.entries@[i as int].path@));
                assert forall|a: int, b: int| 0 <= a < b < self.entries@.len() implies #[trigger] self.entries@[a].upload_id@ != #[trigger] self.entries@[b].upload_id@ by {
                    assert(before.entries@[a].upload_id@ != before.entries@[b].upload_id@);
                }
            }
            if artifact {
                return Err(RuntimeError::new("artifactExpired", "artifact has expired"));
            }
            return Err(RuntimeError::new("blobExpired", "blob has expired"));
        }
        Ok(())
    }

    /// Finds `upload_id` and checks its owner and expiry.
    fn checked_entry(&mut self, context: &OperationContext, upload_id: &str, now_ms: u64) -> (r: RuntimeResult<usize>)
        requires
            old(self).wf(),
        ensures
            final(self).wf(),
            access_error(old(self).entries@, *context, upload_id@, now_ms) is None <==> r is Ok,
            r matches Ok(i) ==> index_of_upload(old(self).entries@, upload_id@) == Some(i as int),
            r matches Err(x) ==> x.code@ == access_error(old(self).entries@, *context, upload_id@, now_ms)->0,
            access_effect(*old(self), *final(self), index_of_upload(old(self).entries@, upload_id@),
                upload_expired(old(self).entries@, *context, upload_id@, now_ms)),
    {
        let i = match self.find_upload(upload_id) {
            Some(i) => i,
            None => return Err(RuntimeError::new("blobNotFound", "blob upload was not found")),
        };
        self.check_entry(i, context, now_ms, false)?;
        Ok(i)
    }

    /// Reports an upload under `budget`.
    pub fn status_with_budget(&mut self, context: &OperationContext, upload_id: &str, budget: &BlobToolBudget, now_ms: u64) -> (r: RuntimeResult<BlobStatus>)
        requires
            old(self).wf(),
        ensures
            final(self).wf(),
            blob_gate(*context, now_ms) is Some ==> (r matches Err(e) && e.code@ == blob_gate(*context, now_ms)->0 && opt_view(e.phase) == Some("readingBlobStatus"@) && *final(self) == *old(self)
                && e.retryable == !context.cancelled && e.usage is Some
                && crate::text::starts_with_seq(e.message@, "tool stopped during "@ + "readingBlobStatus"@ + "; usage="@)),
            blob_gate(*context, now_ms) is None ==> {
                &&& (access_error(old(self).entries@, *context, upload_id@, now_ms) is None <==> r is Ok)
                &&& r matches Err(x) ==> x.code@ == access_error(old(self).entries@, *context, upload_id@, now_ms)->0
                &&& r matches Ok(st) ==> is_status_of(st, old(self).entries@[index_of_upload(old(self).entries@, upload_id@)->0], st.usage)
                    && st.usage == BudgetUsage { elapsed_ms: 0, ..crate::budget::zero_usage() }
                &&& access_effect(*old(self), *final(self), index_of_upload(old(self).entries@, upload_id@),
                    upload_expired(old(self).entries@, *context, upload_id@, now_ms))
            },
    {
        let mut tracker = blob_tracker(context, budget, now_ms);
        tracker.set_phase("readingBlobStatus");
        let gate = tracker.checkpoint(now_ms);
        if let Err(e) = gate {
            proof {
                let p = "tool stopped during "@ + "readingBlobStatus"@ + "; usage="@;
                assert(e.message@.subrange(0, p.len() as int) =~= p);
            }
            return Err(e);
        }
        let i = self.checked_entry(context, upload_id, now_ms)?;
        Ok(status(&self.entries[i], tracker.finish_usage(now_ms)))
    }

    /// Reports an upload under the default budget.
    pub fn status(&mut self, context: &OperationContext, upload_id: &str, now_ms: u64) -> (r: RuntimeResult<BlobStatus>)
        requires
            old(self).wf(),
        ensures
            final(self).wf(),
            blob_gate(*context, now_ms) is Some ==> (r matches Err(e) && e.code@ == blob_gate(*context, now_ms)->0 && *final(self) == *old(self)),
            blob_gate(*context, now_ms) is None ==> {
                &&& (access_error(old(self).entries@, *context, upload_id@, now_ms) is None <==> r is Ok)
                &&& r matches Err(x) ==> x.code@ == access_error(old(self).entries@, *context, upload_id@, now_ms)->0
                &&& r matches Ok(st) ==> is_status_of(st, old(self).entries@[index_of_upload(old(self).entries@, upload_id@)->0], st.usage)
                &&& access_effect(*old(self), *final(self), index_of_upload(old(self).entries@, upload_id@),
                    upload_expired(old(self).entries@, *context, upload_id@, now_ms))
            },
    {
        let budget = BlobToolBudget::default();
        self.status_with_budget(context, upload_id, &budget, now_ms)
    }

    /// Leases a sealed upload to one consumer: while leased it cannot be leased again.
    pub fn lease(&mut self, context: &OperationContext, content_ref: &str, purpose: &str, now_ms: u64) -> (r: RuntimeResult<BlobLease>)
        requires
            old(self).wf(),
        ensures
            final(self).wf(),
            leased(*old(self), *final(self), *context, content_ref@, purpose@, now_ms, r),
    {
        let i = match self.find_content(content_ref) {
            Some(i) => i,
            None => return Err(RuntimeError::new("blobNotFound", "contentRef was not found")),
        };
        self.check_entry(i, context, now_ms, false)?;
        if !str_eq(self.entries[i].purpose.as_str(), purpose) {
            return Err(RuntimeError::new("blobPurposeMismatch", "contentRef purpose does not match this tool"));
        }
        if self.entries[i].state != BlobState::Sealed {
            return Err(state_error("contentRef is not sealed or is already consumed"));
        }
        let ghost before = *self;
        let e = entry_mut(&mut self.entries, i);
        e.state = BlobState::Consuming;
        let lease = BlobLease {
            upload_id: e.upload_id.clone(),
            path: e.path.clone(),
            size_bytes: e.received,
            sha256: match &e.sha256 {
                Some(h) => h.clone(),
                None => String::new(),
            },
            finished: false,
        };
        proof {
            assert forall|a: int, b: int| 0 <= a < b < self.entries@.len() implies #[trigger] self.entries@[a].upload_id@ != #[trigger] self.entries@[b].upload_id@ by {
                assert(before.entries@[a].upload_id@ != before.entries@[b].upload_id@);
            }
            assert(self.entries@ =~= before.entries@.update(i as int, with_state(before.entries@[i as int], BlobState::Consuming)));
        }
        Ok(lease)
    }

    /// Ends the consumption of a leased upload.
    fn finish_consume(&mut self, upload_id: &str, consumed: bool) -> (r: RuntimeResult<()>)
        requires
            old(self).wf(),
        ensures
            final(self).wf(),
            finished_consume(*old(self), *final(self), upload_id@, consumed, r),
    {
        let i = match self.find_upload(upload_id) {
            Some(i) => i,
            None => return Err(RuntimeError::new("blobNotFound", "blob upload was not found")),
        };
        if self.entries[i].state == BlobState::Consuming {
            let ghost before = *self;
            let path = self.entries[i].path.clone();
            let meta = upload_file_path(self.root.as_str(), upload_id, ".meta.json");
            let e = entry_mut(&mut self.entries, i);
            e.state = if consumed { BlobState::Consumed } else { BlobState::Sealed };
            if consumed {
                self.removed_paths.push(path);
                self.removed_paths.push(meta);
            }
            proof {
                assert forall|a: int, b: int| 0 <= a < b < self.entries@.len() implies #[trigger] self.entries@[a].upload_id@ != #[trigger] self.entries@[b].upload_id@ by {
                    assert(before.entries@[a].upload_id@ != before.entries@[b].upload_id@);
                }
                assert(self.entries@ =~= before.entries@.update(i as int, with_state(before.entries@[i as int], if consumed { BlobState::Consumed } else { BlobState::Sealed })));
                if consumed {
                    assert(paths_view(self.removed_paths@) =~= paths_view(before.removed_paths@).push(before.entries@[i as int].path@).push(meta_path(before.root@, upload_id@)));
                }
            }
        }
        Ok(())
    }

    /// Aborts an upload under `budget`: unless already consumed, it is aborted and its
    /// files are marked for deletion.
    pub fn abort_with_budget(&mut self, context: &OperationContext, upload_id: &str, budget: &BlobToolBudget, now_ms: u64) -> (r: RuntimeResult<BlobStatus>)
        requires
            old(self).wf(),
        ensures
            final(self).wf(),
            final(self).root == old(self).root,
            aborted(*old(self), *final(self), *context, upload_id@, now_ms, r),
    {
        let mut tracker = blob_tracker(context, budget, now_ms);
        tracker.set_phase("abortingBlob");
        tracker.checkpoint(now_ms)?;
        let i = self.checked_entry(context, upload_id, now_ms)?;
        if self.entries[i].state != BlobState::Consumed {
            let ghost before = *self;
            let path = self.entries[i].path.clone();
            let meta = upload_file_path(self.root.as_str(), self.entries[i].upload_id.as_str(), ".meta.json");
            let e = entry_mut(&mut self.entries, i);
            e.state = BlobState::Aborted;
            self.removed_paths.push(path);
            self.removed_paths.push(meta);
            proof {
                assert forall|a: int, b: int| 0 <= a < b < self.entries@.len() implies #[trigger] self.entries@[a].upload_id@ != #[trigger] self.entries@[b].upload_id@ by {
                    assert(before.entries@[a].upload_id@ != before.entries@[b].upload_id@);
                }
                assert(self.entries@ =~= before.entries@.update(i as int, with_state(before.entries@[i as int], BlobState::Aborted)));
                assert(paths_view(self.removed_paths@) =~= paths_view(before.removed_paths@).push(before.entries@[i as int].path@).push(meta_path(before.root@, before.entries@[i as int].upload_id@)));
            }
        }
        Ok(status(&self.entries[i], tracker.finish_usage(now_ms)))
    }

    /// Aborts an upload under the default budget.
    pub fn abort(&mut self, context: &OperationContext, upload_id: &str, now_ms: u64) -> (r: RuntimeResult<BlobStatus>)
        requires
            old(self).wf(),
        ensures
            final(self).wf(),
            final(self).root == old(self).root,
            blob_gate(*context, now_ms) is Some ==> (r matches Err(e) && e.code@ == blob_gate(*context, now_ms)->0 && *final(self) == *old(self)),
            blob_gate(*context, now_ms) is None ==> {
                &&& (access_error(old(self).entries@, *context, upload_id@, now_ms) is None <==> r is Ok)
                &&& r matches Err(x) ==> x.code@ == access_error(old(self).entries@, *context, upload_id@, now_ms)->0
                &&& r matches Ok(st) ==> {
                    let i = index_of_upload(old(self).entries@, upload_id@)->0;
                    &&& final(self).entries@[i].state == (if old(self).entries@[i].state == BlobState::Consumed { BlobState::Consumed } else { BlobState::Aborted })
                    &&& is_status_of(st, final(self).entries@[i], st.usage)
                }
            },
    {
        let budget = BlobToolBudget::default();
        self.abort_with_budget(context, upload_id, &budget, now_ms)
    }
}

/// The owner and expiry check of a managed artifact: same agent and same task, and the
/// caller must belong to a task.
pub open spec fn artifact_error(e: BlobEntry, context: OperationContext, now_ms: u64) -> Option<Seq<char>> {
    if e.owner.agent_id@ != context.agent_id@ || opt_view(e.owner.task_id) != opt_view(context.task_id) || context.task_id is None {
        Some("artifactAccessDenied"@)
    } else if e.expires_at_ms <= now_ms {
        Some("artifactExpired"@)
    } else {
        None
    }
}

/// A sealed upload can be leased by one consumer only: once leased, a second lease of the
/// same content fails with `blobStateConflict` until the first lease ends.
pub proof fn lemma_lease_is_exclusive(
    s0: BlobStore, s1: BlobStore, s2: BlobStore,
    context: OperationContext, content_ref: Seq<char>, purpose: Seq<char>, now_ms: u64,
    r1: RuntimeResult<BlobLease>, r2: RuntimeResult<BlobLease>,
)
    requires
        leased(s0, s1, context, content_ref, purpose, now_ms, r1),
        r1 is Ok,
        leased(s1, s2, context, content_ref, purpose, now_ms, r2),
    ensures
        r2 matches Err(e) && e.code@ == "blobStateConflict"@,
        s2.entries@ == s1.entries@,
        s2.removed_paths@ == s1.removed_paths@,
{
    let i = index_of_content(s0.entries@, content_ref)->0;
    lemma_first_content_found(s0.entries@, content_ref, 0);
    assert forall|k: int| 0 <= k < s0.entries@.len() implies #[trigger] s0.entries@[k].content_ref@ == s1.entries@[k].content_ref@ by {
        if k != i {
            assert(s1.entries@[k] == s0.entries@[k]);
        }
    }
    lemma_first_content_same_refs(s0.entries@, s1.entries@, content_ref, 0);
}

/// Ending a lease without consuming the bytes seals the upload again, so it can be leased anew.
pub proof fn lemma_unconsumed_lease_seals_again(
    s0: BlobStore, s1: BlobStore, s2: BlobStore,
    context: OperationContext, content_ref: Seq<char>, purpose: Seq<char>, now_ms: u64,
    r1: RuntimeResult<BlobLease>, r2: RuntimeResult<()>,
)
    requires
        s0.wf(),
        s1.wf(),
        leased(s0, s1, context, content_ref, purpose, now_ms, r1),
        r1 is Ok,
        finished_consume(s1, s2, r1->Ok_0.upload_id@, false, r2),
    ensures
        r2 is Ok,
        s2.entries@ == s0.entries@,
        paths_view(s2.removed_paths@) == paths_view(s1.removed_paths@),
{
    let i = index_of_content(s0.entries@, content_ref)->0;
    lemma_first_content_found(s0.entries@, content_ref, 0);
    let id = r1->Ok_0.upload_id@;
    assert(s1.entries@[i].upload_id@ == id);
    let k = index_of_upload(s1.entries@, id)->0;
    assert(k == i) by {
        if k != i {
            if k < i {
                assert(s1.entries@[k].upload_id@ != s1.entries@[i].upload_id@);
            } else {
                assert(s1.entries@[i].upload_id@ != s1.entries@[k].upload_id@);
            }
        }
    }
    assert(s2.entries@ =~= s0.entries@);
}


/// Once a lease ends with its bytes consumed, the content cannot be leased again: a
/// second lease fails with `blobStateConflict` and changes nothing.
pub proof fn lemma_consumed_blob_is_not_leased_again(
    s0: BlobStore, s1: BlobStore, s2: BlobStore, s3: BlobStore,
    context: OperationContext, content_ref: Seq<char>, purpose: Seq<char>, now_ms: u64,
    r1: RuntimeResult<BlobLease>, r2: RuntimeResult<()>, r3: RuntimeResult<BlobLease>,
)
    requires
        s0.wf(),
        s1.wf(),
        leased(s0, s1, context, content_ref, purpose, now_ms, r1),
        r1 is Ok,
        finished_consume(s1, s2, r1->Ok_0.upload_id@, true, r2),
        leased(s2, s3, context, content_ref, purpose, now_ms, r3),
    ensures
        r2 is Ok,
        r3 matches Err(e) && e.code@ == "blobStateConflict"@,
        s3.entries@ == s2.entries@,
        s3.removed_paths@ == s2.removed_paths@,
{
    let i = index_of_content(s0.entries@, content_ref)->0;
    lemma_first_content_found(s0.entries@, content_ref, 0);
    let id = r1->Ok_0.upload_id@;
    assert(s1.entries@[i].upload_id@ == id);
    let k = index_of_upload(s1.entries@, id)->0;
    assert(k == i) by {
        if k != i {
            if k < i {
                assert(s1.entries@[k].upload_id@ != s1.entries@[i].upload_id@);
            } else {
                assert(s1.entries@[i].upload_id@ != s1.entries@[k].upload_id@);
            }
        }
    }
    assert(s2.entries@ =~= s0.entries@.update(i, with_state(s0.entries@[i], BlobState::Consumed)));
    assert forall|j: int| 0 <= j < s0.entries@.len() implies #[trigger] s0.entries@[j].content_ref@ == s2.entries@[j].content_ref@ by {
        if j != i {
            assert(s2.entries@[j] == s0.entries@[j]);
        }
    }
    lemma_first_content_same_refs(s0.entries@, s2.entries@, content_ref, 0);
}


/// A request to start an upload.
#[derive(Debug, Clone)]
pub struct BlobBeginRequest {
    pub purpose: String,
    pub expected_size_bytes: Option<u64>,
    pub content_type: Option<String>,
    pub expected_sha256: Option<String>,
    pub chunk_size_bytes: Option<usize>,
    pub ttl_seconds: Option<u64>,
    pub budget: BlobToolBudget,
}

/// A request naming one upload.
#[derive(Debug, Clone)]
pub struct BlobIdRequest {
    pub upload_id: String,
    pub budget: BlobToolBudget,
}

/// What a started upload is told.
#[derive(Debug, Clone)]
pub struct BlobBeginResult {
    pub upload_id: String,
    pub content_ref: String,
    pub chunk_size_bytes: usize,
    pub expires_at_ms: u64,
    pub max_size_bytes: u64,
    pub usage: BudgetUsage,
}

pub open spec fn clamp_int(v: int, lo: int, hi: int) -> int {
    if v < lo {
        lo
    } else if v > hi {
        hi
    } else {
        v
    }
}

/// The negotiated chunk size of a request.
pub open spec fn begin_chunk_size(r: BlobBeginRequest) -> int {
    clamp_int(match r.chunk_size_bytes { Some(c) => c as int, None => DEFAULT_CHUNK_BYTES as int }, MIN_CHUNK_BYTES as int, MAX_CHUNK_BYTES as int)
}

/// The expiry time of an upload started at `now_ms` with time-to-live `ttl_seconds`.
pub open spec fn expiry(now_ms: u64, ttl_seconds: Option<u64>) -> u64 {
    let ttl = clamp_int(match ttl_seconds { Some(t) => t as int, None => DEFAULT_TTL_SECONDS as int }, 1, MAX_TTL_SECONDS as int);
    sat_add(now_ms, (ttl * 1000) as u64)
}

/// The first failure of `begin` found before any stored state is consulted.
pub open spec fn begin_precheck(context: OperationContext, r: BlobBeginRequest, now_ms: u64) -> Option<Seq<char>> {
    if blob_gate(context, now_ms) is Some {
        blob_gate(context, now_ms)
    } else if r.budget.max_open_files < 1 {
        Some("openFileBudgetExceeded"@)
    } else if !valid_purpose(r.purpose@) {
        Some("invalidBlobPurpose"@)
    } else if r.expected_size_bytes matches Some(x) && x > MAX_BLOB_BYTES {
        Some("blobQuotaExceeded"@)
    } else {
        None
    }
}

/// The quota check of a new upload against the uploads in `s`.
pub open spec fn quota_exceeded(s: Seq<BlobEntry>, owner: OwnerView, reserved: u64) -> bool {
    let (ob, ou, gb) = usage_spec(s, owner);
    ou >= MAX_OWNER_UPLOADS || sat_add(ob, reserved) > MAX_OWNER_BYTES || sat_add(gb, reserved) > MAX_GLOBAL_BYTES
}

/// `e` is the fresh upload that `begin` records.
pub open spec fn is_new_upload(e: BlobEntry, root: Seq<char>, context: OperationContext, r: BlobBeginRequest, now_ms: u64, upload_id: Seq<char>, content_ref: Seq<char>) -> bool {
    &&& e.upload_id@ == upload_id
    &&& e.content_ref@ == content_ref
    &&& owner_view(e.owner) == context_owner(context)
    &&& e.purpose@ == r.purpose@
    &&& opt_view(e.content_type) == opt_view(r.content_type)
    &&& e.expected_size == r.expected_size_bytes
    &&& opt_view(e.expected_sha256) == (match r.expected_sha256 { Some(h) => Some(hash_body(h@)), None => None })
    &&& e.chunk_size == begin_chunk_size(r)
    &&& e.expires_at_ms == expiry(now_ms, r.ttl_seconds)
    &&& e.path@ == blob_path(root, upload_id)
    &&& e.received == 0
    &&& e.chunks@.len() == 0
    &&& e.sha256 is None
    &&& e.state == BlobState::Uploading
}

/// `s` with `e` recorded under its upload id (replacing an upload with the same id).
pub open spec fn insert_spec(s: Seq<BlobEntry>, e: BlobEntry) -> Seq<BlobEntry> {
    match index_of_upload(s, e.upload_id@) {
        Some(k) => s.update(k, e),
        None => s.push(e),
    }
}

/// After `insert_spec`, looking the upload id up finds exactly the inserted entry.
pub proof fn lemma_insert_spec_finds(p: Seq<BlobEntry>, e: BlobEntry)
    requires
        forall|i: int, j: int| 0 <= i < j < p.len() ==> #[trigger] p[i].upload_id@ != #[trigger] p[j].upload_id@,
    ensures
        index_of_upload(insert_spec(p, e), e.upload_id@) is Some,
        insert_spec(p, e)[index_of_upload(insert_spec(p, e), e.upload_id@)->0] == e,
        insert_spec(p, e).len() >= 1,
{
    let s = insert_spec(p, e);
    let id = e.upload_id@;
    match index_of_upload(p, id) {
        Some(j) => {
            assert(s[j].upload_id@ == id);
            let k = index_of_upload(s, id)->0;
            if k != j {
                assert(p[k].upload_id@ == id);
                if k < j {
                    assert(p[k].upload_id@ != p[j].upload_id@);
                } else {
                    assert(p[j].upload_id@ != p[k].upload_id@);
                }
            }
        },
        None => {
            let n = p.len() as int;
            assert(s[n].upload_id@ == id);
            let k = index_of_upload(s, id)->0;
            if k != n {
                assert(s[k] == p[k]);
                assert(!(0 <= k < p.len() && #[trigger] p[k].upload_id@ == id));
            }
        },
    }
}

impl BlobStore {
    /// Records `e`, replacing an upload with the same id.
    fn insert_entry(&mut self, e: BlobEntry)
        requires
            old(self).wf(),
        ensures
            final(self).wf(),
            final(self).root == old(self).root,
            final(self).removed_paths == old(self).removed_paths,
            final(self).entries@ == insert_spec(old(self).entries@, e),
    {
        let ghost before = self.entries@;
        match self.find_upload(e.upload_id.as_str()) {
            Some(k) => {
                let ghost id = e.upload_id@;
                self.entries.set(k, e);
                assert forall|a: int, b: int| 0 <= a < b < self.entries@.len() implies #[trigger] self.entries@[a].upload_id@ != #[trigger] self.entries@[b].upload_id@ by {
                    if a == k {
                        assert(before[k as int].upload_id@ == id);
                        assert(before[k as int].upload_id@ != before[b].upload_id@);
                    } else if b == k {
                        assert(before[a].upload_id@ != before[k as int].upload_id@);
                    } else {
                        assert(before[a].upload_id@ != before[b].upload_id@);
                    }
                }
            },
            None => {
                let ghost id = e.upload_id@;
                self.entries.push(e);
                assert forall|a: int, b: int| 0 <= a < b < self.entries@.len() implies #[trigger] self.entries@[a].upload_id@ != #[trigger] self.entries@[b].upload_id@ by {
                    if b == before.len() {
                        assert(self.entries@[a] == before[a]);
                        assert(!(#[trigger] before[a].upload_id@ == id));
                    } else {
                        assert(before[a].upload_id@ != before[b].upload_id@);
                    }
                }
            },
        }
    }

    /// Starts an upload with the given fresh ids: checks the request and the caller's
    /// quotas (after purging expired uploads) and records an empty upload. The caller
    /// creates the (empty) file at the recorded path.
    pub fn begin(&mut self, context: &OperationContext, request: &BlobBeginRequest, now_ms: u64, upload_id: &str, content_ref: &str) -> (r: RuntimeResult<BlobBeginResult>)
        requires
            old(self).wf(),
        ensures
            final(self).wf(),
            final(self).root == old(self).root,
            begin_precheck(*context, *request, now_ms) is Some ==> {
                &&& r matches Err(e) && e.code@ == begin_precheck(*context, *request, now_ms)->0
                &&& final(self).entries@ == old(self).entries@
                &&& final(self).removed_paths@ == old(self).removed_paths@
            },
            blob_gate(*context, now_ms) is Some ==> (r matches Err(e) && e.phase is Some
                && e.phase->0@ == "reservingBlob"@ && e.usage is Some),
            begin_precheck(*context, *request, now_ms) is None ==> ({
                let purged = retain_spec(old(self).entries@, unexpired(now_ms));
                let reserved: u64 = match request.expected_size_bytes { Some(x) => x, None => MAX_BLOB_BYTES };
                &&& paths_view(final(self).removed_paths@) == paths_view(old(self).removed_paths@) + removal_spec(old(self).entries@, unexpired(now_ms), old(self).root@)
                &&& if quota_exceeded(purged, context_owner(*context), reserved) {
                    r matches Err(e) && e.code@ == "blobQuotaExceeded"@ && final(self).entries@ == purged
                } else if request.expected_sha256 matches Some(h) && !valid_hash(hash_body(h@)) {
                    r matches Err(e) && e.code@ == "invalidSha256"@ && final(self).entries@ == purged
                } else {
                    &&& r matches Ok(b) && b.upload_id@ == upload_id@ && b.content_ref@ == content_ref@
                        && b.chunk_size_bytes == begin_chunk_size(*request) && b.expires_at_ms == expiry(now_ms, request.ttl_seconds)
                        && b.max_size_bytes == MAX_BLOB_BYTES
                    &&& final(self).entries@.len() >= 1
                    &&& final(self).entries@ == insert_spec(purged, final(self).entries@[index_of_upload(final(self).entries@, upload_id@)->0])
                    &&& index_of_upload(final(self).entries@, upload_id@) is Some
                    &&& is_new_upload(final(self).entries@[index_of_upload(final(self).entries@, upload_id@)->0], old(self).root@, *context, *request, now_ms, upload_id@, content_ref@)
                }
            }),
    {
        let mut tracker = blob_tracker(context, &request.budget, now_ms);
        tracker.set_phase("reservingBlob");
        tracker.checkpoint(now_ms)?;
        if request.budget.max_open_files < 1 {
            return Err(RuntimeError::new("openFileBudgetExceeded", "blob operation requires at least 1 open-file slots"));
        }
        validate_purpose(request.purpose.as_str())?;
        if let Some(size) = request.expected_size_bytes {
            if size > MAX_BLOB_BYTES {
                return Err(quota_error("blob exceeds the maximum size"));
            }
        }
        let requested_chunk = match request.chunk_size_bytes { Some(c) => c, None => DEFAULT_CHUNK_BYTES };
        let chunk_size = if requested_chunk < MIN_CHUNK_BYTES { MIN_CHUNK_BYTES } else if requested_chunk > MAX_CHUNK_BYTES { MAX_CHUNK_BYTES } else { requested_chunk };
        let requested_ttl = match request.ttl_seconds { Some(t) => t, None => DEFAULT_TTL_SECONDS };
        let ttl = if requested_ttl < 1 { 1 } else if requested_ttl > MAX_TTL_SECONDS { MAX_TTL_SECONDS } else { requested_ttl };
        let owner = owner(context);
        self.purge_expired(now_ms);
        let (owner_bytes, owner_uploads, global_bytes) = usage(&self.entries, &owner);
        let reserved = match request.expected_size_bytes { Some(x) => x, None => MAX_BLOB_BYTES };
        if owner_uploads >= MAX_OWNER_UPLOADS || owner_bytes.saturating_add(reserved) > MAX_OWNER_BYTES
            || global_bytes.saturating_add(reserved) > MAX_GLOBAL_BYTES {
            return Err(quota_error("blob upload quota exceeded"));
        }
        let expected_sha256 = match &request.expected_sha256 {
            Some(h) => normalize_hash(Some(h.as_str()))?,
            None => None,
        };
        let expires_at_ms = now_ms.saturating_add(ttl * 1000);
        let entry = BlobEntry {
            upload_id: upload_id.to_owned(),
            content_ref: content_ref.to_owned(),
            owner,
            purpose: request.purpose.clone(),
            content_type: clone_opt(&request.content_type),
            expected_size: request.expected_size_bytes,
            expected_sha256,
            chunk_size,
            expires_at_ms,
            path: upload_file_path(self.root.as_str(), upload_id, ".blob"),
            received: 0,
            chunks: Vec::new(),
            sha256: None,
            state: BlobState::Uploading,
        };
        let ghost e = entry;
        let ghost purged = self.entries@;
        self.insert_entry(entry);
        proof {
            lemma_insert_spec_finds(purged, e);
        }
        tracker.checkpoint(now_ms)?;
        Ok(BlobBeginResult {
            upload_id: upload_id.to_owned(),
            content_ref: content_ref.to_owned(),
            chunk_size_bytes: chunk_size,
            expires_at_ms,
            max_size_bytes: MAX_BLOB_BYTES,
            usage: tracker.finish_usage(now_ms),
        })
    }
}

} // verus!
