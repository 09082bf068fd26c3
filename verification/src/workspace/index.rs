//! The repository index of a workspace: per root, a generation-numbered snapshot of
//! the entries found by the last crawl, marked fresh, stale or unknown.

use vstd::prelude::*;
use crate::context::opt_view;
use crate::error::{RuntimeError, RuntimeResult};
use crate::text::{chars_of, str_eq};
use vstd::utf8::encode_utf8;
use crate::budget::{sat_add, sat_sub};
use super::{path_within, within};

verus! {

/// How far an index can be trusted.
#[derive(Debug, Clone, Copy, PartialEq, Eq, Structural)]
pub enum IndexFreshness {
    Fresh,
    Stale,
    Unknown,
}

/// What is known of one indexed path.
#[derive(Debug, Clone)]
pub struct IndexedMetadata {
    pub size: u64,
    pub modified_at_ns: u128,
    pub entry_type: String,
}

/// The index of one root.
#[derive(Debug)]
pub struct RootIndex {
    pub root: String,
    pub generation: u64,
    pub entries: Vec<(String, IndexedMetadata)>,
    pub indexed_bytes: u64,
    pub freshness: Option<IndexFreshness>,
    pub last_error: Option<String>,
}

/// The indexes of a workspace.
#[derive(Debug)]
pub struct RepositoryIndex {
    pub roots: Vec<RootIndex>,
}

impl RepositoryIndex {
    /// No root indexed yet.
    pub fn new() -> (r: Self)
        ensures
            r.roots@.len() == 0,
    {
        RepositoryIndex { roots: Vec::new() }
    }
}

pub const INDEX_SCHEMA_VERSION: u32 = 1;
pub const MAX_SNAPSHOT_ENTRIES: usize = 1000000;

/// What a caller is told about the index of a root.
#[derive(Debug, Clone)]
pub struct WorkspaceIndexStatus {
    pub root: String,
    pub available: bool,
    pub generation: u64,
    pub freshness: IndexFreshness,
    pub entry_count: usize,
    pub indexed_bytes: u64,
    pub schema_version: u32,
    pub last_error: Option<String>,
}

/// One entry of a persisted index, relative to its root.
#[derive(Debug, Clone)]
pub struct RepositoryIndexEntrySnapshot {
    pub relative_path_bytes: Vec<u8>,
    pub display_path: String,
    pub entry_type: String,
    pub size_bytes: u64,
    pub modified_at_ns: u128,
}

/// A persisted index of one root.
#[derive(Debug, Clone)]
pub struct RepositoryIndexSnapshot {
    pub root: String,
    pub generation: u64,
    pub freshness: IndexFreshness,
    pub indexed_bytes: u64,
    pub schema_version: u32,
    pub entries: Vec<RepositoryIndexEntrySnapshot>,
}

/// The first index kept for `root`.
pub open spec fn root_index(s: Seq<RootIndex>, root: Seq<char>, from: int) -> Option<int>
    decreases s.len() - from,
{
    if from < 0 || from >= s.len() {
        None
    } else if s[from].root@ == root {
        Some(from)
    } else {
        root_index(s, root, from + 1)
    }
}

/// `r` is the status of the index of `root` in `idx`.
pub open spec fn reports(idx: RepositoryIndex, root: Seq<char>, r: WorkspaceIndexStatus) -> bool {
    &&& r.root@ == root
    &&& r.schema_version == INDEX_SCHEMA_VERSION
    &&& match root_index(idx.roots@, root, 0) {
        None => !r.available && r.generation == 0 && r.freshness == IndexFreshness::Unknown
            && r.entry_count == 0 && r.indexed_bytes == 0 && r.last_error is None,
        Some(i) => {
            let x = idx.roots@[i];
            &&& r.available
            &&& r.generation == x.generation
            &&& r.freshness == (match x.freshness { Some(f) => f, None => IndexFreshness::Unknown })
            &&& r.entry_count == x.entries@.len()
            &&& r.indexed_bytes == x.indexed_bytes
            &&& opt_view(r.last_error) == opt_view(x.last_error)
        },
    }
}

fn find_root(s: &Vec<RootIndex>, root: &str) -> (r: Option<usize>)
    ensures
        match r {
            Some(i) => i < s@.len() && root_index(s@, root@, 0) == Some(i as int),
            None => root_index(s@, root@, 0) is None,
        },
{
    let mut i: usize = 0;
    while i < s.len()
        invariant
            i <= s@.len(),
            root_index(s@, root@, 0) == root_index(s@, root@, i as int),
        decreases s.len() - i,
    {
        if str_eq(s[i].root.as_str(), root) {
            return Some(i);
        }
        i = i + 1;
    }
    None
}

impl RepositoryIndex {
    /// The status of the index of `root`.
    pub fn status(&self, root: &str) -> (r: WorkspaceIndexStatus)
        ensures
            reports(*self, root@, r),
    {
        match find_root(&self.roots, root) {
            None => WorkspaceIndexStatus {
                root: root.to_owned(),
                available: false,
                generation: 0,
                freshness: IndexFreshness::Unknown,
                entry_count: 0,
                indexed_bytes: 0,
                schema_version: INDEX_SCHEMA_VERSION,
                last_error: None,
            },
            Some(i) => {
                let x = &self.roots[i];
                WorkspaceIndexStatus {
                    root: root.to_owned(),
                    available: true,
                    generation: x.generation,
                    freshness: match x.freshness { Some(f) => f, None => IndexFreshness::Unknown },
                    entry_count: x.entries.len(),
                    indexed_bytes: x.indexed_bytes,
                    schema_version: INDEX_SCHEMA_VERSION,
                    last_error: crate::context::clone_opt(&x.last_error),
                }
            },
        }
    }

    /// Records the result of a full crawl of `root`: the next generation, fresh.
    pub fn install(&mut self, root: &str, entries: Vec<(String, IndexedMetadata)>, indexed_bytes: u64)
        ensures
            ({
                let previous = match root_index(old(self).roots@, root@, 0) { Some(i) => old(self).roots@[i].generation, None => 0 };
                let next = RootIndex {
                    root: final(self).roots@[root_index(final(self).roots@, root@, 0)->0].root,
                    generation: if previous == u64::MAX { u64::MAX } else { (previous + 1) as u64 },
                    entries,
                    indexed_bytes,
                    freshness: Some(IndexFreshness::Fresh),
                    last_error: None,
                };
                &&& root_index(final(self).roots@, root@, 0) is Some
                &&& final(self).roots@[root_index(final(self).roots@, root@, 0)->0] == next
                &&& match root_index(old(self).roots@, root@, 0) {
                    Some(i) => final(self).roots@ == old(self).roots@.update(i, next),
                    None => final(self).roots@ == old(self).roots@.push(next),
                }
            }),
    {
        let previous = match find_root(&self.roots, root) { Some(i) => self.roots[i].generation, None => 0 };
        let next = RootIndex {
            root: root.to_owned(),
            generation: previous.saturating_add(1),
            entries,
            indexed_bytes,
            freshness: Some(IndexFreshness::Fresh),
            last_error: None,
        };
        self.put(next);
    }

    /// Replaces or adds the index of `x.root`.
    fn put(&mut self, x: RootIndex)
        ensures
            root_index(final(self).roots@, x.root@, 0) is Some,
            final(self).roots@[root_index(final(self).roots@, x.root@, 0)->0] == x,
            match root_index(old(self).roots@, x.root@, 0) {
                Some(i) => final(self).roots@ == old(self).roots@.update(i, x),
                None => final(self).roots@ == old(self).roots@.push(x),
            },
    {
        let ghost before = self.roots@;
        match find_root(&self.roots, x.root.as_str()) {
            Some(i) => {
                let ghost root = x.root@;
                self.roots.remove(i);
                self.roots.insert(i, x);
                proof {
                    assert(self.roots@ =~= before.update(i as int, self.roots@[i as int]));
                    lemma_root_index_update(before, root, i as int, self.roots@[i as int], 0);
                }
            },
            None => {
                let ghost root = x.root@;
                self.roots.push(x);
                proof {
                    lemma_root_index_push(before, root, self.roots@.last(), 0);
                }
            },
        }
    }

    /// Records a failed crawl of `root`: its index can no longer be trusted.
    pub fn mark_failed(&mut self, root: &str, message: &str)
        ensures
            match root_index(old(self).roots@, root@, 0) {
                Some(i) => final(self).roots@.len() == old(self).roots@.len() && ({
                    let x = old(self).roots@[i];
                    let y = final(self).roots@[i];
                    &&& y.generation == x.generation
                    &&& y.entries == x.entries
                    &&& y.indexed_bytes == x.indexed_bytes
                    &&& y.freshness == Some(IndexFreshness::Unknown)
                    &&& y.last_error matches Some(m) && m@ == message@
                    &&& forall|k: int| 0 <= k < old(self).roots@.len() && k != i ==> final(self).roots@[k] == old(self).roots@[k]
                }),
                None => final(self).roots@.len() == old(self).roots@.len() + 1 && ({
                    let y = final(self).roots@.last();
                    &&& y.root@ == root@
                    &&& y.generation == 0
                    &&& y.entries@.len() == 0
                    &&& y.indexed_bytes == 0
                    &&& y.freshness == Some(IndexFreshness::Unknown)
                    &&& y.last_error matches Some(m) && m@ == message@
                    &&& final(self).roots@.drop_last() == old(self).roots@
                }),
            },
    {
        match find_root(&self.roots, root) {
            Some(i) => {
                let ghost before = self.roots@;
                let mut x = self.roots.remove(i);
                x.freshness = Some(IndexFreshness::Unknown);
                x.last_error = Some(message.to_owned());
                self.roots.insert(i, x);
                assert forall|k: int| 0 <= k < before.len() && k != i implies self.roots@[k] == before[k] by {}
            },
            None => {
                let ghost before = self.roots@;
                self.roots.push(RootIndex {
                    root: root.to_owned(),
                    generation: 0,
                    entries: Vec::new(),
                    indexed_bytes: 0,
                    freshness: Some(IndexFreshness::Unknown),
                    last_error: Some(message.to_owned()),
                });
                assert(self.roots@.drop_last() =~= before);
            },
        }
    }
}

proof fn lemma_root_index_update(s: Seq<RootIndex>, root: Seq<char>, i: int, x: RootIndex, from: int)
    requires
        0 <= from <= i < s.len(),
        root_index(s, root, from) == Some(i),
        x.root@ == root,
    ensures
        root_index(s.update(i, x), root, from) == Some(i),
    decreases i - from,
{
    if from < i {
        lemma_root_index_update(s, root, i, x, from + 1);
    }
}

proof fn lemma_root_index_push(s: Seq<RootIndex>, root: Seq<char>, x: RootIndex, from: int)
    requires
        0 <= from <= s.len(),
        root_index(s, root, from) is None,
        x.root@ == root,
    ensures
        root_index(s.push(x), root, from) == Some(s.len() as int),
    decreases s.len() - from,
{
    if from < s.len() {
        lemma_root_index_push(s, root, x, from + 1);
    }
}

/// The kind an entry of a restored snapshot is recorded as.
pub open spec fn restored_kind(t: Seq<char>) -> Seq<char> {
    if t == "file"@ { "file"@ } else if t == "directory"@ { "directory"@ } else if t == "symlink"@ { "symlink"@ } else { "other"@ }
}

fn kind_of(t: &str) -> (r: String)
    ensures
        r@ == restored_kind(t@),
{
    if str_eq(t, "file") {
        "file".to_owned()
    } else if str_eq(t, "directory") {
        "directory".to_owned()
    } else if str_eq(t, "symlink") {
        "symlink".to_owned()
    } else {
        "other".to_owned()
    }
}

/// A relative path that could leave its root: absolute, or with a `..` component.
pub open spec fn unsafe_relative(p: Seq<char>) -> bool {
    (p.len() > 0 && p[0] == '/') || exists|i: int| #[trigger] parent_component_at(p, i)
}

/// A `..` component starts at `i`.
pub open spec fn parent_component_at(p: Seq<char>, i: int) -> bool {
    &&& 0 <= i
    &&& i + 2 <= p.len()
    &&& p[i] == '.' && p[i + 1] == '.'
    &&& (i == 0 || p[i - 1] == '/')
    &&& (i + 2 == p.len() || p[i + 2] == '/')
}

fn is_unsafe_relative(p: &str) -> (r: bool)
    ensures
        r == unsafe_relative(p@),
{
    let c = chars_of(p);
    if c.len() > 0 && c[0] == '/' {
        return true;
    }
    if c.len() < 2 {
        assert forall|i: int| !#[trigger] parent_component_at(p@, i) by {}
        return false;
    }
    let mut i: usize = 0;
    while i < c.len() - 1
        invariant
            c@ == p@,
            c@.len() >= 2,
            i <= c@.len() - 1,
            forall|k: int| 0 <= k < i ==> !#[trigger] parent_component_at(p@, k),
        decreases c.len() - i,
    {
        if c[i] == '.' && c[i + 1] == '.' && (i == 0 || c[i - 1] == '/') && (i + 2 == c.len() || c[i + 2] == '/') {
            assert(parent_component_at(p@, i as int));
            return true;
        }
        i = i + 1;
    }
    assert forall|k: int| !#[trigger] parent_component_at(p@, k) by {}
    false
}

/// The relative path of a snapshot entry: its bytes when they are UTF-8 text, else its
/// display form.
pub open spec fn snapshot_relative(e: RepositoryIndexEntrySnapshot) -> Seq<char> {
    if vstd::utf8::valid_utf8(e.relative_path_bytes@) {
        vstd::utf8::decode_utf8(e.relative_path_bytes@)
    } else {
        e.display_path@
    }
}

/// The first problem of a snapshot, if any.
pub open spec fn snapshot_error(s: RepositoryIndexSnapshot) -> Option<Seq<char>> {
    if s.schema_version != INDEX_SCHEMA_VERSION {
        Some("index_schema_mismatch"@)
    } else if s.entries@.len() > MAX_SNAPSHOT_ENTRIES {
        Some("index_entry_limit"@)
    } else if exists|i: int| 0 <= i < s.entries@.len() && unsafe_relative(snapshot_relative(#[trigger] s.entries@[i])) {
        Some("index_snapshot_invalid"@)
    } else {
        None
    }
}

/// The absolute path of a relative path under `root`.
pub open spec fn joined(root: Seq<char>, relative: Seq<char>) -> Seq<char> {
    root + "/"@ + relative
}

/// What is recorded of one indexed path: the path, size, modification time and kind.
pub type EntryView = (Seq<char>, u64, u128, Seq<char>);

pub open spec fn entry_view(x: (String, IndexedMetadata)) -> EntryView {
    (x.0@, x.1.size, x.1.modified_at_ns, x.1.entry_type@)
}

pub open spec fn entries_view(s: Seq<(String, IndexedMetadata)>) -> Seq<EntryView> {
    s.map_values(|x: (String, IndexedMetadata)| entry_view(x))
}

/// The first recorded path at or after `from` equal to `p`.
pub open spec fn view_index(s: Seq<EntryView>, p: Seq<char>, from: int) -> Option<int>
    decreases s.len() - from,
{
    if from < 0 || from >= s.len() {
        None
    } else if s[from].0 == p {
        Some(from)
    } else {
        view_index(s, p, from + 1)
    }
}

proof fn lemma_entry_index_view(s: Seq<(String, IndexedMetadata)>, p: Seq<char>, from: int)
    ensures
        entry_index(s, p, from) == view_index(entries_view(s), p, from),
    decreases s.len() - from,
{
    if 0 <= from < s.len() {
        lemma_entry_index_view(s, p, from + 1);
    }
}

proof fn lemma_view_index_absent(s: Seq<EntryView>, p: Seq<char>, from: int)
    requires
        forall|j: int| 0 <= j < s.len() ==> (#[trigger] s[j]).0 != p,
    ensures
        view_index(s, p, from) is None,
    decreases s.len() - from,
{
    if 0 <= from < s.len() {
        lemma_view_index_absent(s, p, from + 1);
    }
}

/// The record a snapshot entry is restored to under `root`.
pub open spec fn restored_item(root: Seq<char>, e: RepositoryIndexEntrySnapshot) -> EntryView {
    (joined(root, snapshot_relative(e)), e.size_bytes, e.modified_at_ns, restored_kind(e.entry_type@))
}

/// `s` with `item` recorded: it replaces the record of the same path, if there is one.
pub open spec fn put_item(s: Seq<EntryView>, item: EntryView) -> Seq<EntryView> {
    match view_index(s, item.0, 0) {
        Some(i) => s.update(i, item),
        None => s.push(item),
    }
}

/// The records restored from the first `k` entries of a snapshot, in order: a later entry
/// for a path replaces an earlier one.
pub open spec fn restored_view(root: Seq<char>, es: Seq<RepositoryIndexEntrySnapshot>, k: int) -> Seq<EntryView>
    decreases k,
{
    if k <= 0 {
        Seq::empty()
    } else {
        put_item(restored_view(root, es, k - 1), restored_item(root, es[k - 1]))
    }
}

/// `after` and `r` are what restoring `snapshot` for `root` gives from `before`.
pub open spec fn restored(before: RepositoryIndex, after: RepositoryIndex, root: Seq<char>, snapshot: RepositoryIndexSnapshot, r: RuntimeResult<()>) -> bool {
    match snapshot_error(snapshot) {
        Some(code) => r matches Err(e) && e.code@ == code && after.roots == before.roots,
        None => r is Ok && root_index(after.roots@, root, 0) is Some && ({
            let y = after.roots@[root_index(after.roots@, root, 0)->0];
            &&& y.generation == snapshot.generation
            &&& y.indexed_bytes == snapshot.indexed_bytes
            &&& y.freshness == Some(IndexFreshness::Stale)
            &&& y.last_error is None
            &&& entries_view(y.entries@) == restored_view(root, snapshot.entries@, snapshot.entries@.len() as int)
        }),
    }
}

/// After a snapshot is restored, the status of its root reports the restored generation
/// and size as available but stale, with no error, until a crawl confirms it.
pub proof fn lemma_restored_index_is_stale(before: RepositoryIndex, after: RepositoryIndex, root: Seq<char>,
    snapshot: RepositoryIndexSnapshot, r: RuntimeResult<()>, st: WorkspaceIndexStatus)
    requires
        restored(before, after, root, snapshot, r),
        r is Ok,
        reports(after, root, st),
    ensures
        st.available,
        st.root@ == root,
        st.generation == snapshot.generation,
        st.freshness == IndexFreshness::Stale,
        st.indexed_bytes == snapshot.indexed_bytes,
        st.schema_version == INDEX_SCHEMA_VERSION,
        st.last_error is None,
        st.entry_count == restored_view(root, snapshot.entries@, snapshot.entries@.len() as int).len(),
{
    let y = after.roots@[root_index(after.roots@, root, 0)->0];
    assert(entries_view(y.entries@).len() == y.entries@.len());
}

/// A refused snapshot changes nothing: every root reports the same status as before.
pub proof fn lemma_refused_restore_changes_nothing(before: RepositoryIndex, after: RepositoryIndex, root: Seq<char>,
    snapshot: RepositoryIndexSnapshot, r: RuntimeResult<()>, other: Seq<char>, st: WorkspaceIndexStatus)
    requires
        restored(before, after, root, snapshot, r),
        snapshot_error(snapshot) is Some,
    ensures
        r is Err,
        after.roots == before.roots,
        reports(before, other, st) <==> reports(after, other, st),
{
}

/// A root that no rebuild, restore or failed rebuild has recorded reports an unavailable
/// index of generation 0, unknown freshness, no entries and no error.
pub proof fn lemma_unknown_root_is_unavailable(idx: RepositoryIndex, root: Seq<char>, st: WorkspaceIndexStatus)
    requires
        root_index(idx.roots@, root, 0) is None,
        reports(idx, root, st),
    ensures
        !st.available,
        st.generation == 0,
        st.freshness == IndexFreshness::Unknown,
        st.entry_count == 0,
        st.indexed_bytes == 0,
        st.last_error is None,
{
}

impl RepositoryIndex {
    /// Restores a persisted index of `root` (the snapshot's root, resolved by the caller).
    /// The restored index is only a candidate until a crawl confirms it: it is stale.
    pub fn restore(&mut self, root: &str, snapshot: RepositoryIndexSnapshot) -> (r: RuntimeResult<()>)
        ensures
            restored(*old(self), *final(self), root@, snapshot, r),
    {
        if snapshot.schema_version != INDEX_SCHEMA_VERSION {
            return Err(RuntimeError::new("index_schema_mismatch", "repository index schema is not supported by this runtime"));
        }
        if snapshot.entries.len() > MAX_SNAPSHOT_ENTRIES {
            return Err(RuntimeError::new("index_entry_limit", "repository index snapshot exceeded 1,000,000 entries"));
        }
        let n = snapshot.entries.len();
        let mut entries: Vec<(String, IndexedMetadata)> = Vec::new();
        let mut i: usize = 0;
        assert(entries_view(entries@) =~= restored_view(root@, snapshot.entries@, 0));
        while i < n
            invariant
                n == snapshot.entries@.len(),
                snapshot.schema_version == INDEX_SCHEMA_VERSION,
                n <= MAX_SNAPSHOT_ENTRIES,
                i <= n,
                forall|k: int| 0 <= k < i ==> !unsafe_relative(snapshot_relative(#[trigger] snapshot.entries@[k])),
                entries_view(entries@) == restored_view(root@, snapshot.entries@, i as int),
            decreases n - i,
        {
            let e = &snapshot.entries[i];
            let relative: String = match crate::text::utf8_str(e.relative_path_bytes.as_slice()) {
                Some(s) => s.to_owned(),
                None => e.display_path.clone(),
            };
            if is_unsafe_relative(relative.as_str()) {
                assert(unsafe_relative(snapshot_relative(snapshot.entries@[i as int])));
                return Err(RuntimeError::new("index_snapshot_invalid", "repository index snapshot contains an unsafe relative path"));
            }
            let mut v: Vec<char> = Vec::new();
            crate::text::extend_str(&mut v, root);
            crate::text::extend_str(&mut v, "/");
            crate::text::extend_str(&mut v, relative.as_str());
            let path = crate::text::string_from_chars(v.as_slice());
            let item = (path, IndexedMetadata { size: e.size_bytes, modified_at_ns: e.modified_at_ns, entry_type: kind_of(e.entry_type.as_str()) });
            let ghost before = entries@;
            proof {
                assert(entry_view(item) == restored_item(root@, snapshot.entries@[i as int]));
                lemma_entry_index_view(before, item.0@, 0);
            }
            match find_entry(&entries, item.0.as_str()) {
                Some(k) => {
                    entries.set(k, item);
                    assert(entries_view(entries@) =~= entries_view(before).update(k as int, entry_view(entries@[k as int])));
                },
                None => {
                    entries.push(item);
                    assert(entries_view(entries@) =~= entries_view(before).push(entry_view(entries@.last())));
                },
            }
            i = i + 1;
        }
        self.put(RootIndex {
            root: root.to_owned(),
            generation: snapshot.generation,
            entries,
            indexed_bytes: snapshot.indexed_bytes,
            freshness: Some(IndexFreshness::Stale),
            last_error: None,
        });
        Ok(())
    }
}


/// `a` sorts before `b` byte by byte (a proper prefix first).
pub open spec fn bytes_lt(a: Seq<u8>, b: Seq<u8>) -> bool
    decreases a.len(),
{
    if a.len() == 0 {
        b.len() > 0
    } else if b.len() == 0 {
        false
    } else if a[0] != b[0] {
        a[0] < b[0]
    } else {
        bytes_lt(a.drop_first(), b.drop_first())
    }
}

proof fn lemma_bytes_lt_irreflexive(a: Seq<u8>)
    ensures
        !bytes_lt(a, a),
    decreases a.len(),
{
    if a.len() > 0 {
        lemma_bytes_lt_irreflexive(a.drop_first());
    }
}

proof fn lemma_bytes_lt_transitive(a: Seq<u8>, b: Seq<u8>, c: Seq<u8>)
    requires
        bytes_lt(a, b),
        bytes_lt(b, c),
    ensures
        bytes_lt(a, c),
    decreases a.len(),
{
    if a.len() > 0 && b.len() > 0 && c.len() > 0 && a[0] == b[0] && b[0] == c[0] {
        lemma_bytes_lt_transitive(a.drop_first(), b.drop_first(), c.drop_first());
    }
}

proof fn lemma_bytes_lt_total(a: Seq<u8>, b: Seq<u8>)
    ensures
        a == b || bytes_lt(a, b) || bytes_lt(b, a),
    decreases a.len(),
{
    if a.len() > 0 && b.len() > 0 {
        if a[0] == b[0] {
            lemma_bytes_lt_total(a.drop_first(), b.drop_first());
            if a.drop_first() == b.drop_first() {
                assert(a =~= seq![a[0]] + a.drop_first());
                assert(b =~= seq![b[0]] + b.drop_first());
            }
        }
    } else if a.len() == 0 && b.len() == 0 {
        assert(a =~= b);
    }
}

fn bytes_less(a: &Vec<u8>, b: &Vec<u8>) -> (r: bool)
    ensures
        r == bytes_lt(a@, b@),
{
    let mut i: usize = 0;
    assert(a@.subrange(0, a@.len() as int) =~= a@);
    assert(b@.subrange(0, b@.len() as int) =~= b@);
    while i < a.len() && i < b.len()
        invariant
            i <= a@.len(),
            i <= b@.len(),
            bytes_lt(a@, b@) == bytes_lt(a@.subrange(i as int, a@.len() as int), b@.subrange(i as int, b@.len() as int)),
        decreases a.len() - i,
    {
        let ghost x = a@.subrange(i as int, a@.len() as int);
        let ghost y = b@.subrange(i as int, b@.len() as int);
        assert(x.drop_first() =~= a@.subrange(i + 1, a@.len() as int));
        assert(y.drop_first() =~= b@.subrange(i + 1, b@.len() as int));
        if a[i] != b[i] {
            return a[i] < b[i];
        }
        i = i + 1;
    }
    i == a.len() && i < b.len()
}

/// The path of `p` relative to `root`: empty for the root itself, `None` when `p` is not
/// under `root`.
pub open spec fn relative_to(root: Seq<char>, p: Seq<char>) -> Option<Seq<char>> {
    if p == root {
        Some(Seq::empty())
    } else if p.len() >= root.len() + 1 && p.subrange(0, root.len() as int) == root && p[root.len() as int] == '/' {
        Some(p.subrange(root.len() as int + 1, p.len() as int))
    } else {
        None
    }
}

pub(crate) fn relative_of(root: &Vec<char>, p: &str) -> (r: Option<String>)
    ensures
        match relative_to(root@, p@) {
            Some(rel) => r matches Some(s) && s@ == rel,
            None => r is None,
        },
{
    let c = crate::text::chars_of(p);
    let m = root.len();
    if c.len() < m {
        return None;
    }
    let mut i: usize = 0;
    while i < m
        invariant
            c@ == p@,
            m == root@.len(),
            m <= c@.len(),
            i <= m,
            c@.subrange(0, i as int) == root@.subrange(0, i as int),
        decreases m - i,
    {
        if c[i] != root[i] {
            assert(c@.subrange(0, m as int)[i as int] != root@.subrange(0, m as int)[i as int]);
            assert(c@.subrange(0, m as int) != root@.subrange(0, m as int));
            assert(root@.subrange(0, m as int) =~= root@);
            assert(c@ != root@) by {
                if c@ == root@ {
                    assert(c@[i as int] == root@[i as int]);
                }
            }
            return None;
        }
        i = i + 1;
        assert(c@.subrange(0, i as int) =~= root@.subrange(0, i as int));
    }
    assert(root@.subrange(0, m as int) =~= root@);
    if c.len() == m {
        assert(c@ =~= root@);
        return Some(String::new());
    }
    if c[m] != '/' {
        return None;
    }
    let mut v: Vec<char> = Vec::new();
    let mut k: usize = m + 1;
    while k < c.len()
        invariant
            m + 1 <= k <= c@.len(),
            v@ == c@.subrange(m + 1, k as int),
        decreases c.len() - k,
    {
        v.push(c[k]);
        k = k + 1;
        assert(c@.subrange(m + 1, k as int) =~= c@.subrange(m + 1, k - 1).push(c@[k - 1]));
    }
    assert(c@ != root@);
    Some(crate::text::string_from_chars(v.as_slice()))
}

/// The bytes of a text's UTF-8 encoding.
fn utf8_bytes(s: &str) -> (r: Vec<u8>)
    ensures
        r@ == encode_utf8(s@),
{
    let b = s.as_bytes();
    let mut v: Vec<u8> = Vec::new();
    let mut i: usize = 0;
    while i < b.len()
        invariant
            i <= b@.len(),
            b@ == encode_utf8(s@),
            v@ == b@.subrange(0, i as int),
        decreases b.len() - i,
    {
        v.push(b[i]);
        i = i + 1;
        assert(b@.subrange(0, i as int) =~= b@.subrange(0, i - 1).push(b@[i - 1]));
    }
    assert(v@ =~= b@);
    v
}

/// A snapshot entry records an indexed path relative to `root`, with its metadata.
pub open spec fn exported(e: RepositoryIndexEntrySnapshot, root: Seq<char>, x: (String, IndexedMetadata)) -> bool {
    let rel = relative_to(root, x.0@)->0;
    &&& relative_to(root, x.0@) is Some
    &&& e.relative_path_bytes@ == encode_utf8(rel)
    &&& e.display_path@ == rel
    &&& e.entry_type@ == x.1.entry_type@
    &&& e.size_bytes == x.1.size
    &&& e.modified_at_ns == x.1.modified_at_ns
}

/// Entry `ai` (with key `a`) comes before entry `bi` (with key `b`): by key, then by index.
pub open spec fn key_before(a: Seq<u8>, ai: int, b: Seq<u8>, bi: int) -> bool {
    bytes_lt(a, b) || (a == b && ai < bi)
}

/// `order` lists the snapshot entries once each, ordered by their relative path bytes.
pub open spec fn export_order(entries: Seq<RepositoryIndexEntrySnapshot>, order: Seq<int>, n: int) -> bool {
    &&& order.len() == n
    &&& entries.len() == n
    &&& forall|k: int| 0 <= k < n ==> 0 <= #[trigger] order[k] < n
    &&& forall|a: int, b: int| 0 <= a < b < n ==> key_before(entries[a].relative_path_bytes@, order[a], entries[b].relative_path_bytes@, order[b])
        && #[trigger] order[a] != #[trigger] order[b]
}

impl RepositoryIndex {
    /// The persisted form of the index of `root`: its entries relative to the root,
    /// sorted by their relative path bytes. `None` when `root` has no index.
    pub fn export(&self, root: &str) -> (r: RuntimeResult<Option<RepositoryIndexSnapshot>>)
        ensures
            match root_index(self.roots@, root@, 0) {
                None => r matches Ok(None),
                Some(i) => {
                    let x = self.roots@[i];
                    if exists|k: int| 0 <= k < x.entries@.len() && relative_to(root@, (#[trigger] x.entries@[k]).0@) is None {
                        r matches Err(e) && e.code@ == "index_snapshot_invalid"@
                    } else {
                        r matches Ok(Some(s)) && {
                            &&& s.root@ == root@
                            &&& s.generation == x.generation
                            &&& s.freshness == (match x.freshness { Some(f) => f, None => IndexFreshness::Unknown })
                            &&& s.indexed_bytes == x.indexed_bytes
                            &&& s.schema_version == INDEX_SCHEMA_VERSION
                            &&& exists|order: Seq<int>| #[trigger] export_order(s.entries@, order, x.entries@.len() as int)
                                && forall|k: int| 0 <= k < x.entries@.len() ==> exported(#[trigger] s.entries@[k], root@, x.entries@[order[k]])
                        }
                    }
                },
            },
    {
        let i = match find_root(&self.roots, root) {
            None => return Ok(None),
            Some(i) => i,
        };
        let x = &self.roots[i];
        let rc = chars_of(root);
        let n = x.entries.len();
        let mut items: Vec<RepositoryIndexEntrySnapshot> = Vec::new();
        let mut j: usize = 0;
        while j < n
            invariant
                n == x.entries@.len(),
                i < self.roots@.len(),
                root_index(self.roots@, root@, 0) == Some(i as int),
                *x == self.roots@[i as int],
                rc@ == root@,
                j <= n,
                items@.len() == j,
                forall|k: int| 0 <= k < j ==> exported(#[trigger] items@[k], root@, x.entries@[k]),
            decreases n - j,
        {
            let (path, m) = (&x.entries[j].0, &x.entries[j].1);
            let rel = match relative_of(&rc, path.as_str()) {
                Some(rel) => rel,
                None => {
                    assert(relative_to(root@, x.entries@[j as int].0@) is None);
                    assert(exists|k: int| 0 <= k < x.entries@.len() && relative_to(root@, (#[trigger] x.entries@[k]).0@) is None);
                    return Err(RuntimeError::new("index_snapshot_invalid", "indexed path escaped its workspace root"));
                },
            };
            let bytes = utf8_bytes(rel.as_str());
            items.push(RepositoryIndexEntrySnapshot {
                relative_path_bytes: bytes,
                display_path: rel,
                entry_type: m.entry_type.clone(),
                size_bytes: m.size,
                modified_at_ns: m.modified_at_ns,
            });
            j = j + 1;
        }
        let (entries, Ghost(order)) = sort_snapshot_entries(&items);
        assert forall|k: int| 0 <= k < n implies exported(#[trigger] entries@[k], root@, x.entries@[order[k]]) by {
            assert(0 <= order[k] < n);
            assert(exported(items@[order[k]], root@, x.entries@[order[k]]));
        }
        assert forall|k: int| 0 <= k < x.entries@.len() implies relative_to(root@, (#[trigger] x.entries@[k]).0@) is Some by {
            assert(exported(items@[k], root@, x.entries@[k]));
        }
        assert(export_order(entries@, order, x.entries@.len() as int) && forall|k: int| 0 <= k < x.entries@.len() ==> exported(#[trigger] entries@[k], root@, x.entries@[order[k]]));
        let snapshot = RepositoryIndexSnapshot {
            root: root.to_owned(),
            generation: x.generation,
            freshness: match x.freshness { Some(f) => f, None => IndexFreshness::Unknown },
            indexed_bytes: x.indexed_bytes,
            schema_version: INDEX_SCHEMA_VERSION,
            entries,
        };
        assert(export_order(snapshot.entries@, order, x.entries@.len() as int));
        assert(exists|o: Seq<int>| #[trigger] export_order(snapshot.entries@, o, x.entries@.len() as int)
            && forall|k: int| 0 <= k < x.entries@.len() ==> exported(#[trigger] snapshot.entries@[k], root@, x.entries@[o[k]]));
        Ok(Some(snapshot))
    }
}

/// Two snapshot entries with the same contents.
pub open spec fn same_entry(a: RepositoryIndexEntrySnapshot, b: RepositoryIndexEntrySnapshot) -> bool {
    &&& a.relative_path_bytes@ == b.relative_path_bytes@
    &&& a.display_path@ == b.display_path@
    &&& a.entry_type@ == b.entry_type@
    &&& a.size_bytes == b.size_bytes
    &&& a.modified_at_ns == b.modified_at_ns
}

fn copy_entry(e: &RepositoryIndexEntrySnapshot) -> (r: RepositoryIndexEntrySnapshot)
    ensures
        same_entry(r, *e),
{
    let mut bytes: Vec<u8> = Vec::new();
    let mut i: usize = 0;
    while i < e.relative_path_bytes.len()
        invariant
            i <= e.relative_path_bytes@.len(),
            bytes@ == e.relative_path_bytes@.subrange(0, i as int),
        decreases e.relative_path_bytes.len() - i,
    {
        bytes.push(e.relative_path_bytes[i]);
        i = i + 1;
        assert(e.relative_path_bytes@.subrange(0, i as int) =~= e.relative_path_bytes@.subrange(0, i - 1).push(e.relative_path_bytes@[i - 1]));
    }
    assert(bytes@ =~= e.relative_path_bytes@);
    RepositoryIndexEntrySnapshot {
        relative_path_bytes: bytes,
        display_path: e.display_path.clone(),
        entry_type: e.entry_type.clone(),
        size_bytes: e.size_bytes,
        modified_at_ns: e.modified_at_ns,
    }
}

/// Sorts snapshot entries by their relative path bytes (a stable sort); `order` gives,
/// for each sorted entry, its position in `items`.
fn sort_snapshot_entries(items: &Vec<RepositoryIndexEntrySnapshot>) -> (r: (Vec<RepositoryIndexEntrySnapshot>, Ghost<Seq<int>>))
    ensures
        export_order(r.0@, r.1@, items@.len() as int),
        forall|k: int| 0 <= k < items@.len() ==> same_entry(#[trigger] r.0@[k], items@[r.1@[k]]),
{
    let n = items.len();
    let mut order: Vec<usize> = Vec::new();
    let mut i: usize = 0;
    while i < n
        invariant
            n == items@.len(),
            i <= n,
            order@.len() == i,
            forall|k: int| 0 <= k < order@.len() ==> (#[trigger] order@[k]) < i,
            forall|a: int, b: int| 0 <= a < b < order@.len() ==> key_before(items@[#[trigger] order@[a] as int].relative_path_bytes@, order@[a] as int, items@[#[trigger] order@[b] as int].relative_path_bytes@, order@[b] as int),
        decreases n - i,
    {
        let mut p: usize = 0;
        while p < order.len()
            invariant
                n == items@.len(),
                i < n,
                p <= order@.len(),
                order@.len() == i,
                forall|k: int| 0 <= k < order@.len() ==> (#[trigger] order@[k]) < i,
                forall|k: int| 0 <= k < p ==> key_before(items@[#[trigger] order@[k] as int].relative_path_bytes@, order@[k] as int, items@[i as int].relative_path_bytes@, i as int),
            ensures
                p <= order@.len(),
                forall|k: int| 0 <= k < p ==> key_before(items@[#[trigger] order@[k] as int].relative_path_bytes@, order@[k] as int, items@[i as int].relative_path_bytes@, i as int),
                p < order@.len() ==> bytes_lt(items@[i as int].relative_path_bytes@, items@[order@[p as int] as int].relative_path_bytes@),
            decreases order@.len() - p,
        {
            let q = order[p];
            if bytes_less(&items[i].relative_path_bytes, &items[q].relative_path_bytes) {
                break;
            }
            proof {
                lemma_bytes_lt_total(items@[i as int].relative_path_bytes@, items@[q as int].relative_path_bytes@);
            }
            p = p + 1;
        }
        let ghost before = order@;
        order.insert(p, i);
        proof {
            assert forall|a: int, b: int| 0 <= a < b < order@.len() implies key_before(items@[#[trigger] order@[a] as int].relative_path_bytes@, order@[a] as int, items@[#[trigger] order@[b] as int].relative_path_bytes@, order@[b] as int) by {
                if b < p {
                    assert(order@[a] == before[a] && order@[b] == before[b]);
                } else if b == p {
                    assert(order@[a] == before[a]);
                } else if a == p {
                    assert(order@[b] == before[b - 1]);
                    let ki = items@[i as int].relative_path_bytes@;
                    let kp = items@[before[p as int] as int].relative_path_bytes@;
                    let kb = items@[before[b - 1] as int].relative_path_bytes@;
                    assert(bytes_lt(ki, kp));
                    if b - 1 > p {
                        assert(key_before(kp, before[p as int] as int, kb, before[b - 1] as int));
                        if bytes_lt(kp, kb) {
                            lemma_bytes_lt_transitive(ki, kp, kb);
                        }
                    }
                } else if a < p {
                    assert(order@[a] == before[a] && order@[b] == before[b - 1]);
                } else {
                    assert(order@[a] == before[a - 1] && order@[b] == before[b - 1]);
                }
            }
            assert forall|k: int| 0 <= k < order@.len() implies (#[trigger] order@[k]) < i + 1 by {
                if k < p {
                    assert(order@[k] == before[k]);
                } else if k > p {
                    assert(order@[k] == before[k - 1]);
                }
            }
        }
        i = i + 1;
    }
    let mut sorted: Vec<RepositoryIndexEntrySnapshot> = Vec::new();
    let mut k: usize = 0;
    while k < n
        invariant
            n == items@.len(),
            order@.len() == n,
            forall|j: int| 0 <= j < order@.len() ==> (#[trigger] order@[j]) < n,
            k <= n,
            sorted@.len() == k,
            forall|j: int| 0 <= j < k ==> same_entry(#[trigger] sorted@[j], items@[order@[j] as int]),
        decreases n - k,
    {
        let c = copy_entry(&items[order[k]]);
        sorted.push(c);
        k = k + 1;
    }
    let ghost ord = Seq::new(n as nat, |j: int| order@[j] as int);
    proof {
        assert forall|a: int, b: int| 0 <= a < b < n implies key_before(sorted@[a].relative_path_bytes@, ord[a], sorted@[b].relative_path_bytes@, ord[b])
            && #[trigger] ord[a] != #[trigger] ord[b] by {
            assert(key_before(items@[order@[a] as int].relative_path_bytes@, order@[a] as int, items@[order@[b] as int].relative_path_bytes@, order@[b] as int));
            if ord[a] == ord[b] {
                lemma_bytes_lt_irreflexive(items@[order@[a] as int].relative_path_bytes@);
            }
        }
    }
    (sorted, Ghost(ord))
}

/// An indexed entry that a snapshot can carry back: strictly below `root`, with a
/// relative path that stays under it and a kind the index knows.
pub open spec fn restorable(root: Seq<char>, x: (String, IndexedMetadata)) -> bool {
    &&& relative_to(root, x.0@) is Some
    &&& relative_to(root, x.0@)->0.len() > 0
    &&& !unsafe_relative(relative_to(root, x.0@)->0)
    &&& restored_kind(x.1.entry_type@) == x.1.entry_type@
}

proof fn lemma_restored_distinct(root: Seq<char>, es: Seq<RepositoryIndexEntrySnapshot>, k: int)
    requires
        0 <= k <= es.len(),
        forall|a: int, b: int| 0 <= a < b < es.len() ==> (#[trigger] restored_item(root, es[a])).0 != (#[trigger] restored_item(root, es[b])).0,
    ensures
        restored_view(root, es, k) == Seq::new(k as nat, |j: int| restored_item(root, es[j])),
    decreases k,
{
    if k > 0 {
        lemma_restored_distinct(root, es, k - 1);
        let prev = restored_view(root, es, k - 1);
        let item = restored_item(root, es[k - 1]);
        assert forall|j: int| 0 <= j < prev.len() implies (#[trigger] prev[j]).0 != item.0 by {
            assert(prev[j] == restored_item(root, es[j]));
        }
        lemma_view_index_absent(prev, item.0, 0);
        assert(restored_view(root, es, k) =~= Seq::new(k as nat, |j: int| restored_item(root, es[j])));
    }
}

/// Restoring a snapshot that `export` wrote of an index whose paths are distinct gives
/// back that index: the snapshot is accepted, and the restored records are exactly the
/// indexed paths with their sizes, modification times and kinds, in the snapshot's order.
pub proof fn lemma_export_then_restore(root: Seq<char>, x: RootIndex, s: RepositoryIndexSnapshot, order: Seq<int>)
    requires
        s.schema_version == INDEX_SCHEMA_VERSION,
        x.entries@.len() <= MAX_SNAPSHOT_ENTRIES,
        export_order(s.entries@, order, x.entries@.len() as int),
        forall|k: int| 0 <= k < x.entries@.len() ==> exported(#[trigger] s.entries@[k], root, x.entries@[order[k]]),
        forall|k: int| 0 <= k < x.entries@.len() ==> restorable(root, #[trigger] x.entries@[k]),
        forall|a: int, b: int| 0 <= a < b < x.entries@.len() ==> (#[trigger] x.entries@[a]).0@ != (#[trigger] x.entries@[b]).0@,
    ensures
        snapshot_error(s) is None,
        restored_view(root, s.entries@, s.entries@.len() as int)
            == Seq::new(x.entries@.len(), |k: int| entry_view(x.entries@[order[k]])),
{
    let n = x.entries@.len() as int;
    assert forall|k: int| 0 <= k < n implies #[trigger] restored_item(root, s.entries@[k]) == entry_view(x.entries@[order[k]]) by {
        let e = s.entries@[k];
        let y = x.entries@[order[k]];
        assert(0 <= order[k] < n);
        assert(exported(e, root, y));
        assert(restorable(root, x.entries@[order[k]]));
        let rel = relative_to(root, y.0@)->0;
        vstd::utf8::encode_utf8_valid_utf8(rel);
        vstd::utf8::encode_utf8_decode_utf8(rel);
        let p = y.0@;
        assert(p != root);
        assert(p =~= p.subrange(0, root.len() as int) + "/"@ + rel) by {
            reveal_strlit("/");
        }
    }
    assert forall|a: int, b: int| 0 <= a < b < n implies (#[trigger] restored_item(root, s.entries@[a])).0 != (#[trigger] restored_item(root, s.entries@[b])).0 by {
        assert(order[a] != order[b]);
        assert(0 <= order[a] < n && 0 <= order[b] < n);
        if order[a] < order[b] {
            assert(x.entries@[order[a]].0@ != x.entries@[order[b]].0@);
        } else {
            assert(x.entries@[order[b]].0@ != x.entries@[order[a]].0@);
        }
    }
    lemma_restored_distinct(root, s.entries@, n);
    assert(restored_view(root, s.entries@, n) =~= Seq::new(x.entries@.len(), |k: int| entry_view(x.entries@[order[k]])));
    assert forall|k: int| 0 <= k < s.entries@.len() implies !unsafe_relative(snapshot_relative(#[trigger] s.entries@[k])) by {
        let y = x.entries@[order[k]];
        assert(0 <= order[k] < n);
        assert(exported(s.entries@[k], root, y));
        assert(restorable(root, x.entries@[order[k]]));
        let rel = relative_to(root, y.0@)->0;
        vstd::utf8::encode_utf8_decode_utf8(rel);
    }
}

/// What the filesystem reports of a changed path when its index entry is refreshed.
#[derive(Debug, Clone)]
pub enum PathObservation {
    /// The path exists, with this metadata.
    Present(IndexedMetadata),
    /// The path no longer exists.
    Missing,
    /// The path could not be examined.
    Unreadable,
}

/// The first entry at or after `from` recorded for the path `p`.
pub open spec fn entry_index(s: Seq<(String, IndexedMetadata)>, p: Seq<char>, from: int) -> Option<int>
    decreases s.len() - from,
{
    if from < 0 || from >= s.len() {
        None
    } else if s[from].0@ == p {
        Some(from)
    } else {
        entry_index(s, p, from + 1)
    }
}

fn find_entry(s: &Vec<(String, IndexedMetadata)>, p: &str) -> (r: Option<usize>)
    ensures
        match r {
            Some(i) => i < s@.len() && entry_index(s@, p@, 0) == Some(i as int),
            None => entry_index(s@, p@, 0) is None,
        },
{
    let mut i: usize = 0;
    while i < s.len()
        invariant
            i <= s@.len(),
            entry_index(s@, p@, 0) == entry_index(s@, p@, i as int),
        decreases s.len() - i,
    {
        if str_eq(s[i].0.as_str(), p) {
            return Some(i);
        }
        i = i + 1;
    }
    None
}

/// Two records of the same metadata.
pub open spec fn same_metadata(a: IndexedMetadata, b: IndexedMetadata) -> bool {
    a.size == b.size && a.modified_at_ns == b.modified_at_ns && a.entry_type@ == b.entry_type@
}

/// `y` is the index `x` after the change of `target`, seen as `seen`, was applied: one
/// generation later and stale, with the entry of `target` refreshed or removed.
pub open spec fn refreshed(x: RootIndex, y: RootIndex, target: Seq<char>, seen: PathObservation) -> bool {
    &&& y.root == x.root
    &&& y.generation == sat_add(x.generation, 1)
    &&& y.freshness == Some(IndexFreshness::Stale)
    &&& y.last_error == x.last_error
    &&& match seen {
        PathObservation::Present(m) => match entry_index(x.entries@, target, 0) {
            Some(k) => {
                &&& y.entries@ == x.entries@.update(k, y.entries@[k])
                &&& y.entries@[k].0@ == target
                &&& same_metadata(y.entries@[k].1, m)
                &&& y.indexed_bytes == sat_add(sat_sub(x.indexed_bytes, x.entries@[k].1.size), m.size)
            },
            None => {
                &&& y.entries@.len() == x.entries@.len() + 1
                &&& y.entries@.drop_last() == x.entries@
                &&& y.entries@.last().0@ == target
                &&& same_metadata(y.entries@.last().1, m)
                &&& y.indexed_bytes == sat_add(x.indexed_bytes, m.size)
            },
        },
        PathObservation::Missing => match entry_index(x.entries@, target, 0) {
            Some(k) => y.entries@ == x.entries@.remove(k) && y.indexed_bytes == sat_sub(x.indexed_bytes, x.entries@[k].1.size),
            None => y.entries == x.entries && y.indexed_bytes == x.indexed_bytes,
        },
        PathObservation::Unreadable => y.entries == x.entries && y.indexed_bytes == x.indexed_bytes,
    }
}

fn copy_metadata(m: &IndexedMetadata) -> (r: IndexedMetadata)
    ensures
        same_metadata(r, *m),
{
    IndexedMetadata { size: m.size, modified_at_ns: m.modified_at_ns, entry_type: m.entry_type.clone() }
}

/// Applies the change of `target` to one root's index.
fn refresh(x: &mut RootIndex, target: &str, seen: &PathObservation)
    ensures
        refreshed(*old(x), *final(x), target@, *seen),
{
    x.generation = x.generation.saturating_add(1);
    x.freshness = Some(IndexFreshness::Stale);
    match seen {
        PathObservation::Present(m) => {
            match find_entry(&x.entries, target) {
                Some(k) => {
                    let old_size = x.entries[k].1.size;
                    x.indexed_bytes = x.indexed_bytes.saturating_sub(old_size).saturating_add(m.size);
                    x.entries.set(k, (target.to_owned(), copy_metadata(m)));
                },
                None => {
                    x.indexed_bytes = x.indexed_bytes.saturating_add(m.size);
                    let ghost before = x.entries@;
                    x.entries.push((target.to_owned(), copy_metadata(m)));
                    assert(x.entries@.drop_last() =~= before);
                },
            }
        },
        PathObservation::Missing => {
            match find_entry(&x.entries, target) {
                Some(k) => {
                    let removed = x.entries.remove(k);
                    x.indexed_bytes = x.indexed_bytes.saturating_sub(removed.1.size);
                },
                None => {},
            }
        },
        PathObservation::Unreadable => {},
    }
}

/// Which name of a changed path an index root sees it under: its canonical form if that
/// lies within the root (`Some(true)`), else the path as given (`Some(false)`), else none.
pub open spec fn stale_target(root: Seq<char>, normalized: Seq<char>, path: Seq<char>) -> Option<bool> {
    if path_within(normalized, root) {
        Some(true)
    } else if path_within(path, root) {
        Some(false)
    } else {
        None
    }
}

impl RepositoryIndex {
    /// Records a change of `path` (canonical form `normalized`) seen by a watcher or made by
    /// a mutation, with what the filesystem now reports under each name. Every index whose
    /// root contains the path is refreshed at that entry and becomes stale: one event cannot
    /// show that no other change was missed.
    pub fn mark_stale(&mut self, normalized: &str, path: &str, normalized_seen: &PathObservation, path_seen: &PathObservation)
        ensures
            final(self).roots@.len() == old(self).roots@.len(),
            forall|k: int| 0 <= k < old(self).roots@.len() ==> match #[trigger] stale_target(old(self).roots@[k].root@, normalized@, path@) {
                None => final(self).roots@[k] == old(self).roots@[k],
                Some(true) => refreshed(old(self).roots@[k], final(self).roots@[k], normalized@, *normalized_seen),
                Some(false) => refreshed(old(self).roots@[k], final(self).roots@[k], path@, *path_seen),
            },
    {
        let ghost before = self.roots@;
        let mut r: usize = 0;
        while r < self.roots.len()
            invariant
                self.roots@.len() == before.len(),
                r <= before.len(),
                forall|k: int| r <= k < before.len() ==> self.roots@[k] == before[k],
                forall|k: int| 0 <= k < r ==> match #[trigger] stale_target(before[k].root@, normalized@, path@) {
                    None => self.roots@[k] == before[k],
                    Some(true) => refreshed(before[k], self.roots@[k], normalized@, *normalized_seen),
                    Some(false) => refreshed(before[k], self.roots@[k], path@, *path_seen),
                },
            decreases before.len() - r,
        {
            let in_normalized = within(normalized, self.roots[r].root.as_str());
            let in_path = within(path, self.roots[r].root.as_str());
            let ghost current = self.roots@;
            if in_normalized {
                refresh(&mut self.roots[r], normalized, normalized_seen);
            } else if in_path {
                refresh(&mut self.roots[r], path, path_seen);
            }
            proof {
                assert forall|k: int| 0 <= k < self.roots@.len() && k != r implies self.roots@[k] == current[k] by {}
            }
            r = r + 1;
        }
    }
}

/// Among the first `n` indexed roots, the deepest one that contains `p` (the last of
/// equally deep ones).
pub open spec fn deepest_root(s: Seq<RootIndex>, p: Seq<char>, n: int) -> Option<int>
    decreases n,
{
    if n <= 0 {
        None
    } else {
        let b = deepest_root(s, p, n - 1);
        if path_within(p, s[n - 1].root@) && (match b {
            None => true,
            Some(j) => s[n - 1].root@.len() >= s[j].root@.len(),
        }) {
            Some(n - 1)
        } else {
            b
        }
    }
}

impl RepositoryIndex {
    /// The entry of `path` in the index of the deepest root that contains it, when that
    /// index is fresh: its root, its generation and the indexed metadata.
    pub fn fresh_entry(&self, path: &str) -> (r: Option<(String, u64, IndexedMetadata)>)
        ensures
            match deepest_root(self.roots@, path@, self.roots@.len() as int) {
                None => r is None,
                Some(i) => {
                    let x = self.roots@[i];
                    if x.freshness != Some(IndexFreshness::Fresh) {
                        r is None
                    } else {
                        match entry_index(x.entries@, path@, 0) {
                            None => r is None,
                            Some(k) => r matches Some((root, g, m)) && root@ == x.root@ && g == x.generation
                                && same_metadata(m, x.entries@[k].1),
                        }
                    }
                },
            },
    {
        let mut best: Option<usize> = None;
        let mut i: usize = 0;
        while i < self.roots.len()
            invariant
                i <= self.roots@.len(),
                match best {
                    None => deepest_root(self.roots@, path@, i as int) is None,
                    Some(b) => deepest_root(self.roots@, path@, i as int) == Some(b as int) && b < i,
                },
            decreases self.roots.len() - i,
        {
            if within(path, self.roots[i].root.as_str()) {
                let deeper = match best {
                    None => true,
                    Some(b) => self.roots[i].root.unicode_len() >= self.roots[b].root.unicode_len(),
                };
                if deeper {
                    best = Some(i);
                }
            }
            i = i + 1;
        }
        let b = match best {
            None => return None,
            Some(b) => b,
        };
        let x = &self.roots[b];
        if x.freshness != Some(IndexFreshness::Fresh) {
            return None;
        }
        match find_entry(&x.entries, path) {
            None => None,
            Some(k) => Some((x.root.clone(), x.generation, copy_metadata(&x.entries[k].1))),
        }
    }
}

/// The live metadata of an indexed path still matches the index: same size, same
/// modification time, same kind of entry. A path that is gone does not match.
pub fn candidate_is_current(indexed: &IndexedMetadata, live: Option<&IndexedMetadata>) -> (r: bool)
    ensures
        r == match live {
            None => false,
            Some(m) => same_metadata(*indexed, *m),
        },
{
    match live {
        None => false,
        Some(m) => m.size == indexed.size && m.modified_at_ns == indexed.modified_at_ns
            && str_eq(m.entry_type.as_str(), indexed.entry_type.as_str()),
    }
}

pub const MAX_CRAWL_ENTRIES: usize = 1000000;

/// The entries a crawl of a root found so far, and their bytes.
#[derive(Debug)]
pub struct IndexCrawl {
    pub entries: Vec<(String, IndexedMetadata)>,
    pub indexed_bytes: u64,
}

impl IndexCrawl {
    /// Nothing found yet.
    pub fn new() -> (c: Self)
        ensures
            c.entries@.len() == 0,
            c.indexed_bytes == 0,
    {
        IndexCrawl { entries: Vec::new(), indexed_bytes: 0 }
    }

    /// Records the entry found at `path`; a cancelled crawl or one that already holds a
    /// million entries stops. A path found again replaces its record.
    pub fn add(&mut self, path: String, metadata: IndexedMetadata, cancelled: bool) -> (r: RuntimeResult<()>)
        ensures
            cancelled ==> (r matches Err(e) && e.code@ == "operationCancelled"@) && final(self).entries == old(self).entries
                && final(self).indexed_bytes == old(self).indexed_bytes,
            !cancelled && old(self).entries@.len() >= MAX_CRAWL_ENTRIES ==> (r matches Err(e) && e.code@ == "index_entry_limit"@)
                && final(self).entries == old(self).entries && final(self).indexed_bytes == old(self).indexed_bytes,
            !cancelled && old(self).entries@.len() < MAX_CRAWL_ENTRIES ==> r is Ok
                && final(self).indexed_bytes == sat_add(old(self).indexed_bytes, metadata.size)
                && entries_view(final(self).entries@) == put_item(entries_view(old(self).entries@), entry_view((path, metadata))),
    {
        if cancelled {
            return Err(RuntimeError::new("operationCancelled", "repository index rebuild was cancelled"));
        }
        if self.entries.len() >= MAX_CRAWL_ENTRIES {
            return Err(RuntimeError::new("index_entry_limit", "repository index rebuild exceeded 1,000,000 entries"));
        }
        self.indexed_bytes = self.indexed_bytes.saturating_add(metadata.size);
        let ghost before = self.entries@;
        let ghost item = entry_view((path, metadata));
        proof {
            lemma_entry_index_view(before, path@, 0);
        }
        match find_entry(&self.entries, path.as_str()) {
            Some(k) => {
                self.entries.set(k, (path, metadata));
                assert(entries_view(self.entries@) =~= entries_view(before).update(k as int, item));
            },
            None => {
                self.entries.push((path, metadata));
                assert(entries_view(self.entries@) =~= entries_view(before).push(item));
            },
        }
        Ok(())
    }
}

/// The entries of `s` within `p`, in order.
pub open spec fn entries_within(s: Seq<(String, IndexedMetadata)>, p: Seq<char>) -> Seq<(String, IndexedMetadata)>
    decreases s.len(),
{
    if s.len() == 0 {
        Seq::empty()
    } else {
        let rest = entries_within(s.drop_last(), p);
        if path_within(s.last().0@, p) { rest.push(s.last()) } else { rest }
    }
}

impl RepositoryIndex {
    /// The entries within `path` of the index of the deepest root that contains it, with
    /// its generation, when that index is fresh.
    pub fn fresh_candidates(&self, path: &str) -> (r: Option<(u64, Vec<(String, IndexedMetadata)>)>)
        ensures
            match deepest_root(self.roots@, path@, self.roots@.len() as int) {
                None => r is None,
                Some(i) => {
                    let x = self.roots@[i];
                    if x.freshness != Some(IndexFreshness::Fresh) {
                        r is None
                    } else {
                        r matches Some((g, v)) && g == x.generation
                            && entries_view(v@) == entries_view(entries_within(x.entries@, path@))
                    }
                },
            },
    {
        let mut best: Option<usize> = None;
        let mut i: usize = 0;
        while i < self.roots.len()
            invariant
                i <= self.roots@.len(),
                match best {
                    None => deepest_root(self.roots@, path@, i as int) is None,
                    Some(b) => deepest_root(self.roots@, path@, i as int) == Some(b as int) && b < i,
                },
            decreases self.roots.len() - i,
        {
            if within(path, self.roots[i].root.as_str()) {
                let deeper = match best {
                    None => true,
                    Some(b) => self.roots[i].root.unicode_len() >= self.roots[b].root.unicode_len(),
                };
                if deeper {
                    best = Some(i);
                }
            }
            i = i + 1;
        }
        let b = match best {
            None => return None,
            Some(b) => b,
        };
        let x = &self.roots[b];
        if x.freshness != Some(IndexFreshness::Fresh) {
            return None;
        }
        let mut out: Vec<(String, IndexedMetadata)> = Vec::new();
        let mut k: usize = 0;
        while k < x.entries.len()
            invariant
                k <= x.entries@.len(),
                entries_view(out@) == entries_view(entries_within(x.entries@.subrange(0, k as int), path@)),
            decreases x.entries.len() - k,
        {
            let ghost pre = x.entries@.subrange(0, k as int);
            let ghost next = x.entries@.subrange(0, k + 1);
            assert(next.drop_last() =~= pre);
            if within(x.entries[k].0.as_str(), path) {
                let item = (x.entries[k].0.clone(), copy_metadata(&x.entries[k].1));
                let ghost before = out@;
                out.push(item);
                assert(entries_view(out@) =~= entries_view(before).push(entry_view(x.entries@[k as int])));
                assert(entries_view(entries_within(next, path@)) =~= entries_view(entries_within(pre, path@)).push(entry_view(x.entries@[k as int])));
            }
            k = k + 1;
        }
        assert(x.entries@.subrange(0, x.entries@.len() as int) =~= x.entries@);
        Some((x.generation, out))
    }
}

} // verus!
