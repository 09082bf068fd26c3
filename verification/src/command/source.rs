//! The source-state snapshot of a command's working directory: which directories it
//! leaves out, the digest of the entries found below it, and the state reported when no
//! complete snapshot could be taken.

use vstd::prelude::*;
use vstd::utf8::encode_utf8;
use super::CommandSourceState;
use crate::budget::sat_add;
use crate::context::opt_view;
use crate::digest::{sha256_hex, spec_sha256_hex};
use crate::text::{chars_of, concat_str, str_eq, string_from_chars};
use crate::workspace::legacy_list::{chars_less, chars_lt, lemma_chars_lt_irreflexive, lemma_chars_lt_total, lemma_chars_lt_transitive};
use crate::workspace::replace::{replace_all, replace_from};

verus! {

/// The directories a snapshot leaves out, by name.
pub open spec fn excluded_names() -> Seq<Seq<char>> {
    seq![".git"@, ".hg"@, ".svn"@, "target"@, "node_modules"@, ".next"@, ".cache"@,
        ".test-command-artifacts"@, "command-artifacts-v1"@, "dist"@, "build"@, "out"@]
}

/// The names of the directories a snapshot leaves out, in their documented order.
pub fn excluded_directories() -> (r: Vec<String>)
    ensures
        r@.map_values(|s: String| s@) == excluded_names(),
{
    let mut r: Vec<String> = Vec::new();
    r.push(".git".to_owned());
    r.push(".hg".to_owned());
    r.push(".svn".to_owned());
    r.push("target".to_owned());
    r.push("node_modules".to_owned());
    r.push(".next".to_owned());
    r.push(".cache".to_owned());
    r.push(".test-command-artifacts".to_owned());
    r.push("command-artifacts-v1".to_owned());
    r.push("dist".to_owned());
    r.push("build".to_owned());
    r.push("out".to_owned());
    assert(r@.map_values(|s: String| s@) =~= excluded_names());
    r
}

/// A directory a snapshot does not descend into: one other than the root whose name is
/// excluded.
pub open spec fn excluded_directory(is_root: bool, is_dir: bool, name: Seq<char>) -> bool {
    !is_root && is_dir && excluded_names().contains(name)
}

/// Decides whether a snapshot skips a directory entry.
pub fn is_excluded_directory(is_root: bool, is_dir: bool, name: &str) -> (r: bool)
    ensures
        r == excluded_directory(is_root, is_dir, name@),
{
    if is_root || !is_dir {
        return false;
    }
    let names = excluded_directories();
    assert(names@.map_values(|s: String| s@).len() == names@.len());
    let mut i: usize = 0;
    while i < names.len()
        invariant
            names@.map_values(|s: String| s@) == excluded_names(),
            names@.len() == excluded_names().len(),
            !is_root && is_dir,
            i <= names@.len(),
            forall|k: int| 0 <= k < i ==> excluded_names()[k] != name@,
        decreases names.len() - i,
    {
        assert(names@.map_values(|s: String| s@)[i as int] == names@[i as int]@);
        if str_eq(names[i].as_str(), name) {
            assert(excluded_names()[i as int] == name@);
            assert(0 <= i < excluded_names().len());
            assert(excluded_names().contains(name@));
            return true;
        }
        i = i + 1;
    }
    proof {
        if excluded_names().contains(name@) {
            let k = choose|k: int| 0 <= k < excluded_names().len() && excluded_names()[k] == name@;
            assert(excluded_names()[k] != name@);
        }
    }
    false
}

/// The state reported when the snapshot of `root` could not be completed: a digest of the
/// root's path alone, nothing scanned, and the reason.
pub fn incomplete_state(root: &str, limitation: &str) -> (s: CommandSourceState)
    ensures
        s.schema_version == 1,
        s.algorithm@ == "sha256"@,
        s.digest@ == "sha256:"@ + spec_sha256_hex(encode_utf8(root@)),
        s.scope@ == "cwdSourceInputsV1"@,
        s.files_scanned == 0,
        s.bytes_hashed == 0,
        !s.complete,
        s.limitation matches Some(l) && l@ == limitation@,
        s.excluded_directories@.map_values(|d: String| d@) == excluded_names(),
{
    let hex = sha256_hex(root.as_bytes());
    CommandSourceState {
        schema_version: 1,
        algorithm: "sha256".to_owned(),
        digest: concat_str("sha256:", hex.as_str()),
        scope: "cwdSourceInputsV1".to_owned(),
        files_scanned: 0,
        bytes_hashed: 0,
        complete: false,
        limitation: Some(limitation.to_owned()),
        excluded_directories: excluded_directories(),
    }
}


/// At most this many files are hashed.
pub const MAX_SOURCE_FILES: u64 = 50000;
/// At most this many bytes are hashed.
pub const MAX_SOURCE_BYTES: u64 = 268435456;

/// Why a source file's contents could not be hashed completely.
#[derive(Debug, Clone, Copy, PartialEq, Eq, Structural)]
pub enum SourceReadFailure {
    /// The file could not be opened (nothing of it was read).
    Open,
    /// Reading failed part-way (what was read before is hashed).
    Read,
    /// Its metadata could not be read again after reading.
    Vanished,
    /// Its size or modification time changed while it was read.
    Changed,
}

/// What an entry found below the root is, as the walk saw it.
#[derive(Debug, Clone)]
pub enum SourceKind {
    /// Its metadata could not be read (it changed or vanished during the walk).
    Unreadable,
    Directory,
    /// A symbolic link, with its target when the link could be read.
    Symlink { target: Option<String> },
    /// Neither a file, a directory nor a link.
    Special,
    /// A regular file: its size when first seen, the bytes read from it, and why reading
    /// stopped early, if it did.
    File { size: u64, content: Vec<u8>, failure: Option<SourceReadFailure> },
}

/// An entry below the root: its path relative to the root, and what it is.
#[derive(Debug, Clone)]
pub struct SourceEntry {
    pub relative: String,
    pub kind: SourceKind,
}

/// The path of an entry as the snapshot names and orders it: backslashes become slashes.
pub open spec fn snapshot_key(e: SourceEntry) -> Seq<char> {
    replace_from(e.relative@, seq!['\\'], seq!['/'], 0)
}

/// The reason recorded for a read failure.
pub open spec fn read_failure_message(f: SourceReadFailure) -> Seq<char> {
    match f {
        SourceReadFailure::Open => "a source file could not be opened"@,
        SourceReadFailure::Read => "a source file could not be read"@,
        SourceReadFailure::Vanished => "a source file changed or disappeared during snapshot"@,
        SourceReadFailure::Changed => "a source file changed while its snapshot was being captured"@,
    }
}

/// The bytes of a marker followed by a zero byte.
pub open spec fn tagged(t: Seq<char>) -> Seq<u8> {
    encode_utf8(t) + seq![0u8]
}

/// What the snapshot has taken so far: the bytes digested, the files counted, the bytes of
/// file contents hashed, and the limitation met, if any (after which nothing more is taken).
pub type SnapshotModel = (Seq<u8>, int, u64, Option<Seq<char>>);

/// The snapshot after one more entry, in path order. Directories add nothing. Any other
/// entry is counted; past the file-count budget the snapshot stops. Otherwise its path
/// and a zero byte are digested, then: a link digests `symlink`, its target, and stops the
/// snapshot (its target lies outside it); a special file digests `special` and stops it; a
/// file that would pass the byte budget stops it; a file digests `file` and its contents.
pub open spec fn snapshot_step(m: SnapshotModel, e: SourceEntry) -> SnapshotModel {
    let (input, files, bytes, limitation) = m;
    if limitation is Some {
        m
    } else {
        match e.kind {
            SourceKind::Unreadable => (input, files, bytes, Some("source metadata changed or became unreadable during snapshot"@)),
            SourceKind::Directory => m,
            _ => if files + 1 > MAX_SOURCE_FILES {
                (input, files + 1, bytes, Some("source snapshot exceeded the file-count budget"@))
            } else {
                let named = input + encode_utf8(snapshot_key(e)) + seq![0u8];
                match e.kind {
                    SourceKind::Symlink { target: Some(t) } => (named + tagged("symlink"@) + encode_utf8(t@), files + 1, bytes,
                        Some("source scope contains a symlink whose target content is outside the snapshot"@)),
                    SourceKind::Symlink { target: None } => (named + tagged("symlink"@), files + 1, bytes,
                        Some("a source symlink could not be read"@)),
                    SourceKind::Special => (named + tagged("special"@), files + 1, bytes,
                        Some("source scope contains an unsupported special file"@)),
                    SourceKind::File { size, content, failure } => if sat_add(bytes, size) > MAX_SOURCE_BYTES {
                        (named, files + 1, bytes, Some("source snapshot exceeded the byte budget"@))
                    } else {
                        (named + tagged("file"@) + content@, files + 1, sat_add(bytes, content@.len() as u64),
                            match failure { Some(f) => Some(read_failure_message(f)), None => None })
                    },
                    _ => m,
                }
            },
        }
    }
}

/// The snapshot after the entries of `s`, in order.
pub open spec fn snapshot_run(m: SnapshotModel, s: Seq<SourceEntry>) -> SnapshotModel
    decreases s.len(),
{
    if s.len() == 0 {
        m
    } else {
        snapshot_step(snapshot_run(m, s.drop_last()), s.last())
    }
}

/// Inserts index `i` into an order of indices, after every index whose key is not greater.
pub open spec fn order_insert(keys: Seq<Seq<char>>, s: Seq<int>, i: int) -> Seq<int>
    decreases s.len(),
{
    if s.len() == 0 {
        seq![i]
    } else if chars_lt(keys[i], keys[s[0]]) {
        seq![i] + s
    } else {
        seq![s[0]] + order_insert(keys, s.drop_first(), i)
    }
}

/// The indices `0..n` ordered by their keys (character by character), equal keys in
/// their original order.
pub open spec fn sorted_order(keys: Seq<Seq<char>>, n: int) -> Seq<int>
    decreases n,
{
    if n <= 0 {
        Seq::empty()
    } else {
        order_insert(keys, sorted_order(keys, n - 1), n - 1)
    }
}

/// The keys of a list of entries.
pub open spec fn snapshot_keys(entries: Seq<SourceEntry>) -> Seq<Seq<char>> {
    Seq::new(entries.len(), |k: int| snapshot_key(entries[k]))
}

/// The entries in path order.
pub open spec fn in_path_order(entries: Seq<SourceEntry>) -> Seq<SourceEntry> {
    let order = sorted_order(snapshot_keys(entries), entries.len() as int);
    Seq::new(order.len(), |k: int| entries[order[k]])
}

/// The limitation met while walking: too many paths, or paths that could not be listed.
pub open spec fn walk_limitation(paths: int, enumeration_failed: bool) -> Option<Seq<char>> {
    if paths > MAX_SOURCE_FILES {
        Some("source snapshot exceeded the file-count budget"@)
    } else if enumeration_failed {
        Some("one or more source paths could not be enumerated"@)
    } else {
        None
    }
}

/// The snapshot of a walk: it starts from a version marker and the walk's limitation, and
/// takes the entries in path order.
pub open spec fn source_snapshot(entries: Seq<SourceEntry>, enumeration_failed: bool) -> SnapshotModel {
    snapshot_run((tagged("chatcmd-source-state-v1"@), 0, 0u64, walk_limitation(entries.len() as int, enumeration_failed)), in_path_order(entries))
}

/// Whether a walk should stop: it has gathered more paths than the file budget allows.
pub fn walk_exceeded(paths: usize) -> (r: bool)
    ensures
        r == (paths as int > MAX_SOURCE_FILES),
{
    paths as u64 > MAX_SOURCE_FILES
}

/// Inserting at the first index whose key is greater is what `order_insert` does.
proof fn lemma_order_insert_at(keys: Seq<Seq<char>>, s: Seq<int>, i: int, p: int)
    requires
        0 <= p <= s.len(),
        forall|j: int| 0 <= j < p ==> !chars_lt(keys[i], #[trigger] keys[s[j]]),
        p < s.len() ==> chars_lt(keys[i], keys[s[p]]),
    ensures
        order_insert(keys, s, i) == s.subrange(0, p) + seq![i] + s.subrange(p, s.len() as int),
    decreases p,
{
    if s.len() == 0 {
        assert(seq![i] =~= s.subrange(0, p) + seq![i] + s.subrange(p, s.len() as int));
    } else if p == 0 {
        assert(seq![i] + s =~= s.subrange(0, p) + seq![i] + s.subrange(p, s.len() as int));
    } else {
        assert(!chars_lt(keys[i], keys[s[0]]));
        let t = s.drop_first();
        assert forall|j: int| 0 <= j < p - 1 implies !chars_lt(keys[i], #[trigger] keys[t[j]]) by {
            assert(t[j] == s[j + 1]);
        }
        lemma_order_insert_at(keys, t, i, p - 1);
        assert(seq![s[0]] + (t.subrange(0, p - 1) + seq![i] + t.subrange(p - 1, t.len() as int))
            =~= s.subrange(0, p) + seq![i] + s.subrange(p, s.len() as int));
    }
}

/// Keys along a sorted order never decrease, so "greater than `k`" holds from some point on.
proof fn lemma_sorted_greater_onward(keys: Seq<Seq<char>>, s: Seq<int>, k: Seq<char>, a: int, b: int)
    requires
        0 <= a <= b < s.len(),
        forall|x: int, y: int| 0 <= x < y < s.len() ==> !chars_lt(#[trigger] keys[s[y]], #[trigger] keys[s[x]]),
        chars_lt(k, keys[s[a]]),
    ensures
        chars_lt(k, keys[s[b]]),
{
    if a < b {
        lemma_chars_lt_total(keys[s[a]], keys[s[b]]);
        if keys[s[a]] != keys[s[b]] {
            lemma_chars_lt_transitive(k, keys[s[a]], keys[s[b]]);
        }
    }
}

/// The character sequences of a list of keys.
pub open spec fn keys_view(keys: Seq<Vec<char>>) -> Seq<Seq<char>> {
    Seq::new(keys.len(), |k: int| keys[k]@)
}

/// The indices `0..keys.len()` in path order (`sorted_order`).
fn path_order(keys: &Vec<Vec<char>>) -> (r: Vec<usize>)
    ensures
        r@.len() == keys@.len(),
        forall|k: int| 0 <= k < r@.len() ==> #[trigger] r@[k] as int == sorted_order(keys_view(keys@), keys@.len() as int)[k],
        forall|k: int| 0 <= k < r@.len() ==> r@[k] < keys@.len(),
        sorted_order(keys_view(keys@), keys@.len() as int).len() == keys@.len(),
{
    let ghost ks = keys_view(keys@);
    let n = keys.len();
    let mut out: Vec<usize> = Vec::new();
    let mut i: usize = 0;
    while i < n
        invariant
            n == keys@.len(),
            ks == keys_view(keys@),
            i <= n,
            out@.len() == i,
            forall|k: int| 0 <= k < out@.len() ==> out@[k] as int == #[trigger] sorted_order(ks, i as int)[k],
            sorted_order(ks, i as int).len() == i,
            forall|k: int| 0 <= k < out@.len() ==> out@[k] < i,
            forall|x: int, y: int| 0 <= x < y < out@.len() ==> !chars_lt(#[trigger] ks[out@[y] as int], #[trigger] ks[out@[x] as int]),
        decreases n - i,
    {
        let ghost so = sorted_order(ks, i as int);
        let ghost e = ks[i as int];
        assert(ks[i as int] == keys@[i as int]@);
        let mut lo: usize = 0;
        let mut hi: usize = out.len();
        while lo < hi
            invariant
                n == keys@.len(),
                ks == keys_view(keys@),
                i < n,
                e == ks[i as int],
                lo <= hi <= out@.len(),
                forall|k: int| 0 <= k < out@.len() ==> out@[k] < i,
                forall|x: int, y: int| 0 <= x < y < out@.len() ==> !chars_lt(#[trigger] ks[out@[y] as int], #[trigger] ks[out@[x] as int]),
                forall|j: int| 0 <= j < lo ==> !chars_lt(e, #[trigger] ks[out@[j] as int]),
                forall|j: int| hi <= j < out@.len() ==> chars_lt(e, #[trigger] ks[out@[j] as int]),
            decreases hi - lo,
        {
            let mid = lo + (hi - lo) / 2;
            let m = out[mid];
            assert(ks[m as int] == keys@[m as int]@);
            if chars_less(keys[i].as_slice(), keys[m].as_slice()) {
                proof {
                    assert forall|j: int| mid <= j < out@.len() implies chars_lt(e, #[trigger] ks[out@[j] as int]) by {
                        let ghost sv = Seq::new(out@.len(), |q: int| out@[q] as int);
                        assert forall|x: int, y: int| 0 <= x < y < sv.len() implies !chars_lt(#[trigger] ks[sv[y]], #[trigger] ks[sv[x]]) by {
                            assert(!chars_lt(ks[out@[y] as int], ks[out@[x] as int]));
                        }
                        lemma_sorted_greater_onward(ks, sv, e, mid as int, j);
                    }
                }
                hi = mid;
            } else {
                proof {
                    assert forall|j: int| 0 <= j < mid + 1 implies !chars_lt(e, #[trigger] ks[out@[j] as int]) by {
                        if j >= lo && j < mid && chars_lt(e, ks[out@[j] as int]) {
                            let ghost sv = Seq::new(out@.len(), |q: int| out@[q] as int);
                            assert forall|x: int, y: int| 0 <= x < y < sv.len() implies !chars_lt(#[trigger] ks[sv[y]], #[trigger] ks[sv[x]]) by {
                                assert(!chars_lt(ks[out@[y] as int], ks[out@[x] as int]));
                            }
                            lemma_sorted_greater_onward(ks, sv, e, j, mid as int);
                        }
                    }
                }
                lo = mid + 1;
            }
        }
        let ghost before = out@;
        proof {
            let sv = Seq::new(before.len(), |q: int| before[q] as int);
            assert(sv =~= so);
            assert forall|j: int| 0 <= j < lo implies !chars_lt(ks[i as int], #[trigger] ks[sv[j]]) by {
                assert(!chars_lt(e, ks[before[j] as int]));
            }
            if lo < sv.len() {
                assert(chars_lt(e, ks[before[lo as int] as int]));
            }
            lemma_order_insert_at(ks, sv, i as int, lo as int);
            assert(sorted_order(ks, i + 1) == order_insert(ks, so, i as int));
        }
        out.insert(lo, i);
        proof {
            let sv = Seq::new(before.len(), |q: int| before[q] as int);
            assert(sorted_order(ks, i + 1) == sv.subrange(0, lo as int) + seq![i as int] + sv.subrange(lo as int, sv.len() as int));
            assert forall|k: int| 0 <= k < out@.len() implies out@[k] as int == #[trigger] sorted_order(ks, i + 1)[k] by {
                if k < lo {
                    assert(out@[k] == before[k]);
                } else if k > lo {
                    assert(out@[k] == before[k - 1]);
                }
            }
            assert forall|x: int, y: int| 0 <= x < y < out@.len() implies !chars_lt(#[trigger] ks[out@[y] as int], #[trigger] ks[out@[x] as int]) by {
                let l = lo as int;
                if x < l && y < l {
                    assert(out@[x] == before[x] && out@[y] == before[y]);
                } else if x < l && y == l {
                    assert(out@[x] == before[x]);
                } else if x < l && y > l {
                    assert(out@[x] == before[x] && out@[y] == before[y - 1]);
                } else if x == l {
                    assert(out@[y] == before[y - 1]);
                    assert(chars_lt(e, ks[before[y - 1] as int]));
                    if chars_lt(ks[before[y - 1] as int], e) {
                        lemma_chars_lt_transitive(e, ks[before[y - 1] as int], e);
                        lemma_chars_lt_irreflexive(e);
                    }
                } else {
                    assert(out@[x] == before[x - 1] && out@[y] == before[y - 1]);
                }
            }
        }
        i = i + 1;
    }
    out
}

/// Appends bytes to a buffer.
fn push_bytes(out: &mut Vec<u8>, b: &[u8])
    ensures
        final(out)@ == old(out)@ + b@,
{
    let ghost start = out@;
    let mut j: usize = 0;
    while j < b.len()
        invariant
            j <= b@.len(),
            out@ == start + b@.subrange(0, j as int),
        decreases b.len() - j,
    {
        out.push(b[j]);
        j = j + 1;
        assert(b@.subrange(0, j as int) =~= b@.subrange(0, j - 1).push(b@[j - 1]));
    }
    assert(b@.subrange(0, b@.len() as int) =~= b@);
}

/// Appends the bytes of a marker and a zero byte.
fn push_tag(out: &mut Vec<u8>, t: &str)
    ensures
        final(out)@ == old(out)@ + tagged(t@),
{
    push_bytes(out, t.as_bytes());
    out.push(0u8);
    assert(final(out)@ =~= old(out)@ + tagged(t@)) by {
    }
}

fn read_failure_text(f: SourceReadFailure) -> (r: String)
    ensures
        r@ == read_failure_message(f),
{
    match f {
        SourceReadFailure::Open => "a source file could not be opened".to_owned(),
        SourceReadFailure::Read => "a source file could not be read".to_owned(),
        SourceReadFailure::Vanished => "a source file changed or disappeared during snapshot".to_owned(),
        SourceReadFailure::Changed => "a source file changed while its snapshot was being captured".to_owned(),
    }
}

/// The bounds the snapshot's counters keep.
pub open spec fn counters_ok(files: u64, limitation: Option<Seq<char>>) -> bool {
    files <= MAX_SOURCE_FILES + 1 && (limitation is None ==> files <= MAX_SOURCE_FILES)
}

/// Takes one more entry into the snapshot (`snapshot_step`).
fn take_entry(input: &mut Vec<u8>, files: &mut u64, bytes: &mut u64, limitation: &mut Option<String>, key: &Vec<char>, e: &SourceEntry)
    requires
        counters_ok(*old(files), opt_view(*old(limitation))),
        key@ == snapshot_key(*e),
    ensures
        counters_ok(*final(files), opt_view(*final(limitation))),
        (final(input)@, *final(files) as int, *final(bytes), opt_view(*final(limitation)))
            == snapshot_step((old(input)@, *old(files) as int, *old(bytes), opt_view(*old(limitation))), *e),
{
    if limitation.is_some() {
        return;
    }
    match &e.kind {
        SourceKind::Unreadable => {
            *limitation = Some("source metadata changed or became unreadable during snapshot".to_owned());
            return;
        },
        SourceKind::Directory => {
            return;
        },
        _ => {},
    }
    *files = *files + 1;
    if *files > MAX_SOURCE_FILES {
        *limitation = Some("source snapshot exceeded the file-count budget".to_owned());
        return;
    }
    let name = string_from_chars(key.as_slice());
    push_bytes(input, name.as_str().as_bytes());
    input.push(0u8);
    match &e.kind {
        SourceKind::Symlink { target } => {
            push_tag(input, "symlink");
            match target {
                Some(t) => {
                    push_bytes(input, t.as_str().as_bytes());
                    *limitation = Some("source scope contains a symlink whose target content is outside the snapshot".to_owned());
                },
                None => {
                    *limitation = Some("a source symlink could not be read".to_owned());
                },
            }
        },
        SourceKind::Special => {
            push_tag(input, "special");
            *limitation = Some("source scope contains an unsupported special file".to_owned());
        },
        SourceKind::File { size, content, failure } => {
            if bytes.saturating_add(*size) > MAX_SOURCE_BYTES {
                *limitation = Some("source snapshot exceeded the byte budget".to_owned());
                return;
            }
            push_tag(input, "file");
            push_bytes(input, content.as_slice());
            *bytes = bytes.saturating_add(content.len() as u64);
            match failure {
                Some(f) => {
                    *limitation = Some(read_failure_text(*f));
                },
                None => {},
            }
        },
        _ => {},
    }
}

/// The order in which a snapshot takes the entries of a walk: by path, character by
/// character, equal paths in the order found.
pub fn source_order(entries: &Vec<SourceEntry>) -> (r: Vec<usize>)
    ensures
        r@.len() == entries@.len(),
        sorted_order(snapshot_keys(entries@), entries@.len() as int).len() == entries@.len(),
        forall|k: int| 0 <= k < r@.len() ==> #[trigger] r@[k] as int == sorted_order(snapshot_keys(entries@), entries@.len() as int)[k],
        forall|k: int| 0 <= k < r@.len() ==> r@[k] < entries@.len(),
{
    let n = entries.len();
    let mut keys: Vec<Vec<char>> = Vec::new();
    let slash: Vec<char> = vec!['/'];
    let backslash: Vec<char> = vec!['\\'];
    assert(slash@ =~= seq!['/']);
    assert(backslash@ =~= seq!['\\']);
    let mut i: usize = 0;
    while i < n
        invariant
            n == entries@.len(),
            slash@ == seq!['/'],
            backslash@ == seq!['\\'],
            i <= n,
            keys@.len() == i,
            forall|k: int| 0 <= k < i ==> (#[trigger] keys@[k])@ == snapshot_key(entries@[k]),
        decreases n - i,
    {
        let rel = chars_of(entries[i].relative.as_str());
        keys.push(replace_all(rel.as_slice(), backslash.as_slice(), slash.as_slice()));
        i = i + 1;
    }
    assert(keys_view(keys@) =~= snapshot_keys(entries@));
    path_order(&keys)
}

/// The key of one entry.
fn entry_key(e: &SourceEntry) -> (k: Vec<char>)
    ensures
        k@ == snapshot_key(*e),
{
    let slash: Vec<char> = vec!['/'];
    let backslash: Vec<char> = vec!['\\'];
    assert(slash@ =~= seq!['/']);
    assert(backslash@ =~= seq!['\\']);
    let rel = chars_of(e.relative.as_str());
    replace_all(rel.as_slice(), backslash.as_slice(), slash.as_slice())
}

/// A snapshot being taken, one entry at a time in path order.
pub struct SourceSnapshot {
    input: Vec<u8>,
    files: u64,
    bytes: u64,
    limitation: Option<String>,
}

impl SourceSnapshot {
    /// What has been taken so far.
    pub closed spec fn model(&self) -> SnapshotModel {
        (self.input@, self.files as int, self.bytes, opt_view(self.limitation))
    }

    pub closed spec fn wf(&self) -> bool {
        counters_ok(self.files, opt_view(self.limitation))
    }

    /// A snapshot of a walk that found `paths` paths, `enumeration_failed` telling whether
    /// some path could not be listed.
    pub fn start(paths: usize, enumeration_failed: bool) -> (s: Self)
        ensures
            s.wf(),
            s.model() == (tagged("chatcmd-source-state-v1"@), 0int, 0u64, walk_limitation(paths as int, enumeration_failed)),
    {
        let mut input: Vec<u8> = Vec::new();
        push_tag(&mut input, "chatcmd-source-state-v1");
        let limitation = if walk_exceeded(paths) {
            Some("source snapshot exceeded the file-count budget".to_owned())
        } else if enumeration_failed {
            Some("one or more source paths could not be enumerated".to_owned())
        } else {
            None
        };
        SourceSnapshot { input, files: 0, bytes: 0, limitation }
    }

    /// Whether the contents of a file of `size` bytes would be taken next: nothing stopped
    /// the snapshot, and the file fits the file and byte budgets. When they would not be,
    /// a file is taken the same way whatever its contents.
    pub fn wants_contents(&self, size: u64) -> (r: bool)
        requires
            self.wf(),
        ensures
            r == (self.model().3 is None && self.model().1 + 1 <= MAX_SOURCE_FILES && sat_add(self.model().2, size) <= MAX_SOURCE_BYTES),
            !r ==> forall|rel: String, c1: Vec<u8>, f1: Option<SourceReadFailure>, c2: Vec<u8>, f2: Option<SourceReadFailure>|
                #![trigger snapshot_step(self.model(), SourceEntry { relative: rel, kind: SourceKind::File { size, content: c1, failure: f1 } }),
                    snapshot_step(self.model(), SourceEntry { relative: rel, kind: SourceKind::File { size, content: c2, failure: f2 } })]
                snapshot_step(self.model(), SourceEntry { relative: rel, kind: SourceKind::File { size, content: c1, failure: f1 } })
                    == snapshot_step(self.model(), SourceEntry { relative: rel, kind: SourceKind::File { size, content: c2, failure: f2 } }),
    {
        self.limitation.is_none() && self.files < MAX_SOURCE_FILES && self.bytes.saturating_add(size) <= MAX_SOURCE_BYTES
    }

    /// Whether the snapshot has stopped: a limitation was met, after which no entry changes it.
    pub fn stopped(&self) -> (r: bool)
        ensures
            r == (self.model().3 is Some),
            r ==> forall|e: SourceEntry| #[trigger] snapshot_step(self.model(), e) == self.model(),
    {
        self.limitation.is_some()
    }

    /// Takes the next entry (`snapshot_step`).
    pub fn take(&mut self, e: &SourceEntry)
        requires
            old(self).wf(),
        ensures
            final(self).wf(),
            final(self).model() == snapshot_step(old(self).model(), *e),
    {
        let key = entry_key(e);
        take_entry(&mut self.input, &mut self.files, &mut self.bytes, &mut self.limitation, &key, e);
    }

    /// The state the snapshot reports: the digest of its bytes, the files counted, the
    /// content bytes hashed, and the limitation met, if any (the state is then incomplete).
    pub fn finish(self) -> (s: CommandSourceState)
        requires
            self.wf(),
        ensures
            s.schema_version == 1,
            s.algorithm@ == "sha256"@,
            s.digest@ == "sha256:"@ + spec_sha256_hex(self.model().0),
            s.scope@ == "cwdSourceInputsV1"@,
            s.files_scanned as int == self.model().1,
            s.bytes_hashed == self.model().2,
            s.complete == (self.model().3 is None),
            opt_view(s.limitation) == self.model().3,
            s.excluded_directories@.map_values(|d: String| d@) == excluded_names(),
    {
        let hex = sha256_hex(self.input.as_slice());
        let complete = self.limitation.is_none();
        CommandSourceState {
            schema_version: 1,
            algorithm: "sha256".to_owned(),
            digest: concat_str("sha256:", hex.as_str()),
            scope: "cwdSourceInputsV1".to_owned(),
            files_scanned: self.files,
            bytes_hashed: self.bytes,
            complete,
            limitation: self.limitation,
            excluded_directories: excluded_directories(),
        }
    }
}

/// The source state of a walk below a root: `entries` are what the walk found (the root
/// itself and excluded directories left out), `enumeration_failed` whether some path
/// could not be listed. The entries are taken in path order, and the state reports the
/// digest of the snapshot's bytes, the files counted, the content bytes hashed, and the
/// limitation met, if any (the state is then incomplete).
pub fn source_state_digest(entries: &Vec<SourceEntry>, enumeration_failed: bool) -> (s: CommandSourceState)
    ensures
        ({
            let (input, files, bytes, limitation) = source_snapshot(entries@, enumeration_failed);
            &&& s.schema_version == 1
            &&& s.algorithm@ == "sha256"@
            &&& s.digest@ == "sha256:"@ + spec_sha256_hex(input)
            &&& s.scope@ == "cwdSourceInputsV1"@
            &&& s.files_scanned as int == files
            &&& s.bytes_hashed == bytes
            &&& s.complete == (limitation is None)
            &&& opt_view(s.limitation) == limitation
            &&& s.excluded_directories@.map_values(|d: String| d@) == excluded_names()
        }),
{
    let n = entries.len();
    let order = source_order(entries);
    let ghost sorted = in_path_order(entries@);
    let mut snapshot = SourceSnapshot::start(n, enumeration_failed);
    let ghost start = snapshot.model();
    proof {
        let so = sorted_order(snapshot_keys(entries@), n as int);
        assert forall|j: int| 0 <= j < n implies #[trigger] sorted[j] == entries@[order@[j] as int] by {
            assert(order@[j] as int == so[j]);
        }
    }
    let mut k: usize = 0;
    while k < n
        invariant
            n == entries@.len(),
            n == order@.len(),
            forall|j: int| 0 <= j < n ==> order@[j] < n,
            sorted == in_path_order(entries@),
            sorted.len() == n,
            forall|j: int| 0 <= j < n ==> #[trigger] sorted[j] == entries@[order@[j] as int],
            start == (tagged("chatcmd-source-state-v1"@), 0int, 0u64, walk_limitation(n as int, enumeration_failed)),
            k <= n,
            snapshot.wf(),
            snapshot.model() == snapshot_run(start, sorted.subrange(0, k as int)),
        decreases n - k,
    {
        snapshot.take(&entries[order[k]]);
        proof {
            assert(sorted.subrange(0, k + 1).drop_last() =~= sorted.subrange(0, k as int));
            assert(sorted.subrange(0, k + 1).last() == sorted[k as int]);
        }
        k = k + 1;
    }
    assert(sorted.subrange(0, n as int) =~= sorted);
    snapshot.finish()
}

} // verus!
