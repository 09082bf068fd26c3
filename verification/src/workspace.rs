//! The workspace a filesystem service may touch: its canonical roots and the extra
//! scopes a task may be granted, kept sorted in path order without duplicates.

use vstd::prelude::*;
use crate::error::{RuntimeError, RuntimeResult};

pub mod index;
pub mod replace;
pub mod listing;
pub mod find;
pub mod read;
pub mod line_reader;
pub mod byte_range;
pub mod mutation;
pub mod batch;
pub mod search;
pub mod cursors;
pub mod atomic_write;
pub mod legacy_list;

verus! {

/// The sort key of a path character: the separator sorts before every other character,
/// so that text order agrees with the component order of canonical paths.
pub open spec fn path_key(c: char) -> int {
    if c == '/' { 0 } else { (c as u32) as int + 1 }
}

/// `a` sorts before `b` in path order.
pub open spec fn path_lt(a: Seq<char>, b: Seq<char>) -> bool
    decreases a.len(),
{
    if a.len() == 0 {
        b.len() > 0
    } else if b.len() == 0 {
        false
    } else if path_key(a[0]) != path_key(b[0]) {
        path_key(a[0]) < path_key(b[0])
    } else {
        path_lt(a.drop_first(), b.drop_first())
    }
}

proof fn lemma_key_injective(c: char, d: char)
    ensures
        path_key(c) == path_key(d) ==> c == d,
{
    if path_key(c) == path_key(d) && c != '/' && d != '/' {
        vstd::utf8::char_u32_cast(c, c as u32);
        vstd::utf8::char_u32_cast(d, d as u32);
        assert(c as u32 == d as u32);
    }
}

proof fn lemma_path_lt_transitive(a: Seq<char>, b: Seq<char>, c: Seq<char>)
    requires
        path_lt(a, b),
        path_lt(b, c),
    ensures
        path_lt(a, c),
    decreases a.len(),
{
    if a.len() > 0 && b.len() > 0 && c.len() > 0 {
        if path_key(a[0]) == path_key(b[0]) && path_key(b[0]) == path_key(c[0]) {
            lemma_path_lt_transitive(a.drop_first(), b.drop_first(), c.drop_first());
        }
    }
}

proof fn lemma_path_lt_total(a: Seq<char>, b: Seq<char>)
    ensures
        a == b || path_lt(a, b) || path_lt(b, a),
    decreases a.len(),
{
    if a.len() > 0 && b.len() > 0 {
        if path_key(a[0]) == path_key(b[0]) {
            lemma_path_lt_total(a.drop_first(), b.drop_first());
            if a.drop_first() == b.drop_first() {
                lemma_key_injective(a[0], b[0]);
                assert(a[0] == b[0]);
                assert(a =~= seq![a[0]] + a.drop_first());
                assert(b =~= seq![b[0]] + b.drop_first());
            }
        }
    } else if a.len() == 0 && b.len() == 0 {
        assert(a =~= b);
    }
}

/// Compares two paths in path order.
pub fn path_less(a: &str, b: &str) -> (r: bool)
    ensures
        r == path_lt(a@, b@),
{
    let x = crate::text::chars_of(a);
    let y = crate::text::chars_of(b);
    let mut i: usize = 0;
    assert(x@.subrange(0, x@.len() as int) =~= x@);
    assert(y@.subrange(0, y@.len() as int) =~= y@);
    while i < x.len() && i < y.len()
        invariant
            x@ == a@,
            y@ == b@,
            i <= x@.len(),
            i <= y@.len(),
            path_lt(a@, b@) == path_lt(x@.subrange(i as int, x@.len() as int), y@.subrange(i as int, y@.len() as int)),
        decreases x.len() - i,
    {
        let ghost xs = x@.subrange(i as int, x@.len() as int);
        let ghost ys = y@.subrange(i as int, y@.len() as int);
        assert(xs.drop_first() =~= x@.subrange(i + 1, x@.len() as int));
        assert(ys.drop_first() =~= y@.subrange(i + 1, y@.len() as int));
        let c = x[i];
        let d = y[i];
        assert(xs[0] == c && ys[0] == d);
        proof {
            lemma_key_injective(c, d);
        }
        if c != d {
            if c == '/' {
                return true;
            }
            if d == '/' {
                return false;
            }
            return (c as u32) < (d as u32);
        }
        i = i + 1;
    }
    i == x.len() && i < y.len()
}

/// `s` is strictly increasing in path order.
pub open spec fn sorted_paths(s: Seq<String>) -> bool {
    forall|i: int, j: int| 0 <= i < j < s.len() ==> path_lt((#[trigger] s[i])@, (#[trigger] s[j])@)
}

/// Some element of `s` has the text `p`.
pub open spec fn has_path(s: Seq<String>, p: Seq<char>) -> bool {
    exists|i: int| 0 <= i < s.len() && (#[trigger] s[i])@ == p
}

/// Sorts paths in path order and drops duplicates.
pub fn sort_dedup_paths(paths: Vec<String>) -> (r: Vec<String>)
    ensures
        sorted_paths(r@),
        forall|p: Seq<char>| has_path(r@, p) <==> has_path(paths@, p),
{
    let mut out: Vec<String> = Vec::new();
    let mut i: usize = 0;
    while i < paths.len()
        invariant
            i <= paths@.len(),
            sorted_paths(out@),
            forall|p: Seq<char>| has_path(out@, p) <==> has_path(paths@.subrange(0, i as int), p),
        decreases paths.len() - i,
    {
        let s = &paths[i];
        let mut p: usize = 0;
        while p < out.len()
            invariant
                p <= out@.len(),
                sorted_paths(out@),
                forall|k: int| 0 <= k < p ==> path_lt((#[trigger] out@[k])@, s@),
            ensures
                p <= out@.len(),
                forall|k: int| 0 <= k < p ==> path_lt((#[trigger] out@[k])@, s@),
                p < out@.len() ==> !path_lt(out@[p as int]@, s@),
            decreases out@.len() - p,
        {
            if !path_less(out[p].as_str(), s.as_str()) {
                break;
            }
            p = p + 1;
        }
        let ghost before = out@;
        let ghost prefix = paths@.subrange(0, i as int);
        let ghost next = paths@.subrange(0, i + 1);
        assert(next =~= prefix.push(paths@[i as int]));
        if p < out.len() && crate::text::str_eq(out[p].as_str(), s.as_str()) {
            assert forall|q: Seq<char>| has_path(out@, q) <==> has_path(next, q) by {
                if has_path(next, q) && !has_path(prefix, q) {
                    assert(q == s@);
                    assert(out@[p as int]@ == q);
                }
                if has_path(prefix, q) {
                    let k = choose|k: int| 0 <= k < prefix.len() && (#[trigger] prefix[k])@ == q;
                    assert(next[k] == prefix[k]);
                }
            }
        } else {
            proof {
                if p < out@.len() {
                    lemma_path_lt_total(out@[p as int]@, s@);
                }
            }
            out.insert(p, s.clone());
            proof {
                assert forall|a: int, b: int| 0 <= a < b < out@.len() implies path_lt((#[trigger] out@[a])@, (#[trigger] out@[b])@) by {
                    if b < p {
                        assert(out@[a] == before[a] && out@[b] == before[b]);
                    } else if b == p {
                        assert(out@[a] == before[a]);
                    } else if a == p {
                        assert(out@[b] == before[b - 1]);
                        if b - 1 > p {
                            lemma_path_lt_transitive(s@, before[p as int]@, before[b - 1]@);
                        }
                    } else if a < p {
                        assert(out@[a] == before[a] && out@[b] == before[b - 1]);
                    } else {
                        assert(out@[a] == before[a - 1] && out@[b] == before[b - 1]);
                    }
                }
                assert forall|q: Seq<char>| has_path(out@, q) <==> has_path(next, q) by {
                    if has_path(out@, q) {
                        let k = choose|k: int| 0 <= k < out@.len() && (#[trigger] out@[k])@ == q;
                        if k < p {
                            assert(out@[k] == before[k]);
                            assert(has_path(before, q));
                        } else if k > p {
                            assert(out@[k] == before[k - 1]);
                            assert(has_path(before, q));
                        } else {
                            assert(next[i as int]@ == q);
                        }
                        if has_path(prefix, q) {
                            let m = choose|m: int| 0 <= m < prefix.len() && (#[trigger] prefix[m])@ == q;
                            assert(next[m] == prefix[m]);
                        }
                    }
                    if has_path(next, q) {
                        let m = choose|m: int| 0 <= m < next.len() && (#[trigger] next[m])@ == q;
                        if m < i {
                            assert(prefix[m] == next[m]);
                            assert(has_path(before, q));
                            let k = choose|k: int| 0 <= k < before.len() && (#[trigger] before[k])@ == q;
                            if k < p {
                                assert(out@[k] == before[k]);
                            } else {
                                assert(out@[k + 1] == before[k]);
                            }
                        } else {
                            assert(out@[p as int]@ == q);
                        }
                    }
                }
            }
        }
        i = i + 1;
    }
    assert(paths@.subrange(0, paths@.len() as int) =~= paths@);
    out
}

/// A configured root, resolved by the caller: its canonical path and whether it is a directory.
#[derive(Debug, Clone)]
pub struct ResolvedRoot {
    pub path: String,
    pub is_dir: bool,
}

/// A scope a task asks for: whether the path was given as absolute, its canonical path,
/// and whether that canonical path has a parent (`Path::parent`; a filesystem root such
/// as `/` or a drive root has none).
#[derive(Debug, Clone)]
pub struct ResolvedScope {
    pub absolute: bool,
    pub path: String,
    pub has_parent: bool,
}

/// The workspace of a filesystem service: its roots and every scope it may touch
/// (the roots and any granted scopes), each sorted in path order without duplicates.
#[derive(Debug)]
pub struct WorkspaceService {
    pub roots: Vec<String>,
    pub allowed_scopes: Vec<String>,
    pub index: index::RepositoryIndex,
}

impl WorkspaceService {
    /// A workspace over resolved roots; every root must be a directory.
    pub fn new(roots: &Vec<ResolvedRoot>) -> (r: RuntimeResult<Self>)
        ensures
            (exists|i: int| 0 <= i < roots@.len() && !(#[trigger] roots@[i]).is_dir) ==> (r matches Err(e) && e.code@ == "invalid_workspace_root"@),
            (forall|i: int| 0 <= i < roots@.len() ==> (#[trigger] roots@[i]).is_dir) ==> (r matches Ok(w) && {
                &&& sorted_paths(w.roots@)
                &&& forall|p: Seq<char>| has_path(w.roots@, p) <==> exists|i: int| 0 <= i < roots@.len() && (#[trigger] roots@[i]).path@ == p
                &&& w.allowed_scopes@.len() == w.roots@.len()
                &&& forall|k: int| 0 <= k < w.roots@.len() ==> (#[trigger] w.allowed_scopes@[k])@ == w.roots@[k]@
                &&& w.index.roots@.len() == 0
            }),
    {
        let mut canonical: Vec<String> = Vec::new();
        let mut i: usize = 0;
        while i < roots.len()
            invariant
                i <= roots@.len(),
                canonical@.len() == i,
                forall|k: int| 0 <= k < i ==> (#[trigger] roots@[k]).is_dir,
                forall|k: int| 0 <= k < i ==> (#[trigger] canonical@[k])@ == roots@[k].path@,
            decreases roots.len() - i,
        {
            if !roots[i].is_dir {
                return Err(RuntimeError::new("invalid_workspace_root", "configured workspace root is not a directory"));
            }
            canonical.push(roots[i].path.clone());
            i = i + 1;
        }
        let ghost c = canonical@;
        let sorted = sort_dedup_paths(canonical);
        proof {
            assert forall|p: Seq<char>| has_path(c, p) <==> exists|i: int| 0 <= i < roots@.len() && (#[trigger] roots@[i]).path@ == p by {
                if has_path(c, p) {
                    let k = choose|k: int| 0 <= k < c.len() && (#[trigger] c[k])@ == p;
                    assert(roots@[k].path@ == p);
                }
                if exists|i: int| 0 <= i < roots@.len() && (#[trigger] roots@[i]).path@ == p {
                    let k = choose|k: int| 0 <= k < roots@.len() && (#[trigger] roots@[k]).path@ == p;
                    assert(c[k]@ == p);
                }
            }
        }
        let scopes = copy_paths(&sorted);
        Ok(WorkspaceService { roots: sorted, allowed_scopes: scopes, index: index::RepositoryIndex::new() })
    }

    /// The workspace roots.
    pub fn roots(&self) -> (r: &Vec<String>)
        ensures
            r == self.roots,
    {
        &self.roots
    }

    /// The same workspace with more scopes a task may touch. A scope must be given as an
    /// absolute path and may not be a filesystem root.
    pub fn with_additional_scopes(&self, scopes: &Vec<ResolvedScope>) -> (r: RuntimeResult<Self>)
        ensures
            match first_scope_error(scopes@, 0) {
                Some(code) => r matches Err(e) && e.code@ == code,
                None => r matches Ok(w) && {
                    &&& w.roots@.len() == self.roots@.len()
                    &&& forall|k: int| 0 <= k < self.roots@.len() ==> (#[trigger] w.roots@[k])@ == self.roots@[k]@
                    &&& sorted_paths(w.allowed_scopes@)
                    &&& forall|p: Seq<char>| has_path(w.allowed_scopes@, p) <==> (has_path(self.allowed_scopes@, p)
                        || exists|i: int| 0 <= i < scopes@.len() && (#[trigger] scopes@[i]).path@ == p)
                },
            },
    {
        let mut all = copy_paths(&self.allowed_scopes);
        let ghost base = all@;
        let mut i: usize = 0;
        while i < scopes.len()
            invariant
                i <= scopes@.len(),
                first_scope_error(scopes@, 0) == first_scope_error(scopes@, i as int),
                all@.len() == base.len() + i,
                forall|k: int| 0 <= k < base.len() ==> (#[trigger] all@[k])@ == self.allowed_scopes@[k]@,
                base.len() == self.allowed_scopes@.len(),
                forall|k: int| 0 <= k < i ==> (#[trigger] all@[base.len() + k])@ == scopes@[k].path@,
            decreases scopes.len() - i,
        {
            let scope = &scopes[i];
            if !scope.absolute {
                return Err(RuntimeError::new("invalid_path_scope", "temporary filesystem scopes must be absolute"));
            }
            if !scope.has_parent {
                return Err(RuntimeError::new("path_scope_too_broad", "temporary filesystem scope cannot be a filesystem root"));
            }
            all.push(scope.path.clone());
            i = i + 1;
        }
        let ghost a = all@;
        let sorted = sort_dedup_paths(all);
        proof {
            assert forall|p: Seq<char>| has_path(a, p) <==> (has_path(self.allowed_scopes@, p)
                || exists|i: int| 0 <= i < scopes@.len() && (#[trigger] scopes@[i]).path@ == p) by {
                if has_path(a, p) {
                    let k = choose|k: int| 0 <= k < a.len() && (#[trigger] a[k])@ == p;
                    if k < base.len() {
                        assert(self.allowed_scopes@[k]@ == p);
                    } else {
                        let j = k - base.len();
                        assert(a[base.len() + j]@ == scopes@[j].path@);
                        assert(scopes@[j].path@ == p);
                    }
                }
                if has_path(self.allowed_scopes@, p) {
                    let k = choose|k: int| 0 <= k < self.allowed_scopes@.len() && (#[trigger] self.allowed_scopes@[k])@ == p;
                    assert(a[k]@ == p);
                }
                if exists|i: int| 0 <= i < scopes@.len() && (#[trigger] scopes@[i]).path@ == p {
                    let k = choose|k: int| 0 <= k < scopes@.len() && (#[trigger] scopes@[k]).path@ == p;
                    assert(a[base.len() + k]@ == p);
                }
            }
        }
        Ok(WorkspaceService { roots: copy_paths(&self.roots), allowed_scopes: sorted, index: index::RepositoryIndex::new() })
    }
}

/// The first refused scope at or after `i`.
pub open spec fn first_scope_error(scopes: Seq<ResolvedScope>, i: int) -> Option<Seq<char>>
    decreases scopes.len() - i,
{
    if i < 0 || i >= scopes.len() {
        None
    } else if !scopes[i].absolute {
        Some("invalid_path_scope"@)
    } else if !scopes[i].has_parent {
        Some("path_scope_too_broad"@)
    } else {
        first_scope_error(scopes, i + 1)
    }
}

/// A copy of a list of paths.
pub fn copy_paths(v: &Vec<String>) -> (r: Vec<String>)
    ensures
        r@.len() == v@.len(),
        forall|k: int| 0 <= k < v@.len() ==> (#[trigger] r@[k])@ == v@[k]@,
        sorted_paths(v@) ==> sorted_paths(r@),
        forall|p: Seq<char>| has_path(r@, p) <==> has_path(v@, p),
{
    let mut r: Vec<String> = Vec::new();
    let mut i: usize = 0;
    while i < v.len()
        invariant
            i <= v@.len(),
            r@.len() == i,
            forall|k: int| 0 <= k < i ==> (#[trigger] r@[k])@ == v@[k]@,
        decreases v.len() - i,
    {
        r.push(v[i].clone());
        i = i + 1;
    }
    proof {
        assert forall|p: Seq<char>| has_path(r@, p) <==> has_path(v@, p) by {
            if has_path(r@, p) {
                let k = choose|k: int| 0 <= k < r@.len() && (#[trigger] r@[k])@ == p;
                assert(v@[k]@ == p);
            }
            if has_path(v@, p) {
                let k = choose|k: int| 0 <= k < v@.len() && (#[trigger] v@[k])@ == p;
                assert(r@[k]@ == p);
            }
        }
        if sorted_paths(v@) {
            assert forall|a: int, b: int| 0 <= a < b < r@.len() implies path_lt((#[trigger] r@[a])@, (#[trigger] r@[b])@) by {
                assert(path_lt(v@[a]@, v@[b]@));
            }
        }
    }
    r
}

/// A path as the caller resolved it: whether it was given as absolute, and its canonical
/// form.
#[derive(Debug, Clone)]
pub struct ResolvedPath {
    pub absolute: bool,
    pub path: String,
}

/// `p` is `scope` or lies below it, component by component.
pub open spec fn path_within(p: Seq<char>, scope: Seq<char>) -> bool {
    ||| p == scope
    ||| (p.len() > scope.len() && p.subrange(0, scope.len() as int) == scope
        && (p[scope.len() as int] == '/' || (scope.len() > 0 && scope.last() == '/')))
}

/// `p` lies within one of the scopes.
pub open spec fn allowed(scopes: Seq<String>, p: Seq<char>) -> bool {
    exists|i: int| 0 <= i < scopes.len() && path_within(p, (#[trigger] scopes[i])@)
}

pub(crate) fn within(p: &str, scope: &str) -> (r: bool)
    ensures
        r == path_within(p@, scope@),
{
    let c = crate::text::chars_of(p);
    let d = crate::text::chars_of(scope);
    let m = d.len();
    if c.len() < m {
        return false;
    }
    let mut i: usize = 0;
    while i < m
        invariant
            c@ == p@,
            d@ == scope@,
            m == d@.len(),
            m <= c@.len(),
            i <= m,
            c@.subrange(0, i as int) == d@.subrange(0, i as int),
        decreases m - i,
    {
        if c[i] != d[i] {
            assert(c@.subrange(0, m as int)[i as int] != d@.subrange(0, m as int)[i as int]);
            assert(d@.subrange(0, m as int) =~= d@);
            assert(c@ != d@) by {
                if c@ == d@ {
                    assert(c@[i as int] == d@[i as int]);
                }
            }
            return false;
        }
        i = i + 1;
        assert(c@.subrange(0, i as int) =~= d@.subrange(0, i as int));
    }
    assert(d@.subrange(0, m as int) =~= d@);
    if c.len() == m {
        assert(c@ =~= d@);
        return true;
    }
    c[m] == '/' || (m > 0 && d[m - 1] == '/')
}

impl WorkspaceService {
    /// Checks that a resolved path lies within a root or a granted scope.
    pub fn ensure_allowed(&self, path: &str) -> (r: RuntimeResult<()>)
        ensures
            r is Ok <==> allowed(self.allowed_scopes@, path@),
            r matches Err(e) ==> e.code@ == "path_outside_allowed_scope"@,
    {
        let mut i: usize = 0;
        while i < self.allowed_scopes.len()
            invariant
                i <= self.allowed_scopes@.len(),
                forall|k: int| 0 <= k < i ==> !path_within(path@, (#[trigger] self.allowed_scopes@[k])@),
            decreases self.allowed_scopes.len() - i,
        {
            if within(path, self.allowed_scopes[i].as_str()) {
                return Ok(());
            }
            i = i + 1;
        }
        Err(RuntimeError::new("path_outside_allowed_scope", "path escapes configured workspace roots and user-provided task path grants"))
    }

    /// The canonical form of an existing path. A path given as relative must resolve
    /// within the workspace; one given as absolute is taken as it is.
    pub fn existing(&self, path: &ResolvedPath) -> (r: RuntimeResult<String>)
        ensures
            (path.absolute || allowed(self.allowed_scopes@, path.path@)) ==> (r matches Ok(s) && s@ == path.path@),
            !(path.absolute || allowed(self.allowed_scopes@, path.path@)) ==> (r matches Err(e) && e.code@ == "path_outside_allowed_scope"@),
    {
        if !path.absolute {
            self.ensure_allowed(path.path.as_str())?;
        }
        Ok(path.path.clone())
    }

    /// Records a change of `path` (canonical form `normalized`) in every repository index
    /// whose root contains it, with what the filesystem now reports under each name.
    pub fn mark_index_stale(&mut self, normalized: &str, path: &str, normalized_seen: &index::PathObservation, path_seen: &index::PathObservation)
        ensures
            final(self).roots == old(self).roots,
            final(self).allowed_scopes == old(self).allowed_scopes,
            final(self).index.roots@.len() == old(self).index.roots@.len(),
            forall|k: int| 0 <= k < old(self).index.roots@.len() ==> match #[trigger] index::stale_target(old(self).index.roots@[k].root@, normalized@, path@) {
                None => final(self).index.roots@[k] == old(self).index.roots@[k],
                Some(true) => index::refreshed(old(self).index.roots@[k], final(self).index.roots@[k], normalized@, *normalized_seen),
                Some(false) => index::refreshed(old(self).index.roots@[k], final(self).index.roots@[k], path@, *path_seen),
            },
    {
        self.index.mark_stale(normalized, path, normalized_seen, path_seen);
    }

    /// The status of the repository index of a root.
    pub fn index_status(&self, path: &ResolvedPath) -> (r: RuntimeResult<index::WorkspaceIndexStatus>)
        ensures
            !(path.absolute || allowed(self.allowed_scopes@, path.path@)) ==> (r matches Err(e) && e.code@ == "path_outside_allowed_scope"@),
            (path.absolute || allowed(self.allowed_scopes@, path.path@)) ==> (r matches Ok(st) && {
                &&& st.root@ == path.path@
                &&& st.schema_version == index::INDEX_SCHEMA_VERSION
                &&& match index::root_index(self.index.roots@, path.path@, 0) {
                    None => !st.available && st.generation == 0 && st.freshness == index::IndexFreshness::Unknown
                        && st.entry_count == 0 && st.indexed_bytes == 0 && st.last_error is None,
                    Some(i) => {
                        let x = self.index.roots@[i];
                        &&& st.available
                        &&& st.generation == x.generation
                        &&& st.freshness == (match x.freshness { Some(f) => f, None => index::IndexFreshness::Unknown })
                        &&& st.entry_count == x.entries@.len()
                        &&& st.indexed_bytes == x.indexed_bytes
                        &&& crate::context::opt_view(st.last_error) == crate::context::opt_view(x.last_error)
                    },
                }
            }),
    {
        let root = self.existing(path)?;
        Ok(self.index.status(root.as_str()))
    }

    /// The persisted form of the repository index of a root, if it has one.
    pub fn export_index_snapshot(&self, path: &ResolvedPath) -> (r: RuntimeResult<Option<index::RepositoryIndexSnapshot>>)
        ensures
            !(path.absolute || allowed(self.allowed_scopes@, path.path@)) ==> (r matches Err(e) && e.code@ == "path_outside_allowed_scope"@),
            (path.absolute || allowed(self.allowed_scopes@, path.path@)) ==> match index::root_index(self.index.roots@, path.path@, 0) {
                None => r matches Ok(None),
                Some(i) => {
                    let x = self.index.roots@[i];
                    if exists|k: int| 0 <= k < x.entries@.len() && index::relative_to(path.path@, (#[trigger] x.entries@[k]).0@) is None {
                        r matches Err(e) && e.code@ == "index_snapshot_invalid"@
                    } else {
                        r matches Ok(Some(s)) && {
                            &&& s.root@ == path.path@
                            &&& s.generation == x.generation
                            &&& s.freshness == (match x.freshness { Some(f) => f, None => index::IndexFreshness::Unknown })
                            &&& s.indexed_bytes == x.indexed_bytes
                            &&& s.schema_version == index::INDEX_SCHEMA_VERSION
                            &&& exists|order: Seq<int>| #[trigger] index::export_order(s.entries@, order, x.entries@.len() as int)
                                && forall|k: int| 0 <= k < x.entries@.len() ==> index::exported(#[trigger] s.entries@[k], path.path@, x.entries@[order[k]])
                        }
                    }
                },
            },
    {
        let root = self.existing(path)?;
        self.index.export(root.as_str())
    }

    /// Restores a persisted repository index of the snapshot's root (as the caller
    /// resolved it). The restored index is stale until a crawl confirms it.
    pub fn restore_index_snapshot(&mut self, root: &ResolvedPath, snapshot: index::RepositoryIndexSnapshot) -> (r: RuntimeResult<()>)
        ensures
            final(self).roots == old(self).roots,
            final(self).allowed_scopes == old(self).allowed_scopes,
            snapshot.schema_version != index::INDEX_SCHEMA_VERSION ==> (r matches Err(e) && e.code@ == "index_schema_mismatch"@
                && final(self).index == old(self).index),
            snapshot.schema_version == index::INDEX_SCHEMA_VERSION && snapshot.entries@.len() > index::MAX_SNAPSHOT_ENTRIES
                ==> (r matches Err(e) && e.code@ == "index_entry_limit"@ && final(self).index == old(self).index),
            snapshot.schema_version == index::INDEX_SCHEMA_VERSION && snapshot.entries@.len() <= index::MAX_SNAPSHOT_ENTRIES
                && !(root.absolute || allowed(old(self).allowed_scopes@, root.path@))
                ==> (r matches Err(e) && e.code@ == "path_outside_allowed_scope"@ && final(self).index == old(self).index),
            snapshot.schema_version == index::INDEX_SCHEMA_VERSION && snapshot.entries@.len() <= index::MAX_SNAPSHOT_ENTRIES
                && (root.absolute || allowed(old(self).allowed_scopes@, root.path@)) ==> match index::snapshot_error(snapshot) {
                Some(code) => r matches Err(e) && e.code@ == code && final(self).index == old(self).index,
                None => r is Ok && index::root_index(final(self).index.roots@, root.path@, 0) is Some && ({
                    let y = final(self).index.roots@[index::root_index(final(self).index.roots@, root.path@, 0)->0];
                    &&& y.generation == snapshot.generation
                    &&& y.indexed_bytes == snapshot.indexed_bytes
                    &&& y.freshness == Some(index::IndexFreshness::Stale)
                    &&& y.last_error is None
                    &&& index::entries_view(y.entries@) == index::restored_view(root.path@, snapshot.entries@, snapshot.entries@.len() as int)
                }),
            },
    {
        if snapshot.schema_version != index::INDEX_SCHEMA_VERSION {
            return Err(RuntimeError::new("index_schema_mismatch", "repository index schema is not supported by this runtime"));
        }
        if snapshot.entries.len() > index::MAX_SNAPSHOT_ENTRIES {
            return Err(RuntimeError::new("index_entry_limit", "repository index snapshot exceeded 1,000,000 entries"));
        }
        let resolved = self.existing(root)?;
        self.index.restore(resolved.as_str(), snapshot)
    }
}

} // verus!
