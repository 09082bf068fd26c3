//! A shared, cumulative quota for process output artifacts, and the retention rule
//! that prunes old artifacts when the quota is first used.

use vstd::prelude::*;
use crate::budget::{sat_add, sat_sub};
use crate::error::{RuntimeError, RuntimeResult};
use crate::text::{chars_of, ends_with_seq, ends_with_str, starts_with_seq, starts_with_str};

verus! {

/// The quota's accounting: bytes kept by committed artifacts and bytes reserved by
/// artifacts being written.
#[derive(Debug)]
pub struct ArtifactQuota {
    pub max_total_bytes: u64,
    pub retention_ms: u64,
    pub initialized: bool,
    pub committed_bytes: u64,
    pub reserved_bytes: u64,
}

/// Bytes set aside for one artifact being written.
#[derive(Debug)]
pub struct ArtifactReservation {
    pub reserved_bytes: u64,
    pub committed: bool,
}

impl ArtifactQuota {
    /// A quota of `max_total_bytes` whose artifacts are kept for `retention_ms`.
    pub fn new(max_total_bytes: u64, retention_ms: u64) -> (q: Self)
        ensures
            q.max_total_bytes == max_total_bytes,
            q.retention_ms == retention_ms,
            !q.initialized,
            q.committed_bytes == 0,
            q.reserved_bytes == 0,
    {
        ArtifactQuota { max_total_bytes, retention_ms, initialized: false, committed_bytes: 0, reserved_bytes: 0 }
    }

    /// Reserves `requested_bytes`. The first reservation starts from `initial_bytes`, the
    /// size of the artifacts kept after pruning; later ones ignore it. Fails when the
    /// request does not fit beside what is committed and reserved.
    pub fn reserve(&mut self, requested_bytes: u64, initial_bytes: u64) -> (r: RuntimeResult<ArtifactReservation>)
        ensures
            final(self).initialized,
            final(self).max_total_bytes == old(self).max_total_bytes,
            final(self).retention_ms == old(self).retention_ms,
            final(self).committed_bytes == (if old(self).initialized { old(self).committed_bytes } else { initial_bytes }),
            ({
                let allocated = sat_add(final(self).committed_bytes, old(self).reserved_bytes);
                if requested_bytes > sat_sub(old(self).max_total_bytes, allocated) {
                    &&& r matches Err(e) && e.code@ == "artifact_quota_exceeded"@
                    &&& final(self).reserved_bytes == old(self).reserved_bytes
                } else {
                    &&& r matches Ok(res) && res.reserved_bytes == requested_bytes && !res.committed
                    &&& final(self).reserved_bytes == sat_add(old(self).reserved_bytes, requested_bytes)
                }
            }),
    {
        if !self.initialized {
            self.initialized = true;
            self.committed_bytes = initial_bytes;
        }
        let allocated = self.committed_bytes.saturating_add(self.reserved_bytes);
        if requested_bytes > self.max_total_bytes.saturating_sub(allocated) {
            return Err(RuntimeError::new("artifact_quota_exceeded", "cumulative process artifact quota is exhausted"));
        }
        self.reserved_bytes = self.reserved_bytes.saturating_add(requested_bytes);
        Ok(ArtifactReservation { reserved_bytes: requested_bytes, committed: false })
    }

    /// Gives back a reservation that was not committed (its artifact was discarded).
    pub fn release(&mut self, reservation: ArtifactReservation)
        ensures
            final(self).initialized == old(self).initialized,
            final(self).max_total_bytes == old(self).max_total_bytes,
            final(self).retention_ms == old(self).retention_ms,
            final(self).committed_bytes == old(self).committed_bytes,
            final(self).reserved_bytes == (if reservation.committed { old(self).reserved_bytes } else { sat_sub(old(self).reserved_bytes, reservation.reserved_bytes) }),
    {
        if !reservation.committed {
            self.reserved_bytes = self.reserved_bytes.saturating_sub(reservation.reserved_bytes);
        }
    }
}

impl ArtifactReservation {
    /// Turns the reservation into committed bytes: the bytes actually kept, never more
    /// than were reserved; the rest of the reservation is freed.
    pub fn commit(self, quota: &mut ArtifactQuota, retained_bytes: u64)
        ensures
            final(quota).initialized == old(quota).initialized,
            final(quota).max_total_bytes == old(quota).max_total_bytes,
            final(quota).retention_ms == old(quota).retention_ms,
            final(quota).reserved_bytes == sat_sub(old(quota).reserved_bytes, self.reserved_bytes),
            final(quota).committed_bytes == sat_add(old(quota).committed_bytes,
                if retained_bytes < self.reserved_bytes { retained_bytes } else { self.reserved_bytes }),
    {
        quota.reserved_bytes = quota.reserved_bytes.saturating_sub(self.reserved_bytes);
        let kept = if retained_bytes < self.reserved_bytes { retained_bytes } else { self.reserved_bytes };
        quota.committed_bytes = quota.committed_bytes.saturating_add(kept);
    }
}

/// Committing never lets the quota's accounted bytes exceed its limit: if what was
/// committed and reserved fit before, it still fits after.
pub proof fn lemma_commit_stays_within_limit(committed: u64, reserved: u64, reservation: u64, retained: u64, max_total: u64)
    requires
        reservation <= reserved,
        committed + reserved <= max_total,
    ensures
        sat_add(committed, if retained < reservation { retained } else { reservation }) + sat_sub(reserved, reservation) <= max_total,
{
}

/// Names of the artifacts this quota manages.
pub open spec fn managed_name(name: Seq<char>) -> bool {
    starts_with_seq(name, "process-"@) && ends_with_seq(name, ".output"@)
}

/// A file name of a managed process artifact: `process-*.output`.
pub fn is_managed_artifact(name: &str) -> (r: bool)
    ensures
        r == managed_name(name@),
{
    let chars = chars_of(name);
    starts_with_str(chars.as_slice(), "process-") && ends_with_str(chars.as_slice(), ".output")
}

/// A file found in the artifact directory.
#[derive(Debug, Clone)]
pub struct ArtifactFile {
    pub name: String,
    pub is_file: bool,
    pub modified_ms: u64,
    pub size_bytes: u64,
}

/// A managed artifact older than the retention period.
pub open spec fn expired_file(f: ArtifactFile, now_ms: u64, retention_ms: u64) -> bool {
    managed_name(f.name@) && f.is_file && sat_sub(now_ms, f.modified_ms) > retention_ms
}

/// A managed artifact young enough to keep.
pub open spec fn retained_file(f: ArtifactFile, now_ms: u64, retention_ms: u64) -> bool {
    managed_name(f.name@) && f.is_file && sat_sub(now_ms, f.modified_ms) <= retention_ms
}

/// Total size of the retained files of `files` not marked in `removed`.
pub open spec fn kept_bytes(files: Seq<ArtifactFile>, removed: Seq<bool>, now_ms: u64, retention_ms: u64) -> int
    decreases files.len(),
{
    if files.len() == 0 {
        0
    } else {
        kept_bytes(files.drop_last(), removed.drop_last(), now_ms, retention_ms)
            + if retained_file(files.last(), now_ms, retention_ms) && !removed.last() { files.last().size_bytes as int } else { 0 }
    }
}

/// Retained artifacts are pruned oldest first; of two with the same time, the one found
/// first in the directory goes first.
pub open spec fn pruned_first(files: Seq<ArtifactFile>, a: int, b: int) -> bool {
    files[a].modified_ms < files[b].modified_ms || (files[a].modified_ms == files[b].modified_ms && a < b)
}

/// The marks of `removed` that were made before file `i` was pruned.
pub open spec fn removed_before(files: Seq<ArtifactFile>, removed: Seq<bool>, i: int) -> Seq<bool> {
    Seq::new(removed.len(), |k: int| removed[k] && pruned_first(files, k, i))
}

/// `removed` is a pruning of `files`: every expired artifact goes; other files stay;
/// retained artifacts go oldest first, each only while the kept ones still exceed
/// `max_total`, and pruning stops once they fit (or nothing retained is left).
pub open spec fn is_pruning(files: Seq<ArtifactFile>, removed: Seq<bool>, now_ms: u64, retention_ms: u64, max_total: u64) -> bool {
    &&& removed.len() == files.len()
    &&& forall|i: int| 0 <= i < files.len() && expired_file(files[i], now_ms, retention_ms) ==> #[trigger] removed[i]
    &&& forall|i: int| 0 <= i < files.len() && !managed_name(files[i].name@) ==> !#[trigger] removed[i]
    &&& forall|i: int| 0 <= i < files.len() && !files[i].is_file ==> !#[trigger] removed[i]
    &&& forall|i: int, j: int| 0 <= i < files.len() && 0 <= j < files.len()
        && retained_file(files[i], now_ms, retention_ms) && #[trigger] removed[i]
        && retained_file(files[j], now_ms, retention_ms) && !#[trigger] removed[j]
        ==> pruned_first(files, i, j)
    &&& forall|i: int| 0 <= i < files.len() && retained_file(files[i], now_ms, retention_ms) && #[trigger] removed[i]
        ==> kept_bytes(files, removed_before(files, removed, i), now_ms, retention_ms) > max_total
    &&& (kept_bytes(files, removed, now_ms, retention_ms) <= max_total
        || forall|j: int| 0 <= j < files.len() && retained_file(files[j], now_ms, retention_ms) ==> #[trigger] removed[j])
}

/// `kept_bytes` reads the marks of retained files only.
proof fn lemma_kept_bytes_same_marks(files: Seq<ArtifactFile>, m1: Seq<bool>, m2: Seq<bool>, now_ms: u64, retention_ms: u64)
    requires
        m1.len() == files.len(),
        m2.len() == files.len(),
        forall|k: int| 0 <= k < files.len() && retained_file(files[k], now_ms, retention_ms) ==> m1[k] == m2[k],
    ensures
        kept_bytes(files, m1, now_ms, retention_ms) == kept_bytes(files, m2, now_ms, retention_ms),
    decreases files.len(),
{
    if files.len() > 0 {
        let f = files.drop_last();
        assert forall|k: int| 0 <= k < f.len() && retained_file(f[k], now_ms, retention_ms) implies m1.drop_last()[k] == m2.drop_last()[k] by {
            assert(files[k] == f[k]);
        }
        lemma_kept_bytes_same_marks(f, m1.drop_last(), m2.drop_last(), now_ms, retention_ms);
    }
}

proof fn lemma_kept_bytes_update(files: Seq<ArtifactFile>, removed: Seq<bool>, now_ms: u64, retention_ms: u64, k: int)
    requires
        removed.len() == files.len(),
        0 <= k < files.len(),
        retained_file(files[k], now_ms, retention_ms),
        !removed[k],
    ensures
        kept_bytes(files, removed.update(k, true), now_ms, retention_ms) == kept_bytes(files, removed, now_ms, retention_ms) - files[k].size_bytes,
    decreases files.len(),
{
    let r2 = removed.update(k, true);
    if k == files.len() - 1 {
        assert(r2.drop_last() =~= removed.drop_last());
    } else {
        assert(r2.drop_last() =~= removed.drop_last().update(k, true));
        lemma_kept_bytes_update(files.drop_last(), removed.drop_last(), now_ms, retention_ms, k);
    }
}

pub open spec fn count_true(s: Seq<bool>) -> int
    decreases s.len(),
{
    if s.len() == 0 {
        0
    } else {
        count_true(s.drop_last()) + if s.last() { 1int } else { 0int }
    }
}

proof fn lemma_count_true_bound(s: Seq<bool>)
    ensures
        0 <= count_true(s) <= s.len(),
    decreases s.len(),
{
    if s.len() > 0 {
        lemma_count_true_bound(s.drop_last());
    }
}

proof fn lemma_count_true_update(s: Seq<bool>, k: int)
    requires
        0 <= k < s.len(),
        !s[k],
    ensures
        count_true(s.update(k, true)) == count_true(s) + 1,
        count_true(s.update(k, true)) <= s.len(),
    decreases s.len(),
{
    let t = s.update(k, true);
    lemma_count_true_bound(t);
    if k == s.len() - 1 {
        assert(t.drop_last() =~= s.drop_last());
    } else {
        assert(t.drop_last() =~= s.drop_last().update(k, true));
        lemma_count_true_update(s.drop_last(), k);
    }
}

proof fn lemma_kept_bytes_bounds(files: Seq<ArtifactFile>, removed: Seq<bool>, now_ms: u64, retention_ms: u64)
    requires
        removed.len() == files.len(),
    ensures
        0 <= kept_bytes(files, removed, now_ms, retention_ms) <= files.len() * 0x1_0000_0000_0000_0000,
    decreases files.len(),
{
    if files.len() > 0 {
        lemma_kept_bytes_bounds(files.drop_last(), removed.drop_last(), now_ms, retention_ms);
    }
}

/// Decides which files of the artifact directory to delete when the quota starts:
/// expired artifacts, then the oldest retained ones until the rest fit `max_total_bytes`.
/// Returns the deletion marks and the size of what is kept.
pub fn prune_plan(files: &Vec<ArtifactFile>, now_ms: u64, retention_ms: u64, max_total_bytes: u64) -> (r: (Vec<bool>, u128))
    ensures
        is_pruning(files@, r.0@, now_ms, retention_ms, max_total_bytes),
        r.1 == kept_bytes(files@, r.0@, now_ms, retention_ms),
{
    let n = files.len();
    let mut removed: Vec<bool> = Vec::new();
    let mut total: u128 = 0;
    let mut i: usize = 0;
    while i < n
        invariant
            n == files@.len(),
            i <= n,
            removed@.len() == i,
            forall|k: int| 0 <= k < i ==> #[trigger] removed@[k] == expired_file(files@[k], now_ms, retention_ms),
            total == kept_bytes(files@.subrange(0, i as int), removed@, now_ms, retention_ms),
            total <= i * 0x1_0000_0000_0000_0000,
        decreases n - i,
    {
        let f = &files[i];
        let managed = is_managed_artifact(f.name.as_str());
        let age = now_ms.saturating_sub(f.modified_ms);
        let expired = managed && f.is_file && age > retention_ms;
        let retained = managed && f.is_file && age <= retention_ms;
        let ghost before = removed@;
        removed.push(expired);
        proof {
            assert(files@.subrange(0, i + 1).drop_last() =~= files@.subrange(0, i as int));
            assert(removed@.drop_last() =~= before);
        }
        if retained {
            total = total + f.size_bytes as u128;
        }
        proof {
            assert((i + 1) * 0x1_0000_0000_0000_0000 == i * 0x1_0000_0000_0000_0000 + 0x1_0000_0000_0000_0000) by (nonlinear_arith);
        }
        i = i + 1;
    }
    assert(files@.subrange(0, n as int) =~= files@);
    proof {
        lemma_count_true_bound(removed@);
    }
    loop
        invariant
            n == files@.len(),
            removed@.len() == n,
            forall|k: int| 0 <= k < n && expired_file(files@[k], now_ms, retention_ms) ==> #[trigger] removed@[k],
            forall|k: int| 0 <= k < n && !managed_name(files@[k].name@) ==> !#[trigger] removed@[k],
            forall|k: int| 0 <= k < n && !files@[k].is_file ==> !#[trigger] removed@[k],
            forall|a: int, b: int| 0 <= a < n && 0 <= b < n
                && retained_file(files@[a], now_ms, retention_ms) && #[trigger] removed@[a]
                && retained_file(files@[b], now_ms, retention_ms) && !#[trigger] removed@[b]
                ==> pruned_first(files@, a, b),
            forall|a: int| 0 <= a < n && retained_file(files@[a], now_ms, retention_ms) && #[trigger] removed@[a]
                ==> kept_bytes(files@, removed_before(files@, removed@, a), now_ms, retention_ms) > max_total_bytes,
            total == kept_bytes(files@, removed@, now_ms, retention_ms),
            count_true(removed@) <= n,
        ensures
            is_pruning(files@, removed@, now_ms, retention_ms, max_total_bytes),
            total == kept_bytes(files@, removed@, now_ms, retention_ms),
        decreases n - count_true(removed@),
    {
        if total <= max_total_bytes as u128 {
            break;
        }
        let mut oldest: Option<usize> = None;
        let mut j: usize = 0;
        while j < n
            invariant
                n == files@.len(),
                removed@.len() == n,
                j <= n,
                match oldest {
                    Some(o) => o < j && retained_file(files@[o as int], now_ms, retention_ms) && !removed@[o as int]
                        && forall|k: int| 0 <= k < j && k != o && retained_file(files@[k], now_ms, retention_ms) && !#[trigger] removed@[k] ==> pruned_first(files@, o as int, k),
                    None => forall|k: int| 0 <= k < j ==> !(retained_file(files@[k], now_ms, retention_ms) && !#[trigger] removed@[k]),
                },
            decreases n - j,
        {
            let f = &files[j];
            let retained = is_managed_artifact(f.name.as_str()) && f.is_file && now_ms.saturating_sub(f.modified_ms) <= retention_ms;
            if retained && !removed[j] {
                match oldest {
                    Some(o) => {
                        if f.modified_ms < files[o].modified_ms {
                            oldest = Some(j);
                        }
                    },
                    None => {
                        oldest = Some(j);
                    },
                }
            }
            j = j + 1;
        }
        match oldest {
            None => {
                break;
            },
            Some(o) => {
                proof {
                    lemma_count_true_update(removed@, o as int);
                    lemma_kept_bytes_update(files@, removed@, now_ms, retention_ms, o as int);
                    lemma_kept_bytes_bounds(files@, removed@.update(o as int, true), now_ms, retention_ms);
                }
                let ghost before = removed@;
                removed.set(o, true);
                total = total - files[o].size_bytes as u128;
                proof {
                    assert forall|a: int, b: int| 0 <= a < n && 0 <= b < n
                        && retained_file(files@[a], now_ms, retention_ms) && #[trigger] removed@[a]
                        && retained_file(files@[b], now_ms, retention_ms) && !#[trigger] removed@[b]
                        implies pruned_first(files@, a, b) by {
                        if a != o {
                            assert(before[a]);
                            assert(!before[b]);
                        }
                    }
                    assert forall|a: int| 0 <= a < n && retained_file(files@[a], now_ms, retention_ms) && #[trigger] removed@[a]
                        implies kept_bytes(files@, removed_before(files@, removed@, a), now_ms, retention_ms) > max_total_bytes by {
                        if a == o as int {
                            assert forall|k: int| 0 <= k < n && retained_file(files@[k], now_ms, retention_ms)
                                implies removed_before(files@, removed@, a)[k] == before[k] by {
                                if k != a && before[k] {
                                    assert(before[k] && !before[a]);
                                }
                            }
                            lemma_kept_bytes_same_marks(files@, removed_before(files@, removed@, a), before, now_ms, retention_ms);
                        } else {
                            assert(before[a]);
                            assert(!before[o as int]);
                            assert(pruned_first(files@, a, o as int));
                            assert forall|k: int| 0 <= k < n && retained_file(files@[k], now_ms, retention_ms)
                                implies removed_before(files@, removed@, a)[k] == removed_before(files@, before, a)[k] by {
                            }
                            lemma_kept_bytes_same_marks(files@, removed_before(files@, removed@, a), removed_before(files@, before, a), now_ms, retention_ms);
                        }
                    }
                }
            },
        }
    }
    (removed, total)
}

} // verus!
