//! Batches of stats and reads under one budget: how many items a batch may hold, how the
//! read budget is shared out among reads, how a stat batch spends its budget item by
//! item, and which read results fit in the batch's output.

use vstd::prelude::*;
use crate::error::{RuntimeError, RuntimeResult};
use crate::text::{decimal, extend_str, push_decimal, str_eq, string_from_chars};
use crate::version::VersionStrength;
use crate::workspace::index::IndexFreshness;

verus! {

pub const HARD_BATCH_STAT_ITEMS: usize = 500;
pub const HARD_BATCH_READ_ITEMS: usize = 50;
pub const HARD_BATCH_OUTPUT_BYTES: usize = 4194304;
pub const MAX_BATCH_TIMEOUT_MS: u64 = 60000;
pub const MAX_BATCH_CONCURRENCY: usize = 16;

/// Why one item of a batch failed.
#[derive(Debug, Clone)]
pub struct BatchItemError {
    pub code: String,
    pub message: String,
}

/// How many items of a batch succeeded and failed.
#[derive(Debug, Clone, Copy, PartialEq, Eq, Structural)]
pub struct FsBatchUsage {
    pub requested: usize,
    pub succeeded: usize,
    pub failed: usize,
}

/// The failure of an item, as the batch reports it.
pub fn batch_error(error: RuntimeError) -> (e: BatchItemError)
    ensures
        e.code == error.code,
        e.message == error.message,
{
    BatchItemError { code: error.code, message: error.message }
}

fn item_error(code: &str, message: &str) -> (e: BatchItemError)
    ensures
        e.code@ == code@,
        e.message@ == message@,
{
    BatchItemError { code: code.to_owned(), message: message.to_owned() }
}

pub open spec fn clamp_usize(v: usize, lo: usize, hi: usize) -> usize {
    if v < lo { lo } else if v > hi { hi } else { v }
}

/// Checks the size of a batch of `len` items against the caller's limit (kept between one
/// and the hard limit); `noun` names the items in the message.
pub fn check_batch_size(len: usize, max_items: usize, hard_limit: usize, noun: &str) -> (r: RuntimeResult<usize>)
    requires
        hard_limit >= 1,
    ensures
        len <= clamp_usize(max_items, 1, hard_limit) ==> r == Ok::<usize, RuntimeError>(clamp_usize(max_items, 1, hard_limit)),
        len > clamp_usize(max_items, 1, hard_limit) ==> (r matches Err(e) && e.code@ == "batch_item_limit"@
            && e.message@ == "batch contains "@ + decimal(len as nat) + " "@ + noun@ + "; limit is "@
                + decimal(clamp_usize(max_items, 1, hard_limit) as nat)),
{
    let limit = if max_items < 1 { 1 } else if max_items > hard_limit { hard_limit } else { max_items };
    if len > limit {
        let mut m: Vec<char> = Vec::new();
        extend_str(&mut m, "batch contains ");
        push_decimal(&mut m, len as u64);
        extend_str(&mut m, " ");
        extend_str(&mut m, noun);
        extend_str(&mut m, "; limit is ");
        push_decimal(&mut m, limit as u64);
        let message = string_from_chars(m.as_slice());
        return Err(RuntimeError::new("batch_item_limit", message.as_str()));
    }
    Ok(limit)
}

/// A batch runs for at most a minute.
pub fn batch_timeout_ms(timeout_ms: u64) -> (r: u64)
    ensures
        r == (if timeout_ms < MAX_BATCH_TIMEOUT_MS { timeout_ms } else { MAX_BATCH_TIMEOUT_MS }),
{
    if timeout_ms < MAX_BATCH_TIMEOUT_MS { timeout_ms } else { MAX_BATCH_TIMEOUT_MS }
}

/// How many bytes a stat of a file of `size` bytes reads to compute its version.
pub open spec fn stat_read_cost(strength: VersionStrength, size: u64) -> u64 {
    match strength {
        VersionStrength::Metadata => 0,
        VersionStrength::Sampled => {
            let m = if size < 65536 { size } else { 65536 };
            (m * 3) as u64
        },
        VersionStrength::Content => size,
    }
}

/// The read cost of a stat.
pub fn stat_hash_read_cost(strength: VersionStrength, size: u64) -> (r: u64)
    ensures
        r == stat_read_cost(strength, size),
{
    match strength {
        VersionStrength::Metadata => 0,
        VersionStrength::Sampled => {
            let m = if size < 65536 { size } else { 65536 };
            m * 3
        },
        VersionStrength::Content => size,
    }
}

/// The limits one stat of a batch runs under.
#[derive(Debug, Clone, Copy, PartialEq, Eq, Structural)]
pub struct StatItemBudget {
    pub timeout_ms: u64,
    pub max_bytes_read: u64,
}

/// A stat batch on its way through its paths.
#[derive(Debug)]
pub struct BatchStatRun {
    pub strength: VersionStrength,
    pub timeout_ms: u64,
    pub metadata_limit: usize,
    pub max_bytes_read: u64,
    pub remaining_bytes: u64,
    pub index_participated: bool,
    pub index_root: Option<String>,
    pub index_generation: Option<u64>,
    pub mixed_index_roots: bool,
    pub stale_entries_detected: u64,
    pub requested: usize,
    pub succeeded: usize,
}

impl BatchStatRun {
    /// What is left of the read budget never exceeds the batch's budget.
    pub open spec fn wf(&self) -> bool {
        &&& self.remaining_bytes <= self.max_bytes_read
        &&& self.succeeded <= self.requested
    }

    /// Starts a batch of `paths` stats.
    pub fn new(
        paths: usize,
        max_items: usize,
        max_metadata_calls: usize,
        timeout_ms: u64,
        max_bytes_read: u64,
        strength: VersionStrength,
    ) -> (r: RuntimeResult<Self>)
        ensures
            paths <= clamp_usize(max_items, 1, HARD_BATCH_STAT_ITEMS) ==> (r matches Ok(b) && {
                &&& b.wf()
                &&& b.strength == strength
                &&& b.timeout_ms == (if timeout_ms < MAX_BATCH_TIMEOUT_MS { timeout_ms } else { MAX_BATCH_TIMEOUT_MS })
                &&& b.metadata_limit == (if max_metadata_calls < HARD_BATCH_STAT_ITEMS { max_metadata_calls } else { HARD_BATCH_STAT_ITEMS })
                &&& b.max_bytes_read == max_bytes_read
                &&& b.remaining_bytes == max_bytes_read
                &&& !b.index_participated && b.index_root is None && b.index_generation is None
                &&& !b.mixed_index_roots && b.stale_entries_detected == 0
                &&& b.requested == 0 && b.succeeded == 0
            }),
            paths > clamp_usize(max_items, 1, HARD_BATCH_STAT_ITEMS) ==> (r matches Err(e) && e.code@ == "batch_item_limit"@),
    {
        check_batch_size(paths, max_items, HARD_BATCH_STAT_ITEMS, "paths")?;
        Ok(BatchStatRun {
            strength,
            timeout_ms: batch_timeout_ms(timeout_ms),
            metadata_limit: if max_metadata_calls < HARD_BATCH_STAT_ITEMS { max_metadata_calls } else { HARD_BATCH_STAT_ITEMS },
            max_bytes_read,
            remaining_bytes: max_bytes_read,
            index_participated: false,
            index_root: None,
            index_generation: None,
            mixed_index_roots: false,
            stale_entries_detected: 0,
            requested: 0,
            succeeded: 0,
        })
    }

    /// Before the `index`-th path is looked at: a cancelled batch, or one past its
    /// metadata calls or its time (`elapsed_ms` so far), fails the item.
    pub fn precheck(&self, index: usize, cancelled: bool, elapsed_ms: u64) -> (r: Option<BatchItemError>)
        ensures
            cancelled ==> (r matches Some(e) && e.code@ == "batch_cancelled"@),
            !cancelled && (index >= self.metadata_limit || elapsed_ms >= self.timeout_ms)
                ==> (r matches Some(e) && e.code@ == "batch_budget_exhausted"@ && e.message@ == "aggregate metadata or time budget exhausted"@),
            !cancelled && !(index >= self.metadata_limit || elapsed_ms >= self.timeout_ms) ==> r is None,
    {
        if cancelled {
            return Some(item_error("batch_cancelled", "batch stat was cancelled"));
        }
        if index >= self.metadata_limit || elapsed_ms >= self.timeout_ms {
            return Some(item_error("batch_budget_exhausted", "aggregate metadata or time budget exhausted"));
        }
        None
    }

    /// The path has an entry in a fresh repository index at `root` of `generation`,
    /// which still matches the file (`current`) or not. The index is used only when every
    /// such entry comes from one root and generation.
    pub fn note_index(&mut self, root: &str, generation: u64, current: bool)
        requires
            old(self).wf(),
        ensures
            final(self).wf(),
            final(self).index_participated,
            final(self).remaining_bytes == old(self).remaining_bytes,
            final(self).max_bytes_read == old(self).max_bytes_read,
            final(self).requested == old(self).requested && final(self).succeeded == old(self).succeeded,
            final(self).strength == old(self).strength && final(self).timeout_ms == old(self).timeout_ms
                && final(self).metadata_limit == old(self).metadata_limit,
            final(self).mixed_index_roots == (old(self).mixed_index_roots || match old(self).index_root {
                Some(r) => r@ != root@ || old(self).index_generation != Some(generation),
                None => false,
            }),
            old(self).index_root is None ==> (final(self).index_root matches Some(r) && r@ == root@)
                && final(self).index_generation == Some(generation),
            old(self).index_root is Some ==> final(self).index_root == old(self).index_root
                && final(self).index_generation == old(self).index_generation,
            final(self).stale_entries_detected == (if current { old(self).stale_entries_detected } else {
                if old(self).stale_entries_detected == u64::MAX { u64::MAX } else { (old(self).stale_entries_detected + 1) as u64 }
            }),
    {
        self.index_participated = true;
        let mixed = match &self.index_root {
            Some(existing) => !str_eq(existing.as_str(), root) || self.index_generation != Some(generation),
            None => false,
        };
        if mixed {
            self.mixed_index_roots = true;
        }
        if self.index_root.is_none() {
            self.index_root = Some(root.to_owned());
            self.index_generation = Some(generation);
        }
        if !current {
            self.stale_entries_detected = self.stale_entries_detected.saturating_add(1);
        }
    }

    /// The limits of the stat of the next path, `elapsed_ms` into the batch; an item fails
    /// when the read budget a version needs, or the time, is used up.
    pub fn item_budget(&self, elapsed_ms: u64) -> (r: Result<StatItemBudget, BatchItemError>)
        ensures
            (self.strength != VersionStrength::Metadata && self.remaining_bytes == 0)
                ==> (r matches Err(e) && e.code@ == "batch_budget_exhausted"@ && e.message@ == "aggregate maxBytesRead budget exhausted"@),
            !(self.strength != VersionStrength::Metadata && self.remaining_bytes == 0) && elapsed_ms >= self.timeout_ms
                ==> (r matches Err(e) && e.code@ == "batch_budget_exhausted"@ && e.message@ == "aggregate time budget exhausted"@),
            !(self.strength != VersionStrength::Metadata && self.remaining_bytes == 0) && elapsed_ms < self.timeout_ms
                ==> r == Ok::<StatItemBudget, BatchItemError>(StatItemBudget {
                    timeout_ms: (self.timeout_ms - elapsed_ms) as u64,
                    max_bytes_read: self.remaining_bytes,
                }),
    {
        if self.strength != VersionStrength::Metadata && self.remaining_bytes == 0 {
            return Err(item_error("batch_budget_exhausted", "aggregate maxBytesRead budget exhausted"));
        }
        let remaining_ms = if elapsed_ms < self.timeout_ms { self.timeout_ms - elapsed_ms } else { 0 };
        if remaining_ms == 0 {
            return Err(item_error("batch_budget_exhausted", "aggregate time budget exhausted"));
        }
        Ok(StatItemBudget { timeout_ms: remaining_ms, max_bytes_read: self.remaining_bytes })
    }

    /// An item of the batch was answered: by a stat of a file of `size` bytes, which
    /// charges its read cost, or by a failure (`None`), which retires the rest of the read
    /// budget when a version needed reading, since the failed read may have spent it.
    pub fn record(&mut self, size: Option<u64>)
        requires
            old(self).wf(),
            old(self).requested < usize::MAX,
        ensures
            final(self).wf(),
            final(self).requested == old(self).requested + 1,
            final(self).succeeded == old(self).succeeded + if size is Some { 1int } else { 0int },
            final(self).remaining_bytes <= old(self).remaining_bytes,
            final(self).remaining_bytes == match size {
                Some(n) => {
                    let c = stat_read_cost(old(self).strength, n);
                    if old(self).remaining_bytes >= c { (old(self).remaining_bytes - c) as u64 } else { 0 }
                },
                None => if old(self).strength != VersionStrength::Metadata { 0 } else { old(self).remaining_bytes },
            },
            final(self).max_bytes_read == old(self).max_bytes_read,
            final(self).strength == old(self).strength && final(self).timeout_ms == old(self).timeout_ms
                && final(self).metadata_limit == old(self).metadata_limit,
            final(self).index_participated == old(self).index_participated,
            final(self).index_root == old(self).index_root && final(self).index_generation == old(self).index_generation,
            final(self).mixed_index_roots == old(self).mixed_index_roots,
            final(self).stale_entries_detected == old(self).stale_entries_detected,
    {
        self.requested = self.requested + 1;
        match size {
            Some(n) => {
                let c = stat_hash_read_cost(self.strength, n);
                self.remaining_bytes = if self.remaining_bytes >= c { self.remaining_bytes - c } else { 0 };
                self.succeeded = self.succeeded + 1;
            },
            None => {
                if self.strength != VersionStrength::Metadata {
                    self.remaining_bytes = 0;
                }
            },
        }
    }

    /// An item failed before its stat ran.
    pub fn record_skipped(&mut self)
        requires
            old(self).wf(),
            old(self).requested < usize::MAX,
        ensures
            final(self).wf(),
            *final(self) == (BatchStatRun { requested: (old(self).requested + 1) as usize, ..*old(self) }),
    {
        self.requested = self.requested + 1;
    }

    /// What the batch reports besides its items: the usage, whether one fresh index
    /// answered for all its entries, that index's generation, and how fresh it was.
    pub fn summary(&self) -> (r: (FsBatchUsage, bool, Option<u64>, IndexFreshness, u64))
        requires
            self.wf(),
        ensures
            r.0 == (FsBatchUsage { requested: self.requested, succeeded: self.succeeded, failed: (self.requested - self.succeeded) as usize }),
            r.1 == (self.index_participated && !self.mixed_index_roots),
            r.2 == (if r.1 { self.index_generation } else { None }),
            r.3 == (if self.stale_entries_detected > 0 {
                IndexFreshness::Stale
            } else if r.1 {
                IndexFreshness::Fresh
            } else {
                IndexFreshness::Unknown
            }),
            r.4 == self.stale_entries_detected,
    {
        let used = self.index_participated && !self.mixed_index_roots;
        let freshness = if self.stale_entries_detected > 0 {
            IndexFreshness::Stale
        } else if used {
            IndexFreshness::Fresh
        } else {
            IndexFreshness::Unknown
        };
        (
            FsBatchUsage { requested: self.requested, succeeded: self.succeeded, failed: self.requested - self.succeeded },
            used,
            if used { self.index_generation } else { None },
            freshness,
            self.stale_entries_detected,
        )
    }
}

/// The read budget given to each read of a batch, in order: a fair share of what is not
/// yet given out (rounded up), but no more than the read asked for.
pub open spec fn shares(total: u64, asked: Seq<u64>, i: int, unassigned: u64) -> Seq<u64>
    decreases asked.len() - i,
{
    if i < 0 || i >= asked.len() {
        Seq::empty()
    } else {
        let divisor = (asked.len() - i) as u64;
        let fair = ((if unassigned + divisor - 1 > u64::MAX { u64::MAX as int } else { unassigned + divisor - 1 }) / divisor as int) as u64;
        let given = if asked[i] < fair { asked[i] } else { fair };
        seq![given] + shares(total, asked, i + 1, (unassigned - given) as u64)
    }
}

pub open spec fn sum_u64(s: Seq<u64>) -> int
    decreases s.len(),
{
    if s.len() == 0 { 0 } else { s[0] + sum_u64(s.drop_first()) }
}

proof fn lemma_fair_share(u: int, d: int, x: int)
    requires
        d >= 1,
        u >= 0,
        0 <= x <= u + d - 1,
    ensures
        x / d <= u,
        0 <= x / d,
{
    assert(x / d <= u) by (nonlinear_arith)
        requires
            d >= 1,
            u >= 0,
            0 <= x <= u + d - 1,
    {
        assert(x < d * (u + 1));
    }
    assert(0 <= x / d) by (nonlinear_arith)
        requires
            d >= 1,
            0 <= x,
    {
    }
}

proof fn lemma_shares_fit(total: u64, asked: Seq<u64>, i: int, unassigned: u64)
    requires
        0 <= i <= asked.len(),
        asked.len() <= u64::MAX,
    ensures
        sum_u64(shares(total, asked, i, unassigned)) <= unassigned,
        shares(total, asked, i, unassigned).len() == asked.len() - i,
        forall|k: int| 0 <= k < asked.len() - i ==> #[trigger] shares(total, asked, i, unassigned)[k] <= asked[i + k],
    decreases asked.len() - i,
{
    if i < asked.len() {
        let divisor = (asked.len() - i) as u64;
        let x = if unassigned + divisor - 1 > u64::MAX { u64::MAX as int } else { unassigned + divisor - 1 };
        lemma_fair_share(unassigned as int, divisor as int, x);
        let fair = (x / divisor as int) as u64;
        let given = if asked[i] < fair { asked[i] } else { fair };
        lemma_shares_fit(total, asked, i + 1, (unassigned - given) as u64);
        let s = shares(total, asked, i, unassigned);
        assert(s.drop_first() =~= shares(total, asked, i + 1, (unassigned - given) as u64));
        assert forall|k: int| 0 <= k < asked.len() - i implies #[trigger] s[k] <= asked[i + k] by {
            if k > 0 {
                assert(s[k] == shares(total, asked, i + 1, (unassigned - given) as u64)[k - 1]);
            }
        }
    }
}

/// Shares out a batch's read budget among its reads, each asking for `asked[i]` bytes.
pub fn assign_read_budgets(total: u64, asked: &Vec<u64>) -> (r: Vec<u64>)
    ensures
        r@ == shares(total, asked@, 0, total),
        r@.len() == asked@.len(),
        sum_u64(r@) <= total,
        forall|k: int| 0 <= k < asked@.len() ==> #[trigger] r@[k] <= asked@[k],
{
    let n = asked.len();
    let mut out: Vec<u64> = Vec::new();
    let mut unassigned = total;
    let mut i: usize = 0;
    proof {
        lemma_shares_fit(total, asked@, 0, total);
    }
    while i < n
        invariant
            n == asked@.len(),
            i <= n,
            out@ + shares(total, asked@, i as int, unassigned) == shares(total, asked@, 0, total),
        decreases n - i,
    {
        let divisor: u64 = (n - i) as u64;
        let fair = unassigned.saturating_add(divisor - 1) / divisor;
        let given = if asked[i] < fair { asked[i] } else { fair };
        proof {
            let s = shares(total, asked@, i as int, unassigned);
            assert(s[0] == given);
            lemma_shares_fit(total, asked@, i as int, unassigned);
            let x = if unassigned + divisor - 1 > u64::MAX { u64::MAX as int } else { unassigned + divisor - 1 };
            lemma_fair_share(unassigned as int, divisor as int, x);
            assert(s.drop_first() =~= shares(total, asked@, i + 1, (unassigned - given) as u64));
            assert(out@.push(given) + s.drop_first() =~= out@ + s);
        }
        out.push(given);
        unassigned = unassigned - given;
        i = i + 1;
    }
    proof {
        assert(shares(total, asked@, n as int, unassigned) =~= Seq::<u64>::empty());
        assert(out@ =~= shares(total, asked@, 0, total));
        lemma_shares_fit(total, asked@, 0, total);
        assert forall|k: int| 0 <= k < asked@.len() implies #[trigger] out@[k] <= asked@[k] by {
            assert(shares(total, asked@, 0, total)[k] <= asked@[0 + k]);
        }
    }
    out
}

/// Which read results fit in the batch's output: in order, each successful read whose
/// content still fits is kept; one that does not fit fails with an output-limit error and
/// marks the batch truncated. `lengths[i]` is the content length of a successful read,
/// `None` for a read that failed.
pub open spec fn fitted(lengths: Seq<Option<usize>>, limit: usize, i: int, used: usize) -> (Seq<bool>, usize, bool)
    decreases lengths.len() - i,
{
    if i < 0 || i >= lengths.len() {
        (Seq::empty(), used, false)
    } else {
        match lengths[i] {
            Some(n) => if used + n <= limit {
                let (rest, u, t) = fitted(lengths, limit, i + 1, (used + n) as usize);
                (seq![true] + rest, u, t)
            } else {
                let (rest, u, t) = fitted(lengths, limit, i + 1, used);
                (seq![false] + rest, u, true)
            },
            None => {
                let (rest, u, t) = fitted(lengths, limit, i + 1, used);
                (seq![false] + rest, u, t)
            },
        }
    }
}

proof fn lemma_fitted_bound(lengths: Seq<Option<usize>>, limit: usize, i: int, used: usize)
    requires
        0 <= i <= lengths.len(),
        used <= limit,
    ensures
        fitted(lengths, limit, i, used).1 <= limit,
        fitted(lengths, limit, i, used).0.len() == lengths.len() - i,
    decreases lengths.len() - i,
{
    if i < lengths.len() {
        match lengths[i] {
            Some(n) => if used + n <= limit {
                lemma_fitted_bound(lengths, limit, i + 1, (used + n) as usize);
            } else {
                lemma_fitted_bound(lengths, limit, i + 1, used);
            },
            None => {
                lemma_fitted_bound(lengths, limit, i + 1, used);
            },
        }
    }
}

/// Decides which read results the batch keeps, within an output limit kept between one
/// byte and four MiB; returns the decisions, the output bytes, and whether any result was
/// cut.
pub fn fit_batch_output(lengths: &Vec<Option<usize>>, max_total_output_bytes: usize) -> (r: (Vec<bool>, usize, bool))
    ensures
        ({
            let limit = clamp_usize(max_total_output_bytes, 1, HARD_BATCH_OUTPUT_BYTES);
            &&& (r.0@, r.1, r.2) == fitted(lengths@, limit, 0, 0)
            &&& r.1 <= limit
            &&& r.0@.len() == lengths@.len()
        }),
{
    let limit = if max_total_output_bytes < 1 {
        1
    } else if max_total_output_bytes > HARD_BATCH_OUTPUT_BYTES {
        HARD_BATCH_OUTPUT_BYTES
    } else {
        max_total_output_bytes
    };
    let ghost whole = fitted(lengths@, limit, 0, 0);
    let mut kept: Vec<bool> = Vec::new();
    let mut used: usize = 0;
    let mut truncated = false;
    let mut i: usize = 0;
    proof {
        lemma_fitted_bound(lengths@, limit, 0, 0);
    }
    while i < lengths.len()
        invariant
            i <= lengths@.len(),
            used <= limit,
            whole == fitted(lengths@, limit, 0, 0),
            ({
                let rest = fitted(lengths@, limit, i as int, used);
                &&& whole.0 == kept@ + rest.0
                &&& whole.1 == rest.1
                &&& whole.2 == (truncated || rest.2)
            }),
        decreases lengths.len() - i,
    {
        let ghost before = fitted(lengths@, limit, i as int, used);
        match lengths[i] {
            Some(n) => {
                if used <= limit && n <= limit - used {
                    proof {
                        assert(before.0 =~= seq![true] + fitted(lengths@, limit, i + 1, (used + n) as usize).0);
                        assert(kept@.push(true) + fitted(lengths@, limit, i + 1, (used + n) as usize).0 =~= kept@ + before.0);
                    }
                    kept.push(true);
                    used = used + n;
                } else {
                    proof {
                        assert(before.0 =~= seq![false] + fitted(lengths@, limit, i + 1, used).0);
                        assert(kept@.push(false) + fitted(lengths@, limit, i + 1, used).0 =~= kept@ + before.0);
                    }
                    kept.push(false);
                    truncated = true;
                }
            },
            None => {
                proof {
                    assert(before.0 =~= seq![false] + fitted(lengths@, limit, i + 1, used).0);
                    assert(kept@.push(false) + fitted(lengths@, limit, i + 1, used).0 =~= kept@ + before.0);
                }
                kept.push(false);
            },
        }
        i = i + 1;
    }
    proof {
        let rest = fitted(lengths@, limit, i as int, used);
        assert(rest.0 =~= Seq::<bool>::empty());
        assert(kept@ =~= whole.0);
        lemma_fitted_bound(lengths@, limit, 0, 0);
    }
    (kept, used, truncated)
}

/// The error of a read result that does not fit in the batch's output.
pub fn output_limit_error() -> (e: BatchItemError)
    ensures
        e.code@ == "batch_output_limit"@,
        e.message@ == "aggregate output byte limit reached"@,
{
    item_error("batch_output_limit", "aggregate output byte limit reached")
}

/// How many reads of a batch run at once: between one and sixteen.
pub fn batch_concurrency(concurrency: usize) -> (r: usize)
    ensures
        r == clamp_usize(concurrency, 1, MAX_BATCH_CONCURRENCY),
{
    if concurrency < 1 { 1 } else if concurrency > MAX_BATCH_CONCURRENCY { MAX_BATCH_CONCURRENCY } else { concurrency }
}

/// The time one read of a batch may take: its own limit, within the batch's.
pub fn read_item_timeout_ms(item_timeout_ms: u64, batch_timeout: u64) -> (r: u64)
    ensures
        r == ({
            let b = if batch_timeout < MAX_BATCH_TIMEOUT_MS { batch_timeout } else { MAX_BATCH_TIMEOUT_MS };
            if item_timeout_ms < b { item_timeout_ms } else { b }
        }),
{
    let b = batch_timeout_ms(batch_timeout);
    if item_timeout_ms < b { item_timeout_ms } else { b }
}

} // verus!
