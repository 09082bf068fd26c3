//! Resource budgets for one tool operation, cooperative cancellation,
//! admission control, and progress-event coalescing.
//!
//! Time is passed in explicitly as milliseconds (or nanoseconds for progress
//! coalescing) on a monotonic clock chosen by the caller.

use vstd::prelude::*;
use crate::error::{RuntimeError, RuntimeResult};
use crate::text::{decimal, extend_str, push_decimal, string_from_chars};

verus! {

/// Limits for one tool operation. `None` means that the corresponding policy
/// layer does not impose a limit; it never removes a limit from another layer.
#[derive(Debug, Clone, Copy)]
pub struct ToolBudget {
    /// Absolute deadline on the caller's millisecond clock.
    pub deadline: Option<u64>,
    pub max_files: Option<u64>,
    pub max_entries: Option<u64>,
    pub max_bytes_read: Option<u64>,
    pub max_bytes_written: Option<u64>,
    pub max_output_bytes: Option<u64>,
    pub max_open_files: Option<u32>,
    pub max_progress_events: Option<u32>,
    pub memory_reservation_bytes: Option<u64>,
}

/// The smaller of two optional limits; an absent limit never wins over a present one.
pub open spec fn lower_spec(left: Option<int>, right: Option<int>) -> Option<int> {
    match (left, right) {
        (Some(l), Some(r)) => Some(if l <= r { l } else { r }),
        (Some(l), None) => Some(l),
        (None, r) => r,
    }
}

pub open spec fn opt64(v: Option<u64>) -> Option<int> {
    match v {
        Some(x) => Some(x as int),
        None => None,
    }
}

pub open spec fn opt32(v: Option<u32>) -> Option<int> {
    match v {
        Some(x) => Some(x as int),
        None => None,
    }
}

/// Number of limits a budget carries (the deadline counts as one).
pub open spec fn num_caps() -> int {
    9
}

/// The `k`-th limit of a budget, as an optional integer.
pub open spec fn cap(b: ToolBudget, k: int) -> Option<int> {
    if k == 0 {
        opt64(b.deadline)
    } else if k == 1 {
        opt64(b.max_files)
    } else if k == 2 {
        opt64(b.max_entries)
    } else if k == 3 {
        opt64(b.max_bytes_read)
    } else if k == 4 {
        opt64(b.max_bytes_written)
    } else if k == 5 {
        opt64(b.max_output_bytes)
    } else if k == 6 {
        opt32(b.max_open_files)
    } else if k == 7 {
        opt32(b.max_progress_events)
    } else {
        opt64(b.memory_reservation_bytes)
    }
}

/// A budget without any limit.
pub open spec fn unlimited() -> ToolBudget {
    ToolBudget {
        deadline: None,
        max_files: None,
        max_entries: None,
        max_bytes_read: None,
        max_bytes_written: None,
        max_output_bytes: None,
        max_open_files: None,
        max_progress_events: None,
        memory_reservation_bytes: None,
    }
}

/// Field-wise intersection of two policy layers.
pub open spec fn combine(a: ToolBudget, b: ToolBudget) -> ToolBudget {
    ToolBudget {
        deadline: lower64(a.deadline, b.deadline),
        max_files: lower64(a.max_files, b.max_files),
        max_entries: lower64(a.max_entries, b.max_entries),
        max_bytes_read: lower64(a.max_bytes_read, b.max_bytes_read),
        max_bytes_written: lower64(a.max_bytes_written, b.max_bytes_written),
        max_output_bytes: lower64(a.max_output_bytes, b.max_output_bytes),
        max_open_files: lower32(a.max_open_files, b.max_open_files),
        max_progress_events: lower32(a.max_progress_events, b.max_progress_events),
        memory_reservation_bytes: lower64(a.memory_reservation_bytes, b.memory_reservation_bytes),
    }
}

pub open spec fn lower64(left: Option<u64>, right: Option<u64>) -> Option<u64> {
    match (left, right) {
        (Some(l), Some(r)) => Some(if l <= r { l } else { r }),
        (Some(l), None) => Some(l),
        (None, r) => r,
    }
}

pub open spec fn lower32(left: Option<u32>, right: Option<u32>) -> Option<u32> {
    match (left, right) {
        (Some(l), Some(r)) => Some(if l <= r { l } else { r }),
        (Some(l), None) => Some(l),
        (None, r) => r,
    }
}

/// Intersection of all policy layers, applied in order.
pub open spec fn intersect_spec(layers: Seq<ToolBudget>) -> ToolBudget
    decreases layers.len(),
{
    if layers.len() == 0 {
        unlimited()
    } else {
        combine(intersect_spec(layers.drop_last()), layers.last())
    }
}

fn lower(left: Option<u64>, right: Option<u64>) -> (r: Option<u64>)
    ensures
        r == lower64(left, right),
{
    match (left, right) {
        (Some(l), Some(r)) => Some(if l <= r { l } else { r }),
        (Some(l), None) => Some(l),
        (None, r) => r,
    }
}

fn lower_u32(left: Option<u32>, right: Option<u32>) -> (r: Option<u32>)
    ensures
        r == lower32(left, right),
{
    match (left, right) {
        (Some(l), Some(r)) => Some(if l <= r { l } else { r }),
        (Some(l), None) => Some(l),
        (None, r) => r,
    }
}

/// The earlier of two optional deadlines.
fn earlier(left: Option<u64>, right: Option<u64>) -> (r: Option<u64>)
    ensures
        r == lower64(left, right),
{
    lower(left, right)
}

impl Default for ToolBudget {
    fn default() -> (b: Self)
        ensures
            b == unlimited(),
    {
        ToolBudget {
            deadline: None,
            max_files: None,
            max_entries: None,
            max_bytes_read: None,
            max_bytes_written: None,
            max_output_bytes: None,
            max_open_files: None,
            max_progress_events: None,
            memory_reservation_bytes: None,
        }
    }
}

impl ToolBudget {
    /// Intersects policy layers. A caller can lower, but never raise, a limit.
    pub fn intersect(layers: &[ToolBudget]) -> (effective: ToolBudget)
        ensures
            effective == intersect_spec(layers@),
    {
        let mut effective = ToolBudget::default();
        let mut i: usize = 0;
        while i < layers.len()
            invariant
                i <= layers.len(),
                effective == intersect_spec(layers@.subrange(0, i as int)),
            decreases layers.len() - i,
        {
            let layer = layers[i];
            effective.deadline = earlier(effective.deadline, layer.deadline);
            effective.max_files = lower(effective.max_files, layer.max_files);
            effective.max_entries = lower(effective.max_entries, layer.max_entries);
            effective.max_bytes_read = lower(effective.max_bytes_read, layer.max_bytes_read);
            effective.max_bytes_written = lower(
                effective.max_bytes_written,
                layer.max_bytes_written,
            );
            effective.max_output_bytes = lower(effective.max_output_bytes, layer.max_output_bytes);
            effective.max_open_files = lower_u32(effective.max_open_files, layer.max_open_files);
            effective.max_progress_events = lower_u32(
                effective.max_progress_events,
                layer.max_progress_events,
            );
            effective.memory_reservation_bytes = lower(
                effective.memory_reservation_bytes,
                layer.memory_reservation_bytes,
            );
            i = i + 1;
            assert(layers@.subrange(0, i as int).drop_last() =~= layers@.subrange(0, i - 1));
        }
        assert(layers@.subrange(0, layers@.len() as int) =~= layers@);
        effective
    }

    /// Sets the deadline `timeout_ms` (at least one millisecond) after `now_ms`,
    /// saturating at the end of the clock.
    pub fn with_timeout(self, now_ms: u64, timeout_ms: u64) -> (b: Self)
        ensures
            b == (ToolBudget {
                deadline: Some(
                    if now_ms + (if timeout_ms == 0 { 1 } else { timeout_ms }) > u64::MAX {
                        u64::MAX
                    } else {
                        (now_ms + (if timeout_ms == 0 { 1 } else { timeout_ms })) as u64
                    },
                ),
                ..self
            }),
    {
        let timeout = if timeout_ms == 0 { 1 } else { timeout_ms };
        ToolBudget { deadline: Some(now_ms.saturating_add(timeout)), ..self }
    }
}

/// Intersection never raises a limit: every limit set by some layer is also set
/// in the intersection, at a value no larger; and a limit is absent from the
/// intersection only when no layer sets it.
pub proof fn lemma_intersect_never_raises(layers: Seq<ToolBudget>, i: int, k: int)
    requires
        0 <= i < layers.len(),
        0 <= k < num_caps(),
    ensures
        cap(layers[i], k) is Some ==> cap(intersect_spec(layers), k) is Some && cap(
            intersect_spec(layers),
            k,
        )->0 <= cap(layers[i], k)->0,
    decreases layers.len(),
{
    if i < layers.len() - 1 {
        lemma_intersect_never_raises(layers.drop_last(), i, k);
    }
}

/// Every limit of the intersection is the limit of some layer.
pub proof fn lemma_intersect_attained(layers: Seq<ToolBudget>, k: int)
    requires
        0 <= k < num_caps(),
        cap(intersect_spec(layers), k) is Some,
    ensures
        exists|i: int| 0 <= i < layers.len() && #[trigger] cap(layers[i], k) == cap(
            intersect_spec(layers),
            k,
        ),
    decreases layers.len(),
{
    if layers.len() > 0 {
        let rest = layers.drop_last();
        let last = layers.len() - 1;
        if cap(intersect_spec(rest), k) is Some && cap(intersect_spec(layers), k) == cap(
            intersect_spec(rest),
            k,
        ) {
            lemma_intersect_attained(rest, k);
            let j = choose|j: int| 0 <= j < rest.len() && #[trigger] cap(rest[j], k) == cap(
                intersect_spec(rest),
                k,
            );
            assert(layers[j] == rest[j]);
        } else {
            assert(cap(layers[last], k) == cap(intersect_spec(layers), k));
        }
    }
}


proof fn lemma_intersect_cap_below(a: Seq<ToolBudget>, b: Seq<ToolBudget>, k: int)
    requires
        0 <= k < num_caps(),
        forall|i: int| 0 <= i < a.len() ==> exists|j: int| 0 <= j < b.len() && #[trigger] b[j] == #[trigger] a[i],
        cap(intersect_spec(a), k) is Some,
    ensures
        cap(intersect_spec(b), k) is Some,
        cap(intersect_spec(b), k)->0 <= cap(intersect_spec(a), k)->0,
{
    lemma_intersect_attained(a, k);
    let i = choose|i: int| 0 <= i < a.len() && #[trigger] cap(a[i], k) == cap(intersect_spec(a), k);
    let j = choose|j: int| 0 <= j < b.len() && #[trigger] b[j] == #[trigger] a[i];
    lemma_intersect_never_raises(b, j, k);
}

/// The order of the policy layers does not matter: two lists made of the same layers
/// (each layer of one is a layer of the other) intersect to the same limits, each the
/// smallest that any layer sets.
pub proof fn lemma_intersect_order_free(a: Seq<ToolBudget>, b: Seq<ToolBudget>)
    requires
        forall|i: int| 0 <= i < a.len() ==> exists|j: int| 0 <= j < b.len() && #[trigger] b[j] == #[trigger] a[i],
        forall|j: int| 0 <= j < b.len() ==> exists|i: int| 0 <= i < a.len() && #[trigger] a[i] == #[trigger] b[j],
    ensures
        intersect_spec(a) == intersect_spec(b),
{
    assert forall|k: int| 0 <= k < num_caps() implies cap(intersect_spec(a), k) == cap(intersect_spec(b), k) by {
        if cap(intersect_spec(a), k) is Some {
            lemma_intersect_cap_below(a, b, k);
            lemma_intersect_cap_below(b, a, k);
        } else if cap(intersect_spec(b), k) is Some {
            lemma_intersect_cap_below(b, a, k);
        }
    }
    let x = intersect_spec(a);
    let y = intersect_spec(b);
    assert(cap(x, 0) == cap(y, 0));
    assert(cap(x, 1) == cap(y, 1));
    assert(cap(x, 2) == cap(y, 2));
    assert(cap(x, 3) == cap(y, 3));
    assert(cap(x, 4) == cap(y, 4));
    assert(cap(x, 5) == cap(y, 5));
    assert(cap(x, 6) == cap(y, 6));
    assert(cap(x, 7) == cap(y, 7));
    assert(cap(x, 8) == cap(y, 8));
}

/// Counters of the work a tool has done.
#[derive(Debug, Clone, Copy, PartialEq, Eq, Structural)]
pub struct BudgetUsage {
    pub files: u64,
    pub entries: u64,
    pub bytes_read: u64,
    pub bytes_written: u64,
    pub output_bytes: u64,
    pub progress_events: u64,
    pub elapsed_ms: u64,
}

/// Usage with every counter at zero.
pub open spec fn zero_usage() -> BudgetUsage {
    BudgetUsage {
        files: 0,
        entries: 0,
        bytes_read: 0,
        bytes_written: 0,
        output_bytes: 0,
        progress_events: 0,
        elapsed_ms: 0,
    }
}

impl Default for BudgetUsage {
    fn default() -> (u: Self)
        ensures
            u == zero_usage(),
    {
        BudgetUsage {
            files: 0,
            entries: 0,
            bytes_read: 0,
            bytes_written: 0,
            output_bytes: 0,
            progress_events: 0,
            elapsed_ms: 0,
        }
    }
}

/// The compact camelCase JSON object that reports a usage.
pub open spec fn usage_json(u: BudgetUsage) -> Seq<char> {
    "{\"files\":"@ + decimal(u.files as nat) + ",\"entries\":"@ + decimal(u.entries as nat)
        + ",\"bytesRead\":"@ + decimal(u.bytes_read as nat) + ",\"bytesWritten\":"@ + decimal(
        u.bytes_written as nat,
    ) + ",\"outputBytes\":"@ + decimal(u.output_bytes as nat) + ",\"progressEvents\":"@
        + decimal(u.progress_events as nat) + ",\"elapsedMs\":"@ + decimal(u.elapsed_ms as nat)
        + "}"@
}

impl BudgetUsage {
    /// Renders the usage as a compact JSON object.
    pub fn to_json(&self) -> (s: String)
        ensures
            s@ == usage_json(*self),
    {
        let mut v: Vec<char> = Vec::new();
        extend_str(&mut v, "{\"files\":");
        push_decimal(&mut v, self.files);
        extend_str(&mut v, ",\"entries\":");
        push_decimal(&mut v, self.entries);
        extend_str(&mut v, ",\"bytesRead\":");
        push_decimal(&mut v, self.bytes_read);
        extend_str(&mut v, ",\"bytesWritten\":");
        push_decimal(&mut v, self.bytes_written);
        extend_str(&mut v, ",\"outputBytes\":");
        push_decimal(&mut v, self.output_bytes);
        extend_str(&mut v, ",\"progressEvents\":");
        push_decimal(&mut v, self.progress_events);
        extend_str(&mut v, ",\"elapsedMs\":");
        push_decimal(&mut v, self.elapsed_ms);
        extend_str(&mut v, "}");
        assert(v@ =~= usage_json(*self));
        string_from_chars(v.as_slice())
    }
}

/// Which counter an operation charges.
#[derive(Debug, Clone, Copy, PartialEq, Eq, Structural)]
pub enum Counter {
    Files,
    Entries,
    BytesRead,
    BytesWritten,
    OutputBytes,
    ProgressEvents,
}

/// The value of one counter.
pub open spec fn counter_value(u: BudgetUsage, c: Counter) -> u64 {
    match c {
        Counter::Files => u.files,
        Counter::Entries => u.entries,
        Counter::BytesRead => u.bytes_read,
        Counter::BytesWritten => u.bytes_written,
        Counter::OutputBytes => u.output_bytes,
        Counter::ProgressEvents => u.progress_events,
    }
}

/// The usage with one counter replaced.
pub open spec fn with_counter(u: BudgetUsage, c: Counter, v: u64) -> BudgetUsage {
    match c {
        Counter::Files => BudgetUsage { files: v, ..u },
        Counter::Entries => BudgetUsage { entries: v, ..u },
        Counter::BytesRead => BudgetUsage { bytes_read: v, ..u },
        Counter::BytesWritten => BudgetUsage { bytes_written: v, ..u },
        Counter::OutputBytes => BudgetUsage { output_bytes: v, ..u },
        Counter::ProgressEvents => BudgetUsage { progress_events: v, ..u },
    }
}

/// The limit a budget sets on one counter.
pub open spec fn counter_limit(b: ToolBudget, c: Counter) -> Option<u64> {
    match c {
        Counter::Files => b.max_files,
        Counter::Entries => b.max_entries,
        Counter::BytesRead => b.max_bytes_read,
        Counter::BytesWritten => b.max_bytes_written,
        Counter::OutputBytes => b.max_output_bytes,
        Counter::ProgressEvents => match b.max_progress_events {
            Some(x) => Some(x as u64),
            None => None,
        },
    }
}

/// The error code reported when a counter's limit would be exceeded.
pub open spec fn counter_code(c: Counter) -> Seq<char> {
    match c {
        Counter::Files => "fileBudgetExceeded"@,
        Counter::Entries => "entryBudgetExceeded"@,
        Counter::BytesRead => "byteBudgetExceeded"@,
        Counter::BytesWritten => "byteBudgetExceeded"@,
        Counter::OutputBytes => "outputBudgetExceeded"@,
        Counter::ProgressEvents => "progressBudgetExceeded"@,
    }
}

pub open spec fn sat_add(a: u64, b: u64) -> u64 {
    if a + b > u64::MAX {
        u64::MAX
    } else {
        (a + b) as u64
    }
}

pub open spec fn sat_sub(a: u64, b: u64) -> u64 {
    if a >= b {
        (a - b) as u64
    } else {
        0
    }
}

/// Tracks what one tool operation has consumed against its budget.
#[derive(Debug, Clone)]
pub struct BudgetTracker {
    pub cancelled: bool,
    pub budget: ToolBudget,
    pub started_ms: u64,
    pub phase: String,
    pub counters: BudgetUsage,
}

/// The outcome of a checkpoint taken at `now_ms`: cancellation wins over the deadline.
pub open spec fn checkpoint_error(t: BudgetTracker, now_ms: u64) -> Option<Seq<char>> {
    if t.cancelled {
        Some("operationCancelled"@)
    } else if t.budget.deadline is Some && now_ms >= t.budget.deadline->0 {
        Some("timeBudgetExceeded"@)
    } else {
        None
    }
}

/// The usage report of a tracker at `now_ms`.
pub open spec fn usage_at(t: BudgetTracker, now_ms: u64) -> BudgetUsage {
    BudgetUsage { elapsed_ms: sat_sub(now_ms, t.started_ms), ..t.counters }
}

/// The message of a budget failure.
pub open spec fn failure_message(t: BudgetTracker, now_ms: u64) -> Seq<char> {
    "tool stopped during "@ + t.phase@ + "; usage="@ + usage_json(usage_at(t, now_ms))
}

/// `e` is the budget failure with code `code` raised by `t` at `now_ms`.
pub open spec fn is_failure(e: RuntimeError, t: BudgetTracker, now_ms: u64, code: Seq<char>, retryable: bool) -> bool {
    &&& e.code@ == code
    &&& e.message@ == failure_message(t, now_ms)
    &&& e.retryable == retryable
    &&& e.phase is Some && e.phase->0@ == t.phase@
    &&& e.usage == Some(usage_at(t, now_ms))
}

impl BudgetTracker {
    /// A fresh tracker for `budget`, started at `started_ms`, in the `starting` phase.
    pub fn new(budget: ToolBudget, started_ms: u64) -> (t: Self)
        ensures
            !t.cancelled,
            t.budget == budget,
            t.started_ms == started_ms,
            t.phase@ == "starting"@,
            t.counters == zero_usage(),
    {
        BudgetTracker {
            cancelled: false,
            budget,
            started_ms,
            phase: "starting".to_owned(),
            counters: BudgetUsage::default(),
        }
    }

    /// Requests cooperative cancellation; later checkpoints fail.
    pub fn cancel(&mut self)
        ensures
            *final(self) == (BudgetTracker { cancelled: true, ..*old(self) }),
    {
        self.cancelled = true;
    }

    /// Names the phase reported by later failures.
    pub fn set_phase(&mut self, phase: &str)
        ensures
            final(self).phase@ == phase@,
            final(self).cancelled == old(self).cancelled,
            final(self).budget == old(self).budget,
            final(self).started_ms == old(self).started_ms,
            final(self).counters == old(self).counters,
    {
        self.phase = phase.to_owned();
    }

    /// Fails when the operation is cancelled or its deadline has passed.
    pub fn checkpoint(&self, now_ms: u64) -> (r: RuntimeResult<()>)
        ensures
            checkpoint_error(*self, now_ms) is None <==> r is Ok,
            r matches Err(e) ==> is_failure(
                e,
                *self,
                now_ms,
                checkpoint_error(*self, now_ms)->0,
                !self.cancelled,
            ),
    {
        if self.cancelled {
            return Err(self.failure("operationCancelled", false, now_ms));
        }
        match self.budget.deadline {
            Some(deadline) if now_ms >= deadline => {
                Err(self.failure("timeBudgetExceeded", true, now_ms))
            },
            _ => Ok(()),
        }
    }

    /// Charges `amount` to `counter`. The counter saturates and never passes its limit:
    /// an amount that would pass it is rejected and nothing is charged.
    pub fn consume(&mut self, counter: Counter, amount: u64, now_ms: u64) -> (r: RuntimeResult<()>)
        ensures
            final(self).cancelled == old(self).cancelled,
            final(self).budget == old(self).budget,
            final(self).started_ms == old(self).started_ms,
            final(self).phase == old(self).phase,
            checkpoint_error(*old(self), now_ms) is Some ==> {
                &&& r matches Err(e) && is_failure(
                    e,
                    *old(self),
                    now_ms,
                    checkpoint_error(*old(self), now_ms)->0,
                    !old(self).cancelled,
                )
                &&& final(self).counters == old(self).counters
            },
            checkpoint_error(*old(self), now_ms) is None ==> ({
                let next = sat_add(counter_value(old(self).counters, counter), amount);
                let limit = counter_limit(old(self).budget, counter);
                if limit is None || next <= limit->0 {
                    r is Ok && final(self).counters == with_counter(
                        old(self).counters,
                        counter,
                        next,
                    )
                } else {
                    &&& r matches Err(e) && is_failure(
                        e,
                        *old(self),
                        now_ms,
                        counter_code(counter),
                        false,
                    )
                    &&& final(self).counters == old(self).counters
                }
            }),
    {
        self.checkpoint(now_ms)?;
        let (current, limit, code) = match counter {
            Counter::Files => (self.counters.files, self.budget.max_files, "fileBudgetExceeded"),
            Counter::Entries => (
                self.counters.entries,
                self.budget.max_entries,
                "entryBudgetExceeded",
            ),
            Counter::BytesRead => (
                self.counters.bytes_read,
                self.budget.max_bytes_read,
                "byteBudgetExceeded",
            ),
            Counter::BytesWritten => (
                self.counters.bytes_written,
                self.budget.max_bytes_written,
                "byteBudgetExceeded",
            ),
            Counter::OutputBytes => (
                self.counters.output_bytes,
                self.budget.max_output_bytes,
                "outputBudgetExceeded",
            ),
            Counter::ProgressEvents => (
                self.counters.progress_events,
                match self.budget.max_progress_events {
                    Some(x) => Some(x as u64),
                    None => None,
                },
                "progressBudgetExceeded",
            ),
        };
        let next = current.saturating_add(amount);
        let allowed = match limit {
            Some(l) => next <= l,
            None => true,
        };
        if !allowed {
            return Err(self.failure(code, false, now_ms));
        }
        self.record(counter, next);
        Ok(())
    }

    fn record(&mut self, counter: Counter, value: u64)
        ensures
            *final(self) == (BudgetTracker {
                counters: with_counter(old(self).counters, counter, value),
                ..*old(self)
            }),
    {
        match counter {
            Counter::Files => self.counters.files = value,
            Counter::Entries => self.counters.entries = value,
            Counter::BytesRead => self.counters.bytes_read = value,
            Counter::BytesWritten => self.counters.bytes_written = value,
            Counter::OutputBytes => self.counters.output_bytes = value,
            Counter::ProgressEvents => self.counters.progress_events = value,
        }
    }

    pub fn consume_files(&mut self, amount: u64, now_ms: u64) -> (r: RuntimeResult<()>)
        ensures
            consumed(*old(self), *final(self), r, Counter::Files, amount, now_ms),
    {
        self.consume(Counter::Files, amount, now_ms)
    }

    pub fn consume_entries(&mut self, amount: u64, now_ms: u64) -> (r: RuntimeResult<()>)
        ensures
            consumed(*old(self), *final(self), r, Counter::Entries, amount, now_ms),
    {
        self.consume(Counter::Entries, amount, now_ms)
    }

    pub fn consume_read_bytes(&mut self, amount: u64, now_ms: u64) -> (r: RuntimeResult<()>)
        ensures
            consumed(*old(self), *final(self), r, Counter::BytesRead, amount, now_ms),
    {
        self.consume(Counter::BytesRead, amount, now_ms)
    }

    pub fn consume_write_bytes(&mut self, amount: u64, now_ms: u64) -> (r: RuntimeResult<()>)
        ensures
            consumed(*old(self), *final(self), r, Counter::BytesWritten, amount, now_ms),
    {
        self.consume(Counter::BytesWritten, amount, now_ms)
    }

    pub fn reserve_output(&mut self, amount: u64, now_ms: u64) -> (r: RuntimeResult<()>)
        ensures
            consumed(*old(self), *final(self), r, Counter::OutputBytes, amount, now_ms),
    {
        self.consume(Counter::OutputBytes, amount, now_ms)
    }

    pub fn consume_progress_event(&mut self, now_ms: u64) -> (r: RuntimeResult<()>)
        ensures
            consumed(*old(self), *final(self), r, Counter::ProgressEvents, 1, now_ms),
    {
        self.consume(Counter::ProgressEvents, 1, now_ms)
    }

    /// Records work without enforcing a limit (for partial results); saturates.
    pub fn record_files(&mut self, amount: u64)
        ensures
            *final(self) == (BudgetTracker {
                counters: with_counter(
                    old(self).counters,
                    Counter::Files,
                    sat_add(old(self).counters.files, amount),
                ),
                ..*old(self)
            }),
    {
        let next = saturating_add(self.counters.files, amount);
        self.record(Counter::Files, next);
    }

    /// Records entries without enforcing a limit; saturates.
    pub fn record_entries(&mut self, amount: u64)
        ensures
            *final(self) == (BudgetTracker {
                counters: with_counter(
                    old(self).counters,
                    Counter::Entries,
                    sat_add(old(self).counters.entries, amount),
                ),
                ..*old(self)
            }),
    {
        let next = saturating_add(self.counters.entries, amount);
        self.record(Counter::Entries, next);
    }

    /// Records bytes read without enforcing a limit; saturates.
    pub fn record_read_bytes(&mut self, amount: u64)
        ensures
            *final(self) == (BudgetTracker {
                counters: with_counter(
                    old(self).counters,
                    Counter::BytesRead,
                    sat_add(old(self).counters.bytes_read, amount),
                ),
                ..*old(self)
            }),
    {
        let next = saturating_add(self.counters.bytes_read, amount);
        self.record(Counter::BytesRead, next);
    }

    /// The counters and the time elapsed since the start.
    pub fn finish_usage(&self, now_ms: u64) -> (u: BudgetUsage)
        ensures
            u == usage_at(*self, now_ms),
    {
        BudgetUsage { elapsed_ms: now_ms.saturating_sub(self.started_ms), ..self.counters }
    }

    fn failure(&self, code: &str, retryable: bool, now_ms: u64) -> (e: RuntimeError)
        ensures
            is_failure(e, *self, now_ms, code@, retryable),
    {
        let usage = self.finish_usage(now_ms);
        let mut message: Vec<char> = Vec::new();
        extend_str(&mut message, "tool stopped during ");
        extend_str(&mut message, self.phase.as_str());
        extend_str(&mut message, "; usage=");
        let json = usage.to_json();
        extend_str(&mut message, json.as_str());
        let mut error = RuntimeError::new(code, "");
        error.message = string_from_chars(message.as_slice());
        error.retryable = retryable;
        error.phase = Some(self.phase.clone());
        error.usage = Some(usage);
        error
    }
}

/// `after` and `r` are what charging `amount` to `counter` at `now_ms` gives from `before`.
pub open spec fn consumed(
    before: BudgetTracker,
    after: BudgetTracker,
    r: RuntimeResult<()>,
    counter: Counter,
    amount: u64,
    now_ms: u64,
) -> bool {
    &&& after.cancelled == before.cancelled
    &&& after.budget == before.budget
    &&& after.started_ms == before.started_ms
    &&& after.phase == before.phase
    &&& checkpoint_error(before, now_ms) is Some ==> {
        &&& r matches Err(e) && is_failure(
            e,
            before,
            now_ms,
            checkpoint_error(before, now_ms)->0,
            !before.cancelled,
        )
        &&& after.counters == before.counters
    }
    &&& checkpoint_error(before, now_ms) is None ==> ({
        let next = sat_add(counter_value(before.counters, counter), amount);
        let limit = counter_limit(before.budget, counter);
        if limit is None || next <= limit->0 {
            r is Ok && after.counters == with_counter(before.counters, counter, next)
        } else {
            &&& r matches Err(e) && is_failure(e, before, now_ms, counter_code(counter), false)
            &&& after.counters == before.counters
        }
    })
}

fn saturating_add(current: u64, amount: u64) -> (r: u64)
    ensures
        r == sat_add(current, amount),
{
    current.saturating_add(amount)
}

/// A counter charged only through `consume` never exceeds its limit: if it was
/// within the limit before, it is within the limit after, whatever the outcome.
pub proof fn lemma_consume_never_overshoots(
    before: BudgetTracker,
    after: BudgetTracker,
    r: RuntimeResult<()>,
    counter: Counter,
    amount: u64,
    now_ms: u64,
)
    requires
        consumed(before, after, r, counter, amount, now_ms),
        counter_limit(before.budget, counter) is Some,
        counter_value(before.counters, counter) <= counter_limit(before.budget, counter)->0,
    ensures
        counter_value(after.counters, counter) <= counter_limit(after.budget, counter)->0,
        r is Ok ==> counter_value(after.counters, counter) == sat_add(
            counter_value(before.counters, counter),
            amount,
        ),
{
}


/// Remaining admission capacity of one actor.
#[derive(Debug, Clone)]
pub struct ActorSlots {
    pub actor: String,
    pub available: usize,
}

/// Rejects work immediately when host, actor, or memory capacity is exhausted.
#[derive(Debug, Clone)]
pub struct AdmissionController {
    pub global_slots: usize,
    pub global_available: usize,
    pub per_actor_limit: usize,
    pub actors: Vec<ActorSlots>,
    pub memory_limit: u64,
    pub memory_used: u64,
}

/// Capacity held by one admitted operation until it is released.
#[derive(Debug, Clone)]
pub struct AdmissionPermit {
    pub actor: String,
    pub weight: usize,
    pub memory: u64,
}

/// The index of `actor`'s slot record, if it has one.
pub open spec fn actor_index(c: AdmissionController, actor: Seq<char>) -> Option<int> {
    if exists|i: int| 0 <= i < c.actors@.len() && #[trigger] c.actors@[i].actor@ == actor {
        Some(choose|i: int| 0 <= i < c.actors@.len() && #[trigger] c.actors@[i].actor@ == actor)
    } else {
        None
    }
}

/// Remaining capacity of an actor; an actor never seen has the full per-actor limit.
pub open spec fn actor_available(c: AdmissionController, actor: Seq<char>) -> int {
    match actor_index(c, actor) {
        Some(i) => c.actors@[i].available as int,
        None => c.per_actor_limit as int,
    }
}

impl AdmissionController {
    /// Well-formedness: one record per actor, and no pool holds more than its size.
    pub open spec fn wf(self) -> bool {
        &&& self.global_available <= self.global_slots
        &&& self.memory_used <= self.memory_limit
        &&& self.per_actor_limit >= 1
        &&& forall|i: int, j: int|
            0 <= i < j < self.actors@.len() ==> #[trigger] self.actors@[i].actor@
                != #[trigger] self.actors@[j].actor@
        &&& forall|i: int|
            0 <= i < self.actors@.len() ==> #[trigger] self.actors@[i].available
                <= self.per_actor_limit
    }

    /// A controller with `global_slots` host slots, `per_actor_limit` slots per actor
    /// (each at least one), and `memory_limit` bytes of memory.
    pub fn new(global_slots: usize, per_actor_limit: usize, memory_limit: u64) -> (c: Self)
        ensures
            c.wf(),
            c.global_slots == (if global_slots == 0 { 1 } else { global_slots }),
            c.global_available == c.global_slots,
            c.per_actor_limit == (if per_actor_limit == 0 { 1 } else { per_actor_limit }),
            c.actors@.len() == 0,
            c.memory_limit == memory_limit,
            c.memory_used == 0,
    {
        let slots = if global_slots == 0 { 1 } else { global_slots };
        AdmissionController {
            global_slots: slots,
            global_available: slots,
            per_actor_limit: if per_actor_limit == 0 { 1 } else { per_actor_limit },
            actors: Vec::new(),
            memory_limit,
            memory_used: 0,
        }
    }

    fn find_actor(&self, actor: &str) -> (r: Option<usize>)
        requires
            self.wf(),
        ensures
            match r {
                Some(i) => i < self.actors@.len() && self.actors@[i as int].actor@ == actor@
                    && actor_index(*self, actor@) == Some(i as int),
                None => actor_index(*self, actor@) is None,
            },
    {
        let mut i: usize = 0;
        while i < self.actors.len()
            invariant
                self.wf(),
                i <= self.actors@.len(),
                forall|k: int| 0 <= k < i ==> #[trigger] self.actors@[k].actor@ != actor@,
            decreases self.actors.len() - i,
        {
            if self.actors[i].actor == actor.to_owned() {
                let ghost j = choose|k: int|
                    0 <= k < self.actors@.len() && #[trigger] self.actors@[k].actor@ == actor@;
                assert(j == i) by {
                    if j != i {
                        if j < i {
                            assert(self.actors@[j].actor@ != self.actors@[i as int].actor@);
                        } else {
                            assert(self.actors@[i as int].actor@ != self.actors@[j].actor@);
                        }
                    }
                }
                return Some(i);
            }
            i = i + 1;
        }
        None
    }

    /// Admits one operation of `weight` host slots (at least one), one actor slot,
    /// and `memory` bytes; rejects with `admissionDenied` when any of them is exhausted.
    /// A rejection takes nothing. The actor is registered either way.
    pub fn try_admit(&mut self, actor: &str, weight: u32, memory: u64) -> (r: RuntimeResult<AdmissionPermit>)
        requires
            old(self).wf(),
        ensures
            final(self).wf(),
            admitted(*old(self), *final(self), actor@, weight, memory, r),
    {
        let weight: usize = if weight == 0 { 1 } else { weight as usize };
        let index = match self.find_actor(actor) {
            Some(i) => i,
            None => {
                let ghost before = *self;
                self.actors.push(ActorSlots { actor: actor.to_owned(), available: self.per_actor_limit });
                let n = self.actors.len() - 1;
                proof {
                    assert forall|i: int, j: int|
                        0 <= i < j < self.actors@.len() implies #[trigger] self.actors@[i].actor@
                        != #[trigger] self.actors@[j].actor@ by {
                        if j == n {
                            assert(before.actors@[i] == self.actors@[i]);
                            assert(!(#[trigger] before.actors@[i].actor@ == actor@));
                        } else {
                            assert(before.actors@[i] == self.actors@[i]);
                            assert(before.actors@[j] == self.actors@[j]);
                        }
                    }
                    assert forall|k: int| 0 <= k < self.actors@.len() && #[trigger] self.actors@[k].actor@ == actor@
                        implies k == n by {
                        if k < n {
                            assert(before.actors@[k] == self.actors@[k]);
                        }
                    }
                    assert(self.actors@[n as int].actor@ == actor@);
                    assert(actor_index(*self, actor@) == Some(n as int));
                    assert forall|a: Seq<char>| a != actor@ implies actor_available(*self, a) == actor_available(before, a) by {
                        if actor_index(before, a) is Some {
                            let k = actor_index(before, a)->0;
                            assert(self.actors@[k] == before.actors@[k]);
                            assert(exists|i: int| 0 <= i < self.actors@.len() && #[trigger] self.actors@[i].actor@ == a);
                            let m = actor_index(*self, a)->0;
                            if m != k {
                                if m == n {
                                    assert(self.actors@[m].actor@ == actor@);
                                } else {
                                    assert(self.actors@[m] == before.actors@[m]);
                                    assert(before.actors@[m].actor@ == a);
                                    if m < k {
                                        assert(before.actors@[m].actor@ != before.actors@[k].actor@);
                                    } else {
                                        assert(before.actors@[k].actor@ != before.actors@[m].actor@);
                                    }
                                }
                            }
                        } else {
                            assert forall|i: int| 0 <= i < self.actors@.len() implies #[trigger] self.actors@[i].actor@ != a by {
                                if i < n {
                                    assert(self.actors@[i] == before.actors@[i]);
                                }
                            }
                        }
                    }
                }
                n
            },
        };
        if self.global_available < weight || self.actors[index].available < 1 {
            return Err(admission_denied());
        }
        let reserved = reserve_memory(self.memory_used, self.memory_limit, memory);
        match reserved {
            None => Err(admission_denied()),
            Some(next) => {
                let ghost mid = *self;
                self.global_available = self.global_available - weight;
                self.memory_used = next;
                let slot = ActorSlots {
                    actor: actor.to_owned(),
                    available: self.actors[index].available - 1,
                };
                self.actors.set(index, slot);
                proof {
                    assert forall|a: Seq<char>| a != actor@ implies actor_available(*self, a) == actor_available(mid, a) by {
                        assert forall|i: int| 0 <= i < self.actors@.len() implies (#[trigger] self.actors@[i].actor@ == a) == (mid.actors@[i].actor@ == a) by {
                            if i != index {
                                assert(self.actors@[i] == mid.actors@[i]);
                            }
                        }
                        if actor_index(mid, a) is Some {
                            let k = actor_index(mid, a)->0;
                            assert(self.actors@[k].actor@ == a);
                            assert(self.actors@[k] == mid.actors@[k]);
                        }
                    }
                    assert(self.actors@[index as int].actor@ == actor@);
                    assert(actor_index(*self, actor@) is Some);
                    let m = actor_index(*self, actor@)->0;
                    if m != index {
                        assert(self.actors@[m] == mid.actors@[m]);
                        assert(mid.actors@[m].actor@ == actor@);
                    }
                }
                Ok(AdmissionPermit { actor: actor.to_owned(), weight, memory })
            },
        }
    }

    /// Returns the capacity a permit holds.
    pub fn release(&mut self, permit: AdmissionPermit)
        requires
            old(self).wf(),
        ensures
            final(self).wf(),
            released(*old(self), *final(self), permit),
    {
        let ghost before = *self;
        match self.find_actor(permit.actor.as_str()) {
            Some(i) => {
                let ghost mid = *self;
                let available = self.actors[i].available;
                let next = if available < self.per_actor_limit { available + 1 } else { available };
                let slot = ActorSlots { actor: permit.actor.clone(), available: next };
                self.actors.set(i, slot);
                proof {
                    assert forall|a: Seq<char>| a != permit.actor@ implies actor_available(*self, a) == actor_available(mid, a) by {
                        assert forall|k: int| 0 <= k < self.actors@.len() implies (#[trigger] self.actors@[k].actor@ == a) == (mid.actors@[k].actor@ == a) by {
                            if k != i {
                                assert(self.actors@[k] == mid.actors@[k]);
                            }
                        }
                        if actor_index(mid, a) is Some {
                            let k = actor_index(mid, a)->0;
                            assert(self.actors@[k].actor@ == a);
                            assert(self.actors@[k] == mid.actors@[k]);
                        }
                    }
                    assert(self.actors@[i as int].actor@ == permit.actor@);
                    let m = actor_index(*self, permit.actor@)->0;
                    if m != i {
                        assert(self.actors@[m] == mid.actors@[m]);
                    }
                    assert forall|i2: int, j: int|
                        0 <= i2 < j < self.actors@.len() implies #[trigger] self.actors@[i2].actor@
                        != #[trigger] self.actors@[j].actor@ by {
                        assert(mid.actors@[i2].actor@ != mid.actors@[j].actor@);
                        if i2 != i {
                            assert(self.actors@[i2] == mid.actors@[i2]);
                        }
                        if j != i {
                            assert(self.actors@[j] == mid.actors@[j]);
                        }
                    }
                }
            },
            None => {},
        }
        let ghost mid2 = *self;
        self.global_available = if self.global_slots - self.global_available < permit.weight {
            self.global_slots
        } else {
            self.global_available + permit.weight
        };
        self.memory_used = self.memory_used.saturating_sub(permit.memory);
        assert(self.actors@ == mid2.actors@);
        assert forall|a: Seq<char>| actor_available(*self, a) == actor_available(mid2, a) by {
            assert(actor_index(*self, a) == actor_index(mid2, a));
        }
    }
}

/// `after` and `r` are what admitting an operation gives from `before`.
pub open spec fn admitted(
    before: AdmissionController,
    after: AdmissionController,
    actor: Seq<char>,
    weight: u32,
    memory: u64,
    r: RuntimeResult<AdmissionPermit>,
) -> bool {
    let w: int = if weight == 0 { 1 } else { weight as int };
    let ok = before.global_available >= w && actor_available(before, actor) >= 1
        && before.memory_used + memory <= before.memory_limit;
    &&& after.global_slots == before.global_slots
    &&& after.per_actor_limit == before.per_actor_limit
    &&& after.memory_limit == before.memory_limit
    &&& forall|a: Seq<char>| a != actor ==> actor_available(after, a) == actor_available(before, a)
    &&& actor_index(after, actor) is Some
    &&& (ok <==> r is Ok)
    &&& r matches Ok(p) ==> {
        &&& p.actor@ == actor
        &&& p.weight == w
        &&& p.memory == memory
        &&& after.global_available == before.global_available - w
        &&& after.memory_used == before.memory_used + memory
        &&& actor_available(after, actor) == actor_available(before, actor) - 1
    }
    &&& r matches Err(e) ==> {
        &&& e.code@ == "admissionDenied"@
        &&& e.retryable
        &&& after.global_available == before.global_available
        &&& after.memory_used == before.memory_used
        &&& actor_available(after, actor) == actor_available(before, actor)
    }
}

/// `after` is what returning `p`'s capacity gives from `before`.
pub open spec fn released(before: AdmissionController, after: AdmissionController, p: AdmissionPermit) -> bool {
    &&& after.global_slots == before.global_slots
    &&& after.per_actor_limit == before.per_actor_limit
    &&& after.memory_limit == before.memory_limit
    &&& after.global_available == (if before.global_available + p.weight > before.global_slots {
        before.global_slots as int
    } else {
        before.global_available + p.weight
    })
    &&& after.memory_used == sat_sub(before.memory_used, p.memory)
    &&& forall|a: Seq<char>| a != p.actor@ ==> actor_available(after, a) == actor_available(before, a)
    &&& actor_index(before, p.actor@) is Some ==> actor_available(after, p.actor@) == (if actor_available(before, p.actor@) < before.per_actor_limit {
        actor_available(before, p.actor@) + 1
    } else {
        actor_available(before, p.actor@)
    })
    &&& actor_index(before, p.actor@) is None ==> actor_available(after, p.actor@) == actor_available(before, p.actor@)
}

/// Releasing an admitted permit gives back exactly what admission took: host slots,
/// actor slots and memory return to their values before admission.
pub proof fn lemma_release_restores_admission(
    s0: AdmissionController,
    s1: AdmissionController,
    s2: AdmissionController,
    actor: Seq<char>,
    weight: u32,
    memory: u64,
    p: AdmissionPermit,
)
    requires
        s0.wf(),
        s1.wf(),
        admitted(s0, s1, actor, weight, memory, Ok(p)),
        released(s1, s2, p),
    ensures
        s2.global_available == s0.global_available,
        s2.memory_used == s0.memory_used,
        forall|a: Seq<char>| actor_available(s2, a) == actor_available(s0, a),
{
    assert forall|a: Seq<char>| actor_available(s2, a) == actor_available(s0, a) by {
        if a == actor {
            let k = actor_index(s0, a);
            if k is Some {
                assert(s0.actors@[k->0].available <= s0.per_actor_limit);
            }
        }
    }
}

fn reserve_memory(used: u64, limit: u64, amount: u64) -> (r: Option<u64>)
    ensures
        match r {
            Some(next) => used + amount <= limit && next == used + amount,
            None => used + amount > limit,
        },
{
    match used.checked_add(amount) {
        Some(next) if next <= limit => Some(next),
        _ => None,
    }
}

fn admission_denied() -> (e: RuntimeError)
    ensures
        e.code@ == "admissionDenied"@,
        e.retryable,
{
    RuntimeError::retryable("admissionDenied", "tool capacity is busy; retry later")
}

/// Coalesces frequent progress and always permits a terminal update.
#[derive(Debug, Clone, Copy)]
pub struct ProgressLimiter {
    /// Minimum time between two emitted events; `None` means events are never spaced out enough.
    pub interval_ns: Option<u64>,
    pub max_events: u32,
    pub emitted: u32,
    pub last_ns: Option<u64>,
}

impl ProgressLimiter {
    /// At most `max_events` non-terminal events, spaced at least one second divided
    /// by `max_events_per_second` apart (never, when that rate is zero).
    pub fn new(max_events_per_second: u32, max_events: u32) -> (l: Self)
        ensures
            l.interval_ns == (if max_events_per_second == 0 {
                None
            } else {
                Some((1_000_000_000int / (max_events_per_second as int)) as u64)
            }),
            l.max_events == max_events,
            l.emitted == 0,
            l.last_ns is None,
    {
        let interval_ns = if max_events_per_second == 0 {
            None
        } else {
            Some(1_000_000_000u64 / (max_events_per_second as u64))
        };
        ProgressLimiter { interval_ns, max_events, emitted: 0, last_ns: None }
    }

    /// Decides whether an event at `now_ns` may be emitted, and counts it if so.
    pub fn should_emit(&mut self, terminal: bool, now_ns: u64) -> (emit: bool)
        ensures
            final(self).interval_ns == old(self).interval_ns,
            final(self).max_events == old(self).max_events,
            terminal ==> emit && *final(self) == *old(self),
            !terminal ==> (emit <==> (old(self).emitted < old(self).max_events && (old(self).last_ns is None || (
                old(self).interval_ns is Some && sat_sub(now_ns, old(self).last_ns->0) >= old(self).interval_ns->0)))),
            !terminal && emit ==> final(self).emitted == old(self).emitted + 1 && final(self).last_ns == Some(now_ns),
            !terminal && emit && old(self).last_ns is Some ==> (old(self).interval_ns is Some
                && sat_sub(now_ns, old(self).last_ns->0) >= old(self).interval_ns->0),
            !terminal && !emit ==> *final(self) == *old(self),
    {
        if terminal {
            return true;
        }
        if self.emitted >= self.max_events {
            return false;
        }
        if let Some(last) = self.last_ns {
            let elapsed = now_ns.saturating_sub(last);
            let spaced = match self.interval_ns {
                Some(interval) => elapsed >= interval,
                None => false,
            };
            if !spaced {
                return false;
            }
        }
        self.emitted = self.emitted + 1;
        self.last_ns = Some(now_ns);
        true
    }
}

/// No more than `max_events` non-terminal events are ever emitted.
pub proof fn lemma_progress_bounded(before: ProgressLimiter, after: ProgressLimiter, terminal: bool, emit: bool, now_ns: u64)
    requires
        before.emitted <= before.max_events,
        after.max_events == before.max_events,
        terminal ==> after == before,
        !terminal && emit ==> before.emitted < before.max_events && after.emitted == before.emitted + 1,
        !terminal && !emit ==> after == before,
    ensures
        after.emitted <= after.max_events,
{
}

} // verus!
