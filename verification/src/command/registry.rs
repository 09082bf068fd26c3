//! Ownership and idempotency records of command executions.
//!
//! Each (task, agent, idempotency key) runs at most once; a repeated request with the
//! same digest joins or reuses that execution, a different digest is refused. The
//! caller keeps the durable journal: it writes what `claim` and `finish` decide and
//! removes the records of the keys listed in `evicted`.

use vstd::prelude::*;
use super::{
    CommandExecutionResult, CommandIdentity, CommandTerminalState, copy_result, same_identity,
    same_result,
};
use crate::context::opt_view;
use crate::digest::{sha256_hex, spec_sha256_hex};
use crate::error::{RuntimeError, RuntimeResult};
use crate::text::str_eq;

verus! {

pub const JOURNAL_SCHEMA_VERSION: u16 = 1;
pub const MAX_RECORDS: usize = 512;

/// The identity an execution is deduplicated by.
#[derive(Debug, Clone)]
pub struct ExecutionKey {
    pub task_id: String,
    pub agent_id: String,
    pub idempotency_key: String,
}

pub type KeyView = (Seq<char>, Seq<char>, Seq<char>);

pub open spec fn key_view(k: ExecutionKey) -> KeyView {
    (k.task_id@, k.agent_id@, k.idempotency_key@)
}

fn same_key(a: &ExecutionKey, b: &ExecutionKey) -> (r: bool)
    ensures
        r == (key_view(*a) == key_view(*b)),
{
    a.task_id == b.task_id && a.agent_id == b.agent_id && a.idempotency_key == b.idempotency_key
}

fn copy_key(k: &ExecutionKey) -> (r: ExecutionKey)
    ensures
        key_view(r) == key_view(*k),
{
    ExecutionKey { task_id: k.task_id.clone(), agent_id: k.agent_id.clone(), idempotency_key: k.idempotency_key.clone() }
}

/// Whether an execution is still running or what it ended with.
#[derive(Debug)]
pub enum ExecutionState {
    Running,
    Finished(CommandExecutionResult),
}

/// One recorded execution.
#[derive(Debug)]
pub struct ExecutionEntry {
    pub key: ExecutionKey,
    pub execution_id: String,
    pub request_digest: String,
    pub state: ExecutionState,
}

/// What a caller that claims a key is to do.
#[derive(Debug)]
pub enum Claim {
    /// Run the command: the execution is recorded as running under this id.
    Run { execution_id: String },
    /// Another caller is running it: wait for it to finish.
    Wait,
    /// It already finished.
    Finished(CommandExecutionResult),
}

/// The executions of a command service.
#[derive(Debug)]
pub struct CommandExecutionRegistry {
    pub entries: Vec<ExecutionEntry>,
    /// Keys of finished executions, oldest first.
    pub completed_order: Vec<ExecutionKey>,
    /// Set when the journal could not be loaded: every operation then fails with it.
    pub startup_error: Option<RuntimeError>,
    /// Keys whose journal records the caller is to remove.
    pub evicted: Vec<ExecutionKey>,
}

/// The position of the execution recorded under `k`.
pub open spec fn index_of_key(s: Seq<ExecutionEntry>, k: KeyView) -> Option<int> {
    if exists|i: int| 0 <= i < s.len() && key_view(#[trigger] s[i].key) == k {
        Some(choose|i: int| 0 <= i < s.len() && key_view(#[trigger] s[i].key) == k)
    } else {
        None
    }
}

/// No key is recorded twice.
pub open spec fn unique_keys(s: Seq<ExecutionEntry>) -> bool {
    forall|i: int, j: int| 0 <= i < j < s.len() ==> key_view(#[trigger] s[i].key) != key_view(#[trigger] s[j].key)
}

/// What evicting finished executions in completion order does to `entries` while the
/// registry is full: the remaining entries, the remaining order, and the evicted keys.
pub open spec fn evict_spec(entries: Seq<ExecutionEntry>, order: Seq<ExecutionKey>) -> (Seq<ExecutionEntry>, Seq<ExecutionKey>, Seq<KeyView>)
    decreases order.len(),
{
    if entries.len() < MAX_RECORDS || order.len() == 0 {
        (entries, order, Seq::empty())
    } else {
        match index_of_key(entries, key_view(order[0])) {
            Some(i) => {
                let rest = evict_spec(entries.remove(i), order.drop_first());
                (rest.0, rest.1, seq![key_view(order[0])] + rest.2)
            },
            None => evict_spec(entries, order.drop_first()),
        }
    }
}

pub open spec fn key_views(v: Seq<ExecutionKey>) -> Seq<KeyView> {
    v.map_values(|k: ExecutionKey| key_view(k))
}

proof fn lemma_remove_unique(s: Seq<ExecutionEntry>, i: int)
    requires
        unique_keys(s),
        0 <= i < s.len(),
    ensures
        unique_keys(s.remove(i)),
{
    let t = s.remove(i);
    assert forall|a: int, b: int| 0 <= a < b < t.len() implies key_view(#[trigger] t[a].key) != key_view(#[trigger] t[b].key) by {
        let a2 = if a < i { a } else { a + 1 };
        let b2 = if b < i { b } else { b + 1 };
        assert(t[a] == s[a2]);
        assert(t[b] == s[b2]);
    }
}

/// The state of the registry after `claim`, `finish` or a lookup.
pub open spec fn same_registry(before: CommandExecutionRegistry, after: CommandExecutionRegistry) -> bool {
    &&& after.entries@ == before.entries@
    &&& key_views(after.completed_order@) == key_views(before.completed_order@)
    &&& after.startup_error == before.startup_error
    &&& key_views(after.evicted@) == key_views(before.evicted@)
}

impl CommandExecutionRegistry {
    /// Every key is recorded once.
    pub open spec fn wf(self) -> bool {
        unique_keys(self.entries@)
    }

    /// An empty registry.
    pub fn new() -> (r: Self)
        ensures
            r.wf(),
            r.entries@.len() == 0,
            r.completed_order@.len() == 0,
            r.startup_error is None,
            r.evicted@.len() == 0,
    {
        CommandExecutionRegistry { entries: Vec::new(), completed_order: Vec::new(), startup_error: None, evicted: Vec::new() }
    }

    /// A registry whose journal could not be loaded: every operation fails with `error`.
    pub fn unavailable(error: RuntimeError) -> (r: Self)
        ensures
            r.wf(),
            r.entries@.len() == 0,
            r.startup_error == Some(error),
    {
        CommandExecutionRegistry { entries: Vec::new(), completed_order: Vec::new(), startup_error: Some(error), evicted: Vec::new() }
    }

    fn ensure_available(&self) -> (r: RuntimeResult<()>)
        ensures
            self.startup_error is None <==> r is Ok,
            r matches Err(e) ==> e.code@ == self.startup_error->0.code@ && e.message@ == self.startup_error->0.message@,
    {
        match &self.startup_error {
            Some(e) => Err(e.duplicate()),
            None => Ok(()),
        }
    }

    /// The position of the execution recorded under `key`.
    pub fn find(&self, key: &ExecutionKey) -> (r: Option<usize>)
        requires
            self.wf(),
        ensures
            match r {
                Some(i) => i < self.entries@.len() && index_of_key(self.entries@, key_view(*key)) == Some(i as int),
                None => index_of_key(self.entries@, key_view(*key)) is None,
            },
    {
        let mut i: usize = 0;
        while i < self.entries.len()
            invariant
                self.wf(),
                i <= self.entries@.len(),
                forall|k: int| 0 <= k < i ==> key_view(#[trigger] self.entries@[k].key) != key_view(*key),
            decreases self.entries.len() - i,
        {
            if same_key(&self.entries[i].key, key) {
                let ghost j = choose|k: int| 0 <= k < self.entries@.len() && key_view(#[trigger] self.entries@[k].key) == key_view(*key);
                assert(j == i) by {
                    if j < i {
                        assert(key_view(self.entries@[j].key) != key_view(self.entries@[i as int].key));
                    } else if j > i {
                        assert(key_view(self.entries@[i as int].key) != key_view(self.entries@[j].key));
                    }
                }
                return Some(i);
            }
            i = i + 1;
        }
        None
    }

    /// Evicts finished executions, oldest first, until the registry has room.
    pub fn evict_completed(&mut self)
        requires
            old(self).wf(),
        ensures
            final(self).wf(),
            final(self).entries@ == evict_spec(old(self).entries@, old(self).completed_order@).0,
            final(self).completed_order@ == evict_spec(old(self).entries@, old(self).completed_order@).1,
            key_views(final(self).evicted@) == key_views(old(self).evicted@) + evict_spec(old(self).entries@, old(self).completed_order@).2,
            final(self).startup_error == old(self).startup_error,
    {
        let ghost target = evict_spec(self.entries@, self.completed_order@);
        let ghost evicted0 = key_views(self.evicted@);
        while self.entries.len() >= MAX_RECORDS && self.completed_order.len() > 0
            invariant
                self.wf(),
                evict_spec(self.entries@, self.completed_order@).0 == target.0,
                evict_spec(self.entries@, self.completed_order@).1 == target.1,
                evicted0 + target.2 == key_views(self.evicted@) + evict_spec(self.entries@, self.completed_order@).2,
                self.startup_error == old(self).startup_error,
            decreases self.completed_order@.len(),
        {
            let ghost e0 = self.entries@;
            let ghost o0 = self.completed_order@;
            let key = self.completed_order.remove(0);
            assert(self.completed_order@ =~= o0.drop_first());
            match self.find(&key) {
                Some(i) => {
                    proof {
                        lemma_remove_unique(e0, i as int);
                    }
                    let ghost v0 = key_views(self.evicted@);
                    self.entries.remove(i);
                    self.evicted.push(key);
                    proof {
                        assert(key_views(self.evicted@) =~= v0.push(key_view(o0[0])));
                        let rest = evict_spec(e0.remove(i as int), o0.drop_first());
                        assert(evict_spec(e0, o0).2 == seq![key_view(o0[0])] + rest.2);
                        assert(v0 + (seq![key_view(o0[0])] + rest.2) =~= v0.push(key_view(o0[0])) + rest.2);
                    }
                },
                None => {},
            }
        }
        assert(evict_spec(self.entries@, self.completed_order@).2 =~= Seq::<KeyView>::empty());
        assert(key_views(self.evicted@) + Seq::<KeyView>::empty() =~= key_views(self.evicted@));
    }
}

proof fn lemma_evict_keeps_absent(e: Seq<ExecutionEntry>, o: Seq<ExecutionKey>, k: KeyView)
    requires
        unique_keys(e),
        index_of_key(e, k) is None,
    ensures
        unique_keys(evict_spec(e, o).0),
        index_of_key(evict_spec(e, o).0, k) is None,
    decreases o.len(),
{
    if e.len() < MAX_RECORDS || o.len() == 0 {
    } else {
        match index_of_key(e, key_view(o[0])) {
            Some(i) => {
                lemma_remove_unique(e, i);
                let t = e.remove(i);
                assert forall|j: int| 0 <= j < t.len() implies key_view(#[trigger] t[j].key) != k by {
                    let j2 = if j < i { j } else { j + 1 };
                    assert(t[j] == e[j2]);
                }
                lemma_evict_keeps_absent(t, o.drop_first(), k);
            },
            None => {
                lemma_evict_keeps_absent(e, o.drop_first(), k);
            },
        }
    }
}

/// The result of `claim` on `before`, leaving `after`.
pub open spec fn claimed(
    before: CommandExecutionRegistry,
    after: CommandExecutionRegistry,
    key: KeyView,
    digest: Seq<char>,
    execution_id: Seq<char>,
    r: RuntimeResult<Claim>,
) -> bool {
    if before.startup_error is Some {
        r matches Err(x) && x.code@ == before.startup_error->0.code@ && same_registry(before, after)
    } else {
        match index_of_key(before.entries@, key) {
            Some(i) => {
                let e = before.entries@[i];
                &&& same_registry(before, after)
                &&& if e.request_digest@ != digest {
                    r matches Err(x) && x.code@ == "idempotency_conflict"@
                } else {
                    match e.state {
                        ExecutionState::Running => r matches Ok(Claim::Wait),
                        ExecutionState::Finished(res) => r matches Ok(Claim::Finished(c)) && same_result(c, res),
                    }
                }
            },
            None => {
                let ev = evict_spec(before.entries@, before.completed_order@);
                &&& key_views(after.evicted@) == key_views(before.evicted@) + ev.2
                &&& after.completed_order@ == ev.1
                &&& after.startup_error == before.startup_error
                &&& if ev.0.len() >= MAX_RECORDS {
                    r matches Err(x) && x.code@ == "busy"@ && after.entries@ == ev.0
                } else {
                    &&& r matches Ok(Claim::Run { execution_id: id }) && id@ == execution_id
                    &&& after.entries@.len() == ev.0.len() + 1
                    &&& after.entries@.drop_last() == ev.0
                    &&& key_view(after.entries@.last().key) == key
                    &&& after.entries@.last().execution_id@ == execution_id
                    &&& after.entries@.last().request_digest@ == digest
                    &&& after.entries@.last().state is Running
                }
            },
        }
    }
}

/// The last recorded execution with this id.
pub open spec fn index_of_execution(s: Seq<ExecutionEntry>, id: Seq<char>) -> Option<int>
    decreases s.len(),
{
    if s.len() == 0 {
        None
    } else if s.last().execution_id@ == id {
        Some(s.len() - 1)
    } else {
        index_of_execution(s.drop_last(), id)
    }
}

/// The result recorded under `key`, if it has finished.
pub open spec fn finished_result(s: Seq<ExecutionEntry>, key: KeyView) -> Option<CommandExecutionResult> {
    match index_of_key(s, key) {
        Some(i) => match s[i].state {
            ExecutionState::Finished(res) => Some(res),
            ExecutionState::Running => None,
        },
        None => None,
    }
}

impl CommandExecutionRegistry {
    /// Claims `key` for a request with `digest`. A new key is recorded as running under
    /// the fresh `execution_id` (after evicting old finished executions if the registry is
    /// full); a known key with the same digest is joined or reused; a different digest is
    /// an idempotency conflict.
    pub fn claim(&mut self, key: &ExecutionKey, request_digest: &str, execution_id: &str) -> (r: RuntimeResult<Claim>)
        requires
            old(self).wf(),
        ensures
            final(self).wf(),
            claimed(*old(self), *final(self), key_view(*key), request_digest@, execution_id@, r),
    {
        self.ensure_available()?;
        if let Some(i) = self.find(key) {
            let e = &self.entries[i];
            if !str_eq(e.request_digest.as_str(), request_digest) {
                return Err(RuntimeError::new("idempotency_conflict", "idempotency key was already used for a different command"));
            }
            return Ok(match &e.state {
                ExecutionState::Running => Claim::Wait,
                ExecutionState::Finished(result) => Claim::Finished(copy_result(result)),
            });
        }
        proof {
            lemma_evict_keeps_absent(self.entries@, self.completed_order@, key_view(*key));
        }
        self.evict_completed();
        if self.entries.len() >= MAX_RECORDS {
            return Err(RuntimeError::busy("command execution registry is full"));
        }
        let ghost before = self.entries@;
        self.entries.push(ExecutionEntry {
            key: copy_key(key),
            execution_id: execution_id.to_owned(),
            request_digest: request_digest.to_owned(),
            state: ExecutionState::Running,
        });
        proof {
            assert(self.entries@.drop_last() =~= before);
            assert forall|a: int, b: int| 0 <= a < b < self.entries@.len() implies key_view(#[trigger] self.entries@[a].key) != key_view(#[trigger] self.entries@[b].key) by {
                if b == before.len() {
                    assert(self.entries@[a] == before[a]);
                    assert(!(key_view(#[trigger] before[a].key) == key_view(*key)));
                } else {
                    assert(key_view(before[a].key) != key_view(before[b].key));
                }
            }
        }
        Ok(Claim::Run { execution_id: execution_id.to_owned() })
    }

    /// Withdraws a claim whose journal record could not be written.
    pub fn rollback_claim(&mut self, key: &ExecutionKey, execution_id: &str)
        requires
            old(self).wf(),
        ensures
            final(self).wf(),
            final(self).startup_error == old(self).startup_error,
            key_views(final(self).completed_order@) == key_views(old(self).completed_order@),
            key_views(final(self).evicted@) == key_views(old(self).evicted@),
            match index_of_key(old(self).entries@, key_view(*key)) {
                Some(i) => if old(self).entries@[i].execution_id@ == execution_id@ {
                    final(self).entries@ == old(self).entries@.remove(i)
                } else {
                    final(self).entries@ == old(self).entries@
                },
                None => final(self).entries@ == old(self).entries@,
            },
    {
        if let Some(i) = self.find(key) {
            if str_eq(self.entries[i].execution_id.as_str(), execution_id) {
                proof {
                    lemma_remove_unique(self.entries@, i as int);
                }
                self.entries.remove(i);
            }
        }
    }

    /// The result recorded under `key`, if it has finished.
    pub fn finished(&self, key: &ExecutionKey) -> (r: RuntimeResult<Option<CommandExecutionResult>>)
        requires
            self.wf(),
        ensures
            self.startup_error is Some ==> (r matches Err(x) && x.code@ == self.startup_error->0.code@),
            self.startup_error is None ==> match finished_result(self.entries@, key_view(*key)) {
                Some(res) => r matches Ok(Some(c)) && same_result(c, res),
                None => r == Ok::<Option<CommandExecutionResult>, RuntimeError>(None),
            },
    {
        self.ensure_available()?;
        match self.find(key) {
            Some(i) => match &self.entries[i].state {
                ExecutionState::Finished(result) => Ok(Some(copy_result(result))),
                ExecutionState::Running => Ok(None),
            },
            None => Ok(None),
        }
    }

    /// Records the result of the execution running under `key`; a second result for an
    /// execution that already finished is ignored.
    pub fn finish(&mut self, key: &ExecutionKey, result: CommandExecutionResult) -> (r: RuntimeResult<()>)
        requires
            old(self).wf(),
        ensures
            final(self).wf(),
            old(self).startup_error is Some ==> (r matches Err(x) && x.code@ == old(self).startup_error->0.code@ && same_registry(*old(self), *final(self))),
            old(self).startup_error is None ==> match index_of_key(old(self).entries@, key_view(*key)) {
                None => r matches Err(x) && x.code@ == "execution_not_found"@ && same_registry(*old(self), *final(self)),
                Some(i) => {
                    let e = old(self).entries@[i];
                    &&& r is Ok
                    &&& final(self).startup_error == old(self).startup_error
                    &&& key_views(final(self).evicted@) == key_views(old(self).evicted@)
                    &&& if e.state is Running {
                        &&& final(self).entries@ == old(self).entries@.update(i, ExecutionEntry { state: ExecutionState::Finished(result), ..e })
                        &&& key_views(final(self).completed_order@) == key_views(old(self).completed_order@).push(key_view(*key))
                    } else {
                        same_registry(*old(self), *final(self))
                    }
                },
            },
    {
        self.ensure_available()?;
        let i = match self.find(key) {
            Some(i) => i,
            None => return Err(RuntimeError::new("execution_not_found", "command execution was not found")),
        };
        if let ExecutionState::Finished(_) = &self.entries[i].state {
            return Ok(());
        }
        let ghost before = self.entries@;
        let ghost order = key_views(self.completed_order@);
        let old_entry = self.entries.remove(i);
        let entry = ExecutionEntry {
            key: old_entry.key,
            execution_id: old_entry.execution_id,
            request_digest: old_entry.request_digest,
            state: ExecutionState::Finished(result),
        };
        self.entries.insert(i, entry);
        self.completed_order.push(copy_key(key));
        proof {
            assert(self.entries@ =~= before.update(i as int, self.entries@[i as int]));
            assert(key_views(self.completed_order@) =~= order.push(key_view(*key)));
            assert forall|a: int, b: int| 0 <= a < b < self.entries@.len() implies key_view(#[trigger] self.entries@[a].key) != key_view(#[trigger] self.entries@[b].key) by {
                assert(key_view(before[a].key) != key_view(before[b].key));
            }
        }
        Ok(())
    }

    /// The finished result of execution `execution_id`, for its own task and agent only.
    pub fn result(&self, task_id: &str, agent_id: &str, execution_id: &str) -> (r: RuntimeResult<CommandExecutionResult>)
        requires
            self.wf(),
        ensures
            self.startup_error is Some ==> (r matches Err(x) && x.code@ == self.startup_error->0.code@),
            self.startup_error is None ==> match index_of_execution(self.entries@, execution_id@) {
                None => r matches Err(x) && x.code@ == "execution_not_found"@,
                Some(i) => {
                    let e = self.entries@[i];
                    if e.key.task_id@ != task_id@ || e.key.agent_id@ != agent_id@ {
                        r matches Err(x) && x.code@ == "execution_not_found"@
                    } else {
                        match e.state {
                            ExecutionState::Running => r matches Err(x) && x.code@ == "execution_running"@,
                            ExecutionState::Finished(res) => r matches Ok(c) && same_result(c, res),
                        }
                    }
                },
            },
    {
        self.ensure_available()?;
        let mut i: usize = self.entries.len();
        assert(self.entries@.subrange(0, i as int) =~= self.entries@);
        while i > 0
            invariant
                i <= self.entries@.len(),
                index_of_execution(self.entries@, execution_id@) == index_of_execution(self.entries@.subrange(0, i as int), execution_id@),
            ensures
                i <= self.entries@.len(),
                i == 0 ==> index_of_execution(self.entries@, execution_id@) is None,
                i > 0 ==> index_of_execution(self.entries@, execution_id@) == Some(i - 1),
            decreases i,
        {
            let ghost p = self.entries@.subrange(0, i as int);
            assert(p.drop_last() =~= self.entries@.subrange(0, i - 1));
            if str_eq(self.entries[i - 1].execution_id.as_str(), execution_id) {
                break;
            }
            i = i - 1;
        }
        if i == 0 {
            return Err(RuntimeError::new("execution_not_found", "command execution was not found"));
        }
        let e = &self.entries[i - 1];
        if !str_eq(e.key.task_id.as_str(), task_id) || !str_eq(e.key.agent_id.as_str(), agent_id) {
            return Err(RuntimeError::new("execution_not_found", "command execution was not found"));
        }
        match &e.state {
            ExecutionState::Running => Err(RuntimeError::new("execution_running", "command execution has not reached a terminal state")),
            ExecutionState::Finished(result) => Ok(copy_result(result)),
        }
    }
}

/// A key runs at most once: after a claim that started a run, a later claim of the same
/// key (with any digest, any fresh id) never starts another run.
pub proof fn lemma_claim_runs_once(
    r0: CommandExecutionRegistry,
    r1: CommandExecutionRegistry,
    r2: CommandExecutionRegistry,
    key: KeyView,
    digest1: Seq<char>,
    digest2: Seq<char>,
    id1: Seq<char>,
    id2: Seq<char>,
    c1: RuntimeResult<Claim>,
    c2: RuntimeResult<Claim>,
)
    requires
        r1.wf(),
        claimed(r0, r1, key, digest1, id1, c1),
        c1 matches Ok(Claim::Run { .. }),
        claimed(r1, r2, key, digest2, id2, c2),
    ensures
        !(c2 matches Ok(Claim::Run { .. })),
        digest2 == digest1 ==> c2 matches Ok(Claim::Wait),
{
    let n = r1.entries@.len() - 1;
    assert(key_view(r1.entries@[n].key) == key);
    let i = index_of_key(r1.entries@, key)->0;
    if i != n {
        if i < n {
            assert(key_view(r1.entries@[i].key) != key_view(r1.entries@[n].key));
        } else {
            assert(key_view(r1.entries@[n].key) != key_view(r1.entries@[i].key));
        }
    }
}

/// Once an execution has finished, claiming its key with the same digest reuses the
/// recorded result instead of running the command again.
pub proof fn lemma_finished_claim_reuses_result(
    r1: CommandExecutionRegistry,
    r2: CommandExecutionRegistry,
    key: KeyView,
    digest: Seq<char>,
    id: Seq<char>,
    c: RuntimeResult<Claim>,
)
    requires
        r1.startup_error is None,
        finished_result(r1.entries@, key) is Some,
        r1.entries@[index_of_key(r1.entries@, key)->0].request_digest@ == digest,
        claimed(r1, r2, key, digest, id, c),
    ensures
        c matches Ok(Claim::Finished(res)) && same_result(res, finished_result(r1.entries@, key)->0),
        same_registry(r1, r2),
{
}

impl CommandExecutionRegistry {
    /// Records a finished execution read back from the journal (replacing any record of
    /// the same key) and queues it for eviction in completion order.
    pub fn insert_finished(&mut self, key: ExecutionKey, request_digest: String, result: CommandExecutionResult)
        requires
            old(self).wf(),
        ensures
            final(self).wf(),
            final(self).startup_error == old(self).startup_error,
            key_views(final(self).evicted@) == key_views(old(self).evicted@),
            key_views(final(self).completed_order@) == key_views(old(self).completed_order@).push(key_view(key)),
            ({
                let s = final(self).entries@;
                let e = ExecutionEntry { key: s[index_of_key(s, key_view(key))->0].key, execution_id: s[index_of_key(s, key_view(key))->0].execution_id, request_digest, state: ExecutionState::Finished(result) };
                &&& index_of_key(s, key_view(key)) is Some
                &&& s[index_of_key(s, key_view(key))->0] == e
                &&& key_view(e.key) == key_view(key)
                &&& e.execution_id@ == result.execution_id@
                &&& match index_of_key(old(self).entries@, key_view(key)) {
                    Some(i) => s == old(self).entries@.update(i, e),
                    None => s == old(self).entries@.push(e),
                }
            }),
    {
        let ghost before = self.entries@;
        let ghost order = key_views(self.completed_order@);
        self.completed_order.push(copy_key(&key));
        proof {
            assert(key_views(self.completed_order@) =~= order.push(key_view(key)));
        }
        let entry = ExecutionEntry {
            key,
            execution_id: result.execution_id.clone(),
            request_digest,
            state: ExecutionState::Finished(result),
        };
        let ghost e = entry;
        match self.find(&entry.key) {
            Some(i) => {
                self.entries.remove(i);
                self.entries.insert(i, entry);
                proof {
                    assert(self.entries@ =~= before.update(i as int, e));
                    assert forall|a: int, b: int| 0 <= a < b < self.entries@.len() implies key_view(#[trigger] self.entries@[a].key) != key_view(#[trigger] self.entries@[b].key) by {
                        assert(key_view(before[a].key) != key_view(before[b].key));
                    }
                    let k = index_of_key(self.entries@, key_view(e.key))->0;
                    assert(key_view(self.entries@[i as int].key) == key_view(e.key));
                    if k != i {
                        if k < i {
                            assert(key_view(self.entries@[k].key) != key_view(self.entries@[i as int].key));
                        } else {
                            assert(key_view(self.entries@[i as int].key) != key_view(self.entries@[k].key));
                        }
                    }
                }
            },
            None => {
                self.entries.push(entry);
                proof {
                    assert(self.entries@ =~= before.push(e));
                    let n = before.len() as int;
                    assert forall|a: int, b: int| 0 <= a < b < self.entries@.len() implies key_view(#[trigger] self.entries@[a].key) != key_view(#[trigger] self.entries@[b].key) by {
                        if b == n {
                            assert(self.entries@[a] == before[a]);
                            assert(!(key_view(#[trigger] before[a].key) == key_view(e.key)));
                        } else {
                            assert(key_view(before[a].key) != key_view(before[b].key));
                        }
                    }
                    assert(key_view(self.entries@[n].key) == key_view(e.key));
                    let k = index_of_key(self.entries@, key_view(e.key))->0;
                    if k != n {
                        assert(self.entries@[k] == before[k]);
                        assert(!(key_view(#[trigger] before[k].key) == key_view(e.key)));
                    }
                }
            },
        }
    }
}

/// The result recorded for an execution that was still running when the host stopped:
/// its outcome is unknown and it is never run again.
pub fn orphaned_result(execution_id: String, command: CommandIdentity, cwd: String, started_at_unix_ms: u64, finished_at_unix_ms: u64) -> (r: CommandExecutionResult)
    ensures
        r.execution_id == execution_id,
        r.terminal_state == CommandTerminalState::Unknown,
        r.command == command,
        r.cwd == cwd,
        r.exit_code is None,
        r.signal is None,
        !r.timed_out,
        !r.cancelled,
        r.started_at_unix_ms == started_at_unix_ms,
        r.finished_at_unix_ms == finished_at_unix_ms,
        r.elapsed_ms == 0,
        r.stdout@.len() == 0,
        r.stderr@ == "command outcome is unknown because the host restarted during execution"@,
        r.stdout_bytes == 0,
        r.stderr_bytes == 0,
        !r.truncated,
        opt_view(r.truncation_reason) == Some("hostRestarted"@),
        r.artifact_ref is None,
        r.artifact_bytes == 0,
        r.artifact_sha256 is None,
        r.source_state_before is None,
        r.source_state_after is None,
        !r.reused,
{
    CommandExecutionResult {
        execution_id,
        terminal_state: CommandTerminalState::Unknown,
        command,
        cwd,
        exit_code: None,
        signal: None,
        timed_out: false,
        cancelled: false,
        started_at_unix_ms,
        finished_at_unix_ms,
        elapsed_ms: 0,
        stdout: String::new(),
        stderr: "command outcome is unknown because the host restarted during execution".to_owned(),
        stdout_bytes: 0,
        stderr_bytes: 0,
        truncated: false,
        truncation_reason: Some("hostRestarted".to_owned()),
        artifact_ref: None,
        artifact_bytes: 0,
        artifact_sha256: None,
        source_state_before: None,
        source_state_after: None,
        reused: false,
    }
}

fn corrupt(message: &str) -> (e: RuntimeError)
    ensures
        e.code@ == "execution_journal_corrupt"@,
{
    RuntimeError::new("execution_journal_corrupt", message)
}

/// Accepts only journal records of the supported schema.
pub fn validate_schema(schema_version: u16) -> (r: RuntimeResult<()>)
    ensures
        r is Ok <==> schema_version == JOURNAL_SCHEMA_VERSION,
        r matches Err(e) ==> e.code@ == "execution_journal_corrupt"@,
{
    if schema_version == JOURNAL_SCHEMA_VERSION {
        Ok(())
    } else {
        Err(corrupt("command execution journal schema is unsupported"))
    }
}

/// The name a key's journal records are stored under, given the key's canonical JSON
/// encoding: its SHA-256 in lower-case hexadecimal.
pub fn storage_key(encoded_key: &[u8]) -> (s: String)
    ensures
        s@ == spec_sha256_hex(encoded_key@),
{
    sha256_hex(encoded_key)
}

/// A record read back under `storage_key_value` must belong to the key it names.
pub fn validate_storage_binding(storage_key_value: &str, encoded_key: &[u8]) -> (r: RuntimeResult<()>)
    ensures
        r is Ok <==> storage_key_value@ == spec_sha256_hex(encoded_key@),
        r matches Err(e) ==> e.code@ == "execution_journal_corrupt"@,
{
    let expected = storage_key(encoded_key);
    if str_eq(expected.as_str(), storage_key_value) {
        Ok(())
    } else {
        Err(corrupt("command execution journal key binding is invalid"))
    }
}

/// What a journal record says of an execution still running when it was written.
#[derive(Debug, Clone)]
pub struct RunningRecord {
    pub execution_id: String,
    pub command: CommandIdentity,
    pub cwd: String,
    pub started_at_unix_ms: u64,
}

/// What a journal record read back at start-up becomes: a record of another schema is
/// corrupt; a finished record gives its result; a record of a running execution gives the
/// result of an execution orphaned by the restart (finished at `now_ms`); a record with
/// neither is corrupt.
pub fn journal_record_result(schema_version: u16, result: Option<CommandExecutionResult>, running: Option<RunningRecord>, now_ms: u64) -> (r: RuntimeResult<CommandExecutionResult>)
    ensures
        schema_version != JOURNAL_SCHEMA_VERSION ==> (r matches Err(e) && e.code@ == "execution_journal_corrupt"@),
        schema_version == JOURNAL_SCHEMA_VERSION ==> match (result, running) {
            (Some(x), _) => r == Ok::<CommandExecutionResult, RuntimeError>(x),
            (None, Some(run)) => r matches Ok(x) && x.execution_id == run.execution_id && x.command == run.command
                && x.cwd == run.cwd && x.started_at_unix_ms == run.started_at_unix_ms && x.finished_at_unix_ms == now_ms
                && x.terminal_state == CommandTerminalState::Unknown && x.exit_code is None && x.signal is None
                && !x.timed_out && !x.cancelled && x.elapsed_ms == 0
                && x.stderr@ == "command outcome is unknown because the host restarted during execution"@,
            (None, None) => r matches Err(e) && e.code@ == "execution_journal_corrupt"@,
        },
{
    validate_schema(schema_version)?;
    match (result, running) {
        (Some(x), _) => Ok(x),
        (None, Some(run)) => Ok(orphaned_result(run.execution_id, run.command, run.cwd, run.started_at_unix_ms, now_ms)),
        (None, None) => Err(corrupt("command execution record has no state")),
    }
}

} // verus!
