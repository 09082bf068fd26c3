//! The states behind paging cursors of listings and searches: each lives for fifteen
//! minutes after its last page, at most a hundred and twenty-eight are kept (the one that
//! expires first makes room), and a cursor is used up when its next page is taken.

use vstd::prelude::*;
use crate::context::{OperationContext, opt_view};
use crate::error::{RuntimeError, RuntimeResult};
use crate::text::{extend_str, str_eq, string_from_chars};

verus! {

pub const CURSOR_TTL_MS: u64 = 900000;
pub const MAX_ACTIVE_CURSORS: usize = 128;

/// A cursor's state and when it expires.
#[derive(Debug)]
pub struct CursorEntry<S> {
    pub id: String,
    pub expires_at_ms: u64,
    pub state: S,
}

/// The live cursor states.
#[derive(Debug)]
pub struct CursorStore<S> {
    pub entries: Vec<CursorEntry<S>>,
}

/// No id is kept twice.
pub open spec fn distinct_cursor_ids<S>(s: Seq<CursorEntry<S>>) -> bool {
    forall|a: int, b: int| 0 <= a < b < s.len() ==> s[a].id@ != s[b].id@
}

/// The entries still live at `now_ms`, in order.
pub open spec fn unexpired<S>(s: Seq<CursorEntry<S>>, now_ms: u64) -> Seq<CursorEntry<S>>
    decreases s.len(),
{
    if s.len() == 0 {
        Seq::empty()
    } else {
        let rest = unexpired(s.drop_first(), now_ms);
        if s[0].expires_at_ms > now_ms { seq![s[0]] + rest } else { rest }
    }
}

/// Where the first entry kept under `id` is.
pub open spec fn cursor_index<S>(s: Seq<CursorEntry<S>>, id: Seq<char>, from: int) -> Option<int>
    decreases s.len() - from,
{
    if from < 0 || from >= s.len() {
        None
    } else if s[from].id@ == id {
        Some(from)
    } else {
        cursor_index(s, id, from + 1)
    }
}

/// Where the first entry that expires soonest is, among the entries from `from` on.
pub open spec fn oldest_cursor<S>(s: Seq<CursorEntry<S>>, from: int) -> int
    decreases s.len() - from,
{
    if from < 0 || from >= s.len() - 1 {
        from
    } else {
        let rest = oldest_cursor(s, from + 1);
        if s[rest].expires_at_ms < s[from].expires_at_ms { rest } else { from }
    }
}

proof fn lemma_oldest_in_range<S>(s: Seq<CursorEntry<S>>, from: int)
    requires
        0 <= from < s.len(),
    ensures
        from <= oldest_cursor(s, from) < s.len(),
        forall|k: int| from <= k < s.len() ==> s[oldest_cursor(s, from)].expires_at_ms <= #[trigger] s[k].expires_at_ms,
    decreases s.len() - from,
{
    if from < s.len() - 1 {
        lemma_oldest_in_range(s, from + 1);
    }
}

proof fn lemma_index_found<S>(s: Seq<CursorEntry<S>>, id: Seq<char>, from: int)
    ensures
        cursor_index(s, id, from) matches Some(i) ==> 0 <= from <= i < s.len() && s[i].id@ == id,
    decreases s.len() - from,
{
    if 0 <= from < s.len() && s[from].id@ != id {
        lemma_index_found(s, id, from + 1);
    }
}

proof fn lemma_index_absent<S>(s: Seq<CursorEntry<S>>, id: Seq<char>, from: int)
    requires
        0 <= from,
        forall|k: int| from <= k < s.len() ==> s[k].id@ != id,
    ensures
        cursor_index(s, id, from) is None,
    decreases s.len() - from,
{
    if from < s.len() {
        lemma_index_absent(s, id, from + 1);
    }
}

proof fn lemma_absent_no_match<S>(s: Seq<CursorEntry<S>>, id: Seq<char>, from: int)
    requires
        0 <= from,
        cursor_index(s, id, from) is None,
    ensures
        forall|k: int| from <= k < s.len() ==> s[k].id@ != id,
    decreases s.len() - from,
{
    if from < s.len() {
        lemma_absent_no_match(s, id, from + 1);
    }
}

proof fn lemma_remove_distinct<S>(s: Seq<CursorEntry<S>>, j: int)
    requires
        distinct_cursor_ids(s),
        0 <= j < s.len(),
    ensures
        distinct_cursor_ids(s.remove(j)),
        s.remove(j).len() == s.len() - 1,
{
    let t = s.remove(j);
    assert forall|a: int, b: int| 0 <= a < b < t.len() implies t[a].id@ != t[b].id@ by {
        let a1 = if a < j { a } else { a + 1 };
        let b1 = if b < j { b } else { b + 1 };
        assert(t[a] == s[a1]);
        assert(t[b] == s[b1]);
    }
}

/// The key a cursor's owner is known by: the agent, task and conversation scope.
pub open spec fn owner_key_spec(context: OperationContext) -> Seq<char> {
    context.agent_id@ + ":"@ + (match opt_view(context.task_id) { Some(t) => t, None => Seq::empty() })
        + ":"@ + (match opt_view(context.conversation_scope_id) { Some(c) => c, None => Seq::empty() })
}

/// The key a cursor's owner is known by.
pub fn owner_key(context: &OperationContext) -> (r: String)
    ensures
        r@ == owner_key_spec(*context),
{
    let mut v: Vec<char> = Vec::new();
    extend_str(&mut v, context.agent_id.as_str());
    extend_str(&mut v, ":");
    match &context.task_id {
        Some(t) => extend_str(&mut v, t.as_str()),
        None => {},
    }
    extend_str(&mut v, ":");
    match &context.conversation_scope_id {
        Some(c) => extend_str(&mut v, c.as_str()),
        None => {},
    }
    proof {
        assert(v@ =~= owner_key_spec(*context));
    }
    string_from_chars(v.as_slice())
}

impl<S> CursorStore<S> {
    /// No id is kept twice and at most a hundred and twenty-eight states are kept.
    pub open spec fn wf(&self) -> bool {
        &&& distinct_cursor_ids(self.entries@)
        &&& self.entries@.len() <= MAX_ACTIVE_CURSORS
    }

    /// No cursor yet.
    pub fn new() -> (c: Self)
        ensures
            c.wf(),
            c.entries@.len() == 0,
    {
        CursorStore { entries: Vec::new() }
    }

    /// Drops the states that expired by `now_ms`.
    pub fn cleanup_expired(&mut self, now_ms: u64)
        requires
            old(self).wf(),
        ensures
            final(self).wf(),
            final(self).entries@ == unexpired(old(self).entries@, now_ms),
    {
        let ghost s0 = self.entries@;
        let n = self.entries.len();
        let mut i: usize = n;
        proof {
            assert(s0.subrange(0, n as int) =~= s0);
            assert(unexpired(s0.subrange(n as int, n as int), now_ms) =~= Seq::<CursorEntry<S>>::empty());
            assert(self.entries@ =~= s0.subrange(0, n as int) + unexpired(s0.subrange(n as int, n as int), now_ms));
        }
        while i > 0
            invariant
                s0.len() == n,
                i <= n,
                distinct_cursor_ids(self.entries@),
                self.entries@.len() <= n,
                n <= MAX_ACTIVE_CURSORS,
                self.entries@ == s0.subrange(0, i as int) + unexpired(s0.subrange(i as int, n as int), now_ms),
            decreases i,
        {
            let j = i - 1;
            proof {
                let t = s0.subrange(j as int, n as int);
                assert(t.drop_first() =~= s0.subrange(i as int, n as int));
                assert(t[0] == s0[j as int]);
                assert(self.entries@[j as int] == s0[j as int]);
            }
            if self.entries[j].expires_at_ms <= now_ms {
                proof {
                    lemma_remove_distinct(self.entries@, j as int);
                }
                self.entries.remove(j);
                proof {
                    assert(self.entries@ =~= s0.subrange(0, j as int) + unexpired(s0.subrange(j as int, n as int), now_ms));
                }
            } else {
                proof {
                    assert(self.entries@ =~= s0.subrange(0, j as int) + unexpired(s0.subrange(j as int, n as int), now_ms));
                }
            }
            i = j;
        }
        proof {
            assert(s0.subrange(0, 0) + unexpired(s0.subrange(0, n as int), now_ms) =~= unexpired(s0, now_ms)) by {
                assert(s0.subrange(0, n as int) =~= s0);
            }
        }
    }

    /// Takes the state of cursor `id` out of the store, after expired states are dropped;
    /// a cursor that is not there has expired (`message` says what to restart).
    pub fn take(&mut self, id: &str, now_ms: u64, message: &str) -> (r: RuntimeResult<S>)
        requires
            old(self).wf(),
        ensures
            final(self).wf(),
            ({
                let live = unexpired(old(self).entries@, now_ms);
                match cursor_index(live, id@, 0) {
                    None => (r matches Err(e) && e.code@ == "cursor_expired"@ && e.message@ == message@)
                        && final(self).entries@ == live,
                    Some(i) => r == Ok::<S, RuntimeError>(live[i].state) && final(self).entries@ == live.remove(i)
                        && cursor_index(final(self).entries@, id@, 0) is None,
                }
            }),
    {
        self.cleanup_expired(now_ms);
        let mut i: usize = 0;
        while i < self.entries.len()
            invariant
                i <= self.entries@.len(),
                self.entries@ == unexpired(old(self).entries@, now_ms),
                self.wf(),
                cursor_index(self.entries@, id@, 0) == cursor_index(self.entries@, id@, i as int),
            decreases self.entries.len() - i,
        {
            if str_eq(self.entries[i].id.as_str(), id) {
                proof {
                    let live = self.entries@;
                    lemma_remove_distinct(live, i as int);
                    assert forall|k: int| 0 <= k < live.remove(i as int).len() implies live.remove(i as int)[k].id@ != id@ by {
                        if k < i {
                            assert(live.remove(i as int)[k] == live[k]);
                        } else {
                            assert(live.remove(i as int)[k] == live[k + 1]);
                        }
                    }
                    lemma_index_absent(live.remove(i as int), id@, 0);
                }
                let entry = self.entries.remove(i);
                return Ok(entry.state);
            }
            i = i + 1;
        }
        Err(RuntimeError::new("cursor_expired", message))
    }

    /// Keeps the state of cursor `id` for another fifteen minutes, after expired states
    /// are dropped; when the store is full the state that expires first makes room.
    pub fn put(&mut self, id: String, state: S, now_ms: u64)
        requires
            old(self).wf(),
        ensures
            final(self).wf(),
            cursor_index(final(self).entries@, id@, 0) matches Some(i)
                && final(self).entries@[i].state == state
                && final(self).entries@[i].expires_at_ms == (if now_ms as int + CURSOR_TTL_MS > u64::MAX { u64::MAX } else { (now_ms + CURSOR_TTL_MS) as u64 }),
            ({
                let live = unexpired(old(self).entries@, now_ms);
                &&& live.len() < MAX_ACTIVE_CURSORS ==> final(self).entries@.len() <= live.len() + 1
                &&& forall|k: int| 0 <= k < final(self).entries@.len() && final(self).entries@[k].id@ != id@
                    ==> exists|j: int| 0 <= j < live.len() && live[j] == #[trigger] final(self).entries@[k]
            }),
    {
        self.cleanup_expired(now_ms);
        let ghost live = self.entries@;
        let expires = now_ms.saturating_add(CURSOR_TTL_MS);
        let mut i: usize = 0;
        while i < self.entries.len()
            invariant
                i <= self.entries@.len(),
                self.entries@ == live,
                live == unexpired(old(self).entries@, now_ms),
                expires == (if now_ms as int + CURSOR_TTL_MS > u64::MAX { u64::MAX } else { (now_ms + CURSOR_TTL_MS) as u64 }),
                distinct_cursor_ids(live),
                live.len() <= MAX_ACTIVE_CURSORS,
                cursor_index(live, id@, 0) == cursor_index(live, id@, i as int),
            decreases self.entries.len() - i,
        {
            if str_eq(self.entries[i].id.as_str(), id.as_str()) {
                let ghost idv = id@;
                self.entries.set(i, CursorEntry { id, expires_at_ms: expires, state });
                proof {
                    let t = self.entries@;
                    assert(t =~= live.update(i as int, t[i as int]));
                    assert forall|a: int, b: int| 0 <= a < b < t.len() implies t[a].id@ != t[b].id@ by {
                        assert(t[a].id@ == live[a].id@);
                        assert(t[b].id@ == live[b].id@);
                    }
                    lemma_index_found(live, idv, 0);
                    assert(cursor_index(t, idv, 0) == Some(i as int)) by {
                        lemma_index_same_prefix(live, t, idv, 0, i as int);
                    }
                    assert forall|k: int| 0 <= k < t.len() && t[k].id@ != idv implies exists|j: int| 0 <= j < live.len() && live[j] == #[trigger] t[k] by {
                        assert(k != i);
                        assert(live[k] == t[k]);
                    }
                }
                return;
            }
            i = i + 1;
        }
        proof {
            lemma_absent_no_match(live, id@, 0);
        }
        if self.entries.len() >= MAX_ACTIVE_CURSORS {
            let ghost before = self.entries@;
            let mut oldest: usize = 0;
            let mut k: usize = 1;
            while k < self.entries.len()
                invariant
                    self.entries@ == before,
                    before.len() >= 1,
                    1 <= k <= before.len(),
                    oldest < k,
                    forall|m: int| 0 <= m < k ==> before[oldest as int].expires_at_ms <= #[trigger] before[m].expires_at_ms,
                decreases self.entries.len() - k,
            {
                if self.entries[k].expires_at_ms < self.entries[oldest].expires_at_ms {
                    oldest = k;
                }
                k = k + 1;
            }
            proof {
                lemma_remove_distinct(before, oldest as int);
            }
            self.entries.remove(oldest);
            proof {
                assert forall|m: int| 0 <= m < self.entries@.len() implies self.entries@[m].id@ != id@ by {
                    if m < oldest {
                        assert(self.entries@[m] == before[m]);
                    } else {
                        assert(self.entries@[m] == before[m + 1]);
                    }
                }
                assert forall|m: int| 0 <= m < self.entries@.len() implies exists|j: int| 0 <= j < live.len() && live[j] == #[trigger] self.entries@[m] by {
                    if m < oldest {
                        assert(live[m] == self.entries@[m]);
                    } else {
                        assert(live[m + 1] == self.entries@[m]);
                    }
                }
            }
        }
        let ghost before_push = self.entries@;
        let ghost idv = id@;
        self.entries.push(CursorEntry { id, expires_at_ms: expires, state });
        proof {
            let t = self.entries@;
            assert forall|a: int, b: int| 0 <= a < b < t.len() implies t[a].id@ != t[b].id@ by {
                assert(t[a] == before_push[a]);
                if b < before_push.len() {
                    assert(t[b] == before_push[b]);
                }
            }
            assert forall|m: int| 0 <= m < before_push.len() implies before_push[m].id@ != idv by {
                if before_push.len() < live.len() {
                } else {
                    assert(before_push == live);
                }
            }
            lemma_index_absent(before_push, idv, 0);
            lemma_index_after_push(before_push, idv, 0, t[t.len() - 1]);
            assert forall|k: int| 0 <= k < t.len() && t[k].id@ != idv implies exists|j: int| 0 <= j < live.len() && live[j] == #[trigger] t[k] by {
                assert(k < before_push.len());
                assert(t[k] == before_push[k]);
            }
        }
    }
}

proof fn lemma_index_same_prefix<S>(a: Seq<CursorEntry<S>>, b: Seq<CursorEntry<S>>, id: Seq<char>, from: int, i: int)
    requires
        0 <= from <= i < a.len(),
        a.len() == b.len(),
        cursor_index(a, id, from) == Some(i),
        b[i].id@ == id,
        forall|k: int| 0 <= k < i ==> a[k] == b[k],
    ensures
        cursor_index(b, id, from) == Some(i),
    decreases i - from,
{
    if from < i {
        lemma_index_same_prefix(a, b, id, from + 1, i);
    }
}

proof fn lemma_index_after_push<S>(s: Seq<CursorEntry<S>>, id: Seq<char>, from: int, e: CursorEntry<S>)
    requires
        0 <= from <= s.len(),
        cursor_index(s, id, from) is None,
        e.id@ == id,
    ensures
        cursor_index(s.push(e), id, from) == Some(s.len() as int),
    decreases s.len() - from,
{
    assert(s.push(e)[s.len() as int] == e);
    if from < s.len() {
        assert(s.push(e)[from] == s[from]);
        lemma_index_after_push(s, id, from + 1, e);
    }
}

} // verus!
