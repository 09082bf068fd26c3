//! The table of running browser sessions: who owns each, how many may run at once, and
//! which one a request reaches. The browser processes themselves are watched outside;
//! the table is told which of them still run.

use vstd::prelude::*;
use super::{ComputerExecutionWarning, ComputerObservation, MAX_SESSIONS, SessionOwner, empty_observation, ensure_owner, session_owner_view};
use crate::desktop::input::{parse_u16, parse_u16_spec};
use crate::context::{OperationContext, clone_opt, opt_view};
use crate::error::{RuntimeError, RuntimeResult};
use crate::text::{chars_of, concat_str, decimal, extend_str, newline_at, push_decimal, str_eq, string_from_chars};

verus! {

pub const MAX_ACTIONS: usize = 32;

/// A running session as the table keeps it.
#[derive(Debug)]
pub struct BrowserSessionRecord {
    pub session_id: String,
    pub owner: SessionOwner,
    pub width: u32,
    pub height: u32,
    pub web_socket_url: String,
}

/// What a request learns of a session it may use.
#[derive(Debug, Clone)]
pub struct SessionAccess {
    pub session_id: String,
    pub width: u32,
    pub height: u32,
    pub web_socket_url: String,
}

/// The running sessions.
#[derive(Debug)]
pub struct ComputerSessions {
    pub sessions: Vec<BrowserSessionRecord>,
}

/// The first session kept under `id`, from position `from` on.
pub open spec fn session_index(s: Seq<BrowserSessionRecord>, id: Seq<char>, from: int) -> Option<int>
    decreases s.len() - from,
{
    if from < 0 || from >= s.len() {
        None
    } else if s[from].session_id@ == id {
        Some(from)
    } else {
        session_index(s, id, from + 1)
    }
}

/// The sessions whose browser still runs, in order.
pub open spec fn live_sessions(s: Seq<BrowserSessionRecord>, live: Seq<bool>) -> Seq<BrowserSessionRecord>
    decreases s.len(),
{
    if s.len() == 0 || live.len() == 0 {
        Seq::empty()
    } else {
        let rest = live_sessions(s.drop_first(), live.drop_first());
        if live[0] { seq![s[0]] + rest } else { rest }
    }
}

/// The table after a session is recorded: it replaces one kept under the same id, else
/// it is added at the end.
pub open spec fn with_session(s: Seq<BrowserSessionRecord>, r: BrowserSessionRecord) -> Seq<BrowserSessionRecord> {
    match session_index(s, r.session_id@, 0) {
        Some(i) => s.update(i, r),
        None => s.push(r),
    }
}

/// The session under `id` is there and belongs to the caller.
pub open spec fn reachable(s: Seq<BrowserSessionRecord>, context: OperationContext, id: Seq<char>) -> bool {
    match session_index(s, id, 0) {
        Some(i) => session_owner_view(s[i].owner) == (context.agent_id@, opt_view(context.task_id)),
        None => false,
    }
}

/// No id is kept twice.
pub open spec fn distinct_ids(s: Seq<BrowserSessionRecord>) -> bool {
    forall|a: int, b: int| 0 <= a < b < s.len() ==> s[a].session_id@ != s[b].session_id@
}

proof fn lemma_absent_means_no_match(s: Seq<BrowserSessionRecord>, id: Seq<char>, from: int)
    requires
        0 <= from,
        session_index(s, id, from) is None,
    ensures
        forall|k: int| from <= k < s.len() ==> s[k].session_id@ != id,
    decreases s.len() - from,
{
    if from < s.len() {
        lemma_absent_means_no_match(s, id, from + 1);
    }
}

proof fn lemma_no_match_means_absent(s: Seq<BrowserSessionRecord>, id: Seq<char>, from: int)
    requires
        0 <= from,
        forall|k: int| from <= k < s.len() ==> s[k].session_id@ != id,
    ensures
        session_index(s, id, from) is None,
    decreases s.len() - from,
{
    if from < s.len() {
        lemma_no_match_means_absent(s, id, from + 1);
    }
}

proof fn lemma_remove_keeps_distinct(s: Seq<BrowserSessionRecord>, j: int)
    requires
        distinct_ids(s),
        0 <= j < s.len(),
    ensures
        distinct_ids(s.remove(j)),
{
    let t = s.remove(j);
    assert forall|a: int, b: int| 0 <= a < b < t.len() implies t[a].session_id@ != t[b].session_id@ by {
        let a1 = if a < j { a } else { a + 1 };
        let b1 = if b < j { b } else { b + 1 };
        assert(t[a] == s[a1]);
        assert(t[b] == s[b1]);
    }
}

proof fn lemma_record_keeps_distinct(s: Seq<BrowserSessionRecord>, r: BrowserSessionRecord)
    requires
        distinct_ids(s),
    ensures
        distinct_ids(with_session(s, r)),
{
    lemma_index_in_range(s, r.session_id@, 0);
    match session_index(s, r.session_id@, 0) {
        Some(i) => {
            let t = s.update(i, r);
            assert forall|a: int, b: int| 0 <= a < b < t.len() implies t[a].session_id@ != t[b].session_id@ by {
                assert(t[a].session_id@ == s[a].session_id@);
                assert(t[b].session_id@ == s[b].session_id@);
            }
        },
        None => {
            lemma_absent_means_no_match(s, r.session_id@, 0);
            let t = s.push(r);
            assert forall|a: int, b: int| 0 <= a < b < t.len() implies t[a].session_id@ != t[b].session_id@ by {
                assert(t[a] == s[a]);
                if b < s.len() {
                    assert(t[b] == s[b]);
                }
            }
        },
    }
}

/// A position one place earlier.
pub open spec fn shifted(o: Option<int>) -> Option<int> {
    match o {
        Some(k) => Some(k - 1),
        None => None,
    }
}

proof fn lemma_index_in_range(s: Seq<BrowserSessionRecord>, id: Seq<char>, from: int)
    ensures
        session_index(s, id, from) matches Some(i) ==> from <= i < s.len() && s[i].session_id@ == id,
    decreases s.len() - from,
{
    if 0 <= from < s.len() && s[from].session_id@ != id {
        lemma_index_in_range(s, id, from + 1);
    }
}

proof fn lemma_index_after_update(s: Seq<BrowserSessionRecord>, id: Seq<char>, from: int, j: int, r: BrowserSessionRecord)
    requires
        0 <= j < s.len(),
        r.session_id@ == s[j].session_id@,
    ensures
        session_index(s.update(j, r), id, from) == session_index(s, id, from),
    decreases s.len() - from,
{
    if 0 <= from < s.len() && s[from].session_id@ != id {
        lemma_index_after_update(s, id, from + 1, j, r);
    }
}

proof fn lemma_index_after_push(s: Seq<BrowserSessionRecord>, id: Seq<char>, from: int, r: BrowserSessionRecord)
    requires
        0 <= from <= s.len(),
        session_index(s, id, from) is None,
        r.session_id@ == id,
    ensures
        session_index(s.push(r), id, from) == Some(s.len() as int),
    decreases s.len() - from,
{
    assert(s.push(r)[s.len() as int] == r);
    if from < s.len() {
        assert(s.push(r)[from] == s[from]);
        lemma_index_after_push(s, id, from + 1, r);
    }
}

proof fn lemma_index_absent_after_push(s: Seq<BrowserSessionRecord>, id: Seq<char>, from: int, r: BrowserSessionRecord)
    requires
        0 <= from,
        r.session_id@ != id,
    ensures
        session_index(s.push(r), id, from) == session_index(s, id, from),
    decreases s.len() - from,
{
    assert(s.push(r)[s.len() as int] == r);
    if from < s.len() {
        assert(s.push(r)[from] == s[from]);
        if s[from].session_id@ != id {
            lemma_index_absent_after_push(s, id, from + 1, r);
        }
    } else if from == s.len() {
        assert(session_index(s.push(r), id, from + 1) is None);
    }
}

/// A copy of the owner of a session.
fn copy_owner(o: &SessionOwner) -> (r: SessionOwner)
    ensures
        session_owner_view(r) == session_owner_view(*o),
{
    SessionOwner { agent_id: o.agent_id.clone(), task_id: clone_opt(&o.task_id) }
}

/// A batch holds between one and thirty-two actions.
pub fn check_action_count(count: usize) -> (r: RuntimeResult<()>)
    ensures
        r is Ok <==> 1 <= count <= MAX_ACTIONS,
        r matches Err(e) ==> e.code@ == "invalid_arguments"@,
{
    if count == 0 || count > MAX_ACTIONS {
        return Err(RuntimeError::new("invalid_arguments", "actions must contain between 1 and 32 items"));
    }
    Ok(())
}

impl ComputerSessions {
    /// No id is kept twice.
    pub open spec fn wf(&self) -> bool {
        distinct_ids(self.sessions@)
    }

    /// No session runs.
    pub fn new() -> (t: Self)
        ensures
            t.wf(),
            t.sessions@.len() == 0,
    {
        ComputerSessions { sessions: Vec::new() }
    }

    /// Forgets the sessions whose browser has exited (`live[i]` tells of the `i`-th), then
    /// admits a new start only while fewer than four sessions run.
    pub fn admit_start(&mut self, live: &Vec<bool>) -> (r: RuntimeResult<()>)
        requires
            old(self).wf(),
            live@.len() == old(self).sessions@.len(),
        ensures
            final(self).wf(),
            final(self).sessions@ == live_sessions(old(self).sessions@, live@),
            r is Ok <==> final(self).sessions@.len() < MAX_SESSIONS,
            r matches Err(e) ==> e.code@ == "busy"@ && e.retryable,
    {
        let ghost s0 = self.sessions@;
        let n = self.sessions.len();
        let mut i: usize = n;
        proof {
            assert(s0.subrange(0, n as int) =~= s0);
            assert(live_sessions(s0.subrange(n as int, n as int), live@.subrange(n as int, n as int)) =~= Seq::<BrowserSessionRecord>::empty());
            assert(self.sessions@ =~= s0.subrange(0, n as int) + live_sessions(s0.subrange(n as int, n as int), live@.subrange(n as int, n as int)));
        }
        while i > 0
            invariant
                s0.len() == n,
                live@.len() == n,
                i <= n,
                distinct_ids(self.sessions@),
                self.sessions@ == s0.subrange(0, i as int) + live_sessions(s0.subrange(i as int, n as int), live@.subrange(i as int, n as int)),
            decreases i,
        {
            let ghost before = self.sessions@;
            let j = i - 1;
            proof {
                let t = s0.subrange(j as int, n as int);
                let l = live@.subrange(j as int, n as int);
                assert(t.drop_first() =~= s0.subrange(i as int, n as int));
                assert(l.drop_first() =~= live@.subrange(i as int, n as int));
                assert(t[0] == s0[j as int]);
                assert(l[0] == live@[j as int]);
            }
            if !live[j] {
                proof {
                    lemma_remove_keeps_distinct(self.sessions@, j as int);
                }
                self.sessions.remove(j);
                proof {
                    assert(self.sessions@ =~= s0.subrange(0, j as int) + live_sessions(s0.subrange(j as int, n as int), live@.subrange(j as int, n as int)));
                }
            } else {
                proof {
                    assert(self.sessions@ =~= s0.subrange(0, j as int) + live_sessions(s0.subrange(j as int, n as int), live@.subrange(j as int, n as int)));
                }
            }
            i = j;
        }
        proof {
            assert(s0.subrange(0, 0) + live_sessions(s0.subrange(0, n as int), live@.subrange(0, n as int)) =~= live_sessions(s0, live@)) by {
                assert(s0.subrange(0, n as int) =~= s0);
                assert(live@.subrange(0, n as int) =~= live@);
            }
        }
        if self.sessions.len() >= MAX_SESSIONS {
            return Err(RuntimeError::busy("computer session limit reached"));
        }
        Ok(())
    }

    /// Records a started session.
    pub fn insert(&mut self, record: BrowserSessionRecord)
        requires
            old(self).wf(),
        ensures
            final(self).wf(),
            final(self).sessions@ == with_session(old(self).sessions@, record),
    {
        proof {
            lemma_record_keeps_distinct(self.sessions@, record);
        }
        let mut i: usize = 0;
        while i < self.sessions.len()
            invariant
                self.sessions@ == old(self).sessions@,
                distinct_ids(with_session(old(self).sessions@, record)),
                i <= self.sessions@.len(),
                session_index(self.sessions@, record.session_id@, 0) == session_index(self.sessions@, record.session_id@, i as int),
            decreases self.sessions.len() - i,
        {
            if str_eq(self.sessions[i].session_id.as_str(), record.session_id.as_str()) {
                self.sessions.set(i, record);
                return;
            }
            i = i + 1;
        }
        self.sessions.push(record);
    }

    /// Where the caller's session `id` is kept; a session of another owner is not found.
    pub fn find(&self, context: &OperationContext, id: &str) -> (r: RuntimeResult<usize>)
        ensures
            r is Ok <==> reachable(self.sessions@, *context, id@),
            r matches Ok(i) ==> session_index(self.sessions@, id@, 0) == Some(i as int),
            r matches Err(e) ==> e.code@ == "computer_session_not_found"@,
    {
        let mut i: usize = 0;
        while i < self.sessions.len()
            invariant
                i <= self.sessions@.len(),
                session_index(self.sessions@, id@, 0) == session_index(self.sessions@, id@, i as int),
            decreases self.sessions.len() - i,
        {
            if str_eq(self.sessions[i].session_id.as_str(), id) {
                ensure_owner(&self.sessions[i].owner, context)?;
                return Ok(i);
            }
            i = i + 1;
        }
        Err(RuntimeError::new("computer_session_not_found", "session was not found"))
    }

    /// Stops tracking the caller's session `id` and hands it back so its browser can be
    /// stopped; the table is unchanged when the session is not the caller's.
    pub fn close(&mut self, context: &OperationContext, id: &str) -> (r: RuntimeResult<BrowserSessionRecord>)
        requires
            old(self).wf(),
        ensures
            final(self).wf(),
            r is Ok <==> reachable(old(self).sessions@, *context, id@),
            r matches Ok(rec) ==> ({
                let i = session_index(old(self).sessions@, id@, 0)->0;
                &&& rec == old(self).sessions@[i]
                &&& final(self).sessions@ == old(self).sessions@.remove(i)
            }),
            r matches Err(e) ==> e.code@ == "computer_session_not_found"@ && final(self).sessions@ == old(self).sessions@,
    {
        let i = self.find(context, id)?;
        proof {
            lemma_index_in_range(self.sessions@, id@, 0);
            lemma_remove_keeps_distinct(self.sessions@, i as int);
        }
        Ok(self.sessions.remove(i))
    }

    /// The caller's session `id`, when its browser still runs (`ended` tells whether it
    /// exited); a session whose browser exited is forgotten.
    pub fn access(&mut self, context: &OperationContext, id: &str, ended: bool) -> (r: RuntimeResult<SessionAccess>)
        requires
            old(self).wf(),
        ensures
            final(self).wf(),
            !reachable(old(self).sessions@, *context, id@) ==> (r matches Err(e) && e.code@ == "computer_session_not_found"@
                && final(self).sessions@ == old(self).sessions@),
            reachable(old(self).sessions@, *context, id@) ==> ({
                let i = session_index(old(self).sessions@, id@, 0)->0;
                if ended {
                    &&& r matches Err(e) && e.code@ == "computer_session_ended"@
                    &&& final(self).sessions@ == old(self).sessions@.remove(i)
                } else {
                    &&& r matches Ok(a) && a.session_id@ == id@ && a.width == old(self).sessions@[i].width
                        && a.height == old(self).sessions@[i].height
                        && a.web_socket_url@ == old(self).sessions@[i].web_socket_url@
                    &&& final(self).sessions@ == old(self).sessions@
                }
            }),
    {
        let i = self.find(context, id)?;
        proof {
            lemma_index_in_range(self.sessions@, id@, 0);
            lemma_remove_keeps_distinct(self.sessions@, i as int);
        }
        if ended {
            self.sessions.remove(i);
            return Err(RuntimeError::new("computer_session_ended", "the isolated browser process has exited"));
        }
        let s = &self.sessions[i];
        Ok(SessionAccess {
            session_id: id.to_owned(),
            width: s.width,
            height: s.height,
            web_socket_url: s.web_socket_url.clone(),
        })
    }

    /// A copy of the owner of the session at `i`.
    pub fn owner_at(&self, i: usize) -> (o: SessionOwner)
        requires
            i < self.sessions@.len(),
        ensures
            session_owner_view(o) == session_owner_view(self.sessions@[i as int].owner),
    {
        copy_owner(&self.sessions[i].owner)
    }
}

/// How a batch of actions stopped early.
#[derive(Debug, Clone)]
pub struct ActionFailure {
    /// The actions that completed before the failing one.
    pub completed_action_count: usize,
    /// No action was sent because the connection to the browser was lost.
    pub connection_lost: bool,
    /// The failure as the backend described it.
    pub error_text: String,
}

/// After a batch the page is captured when asked for, when an action was a screenshot,
/// or when the batch failed.
pub fn capture_after(screenshot_after: bool, screenshot_action: bool, failed: bool) -> (r: bool)
    ensures
        r == (screenshot_after || screenshot_action || failed),
{
    screenshot_after || screenshot_action || failed
}

/// The message of a batch that stopped early.
pub open spec fn failure_message(f: ActionFailure) -> Seq<char> {
    if f.connection_lost {
        "no action was sent; the browser connection was lost; observe the session before continuing"@
    } else {
        "action "@ + decimal((f.completed_action_count + 1) as nat)
            + " may have partially executed; inspect the browser state before continuing: "@ + f.error_text@
    }
}

/// An observation of a session before any page was captured.
fn blank_observation(session: &SessionAccess) -> (o: ComputerObservation)
    ensures
        o.session_id@ == session.session_id@,
        o.url@.len() == 0,
        o.title@.len() == 0,
        o.width == session.width,
        o.height == session.height,
        o.screenshot_base64 is None,
        o.verification_warning is None,
        o.completed_action_count is None,
        o.execution_warning is None,
{
    empty_observation(session.session_id.as_str(), session.width, session.height)
}

/// What a batch of `action_count` actions answers: the capture taken after it (none when
/// it was not taken; when it failed, a blank observation that warns that the actions may
/// already have happened), with the number of actions that completed and, when the batch
/// stopped early, why.
pub fn act_observation(
    session: &SessionAccess,
    captured: Option<Result<ComputerObservation, String>>,
    action_count: usize,
    failure: Option<ActionFailure>,
) -> (o: ComputerObservation)
    requires
        action_count <= MAX_ACTIONS,
        failure matches Some(f) ==> f.completed_action_count < action_count,
    ensures
        match captured {
            Some(Ok(c)) => o.session_id == c.session_id && o.url == c.url && o.title == c.title
                && o.width == c.width && o.height == c.height && o.screenshot_base64 == c.screenshot_base64
                && o.verification_warning == c.verification_warning,
            Some(Err(text)) => o.session_id@ == session.session_id@ && o.url@.len() == 0 && o.title@.len() == 0
                && o.width == session.width && o.height == session.height && o.screenshot_base64 is None
                && opt_view(o.verification_warning)
                    == Some("browser action may already have occurred; observe again without replaying it: "@ + text@),
            None => o.session_id@ == session.session_id@ && o.url@.len() == 0 && o.title@.len() == 0
                && o.width == session.width && o.height == session.height && o.screenshot_base64 is None
                && o.verification_warning is None,
        },
        match failure {
            None => o.completed_action_count == Some(action_count) && o.execution_warning is None,
            Some(f) => o.completed_action_count == Some(f.completed_action_count)
                && (o.execution_warning matches Some(w) && w.completed_action_count == f.completed_action_count
                && !w.retry_action && w.message@ == failure_message(f)),
        },
{
    let mut result = match captured {
        Some(Ok(c)) => c,
        Some(Err(text)) => {
            let mut o = blank_observation(session);
            o.verification_warning = Some(concat_str(
                "browser action may already have occurred; observe again without replaying it: ",
                text.as_str(),
            ));
            o
        },
        None => blank_observation(session),
    };
    match failure {
        None => {
            result.completed_action_count = Some(action_count);
            result.execution_warning = None;
        },
        Some(f) => {
            let message = if f.connection_lost {
                "no action was sent; the browser connection was lost; observe the session before continuing".to_owned()
            } else {
                let mut v: Vec<char> = Vec::new();
                extend_str(&mut v, "action ");
                let n: u64 = (f.completed_action_count + 1) as u64;
                push_decimal(&mut v, n);
                extend_str(&mut v, " may have partially executed; inspect the browser state before continuing: ");
                extend_str(&mut v, f.error_text.as_str());
                string_from_chars(v.as_slice())
            };
            result.completed_action_count = Some(f.completed_action_count);
            result.execution_warning = Some(ComputerExecutionWarning {
                completed_action_count: f.completed_action_count,
                retry_action: false,
                message,
            });
        },
    }
    result
}

/// A target the browser's DevTools endpoint lists.
#[derive(Debug, Clone)]
pub struct DebugTarget {
    pub target_type: String,
    pub web_socket_debugger_url: Option<String>,
}

/// The first listed target that is a page.
pub open spec fn page_index(t: Seq<DebugTarget>, from: int) -> Option<int>
    decreases t.len() - from,
{
    if from < 0 || from >= t.len() {
        None
    } else if t[from].target_type@ == "page"@ {
        Some(from)
    } else {
        page_index(t, from + 1)
    }
}

/// The DevTools address of the first page target; an error when there is no page target
/// or the first one has no address.
pub fn page_target(targets: &Vec<DebugTarget>) -> (r: RuntimeResult<String>)
    ensures
        match page_index(targets@, 0) {
            Some(i) => match targets@[i].web_socket_debugger_url {
                Some(url) => r matches Ok(u) && u@ == url@,
                None => r matches Err(e) && e.code@ == "computer_backend_error"@ && e.retryable,
            },
            None => r matches Err(e) && e.code@ == "computer_backend_error"@ && e.retryable,
        },
{
    let mut i: usize = 0;
    while i < targets.len()
        invariant
            i <= targets@.len(),
            page_index(targets@, 0) == page_index(targets@, i as int),
        decreases targets.len() - i,
    {
        if str_eq(targets[i].target_type.as_str(), "page") {
            return match &targets[i].web_socket_debugger_url {
                Some(url) => Ok(url.clone()),
                None => Err(RuntimeError::retryable("computer_backend_error", "Chrome exposed no page target")),
            };
        }
        i = i + 1;
    }
    Err(RuntimeError::retryable("computer_backend_error", "Chrome exposed no page target"))
}

/// The first line of a text as `str::lines` gives it: none for an empty text; else the
/// text up to the first `\n`, without a `\r` just before it.
pub open spec fn first_line(s: Seq<char>) -> Option<Seq<char>> {
    if s.len() == 0 {
        None
    } else {
        let k = newline_at(s, 0);
        if k >= s.len() {
            Some(s)
        } else {
            let l = s.subrange(0, k);
            Some(if l.len() > 0 && l.last() == '\r' { l.drop_last() } else { l })
        }
    }
}

/// The DevTools port a browser writes on the first line of its `DevToolsActivePort` file.
pub fn devtools_port(contents: &str) -> (r: Option<u16>)
    ensures
        match first_line(contents@) {
            None => r is None,
            Some(l) => match r {
                Some(p) => parse_u16_spec(l) == Some(p as int),
                None => parse_u16_spec(l) is None,
            },
        },
{
    let c = chars_of(contents);
    if c.len() == 0 {
        return None;
    }
    let mut k: usize = 0;
    while k < c.len() && c[k] != '\n'
        invariant
            c@ == contents@,
            k <= c@.len(),
            newline_at(c@, 0) == newline_at(c@, k as int),
        decreases c.len() - k,
    {
        k = k + 1;
    }
    let mut end = k;
    if k < c.len() && end > 0 && c[end - 1] == '\r' {
        end = end - 1;
    }
    let mut line: Vec<char> = Vec::new();
    let mut i: usize = 0;
    while i < end
        invariant
            end <= c@.len(),
            i <= end,
            line@ == c@.subrange(0, i as int),
        decreases end - i,
    {
        line.push(c[i]);
        i = i + 1;
        assert(line@ =~= c@.subrange(0, i as int));
    }
    proof {
        if k >= c@.len() {
            assert(c@.subrange(0, end as int) =~= c@);
        } else if end < k {
            assert(c@.subrange(0, k as int).drop_last() =~= c@.subrange(0, end as int));
        }
    }
    parse_u16(line.as_slice())
}

/// A recorded session is reached again by its id, by its owner and no one else.
pub proof fn lemma_recorded_session_is_reachable(s: Seq<BrowserSessionRecord>, r: BrowserSessionRecord, context: OperationContext)
    ensures
        reachable(with_session(s, r), context, r.session_id@)
            <==> session_owner_view(r.owner) == (context.agent_id@, opt_view(context.task_id)),
        session_index(with_session(s, r), r.session_id@, 0) matches Some(i) && with_session(s, r)[i] == r,
{
    lemma_index_in_range(s, r.session_id@, 0);
    match session_index(s, r.session_id@, 0) {
        Some(i) => {
            lemma_index_after_update(s, r.session_id@, 0, i, r);
        },
        None => {
            lemma_index_after_push(s, r.session_id@, 0, r);
        },
    }
}

/// Recording a session leaves every other id where it was.
pub proof fn lemma_recording_keeps_other_sessions(s: Seq<BrowserSessionRecord>, r: BrowserSessionRecord, id: Seq<char>)
    requires
        id != r.session_id@,
    ensures
        session_index(with_session(s, r), id, 0) == session_index(s, id, 0),
        session_index(s, id, 0) matches Some(i) ==> with_session(s, r)[i] == s[i],
{
    lemma_index_in_range(s, r.session_id@, 0);
    lemma_index_in_range(s, id, 0);
    match session_index(s, r.session_id@, 0) {
        Some(i) => {
            lemma_index_after_update(s, id, 0, i, r);
        },
        None => {
            lemma_index_absent_after_push(s, id, 0, r);
        },
    }
}

/// After a session is closed its id is not reached again.
pub proof fn lemma_closed_session_is_gone(s: Seq<BrowserSessionRecord>, id: Seq<char>)
    requires
        distinct_ids(s),
        session_index(s, id, 0) is Some,
    ensures
        session_index(s.remove(session_index(s, id, 0)->0), id, 0) is None,
{
    let j = session_index(s, id, 0)->0;
    lemma_index_in_range(s, id, 0);
    let t = s.remove(j);
    assert forall|k: int| 0 <= k < t.len() implies t[k].session_id@ != id by {
        if k < j {
            assert(t[k] == s[k]);
        } else {
            assert(t[k] == s[k + 1]);
        }
    }
    lemma_no_match_means_absent(t, id, 0);
}

} // verus!
