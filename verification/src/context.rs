//! Who is asking: the identity of one tool call.

use vstd::prelude::*;

verus! {

/// The caller of one tool operation.
#[derive(Debug, Clone)]
pub struct OperationContext {
    pub request_id: String,
    pub agent_id: String,
    pub tool: String,
    pub task_id: Option<String>,
    pub turn_id: Option<String>,
    /// The conversation the call belongs to, when the host scopes state by it.
    pub conversation_scope_id: Option<String>,
    /// Set once the caller has asked the operation to stop.
    pub cancelled: bool,
}

/// The view of an optional text.
pub open spec fn opt_view(v: Option<String>) -> Option<Seq<char>> {
    match v {
        Some(s) => Some(s@),
        None => None,
    }
}

impl OperationContext {
    /// A context for `tool` called by `agent_id`, with no task, turn or conversation scope,
    /// and not cancelled.
    pub fn new(request_id: &str, agent_id: &str, tool: &str) -> (c: Self)
        ensures
            c.request_id@ == request_id@,
            c.agent_id@ == agent_id@,
            c.tool@ == tool@,
            c.task_id is None,
            c.turn_id is None,
            c.conversation_scope_id is None,
            !c.cancelled,
    {
        OperationContext {
            request_id: request_id.to_owned(),
            agent_id: agent_id.to_owned(),
            tool: tool.to_owned(),
            task_id: None,
            turn_id: None,
            conversation_scope_id: None,
            cancelled: false,
        }
    }
}

/// Copies an optional text.
pub fn clone_opt(v: &Option<String>) -> (r: Option<String>)
    ensures
        opt_view(r) == opt_view(*v),
{
    match v {
        Some(s) => Some(s.clone()),
        None => None,
    }
}

/// Compares two optional texts by content.
pub fn opt_eq(a: &Option<String>, b: &Option<String>) -> (r: bool)
    ensures
        r == (opt_view(*a) == opt_view(*b)),
{
    match (a, b) {
        (Some(x), Some(y)) => *x == *y,
        (None, None) => true,
        _ => false,
    }
}

} // verus!
