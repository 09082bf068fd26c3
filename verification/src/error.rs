use vstd::prelude::*;
use crate::budget::BudgetUsage;
use crate::context::{clone_opt, opt_view};

verus! {

/// A structured, machine-readable failure returned by every fallible operation.
#[derive(Debug, Clone)]
pub struct RuntimeError {
    pub code: String,
    pub message: String,
    pub retryable: bool,
    pub phase: Option<String>,
    pub usage: Option<BudgetUsage>,
}

/// The result type used throughout the runtime.
pub type RuntimeResult<T> = Result<T, RuntimeError>;

impl RuntimeError {
    /// A non-retryable error with the given code and message.
    pub fn new(code: &str, message: &str) -> (error: Self)
        ensures
            error.code@ == code@,
            error.message@ == message@,
            !error.retryable,
            error.phase is None,
            error.usage is None,
    {
        RuntimeError {
            code: code.to_owned(),
            message: message.to_owned(),
            retryable: false,
            phase: None,
            usage: None,
        }
    }

    /// A retryable error with the given code and message.
    pub fn retryable(code: &str, message: &str) -> (error: Self)
        ensures
            error.code@ == code@,
            error.message@ == message@,
            error.retryable,
            error.phase is None,
            error.usage is None,
    {
        let mut error = RuntimeError::new(code, message);
        error.retryable = true;
        error
    }

    /// A retryable error reporting that a bounded resource is exhausted.
    pub fn busy(message: &str) -> (error: Self)
        ensures
            error.code@ == "busy"@,
            error.message@ == message@,
            error.retryable,
    {
        RuntimeError::retryable("busy", message)
    }

    /// A copy of this error.
    pub fn duplicate(&self) -> (c: Self)
        ensures
            c.code@ == self.code@,
            c.message@ == self.message@,
            c.retryable == self.retryable,
            opt_view(c.phase) == opt_view(self.phase),
            c.usage == self.usage,
    {
        RuntimeError {
            code: self.code.clone(),
            message: self.message.clone(),
            retryable: self.retryable,
            phase: clone_opt(&self.phase),
            usage: self.usage,
        }
    }
}

} // verus!
