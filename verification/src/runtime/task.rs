//! Tasks of the runtime.

use vstd::prelude::*;

verus! {

/// Why a task gave no result; `P` is the payload of a panic.
#[derive(Debug)]
pub enum JoinError<P> {
    /// The task was cancelled.
    Cancelled,
    /// The task panicked with this payload.
    Panic(P),
}

impl<P> JoinError<P> {
    /// Whether the task was cancelled.
    pub fn is_cancelled(&self) -> (r: bool)
        ensures
            r <==> self is Cancelled,
    {
        matches!(self, Self::Cancelled)
    }

    /// Whether the task panicked.
    pub fn is_panic(&self) -> (r: bool)
        ensures
            r <==> self is Panic,
    {
        !self.is_cancelled()
    }
}

} // verus!
