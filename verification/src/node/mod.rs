//! Processing nodes and the middleware that wraps them.

use vstd::prelude::*;

pub mod backoff;
pub mod chunk;
pub mod circuit_breaker;
pub mod concurrency;
pub mod idempotency;
pub mod ordering;
pub mod rate_limit;
pub mod retry;
pub mod rollback;
pub mod timeout;

verus! {

/// A step of a pipeline that works without waiting: it takes an item and gives its outputs back
/// at once.
///
/// The three spec functions say what an implementation does. They are relations, so an
/// implementation may leave its result open, and one that does not define them says nothing.
pub trait Node: Sized {
    /// What the node takes.
    type Input;

    /// What the node gives back.
    type Output;

    /// How the node fails.
    type Error;

    /// Whether the node can take `input` in this state.
    open spec fn accepts(self, input: Self::Input) -> bool {
        true
    }

    /// Whether executing `input` may leave the node as `after` and give `result`.
    open spec fn executes(
        self,
        input: Self::Input,
        after: Self,
        result: Result<Self::Output, Self::Error>,
    ) -> bool {
        true
    }

    /// Whether a flush may leave the node as `after` and give `result`.
    open spec fn flushes(self, after: Self, result: Result<Self::Output, Self::Error>) -> bool {
        true
    }

    /// Processes one item.
    fn execute(&mut self, input: &Self::Input) -> (result: Result<Self::Output, Self::Error>)
        requires
            old(self).accepts(*input),
        ensures
            old(self).executes(*input, *final(self), result),
    ;

    /// Gives back what the node still holds when no more items come.
    fn flush(&mut self) -> (result: Result<Self::Output, Self::Error>)
        ensures
            old(self).flushes(*final(self), result),
    ;
}

} // verus!
