//! Tries a failing node again, whatever its error.

use crate::node::retry;
use crate::node::retry::RetryStep;
use vstd::prelude::*;

verus! {

/// A node wrapper that retries the inner node on every error, up to `retry_count` times, with
/// delays that double. It has neither a policy nor jitter.
pub struct RetryNode<N> {
    /// The node that is retried.
    pub node: N,
    /// How often it is retried.
    pub retry_count: usize,
}

impl<N> RetryNode<N> {
    /// How many retries are left before the first attempt.
    pub fn begin(&self) -> (remaining: usize)
        ensures
            remaining == self.retry_count,
    {
        self.retry_count
    }

    /// An attempt gave `result`; `remaining` retries were left.
    pub fn on_executed<O, E>(&self, remaining: usize, result: Result<O, E>) -> (step: RetryStep<
        O,
        E,
    >)
        requires
            remaining <= self.retry_count,
            self.retry_count - remaining < usize::MAX,
        ensures
            ({
                let attempt = (self.retry_count - remaining + 1) as usize;
                step == retry::retried(
                    result,
                    true,
                    attempt,
                    remaining,
                    retry::delay_limit(attempt as nat) as u64,
                )
            }),
    {
        let attempt: usize = self.retry_count - remaining + 1;
        retry::decide(result, true, attempt, remaining, retry::base_delay(attempt))
    }
}

/// Every error is tried again while a retry is left, after exactly two to the power of the
/// attempt's number in seconds, up to two minutes. A success, and the error that comes when no
/// retry is left, are handed back.
pub proof fn every_error_is_retried<N, O, E>(
    node: RetryNode<N>,
    all: usize,
    remaining: usize,
    result: Result<O, E>,
    step: RetryStep<O, E>,
)
    requires
        call_ensures(RetryNode::<N>::begin, (&node,), all),
        remaining <= node.retry_count,
        node.retry_count - remaining < usize::MAX,
        call_ensures(RetryNode::<N>::on_executed::<O, E>, (&node, remaining, result), step),
    ensures
        all == node.retry_count,
        call_requires(RetryNode::<N>::on_executed::<O, E>, (&node, remaining, result)),
        step is Backoff <==> result is Err && remaining > 0,
        step matches RetryStep::Finish { result: last, attempts } ==> {
            &&& last == result
            &&& attempts == node.retry_count - remaining + 1
        },
        step matches RetryStep::Backoff { error, attempt, delay_secs, remaining: left } ==> {
            &&& result == Err::<O, E>(error)
            &&& attempt == node.retry_count - remaining + 1
            &&& left + 1 == remaining
            &&& attempt <= 6 ==> delay_secs == vstd::arithmetic::power2::pow2(attempt as nat)
            &&& attempt >= 7 ==> delay_secs == 120
        },
{
    retry::delays_double((node.retry_count - remaining + 1) as nat);
}

} // verus!
