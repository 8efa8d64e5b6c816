//! Gives up on a node that takes too long.

use crate::fault::Fault;
use crate::fault::NodeError;
use vstd::prelude::*;

verus! {

/// A node wrapper that enforces a strict time limit on the execution of the inner node.
///
/// The driver drops the execution of the inner node when the limit elapses, so the inner node must
/// be cancellation safe.
pub struct TimeoutNode<N> {
    /// The node whose time is limited.
    pub node: N,
    /// The limit, in nanoseconds.
    pub timeout: u128,
}

impl<N> TimeoutNode<N> {
    /// Limits the executions of `node` to `timeout` nanoseconds. With a limit of zero every
    /// execution would fail at once.
    pub fn new(node: N, timeout: u128) -> (limited: Self)
        requires
            timeout > 0,
        ensures
            limited.node == node,
            limited.timeout == timeout,
    {
        TimeoutNode { node, timeout }
    }

    /// The inner node gave `finished`, or, without a result, the limit elapsed first.
    pub fn on_executed<O, E>(&self, finished: Option<Result<O, E>>) -> (result: Result<
        O,
        NodeError<E>,
    >)
        ensures
            result == match finished {
                Some(Ok(output)) => Ok(output),
                Some(Err(error)) => Err(NodeError::Inner(error)),
                None => Err(NodeError::Fault(Fault::TimedOut)),
            },
    {
        match finished {
            Some(Ok(output)) => Ok(output),
            Some(Err(error)) => Err(NodeError::Inner(error)),
            None => Err(NodeError::Fault(Fault::TimedOut)),
        }
    }
}

/// What the inner node gave in time is handed back as it is, whether a success or an error. Only
/// when the limit elapsed first is there a fault, and that is a timeout.
pub proof fn only_a_late_node_times_out<N, O, E>(
    node: N,
    timeout: u128,
    limited: TimeoutNode<N>,
    finished: Option<Result<O, E>>,
    result: Result<O, NodeError<E>>,
)
    requires
        timeout > 0,
        call_ensures(TimeoutNode::<N>::new, (node, timeout), limited),
        call_ensures(TimeoutNode::<N>::on_executed::<O, E>, (&limited, finished), result),
    ensures
        call_requires(TimeoutNode::<N>::new, (node, timeout)),
        limited.node == node,
        limited.timeout == timeout,
        result matches Ok(output) ==> finished == Some(Ok::<O, E>(output)),
        result matches Err(NodeError::Inner(error)) ==> finished == Some(Err::<O, E>(error)),
        result matches Err(NodeError::Fault(fault)) ==> finished is None && fault
            == Fault::TimedOut,
{
}

} // verus!
