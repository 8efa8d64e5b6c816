//! Limits how many requests a node serves at once.

use crate::fault::Fault;
use std::sync::Arc;
use tokio::sync::Semaphore;
use vstd::prelude::*;

verus! {

/// A semaphore of `tokio`. Its permits come and go behind shared references, so nothing is said of
/// how many it has left.
#[verifier::external_type_specification]
#[verifier::external_body]
pub struct ExSemaphore(tokio::sync::Semaphore);

/// With how many permits a semaphore was made.
pub uninterp spec fn initial_permits(semaphore: tokio::sync::Semaphore) -> nat;

/// `Semaphore::new` makes a semaphore with `permits` permits. It panics above
/// `Semaphore::MAX_PERMITS`, which is `usize::MAX >> 3`.
pub assume_specification[ tokio::sync::Semaphore::new ](permits: usize) -> (semaphore:
    tokio::sync::Semaphore)
    requires
        permits <= usize::MAX / 8,
    ensures
        initial_permits(semaphore) == permits,
;

/// A node wrapper that limits the number of concurrent executions.
///
/// The driver acquires a permit of the semaphore, asks [`ConcurrencyLimitNode::on_acquired`], runs
/// the inner node, and releases the permit whatever the result. When combined with retries, this
/// wrapper belongs inside them, so that no request holds a permit while it backs off.
pub struct ConcurrencyLimitNode<N> {
    /// The node to execute once a permit is acquired.
    pub node: N,
    /// The semaphore that limits concurrent requests.
    pub no_of_requests: Arc<Semaphore>,
}

impl<N> ConcurrencyLimitNode<N> {
    /// At most `limit` requests run `node` at once. With a limit of zero none ever would.
    pub fn new(node: N, limit: usize) -> (limited: Self)
        requires
            0 < limit <= usize::MAX / 8,
        ensures
            limited.node == node,
            initial_permits(*limited.no_of_requests) == limit,
    {
        ConcurrencyLimitNode { node, no_of_requests: Arc::new(Semaphore::new(limit)) }
    }

    /// The name under which errors are reported.
    pub fn name(&self) -> (name: &'static str)
        ensures
            name@ == "ConcurrencyLimitNode"@,
    {
        "ConcurrencyLimitNode"
    }

    /// The request got a permit, or, when `acquired` is false, the semaphore was closed. Only with
    /// a permit may it run the inner node.
    pub fn on_acquired(&self, acquired: bool) -> (admission: Result<(), Fault>)
        ensures
            admission == if acquired {
                Ok::<(), Fault>(())
            } else {
                Err(Fault::SemaphoreClosed)
            },
    {
        if acquired {
            Ok(())
        } else {
            Err(Fault::SemaphoreClosed)
        }
    }
}

/// A new node has a permit for each request that may run at once, and keeps its inner node. With a
/// permit a request goes ahead; without one it fails, because the semaphore was closed.
pub proof fn a_permit_admits<N>(
    node: N,
    limit: usize,
    limited: ConcurrencyLimitNode<N>,
    name: &'static str,
    acquired: bool,
    admission: Result<(), Fault>,
)
    requires
        0 < limit <= usize::MAX / 8,
        call_ensures(ConcurrencyLimitNode::<N>::new, (node, limit), limited),
        call_ensures(ConcurrencyLimitNode::<N>::name, (&limited,), name),
        call_ensures(ConcurrencyLimitNode::<N>::on_acquired, (&limited, acquired), admission),
    ensures
        call_requires(ConcurrencyLimitNode::<N>::new, (node, limit)),
        limited.node == node,
        initial_permits(*limited.no_of_requests) == limit,
        name@ == "ConcurrencyLimitNode"@,
        admission is Ok <==> acquired,
        admission matches Err(fault) ==> fault == Fault::SemaphoreClosed,
{
}

} // verus!
