//! The errors that middleware raises itself.

use vstd::prelude::*;

verus! {

/// The class of a fault.
#[derive(Debug, Clone, Copy, PartialEq, Eq, Structural)]
pub enum FaultKind {
    /// No narrower class fits.
    Other,
    /// A time limit was exceeded.
    TimedOut,
    /// What the operation goes through was closed.
    BrokenPipe,
}

/// An error that middleware raises itself, without the node that it wraps.
#[derive(Debug, Clone, Copy, PartialEq, Eq, Structural)]
pub enum Fault {
    /// A circuit breaker is open.
    BreakerOpen,
    /// A circuit breaker is half-open, and its probe is under way.
    BreakerHalfOpen,
    /// A token bucket is empty.
    RateLimited,
    /// A node did not finish within its time limit.
    TimedOut,
    /// The semaphore that limits concurrency was closed.
    SemaphoreClosed,
}

impl Fault {
    /// The class of each fault.
    pub open spec fn kind_spec(self) -> FaultKind {
        match self {
            Fault::BreakerOpen | Fault::BreakerHalfOpen | Fault::RateLimited => FaultKind::Other,
            Fault::TimedOut => FaultKind::TimedOut,
            Fault::SemaphoreClosed => FaultKind::BrokenPipe,
        }
    }

    /// The message of each fault.
    pub open spec fn text(self) -> Seq<char> {
        match self {
            Fault::BreakerOpen => "Circuit breaker tripped"@,
            Fault::BreakerHalfOpen => "Circuit breaker is half-open"@,
            Fault::RateLimited => "Rate limit exceeded"@,
            Fault::TimedOut => "Node execution exceeded the configured timeout"@,
            Fault::SemaphoreClosed => "Concurrency semaphore closed"@,
        }
    }

    /// The class of the fault.
    pub fn kind(&self) -> (kind: FaultKind)
        ensures
            kind == self.kind_spec(),
    {
        match self {
            Fault::BreakerOpen | Fault::BreakerHalfOpen | Fault::RateLimited => FaultKind::Other,
            Fault::TimedOut => FaultKind::TimedOut,
            Fault::SemaphoreClosed => FaultKind::BrokenPipe,
        }
    }

    /// The message of the fault.
    pub fn message(&self) -> (message: &'static str)
        ensures
            message@ == self.text(),
    {
        match self {
            Fault::BreakerOpen => "Circuit breaker tripped",
            Fault::BreakerHalfOpen => "Circuit breaker is half-open",
            Fault::RateLimited => "Rate limit exceeded",
            Fault::TimedOut => "Node execution exceeded the configured timeout",
            Fault::SemaphoreClosed => "Concurrency semaphore closed",
        }
    }
}

/// How a wrapped node fails: by an error of the node, or by a fault of the wrapper.
#[derive(Debug, PartialEq, Eq)]
pub enum NodeError<E> {
    /// The wrapped node failed.
    Inner(E),
    /// The wrapper intervened.
    Fault(Fault),
}

/// Every fault says what happened, in words of its own, and is of the class that a caller expects:
/// a timeout is one, a closed semaphore is a broken pipe, and the others are refusals of no
/// narrower class.
pub proof fn faults_say_what_happened(fault: Fault, kind: FaultKind, message: &'static str)
    requires
        call_ensures(Fault::kind, (&fault,), kind),
        call_ensures(Fault::message, (&fault,), message),
    ensures
        kind == FaultKind::TimedOut <==> fault == Fault::TimedOut,
        kind == FaultKind::BrokenPipe <==> fault == Fault::SemaphoreClosed,
        fault == Fault::BreakerOpen ==> message@ == "Circuit breaker tripped"@,
        fault == Fault::BreakerHalfOpen ==> message@ == "Circuit breaker is half-open"@,
        fault == Fault::RateLimited ==> message@ == "Rate limit exceeded"@,
        fault == Fault::TimedOut ==> message@ == "Node execution exceeded the configured timeout"@,
        fault == Fault::SemaphoreClosed ==> message@ == "Concurrency semaphore closed"@,
{
}

} // verus!
