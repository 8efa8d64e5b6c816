//! The stages of a pipeline, as state machines that tell their driver what to do next.

use vstd::prelude::*;

pub mod concurrent;
pub mod delivery;
pub mod pipe;
pub mod polling;
pub mod terminal;
pub mod validate;

verus! {

/// How many items a channel between two stages holds where nothing else is said. Where faults are
/// survived, no more tasks of a stage than this may run at once.
pub const BUFFER_SIZE: usize = 100;

/// What a pipeline does about a fault outside its nodes.
#[derive(Debug, Clone, Copy, PartialEq, Eq, Structural)]
pub enum FaultPolicy {
    /// A source error ends polling, a panicking task is reported and ends its stage, and a failed
    /// write ends the dead letter queue worker. A shutdown closes the source, and a concurrent
    /// stage that is stopped flushes its node at once.
    Halt,
    /// The fault is survived. A shutdown leaves the source as it is, and a concurrent stage that
    /// is stopped lets its aborted tasks end before it flushes its node.
    Continue,
}

} // verus!
