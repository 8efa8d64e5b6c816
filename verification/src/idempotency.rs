//! What an idempotency store knows of an item.

use vstd::prelude::*;

verus! {

/// How far the processing of an item has come.
#[derive(Debug, Clone, Copy, PartialEq, Eq, Structural)]
pub enum IdempotencyStatus {
    /// Nobody has begun it.
    New,
    /// Somebody is processing it.
    InProgress,
    /// It was processed.
    Completed,
}

/// What a store holds: the status of each id; ids that it does not hold are new.
pub struct StoreView {
    /// The status of each id that the store holds.
    pub entries: Map<Seq<char>, IdempotencyStatus>,
}

impl StoreView {
    /// The status of `id`.
    pub open spec fn status(self, id: Seq<char>) -> IdempotencyStatus {
        if self.entries.contains_key(id) {
            self.entries[id]
        } else {
            IdempotencyStatus::New
        }
    }

    /// The store once the status of `id` is `status`.
    pub open spec fn with(self, id: Seq<char>, status: IdempotencyStatus) -> StoreView {
        StoreView { entries: self.entries.insert(id, status) }
    }

    /// The store once `id` was checked, which locks it when it is new.
    pub open spec fn checked(self, id: Seq<char>) -> StoreView {
        if self.status(id) == IdempotencyStatus::New {
            self.with(id, IdempotencyStatus::InProgress)
        } else {
            self
        }
    }

    /// The store once `id` was marked as processed.
    pub open spec fn marked(self, id: Seq<char>) -> StoreView {
        self.with(id, IdempotencyStatus::Completed)
    }

    /// The store once the lock on `id` was released.
    pub open spec fn released(self, id: Seq<char>) -> StoreView {
        self.with(id, IdempotencyStatus::New)
    }
}

} // verus!
