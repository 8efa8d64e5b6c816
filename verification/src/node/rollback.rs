//! Undo actions that travel with an item.

use vstd::prelude::*;

verus! {

/// An item together with the actions that undo what was done to it. `R` is such an action.
#[derive(Debug)]
pub struct RollbackContext<T, R> {
    /// The item.
    pub inner: T,
    /// The actions, the latest last.
    pub stack: Vec<R>,
}

impl<T, R> RollbackContext<T, R> {
    /// An item to which nothing was done.
    pub fn new(inner: T) -> (context: Self)
        ensures
            context.inner == inner,
            context.stack@ == Seq::<R>::empty(),
    {
        RollbackContext { inner, stack: Vec::new() }
    }

    /// Something was done that `rollback` undoes.
    pub fn push(&mut self, rollback: R)
        ensures
            final(self).inner == old(self).inner,
            final(self).stack@ == old(self).stack@.push(rollback),
    {
        self.stack.push(rollback);
    }

    /// Takes the action that is to be executed next, the latest that was pushed. The driver
    /// executes it, whether or not those before it failed, until none is left.
    pub fn next_rollback(&mut self) -> (rollback: Option<R>)
        ensures
            final(self).inner == old(self).inner,
            match rollback {
                Some(rollback) => old(self).stack@ == final(self).stack@.push(rollback),
                None => old(self).stack@.len() == 0 && final(self).stack@.len() == 0,
            },
    {
        let ghost before = self.stack@;
        let rollback = self.stack.pop();
        proof {
            if before.len() > 0 {
                assert(before =~= before.drop_last().push(before.last()));
            }
        }
        rollback
    }
}

/// The actions in the order in which they are executed when `stack` is emptied from the top.
pub open spec fn executed_rollbacks<R>(stack: Seq<R>) -> Seq<R>
    decreases stack.len(),
{
    if stack.len() == 0 {
        Seq::empty()
    } else {
        seq![stack.last()] + executed_rollbacks(stack.drop_last())
    }
}

/// Everything is undone, each action once, in the reverse of the order in which it was done.
pub proof fn rolls_back_in_reverse<R>(stack: Seq<R>)
    ensures
        executed_rollbacks(stack) == stack.reverse(),
    decreases stack.len(),
{
    if stack.len() > 0 {
        rolls_back_in_reverse(stack.drop_last());
    }
    assert(executed_rollbacks(stack) =~= stack.reverse());
}

/// Nothing is to be undone at first, and what is pushed is what is undone next: a push followed by
/// a take gives the action back and leaves the context as it was.
pub proof fn a_take_undoes_a_push<T, R>(
    inner: T,
    fresh: RollbackContext<T, R>,
    pushed: &mut RollbackContext<T, R>,
    action: R,
    taken: &mut RollbackContext<T, R>,
    next: Option<R>,
)
    requires
        call_ensures(RollbackContext::<T, R>::new, (inner,), fresh),
        call_ensures(RollbackContext::<T, R>::push, (pushed, action), ()),
        *old(taken) == *final(pushed),
        call_ensures(RollbackContext::<T, R>::next_rollback, (taken,), next),
    ensures
        fresh.inner == inner,
        fresh.stack@.len() == 0,
        final(pushed).inner == old(pushed).inner,
        next == Some(action),
        final(taken).inner == old(pushed).inner,
        final(taken).stack@ == old(pushed).stack@,
{
    let before = old(pushed).stack@;
    let rest = final(taken).stack@;
    assert(before.push(action).drop_last() =~= before);
    assert(next is Some);
    assert(rest.push(next->0).drop_last() =~= rest);
    assert(rest.push(next->0).last() == before.push(action).last());
}

/// Taking actions until none is left undoes everything, each action once, the latest first: the
/// action that is taken at each turn is the one that was pushed as many places before the last.
pub proof fn takes_come_latest_first<T, R>(
    contexts: Seq<&mut RollbackContext<T, R>>,
    taken: Seq<Option<R>>,
    at: int,
)
    requires
        0 <= at < contexts.len() == taken.len(),
        forall|i: int|
            0 <= i < contexts.len() ==> call_ensures(
                RollbackContext::<T, R>::next_rollback,
                (contexts[i],),
                #[trigger] taken[i],
            ),
        forall|i: int| 0 < i < contexts.len() ==> *(contexts[i]) == *final(#[trigger] contexts[i - 1]),
    ensures
        ({
            let stack = contexts[0].stack@;
            &&& at < stack.len() ==> taken[at] == Some(stack[stack.len() - 1 - at])
            &&& at >= stack.len() ==> taken[at] is None
            &&& final(contexts[at]).stack@ == stack.take(
                if at < stack.len() {
                    stack.len() - 1 - at
                } else {
                    0
                },
            )
        }),
    decreases at,
{
    let stack = contexts[0].stack@;
    if at > 0 {
        takes_come_latest_first(contexts, taken, at - 1);
    } else {
        assert(stack.take(stack.len() as int) =~= stack);
    }
    assert(call_ensures(
        RollbackContext::<T, R>::next_rollback,
        (contexts[at],),
        taken[at],
    ));
    let before = contexts[at].stack@;
    let after = final(contexts[at]).stack@;
    assert(at < stack.len() ==> before == stack.take(stack.len() - at));
    if taken[at] is Some {
        assert(before.drop_last() =~= after);
        assert(before.last() == taken[at]->0);
        assert(after =~= stack.take(stack.len() - 1 - at));
    } else {
        assert(after =~= stack.take(0));
    }
}

} // verus!
