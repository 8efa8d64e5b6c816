//! Processes every item at most once.

use crate::idempotency::IdempotencyStatus;
use crate::idempotency::StoreView;
use vstd::prelude::*;

verus! {

/// Gives an item a unique, deterministic identifier.
pub trait Idempotent {
    /// Whether `id` may be the identifier of the item.
    open spec fn identified_by(&self, id: Seq<char>) -> bool {
        true
    }

    /// The identifier of the item.
    fn get_id(&self) -> (id: String)
        ensures
            self.identified_by(id@),
    ;
}

/// How processing an item fails.
#[derive(Debug)]
pub enum IdempotencyError<E, S> {
    /// The inner node failed.
    Inner(E),
    /// The store failed.
    Store(S),
}

/// What the driver of an [`IdempotencyNode`] does next.
#[derive(Debug)]
pub enum IdempotencyStep<O, E, S> {
    /// Execute the inner node.
    Execute,
    /// Mark the item as processed in the store; the inner node gave these outputs.
    MarkSuccess(Vec<O>),
    /// Release the lock on the item in the store; the inner node failed with this error.
    ReleaseLock(E),
    /// End.
    Finish(Result<Vec<O>, IdempotencyError<E, S>>),
}

/// An [`IdempotencyStep`], with the outputs as a sequence.
pub enum IdempotencyStepView<O, E, S> {
    /// Execute the inner node.
    Execute,
    /// Mark the item as processed.
    MarkSuccess(Seq<O>),
    /// Release the lock on the item.
    ReleaseLock(E),
    /// End.
    Finish(Result<Seq<O>, IdempotencyError<E, S>>),
}

impl<O, E, S> View for IdempotencyStep<O, E, S> {
    type V = IdempotencyStepView<O, E, S>;

    open spec fn view(&self) -> IdempotencyStepView<O, E, S> {
        match *self {
            IdempotencyStep::Execute => IdempotencyStepView::Execute,
            IdempotencyStep::MarkSuccess(output) => IdempotencyStepView::MarkSuccess(output@),
            IdempotencyStep::ReleaseLock(error) => IdempotencyStepView::ReleaseLock(error),
            IdempotencyStep::Finish(Ok(output)) => IdempotencyStepView::Finish(Ok(output@)),
            IdempotencyStep::Finish(Err(error)) => IdempotencyStepView::Finish(Err(error)),
        }
    }
}

/// The step once the store was asked for the status of the item: only a new item is executed;
/// others are skipped, with no output.
pub open spec fn checked<O, E, S>(status: Result<IdempotencyStatus, S>) -> IdempotencyStepView<
    O,
    E,
    S,
> {
    match status {
        Ok(IdempotencyStatus::New) => IdempotencyStepView::Execute,
        Ok(_) => IdempotencyStepView::Finish(Ok(Seq::empty())),
        Err(error) => IdempotencyStepView::Finish(Err(IdempotencyError::Store(error))),
    }
}

/// The step once the inner node gave `result`.
pub open spec fn executed<O, E, S>(result: Result<Seq<O>, E>) -> IdempotencyStepView<O, E, S> {
    match result {
        Ok(output) => IdempotencyStepView::MarkSuccess(output),
        Err(error) => IdempotencyStepView::ReleaseLock(error),
    }
}

/// What is handed back once the store was told of a success: the outputs, unless the store
/// failed.
pub open spec fn marked<O, E, S>(output: Seq<O>, stored: Result<(), S>) -> IdempotencyStepView<
    O,
    E,
    S,
> {
    match stored {
        Ok(_) => IdempotencyStepView::Finish(Ok(output)),
        Err(error) => IdempotencyStepView::Finish(Err(IdempotencyError::Store(error))),
    }
}

/// What is handed back once the store was told of a failure: the error of the inner node, even if
/// the store failed too.
pub open spec fn released<O, E, S>(error: E) -> IdempotencyStepView<O, E, S> {
    IdempotencyStepView::Finish(Err(IdempotencyError::Inner(error)))
}

/// A middleware node that prevents duplicate processing of the same item.
///
/// It uses a store to coordinate state across workers. If an item has already been processed, or
/// is currently being processed elsewhere, it is skipped.
pub struct IdempotencyNode<N, S> {
    /// The node that is protected.
    pub inner_node: N,
    /// The store.
    pub store: S,
}

impl<N, S> IdempotencyNode<N, S> {
    /// Protects `inner_node` with `store`.
    pub fn new(inner_node: N, store: S) -> (node: Self)
        ensures
            node.inner_node == inner_node,
            node.store == store,
    {
        IdempotencyNode { inner_node, store }
    }

    /// The name under which errors are reported.
    pub fn name(&self) -> (name: &'static str)
        ensures
            name@ == "IdempotencyNode"@,
    {
        "IdempotencyNode"
    }

    /// The id whose status the store is asked for first, which locks it when it is new.
    pub fn begin<I: Idempotent>(&self, input: &I) -> (id: String)
        ensures
            input.identified_by(id@),
    {
        input.get_id()
    }

    /// The store gave the status of the item, or failed.
    pub fn on_checked<O, E, F>(&self, status: Result<IdempotencyStatus, F>) -> (step:
        IdempotencyStep<O, E, F>)
        ensures
            step@ == checked::<O, E, F>(status),
    {
        match status {
            Ok(IdempotencyStatus::New) => IdempotencyStep::Execute,
            Ok(IdempotencyStatus::InProgress) | Ok(
                IdempotencyStatus::Completed,
            ) => IdempotencyStep::Finish(Ok(Vec::new())),
            Err(error) => IdempotencyStep::Finish(Err(IdempotencyError::Store(error))),
        }
    }

    /// The inner node gave `result`.
    pub fn on_executed<O, E, F>(&self, result: Result<Vec<O>, E>) -> (step: IdempotencyStep<
        O,
        E,
        F,
    >)
        ensures
            step@ == executed::<O, E, F>(
                match result {
                    Ok(output) => Ok(output@),
                    Err(error) => Err(error),
                },
            ),
    {
        match result {
            Ok(output) => IdempotencyStep::MarkSuccess(output),
            Err(error) => IdempotencyStep::ReleaseLock(error),
        }
    }

    /// The item was marked as processed, or the store failed.
    pub fn on_marked<O, E, F>(&self, output: Vec<O>, stored: Result<(), F>) -> (step:
        IdempotencyStep<O, E, F>)
        ensures
            step@ == marked::<O, E, F>(output@, stored),
    {
        match stored {
            Ok(_) => IdempotencyStep::Finish(Ok(output)),
            Err(error) => IdempotencyStep::Finish(Err(IdempotencyError::Store(error))),
        }
    }

    /// The lock on the item was released, or could not be.
    pub fn on_released<O, E, F>(&self, error: E) -> (step: IdempotencyStep<O, E, F>)
        ensures
            step@ == released::<O, E, F>(error),
    {
        IdempotencyStep::Finish(Err(IdempotencyError::Inner(error)))
    }
}

/// How an item was processed.
pub struct Processing<O, E, S> {
    /// What the store holds afterwards.
    pub store: StoreView,
    /// Whether the inner node was executed.
    pub executed: bool,
    /// What is handed back.
    pub result: Result<Seq<O>, IdempotencyError<E, S>>,
}

/// Processes the item `id` with a store that works, when the inner node would give `outcome`.
pub open spec fn processed<O, E, S>(
    store: StoreView,
    id: Seq<char>,
    outcome: Result<Seq<O>, E>,
) -> Processing<O, E, S> {
    match checked::<O, E, S>(Ok(store.status(id))) {
        IdempotencyStepView::Finish(result) => Processing {
            store: store.checked(id),
            executed: false,
            result,
        },
        _ => match executed::<O, E, S>(outcome) {
            IdempotencyStepView::MarkSuccess(output) => Processing {
                store: store.checked(id).marked(id),
                executed: true,
                result: marked::<O, E, S>(output, Ok(()))->Finish_0,
            },
            IdempotencyStepView::ReleaseLock(error) => Processing {
                store: store.checked(id).released(id),
                executed: true,
                result: released::<O, E, S>(error)->Finish_0,
            },
            _ => arbitrary(),
        },
    }
}

/// The node is executed exactly on items that are new. Items that were processed, or are being
/// processed elsewhere, are skipped: they give no output, and the store stays as it is.
pub proof fn skips_items_that_are_not_new<O, E, S>(
    store: StoreView,
    id: Seq<char>,
    outcome: Result<Seq<O>, E>,
)
    ensures
        ({
            let processing = processed::<O, E, S>(store, id, outcome);
            let is_new = store.status(id) == IdempotencyStatus::New;
            &&& processing.executed == is_new
            &&& !is_new ==> processing.store == store
            &&& !is_new ==> processing.result == Ok::<Seq<O>, IdempotencyError<E, S>>(
                Seq::empty(),
            )
        }),
{
}

/// Once an item was processed successfully, it is never executed again: every later processing
/// gives no output and leaves the store as it is.
pub proof fn a_success_is_not_repeated<O, E, S>(
    store: StoreView,
    id: Seq<char>,
    output: Seq<O>,
    again: Result<Seq<O>, E>,
)
    requires
        store.status(id) == IdempotencyStatus::New,
    ensures
        ({
            let first = processed::<O, E, S>(store, id, Ok(output));
            let second = processed::<O, E, S>(first.store, id, again);
            &&& first.executed
            &&& first.result == Ok::<Seq<O>, IdempotencyError<E, S>>(output)
            &&& first.store.status(id) == IdempotencyStatus::Completed
            &&& !second.executed
            &&& second.result == Ok::<Seq<O>, IdempotencyError<E, S>>(Seq::empty())
            &&& second.store == first.store
        }),
{
}

/// A failure releases the item: its error is handed back, and the item can be processed again.
pub proof fn a_failure_can_be_repeated<O, E, S>(
    store: StoreView,
    id: Seq<char>,
    error: E,
    again: Result<Seq<O>, E>,
)
    requires
        store.status(id) == IdempotencyStatus::New,
    ensures
        ({
            let first = processed::<O, E, S>(store, id, Err(error));
            &&& first.executed
            &&& first.result == Err::<Seq<O>, IdempotencyError<E, S>>(
                IdempotencyError::Inner(error),
            )
            &&& first.store.status(id) == IdempotencyStatus::New
            &&& processed::<O, E, S>(first.store, id, again).executed
        }),
{
}

/// Processing an item changes the status of no other.
pub proof fn other_items_are_not_touched<O, E, S>(
    store: StoreView,
    id: Seq<char>,
    other: Seq<char>,
    outcome: Result<Seq<O>, E>,
)
    requires
        other != id,
    ensures
        processed::<O, E, S>(store, id, outcome).store.status(other) == store.status(other),
{
}

/// A new node keeps its inner node and its store, has its own name, and asks for the item by the
/// item's own id.
pub proof fn an_item_is_asked_for_by_its_id<N, S, I: Idempotent>(
    inner_node: N,
    store: S,
    node: IdempotencyNode<N, S>,
    name: &'static str,
    input: &I,
    id: String,
)
    requires
        call_ensures(IdempotencyNode::<N, S>::new, (inner_node, store), node),
        call_ensures(IdempotencyNode::<N, S>::name, (&node,), name),
        call_ensures(IdempotencyNode::<N, S>::begin::<I>, (&node, input), id),
    ensures
        node.inner_node == inner_node,
        node.store == store,
        name@ == "IdempotencyNode"@,
        input.identified_by(id@),
{
}

/// Only an item that the store calls new is executed. One that is in progress or completed is
/// skipped, which is a success without outputs, and a store that fails is reported as such.
pub proof fn only_a_new_item_is_executed<N, S, O, E, F>(
    node: IdempotencyNode<N, S>,
    status: Result<IdempotencyStatus, F>,
    step: IdempotencyStep<O, E, F>,
)
    requires
        call_ensures(
            IdempotencyNode::<N, S>::on_checked::<O, E, F>,
            (&node, status),
            step,
        ),
    ensures
        step is Execute <==> status == Ok::<IdempotencyStatus, F>(IdempotencyStatus::New),
        status == Ok::<IdempotencyStatus, F>(IdempotencyStatus::InProgress) || status == Ok::<
            IdempotencyStatus,
            F,
        >(IdempotencyStatus::Completed) <==> (step matches IdempotencyStep::Finish(Ok(output))
            && output@.len() == 0),
        status matches Err(error) ==> step == IdempotencyStep::<O, E, F>::Finish(
            Err(IdempotencyError::Store(error)),
        ),
{
}

/// The store is told how the inner node ended, before anything is handed back: a success with all
/// its outputs is to be marked, and the lock of a failure is to be released.
pub proof fn the_store_is_told_first<N, S, O, E, F>(
    node: IdempotencyNode<N, S>,
    result: Result<Vec<O>, E>,
    step: IdempotencyStep<O, E, F>,
)
    requires
        call_ensures(
            IdempotencyNode::<N, S>::on_executed::<O, E, F>,
            (&node, result),
            step,
        ),
    ensures
        result matches Ok(output) ==> (step matches IdempotencyStep::MarkSuccess(kept) && kept@
            == output@),
        result matches Err(error) ==> step == IdempotencyStep::<O, E, F>::ReleaseLock(error),
{
}

/// A success that was marked hands back all its outputs; one that could not be marked hands back
/// the error of the store. A failure hands back its own error, whatever the store said.
pub proof fn the_outcome_is_handed_back<N, S, O, E, F>(
    node: IdempotencyNode<N, S>,
    output: Vec<O>,
    stored: Result<(), F>,
    marked_step: IdempotencyStep<O, E, F>,
    error: E,
    released_step: IdempotencyStep<O, E, F>,
)
    requires
        call_ensures(
            IdempotencyNode::<N, S>::on_marked::<O, E, F>,
            (&node, output, stored),
            marked_step,
        ),
        call_ensures(
            IdempotencyNode::<N, S>::on_released::<O, E, F>,
            (&node, error),
            released_step,
        ),
    ensures
        stored is Ok ==> (marked_step matches IdempotencyStep::Finish(Ok(handed)) && handed@
            == output@),
        stored matches Err(failure) ==> marked_step == IdempotencyStep::<O, E, F>::Finish(
            Err(IdempotencyError::Store(failure)),
        ),
        released_step == IdempotencyStep::<O, E, F>::Finish(Err(IdempotencyError::Inner(error))),
{
}

} // verus!
