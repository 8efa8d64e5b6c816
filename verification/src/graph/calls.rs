//! What the calls of a graph engine do, each by itself and one after the other.

use crate::graph::CheckpointStrategy;
use crate::graph::EngineView;
use crate::graph::ExecutionContext;
use crate::graph::ExecutionResult;
use crate::graph::GraphEngine;
use crate::graph::GraphError;
use crate::graph::GraphStep;
use crate::graph::Reducer;
use crate::graph::SaveReason;
use crate::graph::Topology;
use tokio_util::sync::CancellationToken;
use vstd::prelude::*;
use vstd::std_specs::cmp::PartialEqSpec;

verus! {

/// Whether `node` equals one that the execution is to be interrupted before.
pub open spec fn is_listed<T: Topology, P>(engine: EngineView<T, P>, node: T) -> bool {
    exists|i: int|
        0 <= i < engine.interrupt_before.len() && (
        #[trigger] engine.interrupt_before[i]).eq_spec(&node)
}

/// The engine may stop before `node`. Nothing more than that there is a list is known where the
/// type does not say what its equality means.
pub open spec fn may_stop<T: Topology, P>(engine: EngineView<T, P>, node: T) -> bool {
    &&& engine.interrupt_before.len() > 0
    &&& T::obeys_eq_spec() ==> is_listed(engine, node)
}

/// The engine may pass `node`.
pub open spec fn may_pass<T: Topology, P>(engine: EngineView<T, P>, node: T) -> bool {
    T::obeys_eq_spec() ==> !is_listed(engine, node)
}

/// What each step says of an execution that stands at `ctx` with `state` and is given it next. The
/// state and the context are handed on, but for the mark of a resumption, which the execution of a
/// node removes.
pub open spec fn proceeds<T: Topology, P>(
    engine: EngineView<T, P>,
    ctx: ExecutionContext<T>,
    state: T::State,
    step: GraphStep<T>,
) -> bool {
    match step {
        GraphStep::Execute { node, ctx: c, state: s } => {
            &&& ctx.next_node matches Some(next) && cloned(next, node)
            &&& ctx.is_resuming || may_pass(engine, node)
            &&& ctx.step_count < engine.max_steps
            &&& s == state
            &&& !c.is_resuming
            &&& c.thread_id == ctx.thread_id
            &&& c.next_node == ctx.next_node
            &&& c.step_count == ctx.step_count
            &&& c.metadata == ctx.metadata
        },
        GraphStep::Save { reason, ctx: c, state: s } => {
            &&& reason matches SaveReason::Suspending(node)
            &&& ctx.next_node matches Some(next) && cloned(next, node)
            &&& !ctx.is_resuming
            &&& may_stop(engine, node)
            &&& engine.checkpoint is Some
            &&& c == ctx
            &&& s == state
        },
        GraphStep::Finish(Ok(ExecutionResult::Suspended { state: s, pending_node, ctx: c })) => {
            &&& ctx.next_node matches Some(next) && cloned(next, pending_node)
            &&& !ctx.is_resuming
            &&& may_stop(engine, pending_node)
            &&& engine.checkpoint is None
            &&& c == ctx
            &&& s == state
        },
        GraphStep::Finish(Ok(ExecutionResult::Completed { state: s, ctx: c })) => {
            &&& ctx.next_node is None
            &&& c == ctx
            &&& s == state
        },
        GraphStep::Finish(Err(error)) => {
            &&& error matches GraphError::MaxStepsExceeded(count)
            &&& count == ctx.step_count
            &&& ctx.step_count >= engine.max_steps
            &&& ctx.next_node matches Some(next)
            &&& ctx.is_resuming || exists|node: T| #[trigger]
                cloned(next, node) && may_pass(engine, node)
        },
    }
}

proof fn lemma_proceeds<T: Topology, P>(
    engine: EngineView<T, P>,
    ctx: ExecutionContext<T>,
    state: T::State,
    step: GraphStep<T>,
)
    requires
        engine.continues_with(ctx, state, step),
    ensures
        proceeds(engine, ctx, state, step),
{
}

/// A new context stands at the start, and what is attached to it changes nothing else.
pub proof fn a_context_begins_at_its_node<K>(
    thread_id: String,
    next_node: K,
    ctx: ExecutionContext<K>,
    key: String,
    value: String,
    with: ExecutionContext<K>,
)
    requires
        call_ensures(ExecutionContext::<K>::new, (thread_id, next_node), ctx),
        call_ensures(ExecutionContext::<K>::with_metadata, (ctx, key, value), with),
    ensures
        ctx.thread_id == thread_id,
        ctx.next_node == Some(next_node),
        ctx.step_count == 0,
        !ctx.is_resuming,
        forall|other: Seq<char>| !#[trigger] ctx.metadata@.contains_key(other),
        with.thread_id == thread_id,
        with.next_node == Some(next_node),
        with.step_count == 0,
        !with.is_resuming,
        with.metadata@.contains_key(key@),
        with.metadata@[key@] == value@,
        forall|other: Seq<char>| #[trigger]
            with.metadata@.contains_key(other) ==> other == key@,
{
}

/// Attaching a value keeps the execution where it is, and every other value.
pub proof fn attaching_keeps_the_rest<K>(
    ctx: ExecutionContext<K>,
    key: String,
    value: String,
    with: ExecutionContext<K>,
)
    requires
        call_ensures(ExecutionContext::<K>::with_metadata, (ctx, key, value), with),
    ensures
        with.thread_id == ctx.thread_id,
        with.next_node == ctx.next_node,
        with.step_count == ctx.step_count,
        with.is_resuming == ctx.is_resuming,
        with.metadata@.contains_key(key@),
        with.metadata@[key@] == value@,
        forall|other: Seq<char>|
            other != key@ ==> {
                &&& #[trigger] with.metadata@.contains_key(other) == ctx.metadata@.contains_key(
                    other,
                )
                &&& with.metadata@.contains_key(other) ==> with.metadata@[other]
                    == ctx.metadata@[other]
            },
{
}

/// Settings are added one by one, in any order: each changes what it says and nothing else, and an
/// engine without settings limits, interrupts and stores nothing.
pub proof fn settings_are_independent<T: Topology, P>(
    plain: GraphEngine<T, P>,
    before: GraphEngine<T, P>,
    steps: usize,
    limited: GraphEngine<T, P>,
    node: T,
    interrupted: GraphEngine<T, P>,
    token: CancellationToken,
    cancellable: GraphEngine<T, P>,
    checkpoint: P,
    strategy: CheckpointStrategy,
    stored: GraphEngine<T, P>,
)
    requires
        call_ensures(GraphEngine::<T, P>::new, (), plain),
        call_ensures(GraphEngine::<T, P>::with_max_steps, (before, steps), limited),
        call_ensures(GraphEngine::<T, P>::with_interrupt_before, (before, node), interrupted),
        call_ensures(GraphEngine::<T, P>::with_cancel_token, (before, token), cancellable),
        call_ensures(
            GraphEngine::<T, P>::with_checkpoint,
            (before, checkpoint, strategy),
            stored,
        ),
    ensures
        plain@.max_steps == usize::MAX,
        plain@.interrupt_before.len() == 0,
        plain@.cancel_token is None,
        plain@.strategy is None,
        plain@.checkpoint is None,
        limited@.max_steps == steps,
        limited@ == (EngineView { max_steps: limited@.max_steps, ..before@ }),
        interrupted@.interrupt_before.len() == before@.interrupt_before.len() + 1,
        interrupted@.interrupt_before.last() == node,
        forall|i: int|
            0 <= i < before@.interrupt_before.len() ==> #[trigger] interrupted@.interrupt_before[i]
                == before@.interrupt_before[i],
        interrupted@ == (EngineView {
            interrupt_before: interrupted@.interrupt_before,
            ..before@
        }),
        cancellable@.cancel_token == Some(token),
        cancellable@ == (EngineView { cancel_token: cancellable@.cancel_token, ..before@ }),
        stored@.checkpoint == Some(checkpoint),
        stored@.strategy == Some(strategy),
        stored@ == (EngineView {
            checkpoint: stored@.checkpoint,
            strategy: stored@.strategy,
            ..before@
        }),
{
}

/// The token that was set is the one that cancels.
pub proof fn the_set_token_cancels<T: Topology, P>(
    engine: GraphEngine<T, P>,
    token: CancellationToken,
    handle: CancellationToken,
)
    requires
        engine@.cancel_token == Some(token),
        call_ensures(GraphEngine::<T, P>::cancel_token, (&engine,), handle),
    ensures
        handle == token,
{
}

/// A checkpoint that is forced goes to the store whenever there is one, whatever the strategy and
/// the step count, and so does a resumption; without a store the former does nothing, and the
/// latter says why it fails.
pub proof fn a_store_is_always_used<T: Topology, P>(
    engine: GraphEngine<T, P>,
    forced: Option<&P>,
    resumed: Result<&P, GraphError<T::Error>>,
)
    requires
        call_ensures(GraphEngine::<T, P>::force_save, (&engine,), forced),
        call_ensures(GraphEngine::<T, P>::resume, (&engine,), resumed),
    ensures
        engine@.checkpoint matches Some(store) ==> {
            &&& forced matches Some(place) && *place == store
            &&& resumed matches Ok(place) && *place == store
        },
        engine@.checkpoint is None ==> {
            &&& forced is None
            &&& resumed matches Err(GraphError::CheckpointError(message)) && message@
                == "Cannot resume: no checkpoint configured"@
        },
{
}

/// Between steps a checkpoint goes to the store exactly when there is one and the strategy asks for
/// it: always, at each multiple of a number, but not before the first step, or never.
pub proof fn a_checkpoint_is_due_by_strategy<T: Topology, P>(
    engine: GraphEngine<T, P>,
    ctx: ExecutionContext<T>,
    due: Option<&P>,
)
    requires
        engine@.strategy == Some(CheckpointStrategy::EveryNSteps(0)) ==> ctx.step_count == 0
            || engine@.checkpoint is None,
        call_ensures(GraphEngine::<T, P>::save, (&engine, &ctx), due),
    ensures
        call_requires(GraphEngine::<T, P>::save, (&engine, &ctx)),
        due matches Some(place) ==> engine@.checkpoint == Some(*place),
        engine@.checkpoint is None ==> due is None,
        engine@.checkpoint is Some && engine@.strategy == Some(CheckpointStrategy::Always)
            ==> due is Some,
        engine@.strategy == Some(CheckpointStrategy::OnSuspendOnly) || engine@.strategy is None
            ==> due is None,
        engine@.strategy matches Some(CheckpointStrategy::EveryNSteps(n)) ==> {
            &&& ctx.step_count == 0 ==> due is None
            &&& engine@.checkpoint is Some && ctx.step_count > 0 ==> (due is Some
                <==> ctx.step_count % n == 0)
        },
{
}

/// An execution begins where its context stands: it completes when no node is next, stops before a
/// node that is listed, fails at the limit, and otherwise executes the node that is next.
pub proof fn an_execution_begins_at_its_context<T: Topology, P>(
    engine: GraphEngine<T, P>,
    ctx: ExecutionContext<T>,
    state: T::State,
    step: GraphStep<T>,
) where T::State: Reducer<T::Delta, T::Error>
    requires
        call_ensures(GraphEngine::<T, P>::execute, (&engine, ctx, state), step),
    ensures
        call_requires(GraphEngine::<T, P>::execute, (&engine, ctx, state)),
        proceeds(engine@, ctx, state, step),
{
    lemma_proceeds(engine@, ctx, state, step);
}

/// A checkpoint that was found is gone on from, past an interruption before its node; one that was
/// not found, or could not be read, ends the execution with a message that says so.
pub proof fn a_checkpoint_is_gone_on_from<T: Topology, P>(
    engine: GraphEngine<T, P>,
    thread_id: &str,
    loaded: Result<Option<(ExecutionContext<T>, T::State)>, String>,
    step: GraphStep<T>,
) where T::State: Reducer<T::Delta, T::Error>
    requires
        call_ensures(GraphEngine::<T, P>::on_loaded, (&engine, thread_id, loaded), step),
    ensures
        call_requires(GraphEngine::<T, P>::on_loaded, (&engine, thread_id, loaded)),
        loaded matches Ok(Some((ctx, state))) ==> {
            &&& proceeds(engine@, ExecutionContext { is_resuming: true, ..ctx }, state, step)
            &&& !(step is Save)
        },
        loaded matches Ok(None) ==> (step matches GraphStep::Finish(
            Err(GraphError::CheckpointError(message)),
        ) && message@ == "No checkpoint found for thread_id: "@ + thread_id@),
        loaded matches Err(reason) ==> step == GraphStep::<T>::Finish(
            Err(GraphError::CheckpointError(reason)),
        ),
{
    if let Ok(Some((ctx, state))) = loaded {
        lemma_proceeds(engine@, ExecutionContext { is_resuming: true, ..ctx }, state, step);
    }
}

/// Whether the strategy asks for a checkpoint after `count` steps.
pub open spec fn asks_for_a_checkpoint(strategy: Option<CheckpointStrategy>, count: nat) -> bool {
    ||| strategy == Some(CheckpointStrategy::Always)
    ||| strategy matches Some(CheckpointStrategy::EveryNSteps(n)) && 0 < count && count % n as nat
        == 0
}

/// A node that fails ends the execution with its error. What a node gives is merged into the state;
/// if that fails, its error ends the execution. Otherwise the step is counted, the node says which
/// one is next, and nothing else of the context changes: that is what is saved when a checkpoint
/// is due, and where the execution goes on when none is. Only a step that can succeed needs a
/// counter that can be raised and a strategy that decides.
pub proof fn a_result_is_merged_and_followed<T: Topology, P>(
    engine: GraphEngine<T, P>,
    node: T,
    ctx: ExecutionContext<T>,
    state: T::State,
    result: Result<T::Delta, T::Error>,
    step: GraphStep<T>,
) -> (merged: Option<(T::State, Option<T>)>) where T::State: Reducer<T::Delta, T::Error>
    requires
        result matches Ok(delta) ==> forall|after: T::State| #[trigger]
            state.reduces(delta, after, Ok(())) ==> {
                &&& ctx.step_count < usize::MAX
                &&& engine@.strategy != Some(CheckpointStrategy::EveryNSteps(0))
                    || engine@.checkpoint is None
            },
        call_ensures(
            GraphEngine::<T, P>::on_executed,
            (&engine, node, ctx, state, result),
            step,
        ),
    ensures
        call_requires(GraphEngine::<T, P>::on_executed, (&engine, node, ctx, state, result)),
        result matches Err(error) ==> step == GraphStep::<T>::Finish(
            Err(GraphError::NodeError(error)),
        ),
        result is Err ==> merged is None,
        result is Ok && merged is None ==> exists|after: T::State, error: T::Error|
            {
                &&& #[trigger] state.reduces(result->Ok_0, after, Err(error))
                &&& step == GraphStep::<T>::Finish(Err(GraphError::LogicalError(error)))
            },
        merged matches Some((after, next)) ==> {
            let there = ExecutionContext {
                step_count: (ctx.step_count + 1) as usize,
                next_node: next,
                ..ctx
            };
            let due = engine@.checkpoint is Some && asks_for_a_checkpoint(
                engine@.strategy,
                (ctx.step_count + 1) as nat,
            );
            &&& state.reduces(result->Ok_0, after, Ok(()))
            &&& node.leads_to(after, next)
            &&& due ==> step == (GraphStep::<T>::Save {
                reason: SaveReason::Stepped,
                ctx: there,
                state: after,
            })
            &&& !due ==> proceeds(engine@, there, after, step)
        },
{
    match result {
        Err(_) => None,
        Ok(delta) => {
            if exists|after: T::State, error: T::Error|
                {
                    &&& #[trigger] state.reduces(delta, after, Err(error))
                    &&& step == GraphStep::<T>::Finish(Err(GraphError::LogicalError(error)))
                } {
                None
            } else {
                let (after, next) = choose|after: T::State, next: Option<T>|
                    {
                        &&& #[trigger] state.reduces(delta, after, Ok(()))
                        &&& #[trigger] node.leads_to(after, next)
                        &&& engine@.stepped(
                            ExecutionContext {
                                step_count: (ctx.step_count + 1) as usize,
                                next_node: next,
                                ..ctx
                            },
                            after,
                            step,
                        )
                    };
                let there = ExecutionContext {
                    step_count: (ctx.step_count + 1) as usize,
                    next_node: next,
                    ..ctx
                };
                let due = engine@.checkpoint is Some && asks_for_a_checkpoint(
                    engine@.strategy,
                    (ctx.step_count + 1) as nat,
                );
                assert(due == engine@.saves_at(there.step_count as nat));
                if !due {
                    lemma_proceeds(engine@, there, after, step);
                }
                Some((after, next))
            }
        },
    }
}

/// A cancelled execution loses no finished step: whenever there is a store, the context and the
/// state from before the cancelled node are saved as they are, whatever the step count and the
/// strategy. Without a store there is nothing to save, and the execution ends at once.
pub proof fn a_cancellation_saves_the_progress<T: Topology, P>(
    engine: GraphEngine<T, P>,
    ctx: ExecutionContext<T>,
    state: T::State,
    step: GraphStep<T>,
) where T::State: Reducer<T::Delta, T::Error>
    requires
        call_ensures(GraphEngine::<T, P>::on_cancelled, (&engine, ctx, state), step),
    ensures
        call_requires(GraphEngine::<T, P>::on_cancelled, (&engine, ctx, state)),
        engine@.checkpoint is Some ==> step == (GraphStep::<T>::Save {
            reason: SaveReason::Cancelling,
            ctx,
            state,
        }),
        engine@.checkpoint is None ==> step == GraphStep::<T>::Finish(Err(GraphError::Cancelled)),
{
}

/// A checkpoint that was written leads on: an execution that is cancelled ends as cancelled, one
/// that is suspended ends with what was written, and one that took a step goes on from what was
/// written. One that could not be written is reported, unless the execution was cancelled.
pub proof fn a_written_checkpoint_leads_on<T: Topology, P>(
    engine: GraphEngine<T, P>,
    reason: SaveReason<T>,
    ctx: ExecutionContext<T>,
    state: T::State,
    result: Result<(), String>,
    step: GraphStep<T>,
) where T::State: Reducer<T::Delta, T::Error>
    requires
        call_ensures(GraphEngine::<T, P>::on_saved, (&engine, reason, ctx, state, result), step),
    ensures
        call_requires(GraphEngine::<T, P>::on_saved, (&engine, reason, ctx, state, result)),
        reason is Cancelling ==> step == GraphStep::<T>::Finish(Err(GraphError::Cancelled)),
        !(reason is Cancelling) ==> (result matches Err(message) ==> step == GraphStep::<
            T,
        >::Finish(Err(GraphError::CheckpointError(message)))),
        result is Ok ==> (reason matches SaveReason::Suspending(node) ==> step == GraphStep::<
            T,
        >::Finish(Ok(ExecutionResult::Suspended { state, pending_node: node, ctx }))),
        result is Ok && reason is Stepped ==> proceeds(engine@, ctx, state, step),
{
    if result is Ok && reason is Stepped {
        lemma_proceeds(engine@, ctx, state, step);
    }
}

/// Cancelling a node and resuming the thread executes that node, on the same state and with the
/// same context, and as if it had not been begun before.
pub proof fn a_cancelled_node_is_executed_on_resumption<T: Topology, P>(
    engine: GraphEngine<T, P>,
    ctx: ExecutionContext<T>,
    state: T::State,
    first: GraphStep<T>,
    node: T,
    at: ExecutionContext<T>,
    on: T::State,
    cancelled: GraphStep<T>,
    reason: SaveReason<T>,
    written: ExecutionContext<T>,
    written_state: T::State,
    thread_id: &str,
    resumed: GraphStep<T>,
) where T::State: Reducer<T::Delta, T::Error>
    requires
        engine@.checkpoint is Some,
        call_ensures(GraphEngine::<T, P>::execute, (&engine, ctx, state), first),
        first == (GraphStep::<T>::Execute { node, ctx: at, state: on }),
        call_ensures(GraphEngine::<T, P>::on_cancelled, (&engine, at, on), cancelled),
        cancelled is Save ==> cancelled == (GraphStep::<T>::Save {
            reason,
            ctx: written,
            state: written_state,
        }),
        call_ensures(
            GraphEngine::<T, P>::on_loaded,
            (&engine, thread_id, Ok(Some((written, written_state)))),
            resumed,
        ),
    ensures
        cancelled is Save,
        on == state,
        resumed matches GraphStep::Execute { node: again, ctx: c, state: s } && {
            &&& ctx.next_node matches Some(next) && cloned(next, node) && cloned(next, again)
            &&& s == state
            &&& c == at
            &&& c.step_count == ctx.step_count
        },
{
    a_cancellation_saves_the_progress(engine, at, on, cancelled);
    an_execution_begins_at_its_context(engine, ctx, state, first);
    a_checkpoint_is_gone_on_from(engine, thread_id, Ok(Some((written, written_state))), resumed);
}

} // verus!
