//! What holds of whole executions of a graph.

use crate::graph;
use crate::graph::CheckpointStrategy;
use crate::graph::EngineView;
use crate::graph::ExecutionContext;
use crate::graph::ExecutionResult;
use crate::graph::GraphError;
use crate::graph::GraphStep;
use crate::graph::Reducer;
use crate::graph::SaveReason;
use crate::graph::Topology;
use vstd::prelude::*;
use vstd::std_specs::cmp::PartialEqSpec;

verus! {

/// What the driver of an execution answers to a step.
pub enum Answer<D, E> {
    /// The node gave this.
    Executed(Result<D, E>),
    /// The execution was cancelled while the node was executed.
    Cancelled,
    /// The checkpoint was written, or could not be.
    Saved(Result<(), String>),
}

impl<T: Topology, P> EngineView<T, P> where T::State: Reducer<T::Delta, T::Error> {
    /// Whether the driver may be given `next` once it answered `answer` to `step`.
    pub open spec fn answered(
        self,
        step: GraphStep<T>,
        answer: Answer<T::Delta, T::Error>,
        next: GraphStep<T>,
    ) -> bool {
        match (step, answer) {
            (GraphStep::Execute { node, ctx, state }, Answer::Executed(result)) => self.executed(
                node,
                ctx,
                state,
                result,
                next,
            ),
            (GraphStep::Execute { ctx, state, .. }, Answer::Cancelled) => next == self.cancelled(
                ctx,
                state,
            ),
            (GraphStep::Save { reason, ctx, state }, Answer::Saved(result)) => self.saved(
                reason,
                ctx,
                state,
                result,
                next,
            ),
            _ => false,
        }
    }

    /// Whether the driver of an execution that begins at `ctx` may be given `steps` in turn when
    /// it answers `answers` to all but the last of them.
    pub open spec fn runs(
        self,
        ctx: ExecutionContext<T>,
        state: T::State,
        steps: Seq<GraphStep<T>>,
        answers: Seq<Answer<T::Delta, T::Error>>,
    ) -> bool
        decreases steps.len(),
    {
        if steps.len() != answers.len() + 1 {
            false
        } else if steps.len() == 1 {
            self.continues_with(ctx, state, steps[0])
        } else {
            &&& self.runs(ctx, state, steps.drop_last(), answers.drop_last())
            &&& self.answered(steps[steps.len() - 2], answers.last(), steps.last())
        }
    }

    /// The same engine without interruptions.
    pub open spec fn uninterrupted(self) -> EngineView<T, P> {
        EngineView { interrupt_before: Seq::empty(), ..self }
    }
}

/// How many of the steps execute a node.
pub open spec fn executions<T: Topology>(steps: Seq<GraphStep<T>>) -> nat
    decreases steps.len(),
{
    if steps.len() == 0 {
        0
    } else {
        executions(steps.drop_last()) + if steps.last() is Execute {
            1nat
        } else {
            0nat
        }
    }
}

/// Whether `step` fits an execution that has begun `begun` executions of nodes, counted from the
/// start of its thread: the step count of its context is that number, less one while the latest
/// execution of a node is not finished.
pub open spec fn counts<T: Topology>(step: GraphStep<T>, begun: nat) -> bool {
    match step {
        GraphStep::Execute { ctx, .. } => ctx.step_count + 1 == begun,
        GraphStep::Save { reason: SaveReason::Cancelling, ctx, .. } => ctx.step_count + 1 == begun,
        GraphStep::Save { ctx, .. } => ctx.step_count == begun,
        GraphStep::Finish(Ok(ExecutionResult::Completed { ctx, .. })) => ctx.step_count == begun,
        GraphStep::Finish(Ok(ExecutionResult::Suspended { ctx, .. })) => ctx.step_count == begun,
        GraphStep::Finish(Err(GraphError::MaxStepsExceeded(steps))) => steps == begun,
        GraphStep::Finish(Err(_)) => true,
    }
}

/// The step count is the number of nodes that were executed, and no more nodes are executed than
/// the limit allows: an execution that would exceed it fails, and does so only at the limit.
pub proof fn stays_within_max_steps<T: Topology, P>(
    engine: EngineView<T, P>,
    ctx: ExecutionContext<T>,
    state: T::State,
    steps: Seq<GraphStep<T>>,
    answers: Seq<Answer<T::Delta, T::Error>>,
) where T::State: Reducer<T::Delta, T::Error>
    requires
        engine.runs(ctx, state, steps, answers),
    ensures
        counts(steps.last(), ctx.step_count as nat + executions(steps)),
        executions(steps) > 0 ==> ctx.step_count + executions(steps) <= engine.max_steps,
        steps.last() matches GraphStep::Finish(Err(GraphError::MaxStepsExceeded(count)))
            ==> count >= engine.max_steps,
    decreases steps.len(),
{
    if steps.len() == 1 {
        assert(executions(steps.drop_last()) == 0);
    } else {
        stays_within_max_steps(engine, ctx, state, steps.drop_last(), answers.drop_last());
    }
}

/// Whether a later step of the same execution cannot be exempt from interruption.
spec fn watchful<T: Topology>(step: GraphStep<T>) -> bool {
    match step {
        GraphStep::Execute { ctx, .. } => !ctx.is_resuming,
        GraphStep::Save { ctx, .. } => !ctx.is_resuming,
        GraphStep::Finish(_) => true,
    }
}

proof fn lemma_watchful<T: Topology, P>(
    engine: EngineView<T, P>,
    ctx: ExecutionContext<T>,
    state: T::State,
    steps: Seq<GraphStep<T>>,
    answers: Seq<Answer<T::Delta, T::Error>>,
) where T::State: Reducer<T::Delta, T::Error>
    requires
        engine.runs(ctx, state, steps, answers),
    ensures
        watchful(steps.last()),
    decreases steps.len(),
{
    if steps.len() > 1 {
        lemma_watchful(engine, ctx, state, steps.drop_last(), answers.drop_last());
    }
}

/// No node is executed that the execution is to be interrupted before, except the one that a
/// resumed execution begins with.
pub proof fn interrupts_before_listed_nodes<T: Topology, P>(
    engine: EngineView<T, P>,
    ctx: ExecutionContext<T>,
    state: T::State,
    steps: Seq<GraphStep<T>>,
    answers: Seq<Answer<T::Delta, T::Error>>,
) where T::State: Reducer<T::Delta, T::Error>
    requires
        engine.runs(ctx, state, steps, answers),
        !ctx.is_resuming || steps.len() > 1,
    ensures
        steps.last() matches GraphStep::Execute { node, .. } ==> graph::lists(
            engine.interrupt_before,
            node,
            false,
        ),
{
    if steps.len() > 1 {
        lemma_watchful(engine, ctx, state, steps.drop_last(), answers.drop_last());
    }
}

/// A resumed execution goes on exactly as one that is not interrupted at this point.
pub proof fn resuming_passes_the_interruption<T: Topology, P>(
    engine: EngineView<T, P>,
    ctx: ExecutionContext<T>,
    state: T::State,
    step: GraphStep<T>,
)
    requires
        ctx.next_node is Some,
    ensures
        engine.continues_with(ExecutionContext { is_resuming: true, ..ctx }, state, step) <==> (
        EngineView { interrupt_before: Seq::<T>::empty(), ..engine }).continues_with(
            ExecutionContext { is_resuming: false, ..ctx },
            state,
            step,
        ),
{
    let resuming = ExecutionContext { is_resuming: true, ..ctx };
    let fresh = ExecutionContext { is_resuming: false, ..ctx };
    let free = EngineView { interrupt_before: Seq::<T>::empty(), ..engine };
    if engine.continues_with(resuming, state, step) {
        let (node, listed) = choose|node: T, listed: bool|
            {
                &&& cloned(ctx.next_node->0, node)
                &&& #[trigger] graph::lists(engine.interrupt_before, node, listed)
                &&& step == engine.arrived(node, listed, resuming, state)
            };
        assert(graph::lists(free.interrupt_before, node, false));
    }
    if free.continues_with(fresh, state, step) {
        let (node, listed) = choose|node: T, listed: bool|
            {
                &&& cloned(ctx.next_node->0, node)
                &&& #[trigger] graph::lists(free.interrupt_before, node, listed)
                &&& step == free.arrived(node, listed, fresh, state)
            };
        let found = exists|i: int|
            0 <= i < engine.interrupt_before.len() && (
            #[trigger] engine.interrupt_before[i]).eq_spec(&node);
        assert(graph::lists(engine.interrupt_before, node, found));
    }
}

/// A suspension loses nothing: the context and the state that are saved and handed back are those
/// that the execution stood at, and resuming from them executes the node that was pending.
pub proof fn suspends_and_resumes<T: Topology, P>(
    engine: EngineView<T, P>,
    ctx: ExecutionContext<T>,
    state: T::State,
    node: T,
)
    requires
        engine.checkpoint is Some,
        ctx.next_node matches Some(next) && cloned(next, node),
        graph::lists(engine.interrupt_before, node, true),
        !ctx.is_resuming,
        ctx.step_count < engine.max_steps,
    ensures
        ({
            let save = GraphStep::Save { reason: SaveReason::Suspending(node), ctx, state };
            let suspended = GraphStep::<T>::Finish(
                Ok(ExecutionResult::Suspended { state, pending_node: node, ctx }),
            );
            let run = GraphStep::Execute { node, ctx, state };
            &&& engine.continues_with(ctx, state, save)
            &&& engine.saved(SaveReason::Suspending(node), ctx, state, Ok(()), suspended)
            &&& engine.continues_with(
                ExecutionContext { is_resuming: true, ..ctx },
                state,
                run,
            )
        }),
{
    let resuming = ExecutionContext { is_resuming: true, ..ctx };
    let run = GraphStep::Execute { node, ctx, state };
    assert(engine.arrived(node, true, resuming, state) == run);
}

/// Between steps, checkpoints are written after each step, after each `n`-th step, or never, as
/// the strategy says.
pub proof fn checkpoints_follow_the_strategy<T: Topology, P>(
    engine: EngineView<T, P>,
    n: usize,
    rounds: nat,
    rest: nat,
)
    requires
        engine.checkpoint is Some,
        rest < n,
        rounds > 0 || rest > 0,
    ensures
        ({
            let step_count = rounds * n as nat + rest;
            let strategy = engine.strategy;
            &&& strategy == Some(CheckpointStrategy::Always) ==> engine.saves_at(step_count)
            &&& strategy == Some(CheckpointStrategy::OnSuspendOnly) ==> !engine.saves_at(
                step_count,
            )
            &&& strategy == Some(CheckpointStrategy::EveryNSteps(n)) ==> (engine.saves_at(
                step_count,
            ) <==> rest == 0)
        }),
{
    vstd::arithmetic::div_mod::lemma_fundamental_div_mod_converse_mod(
        rounds as int * n as int + rest as int,
        n as int,
        rounds as int,
        rest as int,
    );
    assert(rounds > 0 ==> rounds * n as nat > 0) by (nonlinear_arith)
        requires
            n > 0,
    ;
}

/// One node on the way of an execution, and what it gave.
pub struct Leg<T: Topology> {
    /// The node.
    pub node: T,
    /// What was merged into the state.
    pub delta: T::Delta,
}

impl<T: Topology> Leg<T> where T::State: Reducer<T::Delta, T::Error> {
    /// Whether the leg may lead from `ctx` and `state` to `to_ctx` and `to_state`: its node is the
    /// one that is next, what it gave is merged into the state, and it says which node comes after
    /// it. Nothing else of the context changes, but for the mark of a resumption.
    pub open spec fn leads(
        self,
        ctx: ExecutionContext<T>,
        state: T::State,
        to_ctx: ExecutionContext<T>,
        to_state: T::State,
    ) -> bool {
        &&& ctx.next_node matches Some(next)
        &&& cloned(next, self.node)
        &&& state.reduces(self.delta, to_state, Ok(()))
        &&& self.node.leads_to(to_state, to_ctx.next_node)
        &&& to_ctx == (ExecutionContext {
            step_count: (ctx.step_count + 1) as usize,
            next_node: to_ctx.next_node,
            is_resuming: to_ctx.is_resuming,
            ..ctx
        })
    }
}

/// The nodes that were executed to their end, in order, and what they gave.
pub open spec fn legs<T: Topology>(
    steps: Seq<GraphStep<T>>,
    answers: Seq<Answer<T::Delta, T::Error>>,
) -> Seq<Leg<T>>
    decreases steps.len(),
{
    if steps.len() <= 1 {
        Seq::empty()
    } else {
        let earlier = legs(steps.drop_last(), answers.drop_last());
        match (steps[steps.len() - 2], answers.last()) {
            (GraphStep::Execute { node, .. }, Answer::Executed(Ok(delta))) => earlier.push(
                Leg { node, delta },
            ),
            _ => earlier,
        }
    }
}

/// Whether an execution that begins at `ctx` with `state` may stand at `to_ctx` with `to_state`
/// once it made `way`, leg by leg.
pub open spec fn travelled<T: Topology>(
    ctx: ExecutionContext<T>,
    state: T::State,
    way: Seq<Leg<T>>,
    to_ctx: ExecutionContext<T>,
    to_state: T::State,
) -> bool where T::State: Reducer<T::Delta, T::Error>
    decreases way.len(),
{
    if way.len() == 0 {
        &&& to_state == state
        &&& to_ctx == (ExecutionContext { is_resuming: to_ctx.is_resuming, ..ctx })
    } else {
        exists|mid_ctx: ExecutionContext<T>, mid_state: T::State|
            {
                &&& travelled(ctx, state, way.drop_last(), mid_ctx, mid_state)
                &&& #[trigger] way.last().leads(mid_ctx, mid_state, to_ctx, to_state)
            }
    }
}

/// Where an execution stands when it is given `step`, unless it failed.
pub open spec fn place<T: Topology>(step: GraphStep<T>) -> Option<(ExecutionContext<T>, T::State)> {
    match step {
        GraphStep::Execute { ctx, state, .. } => Some((ctx, state)),
        GraphStep::Save { ctx, state, .. } => Some((ctx, state)),
        GraphStep::Finish(Ok(ExecutionResult::Completed { state, ctx })) => Some((ctx, state)),
        GraphStep::Finish(Ok(ExecutionResult::Suspended { state, ctx, .. })) => Some((ctx, state)),
        GraphStep::Finish(Err(_)) => None,
    }
}

proof fn lemma_way_extends<T: Topology>(
    ctx: ExecutionContext<T>,
    state: T::State,
    way: Seq<Leg<T>>,
    mid_ctx: ExecutionContext<T>,
    mid_state: T::State,
    leg: Leg<T>,
    to_ctx: ExecutionContext<T>,
    to_state: T::State,
) where T::State: Reducer<T::Delta, T::Error>
    requires
        travelled(ctx, state, way, mid_ctx, mid_state),
        leg.leads(mid_ctx, mid_state, to_ctx, to_state),
    ensures
        travelled(ctx, state, way.push(leg), to_ctx, to_state),
{
    assert(way.push(leg).drop_last() =~= way);
    assert(way.push(leg).last().leads(mid_ctx, mid_state, to_ctx, to_state));
}

proof fn lemma_way_keeps<T: Topology>(
    ctx: ExecutionContext<T>,
    state: T::State,
    way: Seq<Leg<T>>,
    to_ctx: ExecutionContext<T>,
    to_state: T::State,
) where T::State: Reducer<T::Delta, T::Error>
    requires
        travelled(ctx, state, way, to_ctx, to_state),
    ensures
        to_ctx.thread_id == ctx.thread_id,
        to_ctx.metadata == ctx.metadata,
        travelled(
            ctx,
            state,
            way,
            ExecutionContext { is_resuming: false, ..to_ctx },
            to_state,
        ),
    decreases way.len(),
{
    if way.len() > 0 {
        let (mid_ctx, mid_state) = choose|mid_ctx: ExecutionContext<T>, mid_state: T::State|
            {
                &&& travelled(ctx, state, way.drop_last(), mid_ctx, mid_state)
                &&& #[trigger] way.last().leads(mid_ctx, mid_state, to_ctx, to_state)
            };
        lemma_way_keeps(ctx, state, way.drop_last(), mid_ctx, mid_state);
        assert(way.last().leads(
            mid_ctx,
            mid_state,
            ExecutionContext { is_resuming: false, ..to_ctx },
            to_state,
        ));
    }
}

proof fn lemma_goes_on<T: Topology, P>(
    engine: EngineView<T, P>,
    from: ExecutionContext<T>,
    from_state: T::State,
    way: Seq<Leg<T>>,
    ctx: ExecutionContext<T>,
    state: T::State,
    step: GraphStep<T>,
) where T::State: Reducer<T::Delta, T::Error>
    requires
        travelled(from, from_state, way, ctx, state),
        engine.continues_with(ctx, state, step),
    ensures
        place(step) matches Some((c, s)) ==> travelled(from, from_state, way, c, s),
        step matches GraphStep::Execute { node, ctx: c, .. } ==> {
            c.next_node matches Some(next) && cloned(next, node)
        },
        step matches GraphStep::Finish(Ok(ExecutionResult::Completed { ctx: c, .. }))
            ==> c.next_node is None,
        !(step matches GraphStep::Save { reason: SaveReason::Stepped, .. }),
        !(step matches GraphStep::Save { reason: SaveReason::Cancelling, .. }),
{
    lemma_way_keeps(from, from_state, way, ctx, state);
}

/// An execution follows the route: wherever it stands after any answers of its driver, it has come
/// there by the nodes that were executed to their end, each of which was next when it was
/// executed, its result merged into the state. So an execution that completes ends in the state
/// that is got by merging along the route, where no node is next, and its thread id and metadata
/// are as they were. One that executes nothing hands its state and context back unchanged.
pub proof fn follows_the_route<T: Topology, P>(
    engine: EngineView<T, P>,
    ctx: ExecutionContext<T>,
    state: T::State,
    steps: Seq<GraphStep<T>>,
    answers: Seq<Answer<T::Delta, T::Error>>,
) where T::State: Reducer<T::Delta, T::Error>
    requires
        engine.runs(ctx, state, steps, answers),
    ensures
        place(steps.last()) matches Some((c, s)) ==> {
            &&& travelled(ctx, state, legs(steps, answers), c, s)
            &&& c.thread_id == ctx.thread_id
            &&& c.metadata == ctx.metadata
        },
        steps.last() matches GraphStep::Execute { node, ctx: c, .. } ==> {
            c.next_node matches Some(next) && cloned(next, node)
        },
        steps.last() matches GraphStep::Finish(
            Ok(ExecutionResult::Completed { state: s, ctx: c }),
        ) ==> {
            &&& c.next_node is None
            &&& steps.len() == 1 ==> s == state && c == ctx
        },
    decreases steps.len(),
{
    if steps.len() == 1 {
        assert(travelled(ctx, state, legs(steps, answers), ctx, state));
        lemma_goes_on(engine, ctx, state, legs(steps, answers), ctx, state, steps[0]);
    } else {
        let earlier = steps.drop_last();
        let before = answers.drop_last();
        follows_the_route(engine, ctx, state, earlier, before);
        let way = legs(earlier, before);
        let step = steps[steps.len() - 2];
        let next = steps.last();
        match (step, answers.last()) {
            (GraphStep::Execute { node, ctx: c, state: s }, Answer::Executed(Ok(delta))) => {
                if !(next matches GraphStep::Finish(Err(GraphError::LogicalError(_)))) {
                    let (after, to) = choose|after: T::State, to: Option<T>|
                        {
                            &&& #[trigger] s.reduces(delta, after, Ok(()))
                            &&& #[trigger] node.leads_to(after, to)
                            &&& engine.stepped(
                                ExecutionContext {
                                    step_count: (c.step_count + 1) as usize,
                                    next_node: to,
                                    ..c
                                },
                                after,
                                next,
                            )
                        };
                    let there = ExecutionContext {
                        step_count: (c.step_count + 1) as usize,
                        next_node: to,
                        ..c
                    };
                    lemma_way_extends(
                        ctx,
                        state,
                        way,
                        c,
                        s,
                        Leg { node, delta },
                        there,
                        after,
                    );
                    if !engine.saves_at(there.step_count as nat) {
                        lemma_goes_on(
                            engine,
                            ctx,
                            state,
                            way.push(Leg { node, delta }),
                            there,
                            after,
                            next,
                        );
                    }
                }
            },
            (GraphStep::Save { reason: SaveReason::Stepped, ctx: c, state: s }, Answer::Saved(
                Ok(_),
            )) => {
                lemma_goes_on(engine, ctx, state, way, c, s, next);
            },
            _ => {},
        }
    }
    if let Some((c, s)) = place(steps.last()) {
        lemma_way_keeps(ctx, state, legs(steps, answers), c, s);
    }
}

/// Cloning, comparing, routing and merging leave no choice.
pub open spec fn deterministic<T: Topology>() -> bool where
    T::State: Reducer<T::Delta, T::Error>,
 {
    &&& T::obeys_eq_spec()
    &&& forall|node: T, clone: T| #[trigger] cloned(node, clone) ==> clone == node
    &&& forall|node: T, state: T::State, a: Option<T>, b: Option<T>| #[trigger]
        node.leads_to(state, a) && #[trigger] node.leads_to(state, b) ==> a == b
    &&& forall|
        state: T::State,
        delta: T::Delta,
        a: T::State,
        x: Result<(), T::Error>,
        b: T::State,
        y: Result<(), T::Error>,
    | #[trigger]
        state.reduces(delta, a, x) && #[trigger] state.reduces(delta, b, y) ==> a == b && x == y
}

proof fn lemma_determined<T: Topology, P>(
    engine: EngineView<T, P>,
    ctx: ExecutionContext<T>,
    state: T::State,
    a: GraphStep<T>,
    b: GraphStep<T>,
) where T::State: Reducer<T::Delta, T::Error>
    requires
        deterministic::<T>(),
        engine.continues_with(ctx, state, a),
        engine.continues_with(ctx, state, b),
    ensures
        a == b,
{
}

proof fn lemma_answer_determined<T: Topology, P>(
    engine: EngineView<T, P>,
    step: GraphStep<T>,
    answer: Answer<T::Delta, T::Error>,
    a: GraphStep<T>,
    b: GraphStep<T>,
) where T::State: Reducer<T::Delta, T::Error>
    requires
        deterministic::<T>(),
        engine.answered(step, answer, a),
        engine.answered(step, answer, b),
    ensures
        a == b,
{
    match (step, answer) {
        (GraphStep::Execute { node, ctx, state }, Answer::Executed(Ok(delta))) => {
            if a matches GraphStep::Finish(Err(GraphError::LogicalError(_))) {
                assert(a == b);
            } else {
                let (after, next) = choose|after: T::State, next: Option<T>|
                    {
                        &&& #[trigger] state.reduces(delta, after, Ok(()))
                        &&& #[trigger] node.leads_to(after, next)
                        &&& engine.stepped(
                            ExecutionContext {
                                step_count: (ctx.step_count + 1) as usize,
                                next_node: next,
                                ..ctx
                            },
                            after,
                            a,
                        )
                    };
                let there = ExecutionContext {
                    step_count: (ctx.step_count + 1) as usize,
                    next_node: next,
                    ..ctx
                };
                assert(engine.stepped(there, after, b));
                if !engine.saves_at(there.step_count as nat) {
                    lemma_determined(engine, there, after, a, b);
                }
            }
        },
        (GraphStep::Save { reason: SaveReason::Stepped, ctx, state }, Answer::Saved(Ok(_))) => {
            lemma_determined(engine, ctx, state, a, b);
        },
        _ => {},
    }
}

/// Where nothing leaves a choice, the answers of the driver determine the execution.
pub proof fn answers_determine_the_run<T: Topology, P>(
    engine: EngineView<T, P>,
    ctx: ExecutionContext<T>,
    state: T::State,
    a: Seq<GraphStep<T>>,
    b: Seq<GraphStep<T>>,
    answers: Seq<Answer<T::Delta, T::Error>>,
) where T::State: Reducer<T::Delta, T::Error>
    requires
        deterministic::<T>(),
        engine.runs(ctx, state, a, answers),
        engine.runs(ctx, state, b, answers),
    ensures
        a == b,
    decreases a.len(),
{
    if a.len() == 1 {
        lemma_determined(engine, ctx, state, a[0], b[0]);
        assert(a =~= b);
    } else {
        answers_determine_the_run(
            engine,
            ctx,
            state,
            a.drop_last(),
            b.drop_last(),
            answers.drop_last(),
        );
        assert(a[a.len() - 2] == a.drop_last().last());
        assert(b[b.len() - 2] == b.drop_last().last());
        lemma_answer_determined(
            engine,
            a[a.len() - 2],
            answers.last(),
            a.last(),
            b.last(),
        );
        assert(a =~= a.drop_last().push(a.last()));
        assert(b =~= b.drop_last().push(b.last()));
    }
}

/// A way through a graph to its end: the nodes, what each of them gives, and the states before the
/// first node and after each.
pub struct Route<T: Topology> {
    /// The nodes.
    pub nodes: Seq<T>,
    /// What each node gives.
    pub deltas: Seq<T::Delta>,
    /// The state before the first node, and after each.
    pub states: Seq<T::State>,
}

impl<T: Topology> Route<T> where T::State: Reducer<T::Delta, T::Error> {
    /// The node that comes after `done` nodes.
    pub open spec fn next(self, done: int) -> Option<T> {
        if 0 <= done < self.nodes.len() {
            Some(self.nodes[done])
        } else {
            None
        }
    }

    /// What each node gives is merged into the state before it, and each node leads to the one
    /// after it, the last to none.
    pub open spec fn valid(self) -> bool {
        &&& self.deltas.len() == self.nodes.len()
        &&& self.states.len() == self.nodes.len() + 1
        &&& forall|i: int|
            0 <= i < self.nodes.len() ==> {
                &&& self.states[i].reduces(self.deltas[i], self.states[i + 1], Ok(()))
                &&& (#[trigger] self.nodes[i]).leads_to(self.states[i + 1], self.next(i + 1))
            }
    }

    /// The context of an execution that began at `ctx`, after `done` nodes.
    pub open spec fn ctx_after(self, ctx: ExecutionContext<T>, done: int) -> ExecutionContext<T> {
        ExecutionContext {
            step_count: (ctx.step_count + done) as usize,
            next_node: self.next(done),
            is_resuming: ctx.is_resuming && done == 0,
            ..ctx
        }
    }

    /// What the driver answers to `step`, which is given after `begun` executions of nodes were
    /// begun, when the nodes give what the route says and checkpoints can be written.
    pub open spec fn answers(
        self,
        step: GraphStep<T>,
        begun: nat,
        answer: Answer<T::Delta, T::Error>,
    ) -> bool {
        match step {
            GraphStep::Execute { .. } => answer == Answer::<T::Delta, T::Error>::Executed(
                Ok(self.deltas[begun - 1]),
            ),
            GraphStep::Save { .. } => answer == Answer::<T::Delta, T::Error>::Saved(Ok(())),
            GraphStep::Finish(_) => true,
        }
    }

    /// Whether `step` is one that an execution along the route is given after `begun` executions
    /// of nodes were begun: it executes the node whose turn it is, writes a checkpoint between two
    /// nodes, or completes at the end of the route.
    pub open spec fn gives(self, ctx: ExecutionContext<T>, begun: nat, step: GraphStep<T>) -> bool {
        match step {
            GraphStep::Execute { node, ctx: at, state } => {
                &&& 1 <= begun <= self.nodes.len()
                &&& node == self.nodes[begun - 1]
                &&& state == self.states[begun - 1]
                &&& at == (ExecutionContext {
                    is_resuming: false,
                    ..self.ctx_after(ctx, begun - 1)
                })
            },
            GraphStep::Save { reason, ctx: at, state } => {
                &&& reason is Stepped
                &&& 1 <= begun <= self.nodes.len()
                &&& state == self.states[begun as int]
                &&& at == self.ctx_after(ctx, begun as int)
            },
            GraphStep::Finish(result) => {
                &&& begun == self.nodes.len()
                &&& result == Ok::<ExecutionResult<T>, GraphError<T::Error>>(
                    ExecutionResult::Completed {
                        state: self.states[begun as int],
                        ctx: self.ctx_after(ctx, begun as int),
                    },
                )
            },
        }
    }
}

proof fn lemma_next_on_route<T: Topology, P>(
    engine: EngineView<T, P>,
    ctx: ExecutionContext<T>,
    route: Route<T>,
    done: nat,
    step: GraphStep<T>,
) where T::State: Reducer<T::Delta, T::Error>
    requires
        deterministic::<T>(),
        route.valid(),
        done <= route.nodes.len(),
        ctx.step_count + route.nodes.len() <= engine.max_steps,
        done < route.nodes.len() && !(ctx.is_resuming && done == 0) ==> graph::lists(
            engine.interrupt_before,
            route.nodes[done as int],
            false,
        ),
        engine.continues_with(
            route.ctx_after(ctx, done as int),
            route.states[done as int],
            step,
        ),
    ensures
        route.gives(
            ctx,
            done + if step is Execute {
                1nat
            } else {
                0nat
            },
            step,
        ),
        !(step is Save),
{
}

/// An execution along a route completes: when every node gives what the route says, no node is one
/// that the execution is to be interrupted before, checkpoints can be written and the limit
/// allows it, then each node of the route is executed exactly once and in order, and the execution
/// ends completed, in the last state of the route, with its step count raised by the number of
/// nodes, no next node, and the rest of its context as it was. It is given at most two steps for
/// each node, and the end.
#[verifier::rlimit(30)]
pub proof fn completes_along_the_route<T: Topology, P>(
    engine: EngineView<T, P>,
    ctx: ExecutionContext<T>,
    route: Route<T>,
    steps: Seq<GraphStep<T>>,
    answers: Seq<Answer<T::Delta, T::Error>>,
) where T::State: Reducer<T::Delta, T::Error>
    requires
        deterministic::<T>(),
        route.valid(),
        ctx.next_node == route.next(0),
        ctx.step_count + route.nodes.len() <= engine.max_steps,
        forall|i: int|
            0 <= i < route.nodes.len() && !(ctx.is_resuming && i == 0) ==> graph::lists(
                engine.interrupt_before,
                #[trigger] route.nodes[i],
                false,
            ),
        engine.runs(ctx, route.states[0], steps, answers),
        forall|j: int|
            0 <= j < answers.len() ==> route.answers(
                steps[j],
                executions(steps.take(j + 1)),
                #[trigger] answers[j],
            ),
    ensures
        route.gives(ctx, executions(steps), steps.last()),
        steps.len() <= 2 * executions(steps) + 1,
        !(steps.last() is Finish) ==> steps.len() <= 2 * executions(steps),
        steps.last() is Execute ==> steps.len() < 2 * executions(steps),
    decreases steps.len(),
{
    let last = steps.last();
    assert(route.ctx_after(ctx, 0) == ctx);
    if steps.len() == 1 {
        assert(executions(steps.drop_last()) == 0);
        lemma_next_on_route(engine, ctx, route, 0, last);
    } else {
        let earlier = steps.drop_last();
        let before = answers.drop_last();
        assert forall|j: int| 0 <= j < before.len() implies route.answers(
            earlier[j],
            executions(earlier.take(j + 1)),
            #[trigger] before[j],
        ) by {
            assert(answers[j] == before[j]);
            assert(earlier.take(j + 1) =~= steps.take(j + 1));
        }
        completes_along_the_route(engine, ctx, route, earlier, before);
        let begun = executions(earlier);
        let step = earlier.last();
        assert(steps[steps.len() - 2] == step);
        assert(route.answers(step, begun, answers.last())) by {
            assert(steps.take(answers.len() as int) =~= earlier);
            assert(answers[answers.len() - 1] == answers.last());
        }
        match step {
            GraphStep::Execute { node, ctx: at, state } => {
                let there = route.ctx_after(ctx, begun as int);
                let after = route.states[begun as int];
                let delta = route.deltas[begun - 1];
                assert(route.nodes[begun - 1] == node);
                assert(state.reduces(delta, after, Ok(())));
                assert(node.leads_to(after, route.next(begun as int)));
                assert(engine.stepped(there, after, last));
                if !engine.saves_at(there.step_count as nat) {
                    lemma_next_on_route(engine, ctx, route, begun, last);
                }
            },
            GraphStep::Save { ctx: at, state, .. } => {
                lemma_next_on_route(engine, ctx, route, begun, last);
            },
            GraphStep::Finish(_) => {},
        }
    }
}

/// Whether `step` suspends the execution, or saves it for that.
pub open spec fn suspends<T: Topology>(step: GraphStep<T>) -> bool {
    match step {
        GraphStep::Save { reason: SaveReason::Suspending(_), .. } => true,
        GraphStep::Finish(Ok(ExecutionResult::Suspended { .. })) => true,
        _ => false,
    }
}

/// Whether an execution that stands at `ctx` and `state` is to be interrupted before `node`.
pub open spec fn pending<T: Topology, P>(
    engine: EngineView<T, P>,
    ctx: ExecutionContext<T>,
    node: T,
) -> bool {
    &&& ctx.next_node matches Some(next)
    &&& cloned(next, node)
    &&& graph::lists(engine.interrupt_before, node, true)
    &&& !ctx.is_resuming
}

proof fn lemma_suspension<T: Topology, P>(
    engine: EngineView<T, P>,
    ctx: ExecutionContext<T>,
    state: T::State,
    steps: Seq<GraphStep<T>>,
    answers: Seq<Answer<T::Delta, T::Error>>,
) where T::State: Reducer<T::Delta, T::Error>
    requires
        engine.runs(ctx, state, steps, answers),
    ensures
        steps.last() matches GraphStep::Save {
            reason: SaveReason::Suspending(node),
            ctx: c,
            state: s,
        } ==> engine.checkpoint is Some && pending(engine, c, node),
        steps.last() matches GraphStep::Finish(
            Ok(ExecutionResult::Suspended { state: s, pending_node, ctx: c }),
        ) ==> {
            &&& pending(engine, c, pending_node)
            &&& engine.checkpoint is Some ==> {
                &&& steps.len() > 1
                &&& steps[steps.len() - 2] == (GraphStep::Save {
                    reason: SaveReason::Suspending(pending_node),
                    ctx: c,
                    state: s,
                })
                &&& answers.last() == Answer::<T::Delta, T::Error>::Saved(Ok(()))
            }
        },
    decreases steps.len(),
{
    if steps.len() > 1 {
        let earlier = steps.drop_last();
        lemma_suspension(engine, ctx, state, earlier, answers.drop_last());
        lemma_watchful(engine, ctx, state, earlier, answers.drop_last());
        assert(earlier.last() == steps[steps.len() - 2]);
        if let Answer::Saved(Ok(unit)) = answers.last() {
            assert(unit == ());
        }
    }
}

/// An execution that ended suspended suspends again, unchanged: its pending node is one that it is
/// to be interrupted before, is next, and was not executed, and with checkpoints the last thing
/// that was written is what was handed back. Executed again from there, it executes nothing, and
/// ends suspended before the same node, with the same state and context.
pub proof fn a_suspended_execution_suspends_again<T: Topology, P>(
    engine: EngineView<T, P>,
    ctx: ExecutionContext<T>,
    state: T::State,
    steps: Seq<GraphStep<T>>,
    answers: Seq<Answer<T::Delta, T::Error>>,
    at_ctx: ExecutionContext<T>,
    at_state: T::State,
    node: T,
    again: Seq<GraphStep<T>>,
    again_answers: Seq<Answer<T::Delta, T::Error>>,
) where T::State: Reducer<T::Delta, T::Error>
    requires
        deterministic::<T>(),
        engine.runs(ctx, state, steps, answers),
        steps.last() == GraphStep::<T>::Finish(
            Ok(ExecutionResult::Suspended { state: at_state, pending_node: node, ctx: at_ctx }),
        ),
        engine.runs(at_ctx, at_state, again, again_answers),
        forall|j: int|
            0 <= j < again_answers.len() ==> #[trigger] again_answers[j] == Answer::<
                T::Delta,
                T::Error,
            >::Saved(Ok(())),
    ensures
        pending(engine, at_ctx, node),
        at_ctx.next_node == Some(node),
        at_ctx.step_count == ctx.step_count + executions(steps),
        ({
            let save = GraphStep::Save {
                reason: SaveReason::Suspending(node),
                ctx: at_ctx,
                state: at_state,
            };
            if engine.checkpoint is Some {
                &&& steps[steps.len() - 2] == save
                &&& again == seq![save] || again == seq![save, steps.last()]
            } else {
                again == seq![steps.last()]
            }
        }),
        executions(again) == 0,
{
    lemma_suspension(engine, ctx, state, steps, answers);
    stays_within_max_steps(engine, ctx, state, steps, answers);
    let save = GraphStep::Save {
        reason: SaveReason::Suspending(node),
        ctx: at_ctx,
        state: at_state,
    };
    let first = if engine.checkpoint is Some {
        save
    } else {
        steps.last()
    };
    assert(engine.continues_with(at_ctx, at_state, first));
    lemma_again(engine, at_ctx, at_state, again, again_answers, first, steps.last());
    reveal_with_fuel(executions, 3);
}

proof fn lemma_again<T: Topology, P>(
    engine: EngineView<T, P>,
    ctx: ExecutionContext<T>,
    state: T::State,
    again: Seq<GraphStep<T>>,
    answers: Seq<Answer<T::Delta, T::Error>>,
    first: GraphStep<T>,
    end: GraphStep<T>,
) where T::State: Reducer<T::Delta, T::Error>
    requires
        deterministic::<T>(),
        engine.runs(ctx, state, again, answers),
        engine.continues_with(ctx, state, first),
        first == end || (first matches GraphStep::Save {
            reason: SaveReason::Suspending(node),
            ctx: c,
            state: s,
        } && end == GraphStep::<T>::Finish(
            Ok(ExecutionResult::Suspended { state: s, pending_node: node, ctx: c }),
        )),
        end is Finish,
        forall|j: int|
            0 <= j < answers.len() ==> #[trigger] answers[j] == Answer::<
                T::Delta,
                T::Error,
            >::Saved(Ok(())),
    ensures
        again == seq![first] || (first != end && again == seq![first, end]),
    decreases again.len(),
{
    if again.len() == 1 {
        lemma_determined(engine, ctx, state, again[0], first);
        assert(again =~= seq![first]);
    } else {
        let earlier = again.drop_last();
        let before = answers.drop_last();
        assert forall|j: int| 0 <= j < before.len() implies #[trigger] before[j] == Answer::<
            T::Delta,
            T::Error,
        >::Saved(Ok(())) by {
            assert(answers[j] == before[j]);
        }
        lemma_again(engine, ctx, state, earlier, before, first, end);
        assert(again[again.len() - 2] == earlier.last());
        assert(answers[answers.len() - 1] == answers.last());
        if earlier == seq![first] {
            assert(earlier.last() == first);
            assert(again.last() == end);
            assert(again =~= seq![first, end]);
        } else {
            assert(earlier.last() == end);
        }
    }
}

proof fn lemma_not_listed<T: Topology, P>(
    engine: EngineView<T, P>,
    ctx: ExecutionContext<T>,
    state: T::State,
    step: GraphStep<T>,
) where T::State: Reducer<T::Delta, T::Error>
    requires
        engine.continues_with(ctx, state, step),
        !suspends(step),
    ensures
        engine.uninterrupted().continues_with(ctx, state, step),
{
    if ctx.next_node is Some {
        let (node, listed) = choose|node: T, listed: bool|
            {
                &&& cloned(ctx.next_node->0, node)
                &&& #[trigger] graph::lists(engine.interrupt_before, node, listed)
                &&& step == engine.arrived(node, listed, ctx, state)
            };
        assert(graph::lists(engine.uninterrupted().interrupt_before, node, false));
    }
}

proof fn lemma_answered_without<T: Topology, P>(
    engine: EngineView<T, P>,
    step: GraphStep<T>,
    answer: Answer<T::Delta, T::Error>,
    next: GraphStep<T>,
) where T::State: Reducer<T::Delta, T::Error>
    requires
        engine.answered(step, answer, next),
        !suspends(next),
    ensures
        engine.uninterrupted().answered(step, answer, next),
{
    let free = engine.uninterrupted();
    match (step, answer) {
        (GraphStep::Execute { node, ctx, state }, Answer::Executed(Ok(delta))) => {
            if !(next matches GraphStep::Finish(Err(GraphError::LogicalError(_)))) {
                let (after, to) = choose|after: T::State, to: Option<T>|
                    {
                        &&& #[trigger] state.reduces(delta, after, Ok(()))
                        &&& #[trigger] node.leads_to(after, to)
                        &&& engine.stepped(
                            ExecutionContext {
                                step_count: (ctx.step_count + 1) as usize,
                                next_node: to,
                                ..ctx
                            },
                            after,
                            next,
                        )
                    };
                let there = ExecutionContext {
                    step_count: (ctx.step_count + 1) as usize,
                    next_node: to,
                    ..ctx
                };
                assert(free.saves_at(there.step_count as nat) == engine.saves_at(
                    there.step_count as nat,
                ));
                if !engine.saves_at(there.step_count as nat) {
                    lemma_not_listed(engine, there, after, next);
                }
                assert(free.stepped(there, after, next));
            }
        },
        (GraphStep::Save { reason: SaveReason::Stepped, ctx, state }, Answer::Saved(Ok(_))) => {
            lemma_not_listed(engine, ctx, state, next);
        },
        _ => {},
    }
}

proof fn lemma_runs_without<T: Topology, P>(
    engine: EngineView<T, P>,
    ctx: ExecutionContext<T>,
    state: T::State,
    steps: Seq<GraphStep<T>>,
    answers: Seq<Answer<T::Delta, T::Error>>,
) where T::State: Reducer<T::Delta, T::Error>
    requires
        engine.runs(ctx, state, steps, answers),
        forall|i: int| 0 <= i < steps.len() ==> !suspends(#[trigger] steps[i]),
    ensures
        engine.uninterrupted().runs(ctx, state, steps, answers),
    decreases steps.len(),
{
    if steps.len() == 1 {
        lemma_not_listed(engine, ctx, state, steps[0]);
    } else {
        let earlier = steps.drop_last();
        assert forall|i: int| 0 <= i < earlier.len() implies !suspends(#[trigger] earlier[i]) by {
            assert(!suspends(steps[i]));
        }
        lemma_runs_without(engine, ctx, state, earlier, answers.drop_last());
        assert(!suspends(steps[steps.len() - 1]));
        lemma_answered_without(
            engine,
            steps[steps.len() - 2],
            answers.last(),
            steps.last(),
        );
    }
}

proof fn lemma_prefix<T: Topology, P>(
    engine: EngineView<T, P>,
    ctx: ExecutionContext<T>,
    state: T::State,
    steps: Seq<GraphStep<T>>,
    answers: Seq<Answer<T::Delta, T::Error>>,
) where T::State: Reducer<T::Delta, T::Error>
    requires
        engine.runs(ctx, state, steps, answers),
    ensures
        forall|i: int| 0 <= i < steps.len() - 1 ==> !((#[trigger] steps[i]) is Finish),
        forall|i: int|
            0 <= i < steps.len() - 2 ==> !suspends(#[trigger] steps[i]),
        !(steps.last() is Finish) ==> forall|i: int|
            0 <= i < steps.len() - 1 ==> !suspends(#[trigger] steps[i]),
    decreases steps.len(),
{
    if steps.len() > 1 {
        let earlier = steps.drop_last();
        lemma_prefix(engine, ctx, state, earlier, answers.drop_last());
        assert(earlier.last() == steps[steps.len() - 2]);
        assert(!(earlier.last() is Finish));
        assert forall|i: int| 0 <= i < steps.len() - 1 implies !((#[trigger] steps[i]) is Finish) by {
            assert(steps[i] == earlier[i]);
        }
        assert forall|i: int| 0 <= i < steps.len() - 2 implies !suspends(#[trigger] steps[i]) by {
            assert(steps[i] == earlier[i]);
        }
    }
}

/// Whether `answer` to `step` may leave the execution at `ctx` and `state`, between two nodes.
spec fn leaves_at<T: Topology, P>(
    engine: EngineView<T, P>,
    step: GraphStep<T>,
    answer: Answer<T::Delta, T::Error>,
    ctx: ExecutionContext<T>,
    state: T::State,
) -> bool where T::State: Reducer<T::Delta, T::Error> {
    match (step, answer) {
        (GraphStep::Execute { node, ctx: from, state: before }, Answer::Executed(Ok(delta))) => {
            &&& before.reduces(delta, state, Ok(()))
            &&& node.leads_to(state, ctx.next_node)
            &&& ctx == (ExecutionContext {
                step_count: (from.step_count + 1) as usize,
                next_node: ctx.next_node,
                ..from
            })
            &&& !engine.saves_at(ctx.step_count as nat)
        },
        (GraphStep::Save { reason: SaveReason::Stepped, ctx: from, state: before }, Answer::Saved(
            Ok(_),
        )) => ctx == from && state == before,
        _ => false,
    }
}

proof fn lemma_left_before_suspension<T: Topology, P>(
    engine: EngineView<T, P>,
    step: GraphStep<T>,
    answer: Answer<T::Delta, T::Error>,
    next: GraphStep<T>,
    ctx: ExecutionContext<T>,
    state: T::State,
) where T::State: Reducer<T::Delta, T::Error>
    requires
        engine.answered(step, answer, next),
        suspends(next),
        place(next) == Some((ctx, state)),
        !(step matches GraphStep::Save { reason: SaveReason::Suspending(_), .. }),
    ensures
        leaves_at(engine, step, answer, ctx, state),
{
    match (step, answer) {
        (GraphStep::Execute { node, ctx: from, state: before }, Answer::Executed(Ok(delta))) => {
            let (after, to) = choose|after: T::State, to: Option<T>|
                {
                    &&& #[trigger] before.reduces(delta, after, Ok(()))
                    &&& #[trigger] node.leads_to(after, to)
                    &&& engine.stepped(
                        ExecutionContext {
                            step_count: (from.step_count + 1) as usize,
                            next_node: to,
                            ..from
                        },
                        after,
                        next,
                    )
                };
            assert(after == state);
        },
        _ => {},
    }
}

proof fn lemma_left_goes_on<T: Topology, P>(
    engine: EngineView<T, P>,
    step: GraphStep<T>,
    answer: Answer<T::Delta, T::Error>,
    ctx: ExecutionContext<T>,
    state: T::State,
    next: GraphStep<T>,
) where T::State: Reducer<T::Delta, T::Error>
    requires
        leaves_at(engine, step, answer, ctx, state),
        engine.continues_with(ctx, state, next),
    ensures
        engine.answered(step, answer, next),
{
    match (step, answer) {
        (GraphStep::Execute { node, ctx: from, state: before }, Answer::Executed(Ok(delta))) => {
            assert(before.reduces(delta, state, Ok(())));
            assert(node.leads_to(state, ctx.next_node));
            assert(engine.stepped(ctx, state, next));
        },
        _ => {},
    }
}

proof fn lemma_joined<T: Topology, P>(
    engine: EngineView<T, P>,
    ctx: ExecutionContext<T>,
    state: T::State,
    steps: Seq<GraphStep<T>>,
    answers: Seq<Answer<T::Delta, T::Error>>,
    at_ctx: ExecutionContext<T>,
    at_state: T::State,
    more: Seq<GraphStep<T>>,
    more_answers: Seq<Answer<T::Delta, T::Error>>,
) where T::State: Reducer<T::Delta, T::Error>
    requires
        steps.len() == answers.len(),
        steps.len() == 0 ==> at_ctx == ctx && at_state == state,
        steps.len() > 0 ==> {
            &&& engine.runs(ctx, state, steps, answers.drop_last())
            &&& leaves_at(engine, steps.last(), answers.last(), at_ctx, at_state)
        },
        engine.runs(at_ctx, at_state, more, more_answers),
    ensures
        engine.runs(ctx, state, steps + more, answers + more_answers),
    decreases more.len(),
{
    let all = steps + more;
    let all_answers = answers + more_answers;
    if steps.len() == 0 {
        assert(all =~= more);
        assert(all_answers =~= more_answers);
    } else if more.len() == 1 {
        assert(all.drop_last() =~= steps);
        assert(all_answers =~= answers);
        lemma_left_goes_on(engine, steps.last(), answers.last(), at_ctx, at_state, more[0]);
        assert(all[all.len() - 2] == steps.last());
    } else {
        lemma_joined(
            engine,
            ctx,
            state,
            steps,
            answers,
            at_ctx,
            at_state,
            more.drop_last(),
            more_answers.drop_last(),
        );
        assert(all.drop_last() =~= steps + more.drop_last());
        assert(all_answers.drop_last() =~= answers + more_answers.drop_last());
        assert(all[all.len() - 2] == more[more.len() - 2]);
    }
}

proof fn lemma_resumed_runs<T: Topology, P>(
    engine: EngineView<T, P>,
    ctx: ExecutionContext<T>,
    state: T::State,
    steps: Seq<GraphStep<T>>,
    answers: Seq<Answer<T::Delta, T::Error>>,
) where T::State: Reducer<T::Delta, T::Error>
    requires
        ctx.next_node is Some,
        !ctx.is_resuming,
        engine.runs(ExecutionContext { is_resuming: true, ..ctx }, state, steps, answers),
        forall|i: int| 0 <= i < steps.len() ==> !suspends(#[trigger] steps[i]),
    ensures
        engine.uninterrupted().runs(ctx, state, steps, answers),
    decreases steps.len(),
{
    if steps.len() == 1 {
        resuming_passes_the_interruption(engine, ctx, state, steps[0]);
        assert(ExecutionContext { is_resuming: false, ..ctx } == ctx);
    } else {
        let earlier = steps.drop_last();
        assert forall|i: int| 0 <= i < earlier.len() implies !suspends(#[trigger] earlier[i]) by {
            assert(!suspends(steps[i]));
        }
        lemma_resumed_runs(engine, ctx, state, earlier, answers.drop_last());
        assert(!suspends(steps[steps.len() - 1]));
        lemma_answered_without(
            engine,
            steps[steps.len() - 2],
            answers.last(),
            steps.last(),
        );
    }
}

proof fn lemma_executions_join<T: Topology>(steps: Seq<GraphStep<T>>, more: Seq<GraphStep<T>>)
    ensures
        executions(steps + more) == executions(steps) + executions(more),
    decreases more.len(),
{
    if more.len() == 0 {
        assert(steps + more =~= steps);
    } else {
        lemma_executions_join(steps, more.drop_last());
        assert((steps + more).drop_last() =~= steps + more.drop_last());
    }
}

/// How many steps an execution that ended suspended was given before it came to the suspension.
pub open spec fn before_suspension<T: Topology, P>(
    engine: EngineView<T, P>,
    steps: Seq<GraphStep<T>>,
) -> int {
    if engine.checkpoint is Some {
        steps.len() - 2
    } else {
        steps.len() - 1
    }
}

/// A suspension and a resumption leave no trace: an execution that ended suspended, followed by
/// the one that is resumed from there and is not suspended again, is, but for the suspension
/// itself, an execution of the same engine without interruptions, with the same answers. It ends
/// with the same step, so in the same result or the same error, and no node is executed twice or
/// skipped. Where nothing leaves a choice, it is the only one with these answers.
pub proof fn a_resumed_execution_equals_the_uninterrupted_one<T: Topology, P>(
    engine: EngineView<T, P>,
    ctx: ExecutionContext<T>,
    state: T::State,
    steps: Seq<GraphStep<T>>,
    answers: Seq<Answer<T::Delta, T::Error>>,
    at_ctx: ExecutionContext<T>,
    at_state: T::State,
    node: T,
    resumed: Seq<GraphStep<T>>,
    resumed_answers: Seq<Answer<T::Delta, T::Error>>,
) where T::State: Reducer<T::Delta, T::Error>
    requires
        engine.runs(ctx, state, steps, answers),
        steps.last() == GraphStep::<T>::Finish(
            Ok(ExecutionResult::Suspended { state: at_state, pending_node: node, ctx: at_ctx }),
        ),
        engine.runs(
            ExecutionContext { is_resuming: true, ..at_ctx },
            at_state,
            resumed,
            resumed_answers,
        ),
        forall|i: int| 0 <= i < resumed.len() ==> !suspends(#[trigger] resumed[i]),
    ensures
        ({
            let cut = before_suspension(engine, steps);
            let whole = steps.take(cut) + resumed;
            let whole_answers = answers.take(cut) + resumed_answers;
            &&& engine.uninterrupted().runs(ctx, state, whole, whole_answers)
            &&& whole.last() == resumed.last()
            &&& executions(whole) == executions(steps) + executions(resumed)
            &&& deterministic::<T>() ==> forall|other: Seq<GraphStep<T>>| #[trigger]
                engine.uninterrupted().runs(ctx, state, other, whole_answers) ==> other == whole
        }),
{
    let free = engine.uninterrupted();
    let cut = before_suspension(engine, steps);
    let start = steps.take(cut);
    let start_answers = answers.take(cut);
    let whole = start + resumed;
    let whole_answers = start_answers + resumed_answers;
    lemma_suspension(engine, ctx, state, steps, answers);
    lemma_prefix(engine, ctx, state, steps, answers);
    lemma_resumed_runs(engine, at_ctx, at_state, resumed, resumed_answers);
    lemma_cut(engine, ctx, state, steps, answers, at_ctx, at_state, node);
    lemma_joined(
        free,
        ctx,
        state,
        start,
        start_answers,
        at_ctx,
        at_state,
        resumed,
        resumed_answers,
    );
    lemma_executions_join(start, resumed);
    assert(executions(steps) == executions(start)) by {
        assert(steps =~= start + steps.skip(cut));
        lemma_executions_join(start, steps.skip(cut));
        reveal_with_fuel(executions, 3);
        if engine.checkpoint is Some {
            assert(steps.skip(cut).drop_last().last() == steps[steps.len() - 2]);
        }
        assert(steps.skip(cut).last() == steps.last());
    }
    if deterministic::<T>() {
        assert forall|other: Seq<GraphStep<T>>| #[trigger]
            free.runs(ctx, state, other, whole_answers) implies other == whole by {
            answers_determine_the_run(free, ctx, state, other, whole, whole_answers);
        }
    }
}

proof fn lemma_cut<T: Topology, P>(
    engine: EngineView<T, P>,
    ctx: ExecutionContext<T>,
    state: T::State,
    steps: Seq<GraphStep<T>>,
    answers: Seq<Answer<T::Delta, T::Error>>,
    at_ctx: ExecutionContext<T>,
    at_state: T::State,
    node: T,
) where T::State: Reducer<T::Delta, T::Error>
    requires
        engine.runs(ctx, state, steps, answers),
        steps.last() == GraphStep::<T>::Finish(
            Ok(ExecutionResult::Suspended { state: at_state, pending_node: node, ctx: at_ctx }),
        ),
    ensures
        ({
            let cut = before_suspension(engine, steps);
            let start = steps.take(cut);
            let start_answers = answers.take(cut);
            &&& cut >= 0
            &&& cut == 0 ==> at_ctx == ctx && at_state == state
            &&& cut > 0 ==> {
                &&& engine.uninterrupted().runs(ctx, state, start, start_answers.drop_last())
                &&& leaves_at(
                    engine.uninterrupted(),
                    start.last(),
                    start_answers.last(),
                    at_ctx,
                    at_state,
                )
            }
        }),
{
    let cut = before_suspension(engine, steps);
    let start = steps.take(cut);
    let start_answers = answers.take(cut);
    lemma_suspension(engine, ctx, state, steps, answers);
    lemma_prefix(engine, ctx, state, steps, answers);
    // The execution up to the first step that suspends it.
    let upto = if engine.checkpoint is Some {
        steps.drop_last()
    } else {
        steps
    };
    let upto_answers = if engine.checkpoint is Some {
        answers.drop_last()
    } else {
        answers
    };
    assert(engine.runs(ctx, state, upto, upto_answers));
    lemma_prefix(engine, ctx, state, upto, upto_answers);
    assert(suspends(upto.last()));
    assert(place(upto.last()) == Some((at_ctx, at_state)));
    if cut > 0 {
        assert(upto.drop_last() =~= start);
        assert(upto_answers =~= start_answers);
        assert forall|i: int| 0 <= i < start.len() implies !suspends(#[trigger] start[i]) by {
            assert(start[i] == steps[i]);
            assert(start[i] == upto[i]);
            if engine.checkpoint is None {
                assert(!(steps[i] is Finish));
                if suspends(steps[i]) {
                    lemma_saves_need_a_checkpoint(engine, ctx, state, steps, answers, i);
                }
            }
        }
        lemma_runs_without(engine, ctx, state, start, start_answers.drop_last());
        assert(upto[upto.len() - 2] == start.last());
        assert(!suspends(start[start.len() - 1]));
        lemma_left_before_suspension(
            engine,
            start.last(),
            start_answers.last(),
            upto.last(),
            at_ctx,
            at_state,
        );
    }
}

proof fn lemma_saves_need_a_checkpoint<T: Topology, P>(
    engine: EngineView<T, P>,
    ctx: ExecutionContext<T>,
    state: T::State,
    steps: Seq<GraphStep<T>>,
    answers: Seq<Answer<T::Delta, T::Error>>,
    at: int,
) where T::State: Reducer<T::Delta, T::Error>
    requires
        engine.runs(ctx, state, steps, answers),
        0 <= at < steps.len(),
        steps[at] is Save,
    ensures
        engine.checkpoint is Some,
    decreases steps.len(),
{
    if at < steps.len() - 1 {
        lemma_saves_need_a_checkpoint(
            engine,
            ctx,
            state,
            steps.drop_last(),
            answers.drop_last(),
            at,
        );
    }
}

/// A cancellation loses no finished step, wherever in an execution it comes: with a store, the
/// step after it saves exactly the context and the state that the cancelled node was to be
/// executed on, whatever the step count. Whether or not that can be written, the execution then
/// ends as cancelled, and resuming from what was saved executes the node that was cancelled.
pub proof fn a_cancelled_execution_is_saved<T: Topology, P>(
    engine: EngineView<T, P>,
    ctx: ExecutionContext<T>,
    state: T::State,
    steps: Seq<GraphStep<T>>,
    answers: Seq<Answer<T::Delta, T::Error>>,
    written: Result<(), String>,
    end: GraphStep<T>,
    resumed: GraphStep<T>,
) where T::State: Reducer<T::Delta, T::Error>
    requires
        engine.checkpoint is Some,
        engine.runs(ctx, state, steps, answers),
        answers.len() > 0,
        answers.last() is Cancelled,
        steps.last() is Save ==> engine.answered(steps.last(), Answer::Saved(written), end),
        place(steps.last()) matches Some((c, s)) ==> engine.continues_with(
            ExecutionContext { is_resuming: true, ..c },
            s,
            resumed,
        ),
    ensures
        steps[steps.len() - 2] matches GraphStep::Execute { node, ctx: c, state: s } && {
            &&& steps.last() == (GraphStep::<T>::Save {
                reason: SaveReason::Cancelling,
                ctx: c,
                state: s,
            })
            &&& c.step_count + 1 == ctx.step_count + executions(steps)
            &&& end == GraphStep::<T>::Finish(Err(GraphError::Cancelled))
            &&& resumed matches GraphStep::Execute { node: again, ctx: at, state: on } && {
                &&& c.next_node matches Some(next) && cloned(next, node) && cloned(next, again)
                &&& at == c
                &&& on == s
                &&& deterministic::<T>() ==> again == node
            }
        },
{
    let earlier = steps.drop_last();
    let before = answers.drop_last();
    assert(earlier.last() == steps[steps.len() - 2]);
    follows_the_route(engine, ctx, state, earlier, before);
    stays_within_max_steps(engine, ctx, state, earlier, before);
    stays_within_max_steps(engine, ctx, state, steps, answers);
    lemma_watchful(engine, ctx, state, earlier, before);
}

} // verus!
