//! A state graph that is executed node by node, with checkpoints.

use crate::metadata::Metadata;
use tokio_util::sync::CancellationToken;
use vstd::prelude::*;
use vstd::std_specs::cmp::PartialEqSpec;

pub mod calls;
pub mod runs;

verus! {

/// The nodes of a graph, and where each leads.
pub trait Topology: Clone + PartialEq + Sized {
    /// What the nodes work on.
    type State;

    /// What a node gives back, to be merged into the state.
    type Delta;

    /// How a node fails.
    type Error;

    /// Whether the node may lead to `next` when the state is `state`.
    open spec fn leads_to(self, state: Self::State, next: Option<Self>) -> bool {
        true
    }

    /// Where the node leads; the graph ends when it leads nowhere.
    fn route(&self, state: &Self::State) -> (next: Option<Self>)
        ensures
            self.leads_to(*state, next),
    ;
}

/// A state that changes are merged into.
pub trait Reducer<D, E>: Sized {
    /// Whether merging `delta` may leave the state as `after` and give `result`.
    open spec fn reduces(self, delta: D, after: Self, result: Result<(), E>) -> bool {
        true
    }

    /// Merges `delta` into the state.
    fn reduce(&mut self, delta: D) -> (result: Result<(), E>)
        ensures
            old(self).reduces(delta, *final(self), result),
    ;
}

/// How an execution that did not fail ended.
pub enum ExecutionResult<T: Topology> {
    /// The graph ended.
    Completed {
        /// The final state.
        state: T::State,
        /// The final context.
        ctx: ExecutionContext<T>,
    },
    /// The execution stopped before a node, and can be resumed there.
    Suspended {
        /// The state so far.
        state: T::State,
        /// The node that would be next.
        pending_node: T,
        /// The context so far.
        ctx: ExecutionContext<T>,
    },
}

/// How an execution fails.
#[derive(Debug)]
pub enum GraphError<E> {
    /// A node failed.
    NodeError(E),
    /// What a node gave back could not be merged into the state.
    LogicalError(E),
    /// The limit was reached after this many steps.
    MaxStepsExceeded(usize),
    /// The execution was cancelled.
    Cancelled,
    /// A checkpoint could not be written or read.
    CheckpointError(String),
}

/// When a checkpoint is written while the graph is executed. It is always written when the
/// execution is suspended or cancelled.
#[derive(Debug, Clone, Copy, PartialEq, Eq, Structural)]
pub enum CheckpointStrategy {
    /// Not between steps.
    OnSuspendOnly,
    /// After each step whose number is a multiple of this.
    EveryNSteps(usize),
    /// After each step.
    Always,
}

/// Where an execution stands.
#[derive(Debug, Clone)]
pub struct ExecutionContext<K> {
    /// Under which name checkpoints are stored.
    pub thread_id: String,
    /// The node that is next; without one the graph has ended.
    pub next_node: Option<K>,
    /// How many nodes were executed.
    pub step_count: usize,
    /// What the caller attached.
    pub metadata: Metadata,
    /// Whether the execution was just resumed, so that it does not stop before the same node
    /// again.
    pub is_resuming: bool,
}

impl<K> ExecutionContext<K> {
    /// An execution that begins at `next_node`.
    pub fn new(thread_id: String, next_node: K) -> (ctx: Self)
        ensures
            ctx.thread_id == thread_id,
            ctx.next_node == Some(next_node),
            ctx.step_count == 0,
            ctx.metadata@ == Map::<Seq<char>, Seq<char>>::empty(),
            !ctx.is_resuming,
    {
        ExecutionContext {
            thread_id,
            next_node: Some(next_node),
            step_count: 0,
            metadata: Metadata::new(),
            is_resuming: false,
        }
    }

    /// The same execution with a value attached.
    pub fn with_metadata(self, key: String, value: String) -> (ctx: Self)
        ensures
            ctx.metadata@ == self.metadata@.insert(key@, value@),
            ctx == (ExecutionContext { metadata: ctx.metadata, ..self }),
    {
        let mut metadata = self.metadata;
        metadata.insert(key, value);
        ExecutionContext {
            thread_id: self.thread_id,
            next_node: self.next_node,
            step_count: self.step_count,
            metadata,
            is_resuming: self.is_resuming,
        }
    }
}

/// Why a checkpoint is written.
#[derive(Debug)]
pub enum SaveReason<T> {
    /// The execution stops before this node.
    Suspending(T),
    /// A step was executed.
    Stepped,
    /// The execution was cancelled.
    Cancelling,
}

/// What the driver of an execution does next.
pub enum GraphStep<T: Topology> {
    /// Execute the node on the state, unless the execution is cancelled meanwhile.
    Execute {
        /// The node.
        node: T,
        /// The context.
        ctx: ExecutionContext<T>,
        /// The state.
        state: T::State,
    },
    /// Write a checkpoint of the context and the state.
    Save {
        /// Why.
        reason: SaveReason<T>,
        /// The context.
        ctx: ExecutionContext<T>,
        /// The state.
        state: T::State,
    },
    /// End.
    Finish(Result<ExecutionResult<T>, GraphError<T::Error>>),
}

/// Whether comparing `node` with each of `nodes` may find an equal one, or, when `found` is false,
/// none. Where the type says what its equality means, this leaves no choice.
pub open spec fn lists<T: PartialEq>(nodes: Seq<T>, node: T, found: bool) -> bool {
    &&& found ==> nodes.len() > 0
    &&& T::obeys_eq_spec() ==> (found <==> exists|i: int|
        0 <= i < nodes.len() && (#[trigger] nodes[i]).eq_spec(&node))
}

fn contains<T: PartialEq>(nodes: &Vec<T>, node: &T) -> (found: bool)
    ensures
        lists(nodes@, *node, found),
{
    let mut i: usize = 0;
    while i < nodes.len()
        invariant
            i <= nodes@.len(),
            T::obeys_eq_spec() ==> forall|j: int|
                0 <= j < i ==> !(#[trigger] nodes@[j]).eq_spec(node),
        decreases nodes@.len() - i,
    {
        if nodes[i] == *node {
            return true;
        }
        i = i + 1;
    }
    false
}

/// The settings of a [`GraphEngine`].
pub struct EngineView<T, P> {
    /// How many nodes may be executed.
    pub max_steps: usize,
    /// Before which nodes the execution is suspended.
    pub interrupt_before: Seq<T>,
    /// What cancels the execution.
    pub cancel_token: Option<CancellationToken>,
    /// When checkpoints are written.
    pub strategy: Option<CheckpointStrategy>,
    /// Where checkpoints are written.
    pub checkpoint: Option<P>,
}

impl<T: Topology, P> EngineView<T, P> {
    /// Whether a checkpoint is due once `step_count` nodes were executed.
    pub open spec fn saves_at(self, step_count: nat) -> bool {
        self.checkpoint is Some && match self.strategy {
            Some(CheckpointStrategy::Always) => true,
            Some(CheckpointStrategy::EveryNSteps(n)) => step_count > 0 && step_count % (n as nat)
                == 0,
            _ => false,
        }
    }

    /// The strategy says whether a checkpoint is due once `step_count` nodes were executed.
    pub open spec fn decides_at(self, step_count: nat) -> bool {
        self.checkpoint is Some && step_count > 0 ==> self.strategy != Some(
            CheckpointStrategy::EveryNSteps(0),
        )
    }

    /// What happens before `node`, which is next; `listed` says that it is one that the execution
    /// is suspended before.
    pub open spec fn arrived(
        self,
        node: T,
        listed: bool,
        ctx: ExecutionContext<T>,
        state: T::State,
    ) -> GraphStep<T> {
        if listed && !ctx.is_resuming {
            if self.checkpoint is Some {
                GraphStep::Save { reason: SaveReason::Suspending(node), ctx, state }
            } else {
                GraphStep::Finish(
                    Ok(ExecutionResult::Suspended { state, pending_node: node, ctx }),
                )
            }
        } else if ctx.step_count >= self.max_steps {
            GraphStep::Finish(Err(GraphError::MaxStepsExceeded(ctx.step_count)))
        } else {
            GraphStep::Execute {
                node,
                ctx: ExecutionContext { is_resuming: false, ..ctx },
                state,
            }
        }
    }

    /// Whether an execution that stands at `ctx` may go on with `step`. The node that `step`
    /// speaks of is a clone of the one in the context.
    pub open spec fn continues_with(
        self,
        ctx: ExecutionContext<T>,
        state: T::State,
        step: GraphStep<T>,
    ) -> bool {
        match ctx.next_node {
            None => step == GraphStep::<T>::Finish(Ok(ExecutionResult::Completed { state, ctx })),
            Some(next) => exists|node: T, listed: bool|
                {
                    &&& cloned(next, node)
                    &&& #[trigger] lists(self.interrupt_before, node, listed)
                    &&& step == self.arrived(node, listed, ctx, state)
                },
        }
    }

    /// The step once the execution was cancelled: the state is saved where it can be.
    pub open spec fn cancelled(self, ctx: ExecutionContext<T>, state: T::State) -> GraphStep<T> {
        if self.checkpoint is Some {
            GraphStep::Save { reason: SaveReason::Cancelling, ctx, state }
        } else {
            GraphStep::Finish(Err(GraphError::Cancelled))
        }
    }

    /// Whether an execution may go on with `step` once a node was executed and its result merged
    /// into the state, which is `state` now. `ctx` knows of the step already.
    pub open spec fn stepped(
        self,
        ctx: ExecutionContext<T>,
        state: T::State,
        step: GraphStep<T>,
    ) -> bool {
        if self.saves_at(ctx.step_count as nat) {
            step == (GraphStep::<T>::Save { reason: SaveReason::Stepped, ctx, state })
        } else {
            self.continues_with(ctx, state, step)
        }
    }

    /// Whether an execution may go on with `step` once the checkpoint for `reason` was written, or
    /// could not be. A cancelled execution ends as cancelled either way.
    pub open spec fn saved(
        self,
        reason: SaveReason<T>,
        ctx: ExecutionContext<T>,
        state: T::State,
        result: Result<(), String>,
        step: GraphStep<T>,
    ) -> bool {
        match (reason, result) {
            (SaveReason::Cancelling, _) => step == GraphStep::<T>::Finish(
                Err(GraphError::Cancelled),
            ),
            (_, Err(message)) => step == GraphStep::<T>::Finish(
                Err(GraphError::CheckpointError(message)),
            ),
            (SaveReason::Suspending(node), Ok(_)) => step == GraphStep::<T>::Finish(
                Ok(ExecutionResult::Suspended { state, pending_node: node, ctx }),
            ),
            (SaveReason::Stepped, Ok(_)) => self.continues_with(ctx, state, step),
        }
    }
}

/// Executes graphs node by node.
///
/// Its driver starts with [`GraphEngine::execute`] or [`GraphEngine::resume`], performs the step
/// that the latest call gave, and hands the outcome back, until the step is
/// [`GraphStep::Finish`]. `P` is where the driver stores checkpoints.
pub struct GraphEngine<T: Topology, P> {
    max_steps: usize,
    interrupt_before: Vec<T>,
    cancel_token: Option<CancellationToken>,
    strategy: Option<CheckpointStrategy>,
    checkpoint: Option<P>,
}

impl<T: Topology, P> View for GraphEngine<T, P> {
    type V = EngineView<T, P>;

    closed spec fn view(&self) -> EngineView<T, P> {
        EngineView {
            max_steps: self.max_steps,
            interrupt_before: self.interrupt_before@,
            cancel_token: self.cancel_token,
            strategy: self.strategy,
            checkpoint: self.checkpoint,
        }
    }
}

impl<T: Topology, P> GraphEngine<T, P> {
    /// No limit that could be reached, no interruptions, no checkpoints.
    pub fn new() -> (engine: Self)
        ensures
            engine@ == (EngineView::<T, P> {
                max_steps: usize::MAX,
                interrupt_before: Seq::empty(),
                cancel_token: None,
                strategy: None,
                checkpoint: None,
            }),
    {
        GraphEngine {
            max_steps: usize::MAX,
            interrupt_before: Vec::new(),
            cancel_token: None,
            strategy: None,
            checkpoint: None,
        }
    }

    /// At most `steps` nodes are executed.
    pub fn with_max_steps(self, steps: usize) -> (engine: Self)
        ensures
            engine@ == (EngineView { max_steps: steps, ..self@ }),
    {
        let mut engine = self;
        engine.max_steps = steps;
        engine
    }

    /// The execution is suspended before `node` too.
    pub fn with_interrupt_before(self, node: T) -> (engine: Self)
        ensures
            engine@ == (EngineView {
                interrupt_before: self@.interrupt_before.push(node),
                ..self@
            }),
    {
        let mut engine = self;
        engine.interrupt_before.push(node);
        engine
    }

    /// The execution is cancelled with `token`.
    pub fn with_cancel_token(self, token: CancellationToken) -> (engine: Self)
        ensures
            engine@ == (EngineView { cancel_token: Some(token), ..self@ }),
    {
        let mut engine = self;
        engine.cancel_token = Some(token);
        engine
    }

    /// Checkpoints are written to `checkpoint`, as `strategy` says.
    pub fn with_checkpoint(self, checkpoint: P, strategy: CheckpointStrategy) -> (engine: Self)
        ensures
            engine@ == (EngineView {
                checkpoint: Some(checkpoint),
                strategy: Some(strategy),
                ..self@
            }),
    {
        let mut engine = self;
        engine.checkpoint = Some(checkpoint);
        engine.strategy = Some(strategy);
        engine
    }

    /// A handle of the token that cancels executions: the one that was set, or else a new one
    /// that nobody else holds.
    pub fn cancel_token(&self) -> (token: CancellationToken)
        ensures
            self@.cancel_token matches Some(set) ==> token == set,
    {
        match &self.cancel_token {
            Some(token) => token.clone(),
            None => CancellationToken::new(),
        }
    }

    /// Where the checkpoint is written that is due once a step was executed, if one is.
    pub fn save(&self, ctx: &ExecutionContext<T>) -> (checkpoint: Option<&P>)
        requires
            self@.decides_at(ctx.step_count as nat),
        ensures
            match checkpoint {
                Some(checkpoint) => {
                    &&& self@.saves_at(ctx.step_count as nat)
                    &&& self@.checkpoint == Some(*checkpoint)
                },
                None => !self@.saves_at(ctx.step_count as nat),
            },
    {
        match &self.checkpoint {
            Some(checkpoint) => {
                let due = match self.strategy {
                    Some(CheckpointStrategy::Always) => true,
                    Some(CheckpointStrategy::EveryNSteps(n)) => {
                        ctx.step_count > 0 && ctx.step_count % n == 0
                    },
                    _ => false,
                };
                if due {
                    Some(checkpoint)
                } else {
                    None
                }
            },
            None => None,
        }
    }

    /// Where a checkpoint is written that is due whatever the strategy says, if there is such a
    /// place.
    pub fn force_save(&self) -> (checkpoint: Option<&P>)
        ensures
            match checkpoint {
                Some(checkpoint) => self@.checkpoint == Some(*checkpoint),
                None => self@.checkpoint is None,
            },
    {
        match &self.checkpoint {
            Some(checkpoint) => Some(checkpoint),
            None => None,
        }
    }

    /// Where the checkpoint is read that an execution is resumed from.
    pub fn resume(&self) -> (checkpoint: Result<&P, GraphError<T::Error>>)
        ensures
            match checkpoint {
                Ok(checkpoint) => self@.checkpoint == Some(*checkpoint),
                Err(error) => {
                    &&& self@.checkpoint is None
                    &&& error matches GraphError::CheckpointError(message)
                    &&& message@ == "Cannot resume: no checkpoint configured"@
                },
            },
    {
        match &self.checkpoint {
            Some(checkpoint) => Ok(checkpoint),
            None => Err(
                GraphError::CheckpointError(
                    "Cannot resume: no checkpoint configured".to_owned(),
                ),
            ),
        }
    }
}

impl<T: Topology, P> GraphEngine<T, P> where T::State: Reducer<T::Delta, T::Error> {
    /// The checkpoint of `thread_id` was read, was not there, or could not be read. An execution
    /// that is resumed does not stop before the node that it begins with.
    pub fn on_loaded(
        &self,
        thread_id: &str,
        loaded: Result<Option<(ExecutionContext<T>, T::State)>, String>,
    ) -> (step: GraphStep<T>)
        ensures
            match loaded {
                Ok(Some((ctx, state))) => self@.continues_with(
                    ExecutionContext { is_resuming: true, ..ctx },
                    state,
                    step,
                ),
                Ok(None) => {
                    &&& step matches GraphStep::Finish(Err(GraphError::CheckpointError(message)))
                    &&& message@ == "No checkpoint found for thread_id: "@ + thread_id@
                },
                Err(message) => step == GraphStep::<T>::Finish(
                    Err(GraphError::CheckpointError(message)),
                ),
            },
    {
        match loaded {
            Ok(Some((ctx, state))) => {
                let mut ctx = ctx;
                ctx.is_resuming = true;
                self.execute(ctx, state)
            },
            Ok(None) => {
                let mut message = "No checkpoint found for thread_id: ".to_owned();
                message.append(thread_id);
                GraphStep::Finish(Err(GraphError::CheckpointError(message)))
            },
            Err(message) => GraphStep::Finish(Err(GraphError::CheckpointError(message))),
        }
    }

    /// The first step of an execution from `ctx` on.
    pub fn execute(&self, ctx: ExecutionContext<T>, state: T::State) -> (step: GraphStep<T>)
        ensures
            self@.continues_with(ctx, state, step),
    {
        let mut ctx = ctx;
        let node = match &ctx.next_node {
            None => {
                return GraphStep::Finish(Ok(ExecutionResult::Completed { state, ctx }));
            },
            Some(next) => next.clone(),
        };
        let listed = contains(&self.interrupt_before, &node);
        assert(lists(self@.interrupt_before, node, listed));
        if listed && !ctx.is_resuming {
            return match &self.checkpoint {
                Some(_) => GraphStep::Save { reason: SaveReason::Suspending(node), ctx, state },
                None => GraphStep::Finish(
                    Ok(ExecutionResult::Suspended { state, pending_node: node, ctx }),
                ),
            };
        }
        ctx.is_resuming = false;
        if ctx.step_count >= self.max_steps {
            return GraphStep::Finish(Err(GraphError::MaxStepsExceeded(ctx.step_count)));
        }
        GraphStep::Execute { node, ctx, state }
    }

    /// `node` gave `result`.
    pub fn on_executed(
        &self,
        node: T,
        ctx: ExecutionContext<T>,
        state: T::State,
        result: Result<T::Delta, T::Error>,
    ) -> (step: GraphStep<T>)
        requires
            result matches Ok(delta) ==> forall|after: T::State| #[trigger]
                state.reduces(delta, after, Ok(())) ==> ctx.step_count < usize::MAX
                    && self@.decides_at((ctx.step_count + 1) as nat),
        ensures
            self@.executed(node, ctx, state, result, step),
    {
        let delta = match result {
            Ok(delta) => delta,
            Err(error) => {
                return GraphStep::Finish(Err(GraphError::NodeError(error)));
            },
        };
        let mut ctx = ctx;
        let mut state = state;
        let ghost before = state;
        match state.reduce(delta) {
            Ok(unit) => {
                assert(unit == ());
                assert(before.reduces(delta, state, Ok(())));
            },
            Err(error) => {
                assert(before.reduces(delta, state, Err(error)));
                return GraphStep::Finish(Err(GraphError::LogicalError(error)));
            },
        }
        ctx.step_count = ctx.step_count + 1;
        ctx.next_node = node.route(&state);
        assert(node.leads_to(state, ctx.next_node));
        let due = match self.save(&ctx) {
            Some(_) => true,
            None => false,
        };
        if due {
            GraphStep::Save { reason: SaveReason::Stepped, ctx, state }
        } else {
            self.execute(ctx, state)
        }
    }

    /// The execution was cancelled while a node was executed. What the node did is lost.
    pub fn on_cancelled(&self, ctx: ExecutionContext<T>, state: T::State) -> (step: GraphStep<T>)
        ensures
            step == self@.cancelled(ctx, state),
    {
        match &self.checkpoint {
            Some(_) => GraphStep::Save { reason: SaveReason::Cancelling, ctx, state },
            None => GraphStep::Finish(Err(GraphError::Cancelled)),
        }
    }

    /// The checkpoint was written, or could not be.
    pub fn on_saved(
        &self,
        reason: SaveReason<T>,
        ctx: ExecutionContext<T>,
        state: T::State,
        result: Result<(), String>,
    ) -> (step: GraphStep<T>)
        ensures
            self@.saved(reason, ctx, state, result, step),
    {
        match reason {
            SaveReason::Cancelling => GraphStep::Finish(Err(GraphError::Cancelled)),
            SaveReason::Suspending(node) => match result {
                Ok(_) => GraphStep::Finish(
                    Ok(ExecutionResult::Suspended { state, pending_node: node, ctx }),
                ),
                Err(message) => GraphStep::Finish(Err(GraphError::CheckpointError(message))),
            },
            SaveReason::Stepped => match result {
                Ok(_) => self.execute(ctx, state),
                Err(message) => GraphStep::Finish(Err(GraphError::CheckpointError(message))),
            },
        }
    }
}

impl<T: Topology, P> EngineView<T, P> where T::State: Reducer<T::Delta, T::Error> {
    /// Whether an execution may go on with `step` once `node` gave `result`.
    pub open spec fn executed(
        self,
        node: T,
        ctx: ExecutionContext<T>,
        state: T::State,
        result: Result<T::Delta, T::Error>,
        step: GraphStep<T>,
    ) -> bool {
        match result {
            Err(error) => step == GraphStep::<T>::Finish(Err(GraphError::NodeError(error))),
            Ok(delta) => {
                ||| exists|after: T::State, error: T::Error|
                    {
                        &&& #[trigger] state.reduces(delta, after, Err(error))
                        &&& step == GraphStep::<T>::Finish(Err(GraphError::LogicalError(error)))
                    }
                ||| exists|after: T::State, next: Option<T>|
                    {
                        &&& #[trigger] state.reduces(delta, after, Ok(()))
                        &&& #[trigger] node.leads_to(after, next)
                        &&& self.stepped(
                            ExecutionContext {
                                step_count: (ctx.step_count + 1) as usize,
                                next_node: next,
                                ..ctx
                            },
                            after,
                            step,
                        )
                    }
            },
        }
    }
}

} // verus!
