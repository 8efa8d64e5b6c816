//! A stage that runs a node on several items at once.

use crate::dlq;
use crate::dlq::ErrorPayload;
use crate::dlq::PayloadView;
use crate::pipeline::delivery;
use crate::pipeline::delivery::Bag;
use crate::pipeline::delivery::Delivery;
use crate::pipeline::delivery::DeliveryStep;
use crate::pipeline::delivery::DeliveryStepView;
use crate::pipeline::delivery::FailureView;
use crate::pipeline::delivery::NodeFailure;
use crate::pipeline::delivery::Sent;
use crate::pipeline::pipe;
use crate::pipeline::FaultPolicy;
use crate::pipeline::BUFFER_SIZE;
use vstd::prelude::*;

verus! {

/// Where a concurrent stage stands.
#[derive(Debug, Clone, Copy, PartialEq, Eq, Structural)]
pub enum ConcurrentPhase {
    /// It takes items and waits for tasks.
    Running,
    /// Its node is flushed.
    Flushing,
    /// The result of the flush is handed on.
    Closing,
    /// It has ended.
    Finished,
}

/// How a task ended.
#[derive(Debug, Clone, Copy, PartialEq, Eq, Structural)]
pub enum Joined {
    /// It handed its result on. `halt` says that a channel was closed.
    Completed {
        /// Whether the stage must stop.
        halt: bool,
    },
    /// It panicked.
    Panicked,
    /// It was cancelled.
    Cancelled,
}

/// What a concurrent stage does next.
#[derive(Debug)]
pub enum ConcurrentAction<T, O> {
    /// Wait for an item, if [`ConcurrentStage::wants_input`], or for a task.
    Wait,
    /// Run a task that executes the node on the item and hands its result on.
    Spawn(T),
    /// Abort all tasks, then wait until they have ended.
    Cancel,
    /// Send the payload, if any, to the dead letter queue, abort all tasks, and flush the node.
    Abort(Option<ErrorPayload>),
    /// Flush the node.
    Flush,
    /// Send the output of the flush downstream.
    Emit(O),
    /// Send the payload of the flush to the dead letter queue.
    Report(ErrorPayload),
    /// End.
    Finish,
}

/// A [`ConcurrentAction`], with the payloads as text.
pub enum ConcurrentActionView<T, O> {
    /// Wait for an item or for a task.
    Wait,
    /// Run a task on the item.
    Spawn(T),
    /// Abort all tasks, then wait until they have ended.
    Cancel,
    /// Send the payload, abort all tasks, and flush the node.
    Abort(Option<PayloadView>),
    /// Flush the node.
    Flush,
    /// Send the output of the flush downstream.
    Emit(O),
    /// Send the payload of the flush to the dead letter queue.
    Report(PayloadView),
    /// End.
    Finish,
}

impl<T, O> View for ConcurrentAction<T, O> {
    type V = ConcurrentActionView<T, O>;

    open spec fn view(&self) -> ConcurrentActionView<T, O> {
        match *self {
            ConcurrentAction::Wait => ConcurrentActionView::Wait,
            ConcurrentAction::Spawn(input) => ConcurrentActionView::Spawn(input),
            ConcurrentAction::Cancel => ConcurrentActionView::Cancel,
            ConcurrentAction::Abort(Some(payload)) => ConcurrentActionView::Abort(Some(payload@)),
            ConcurrentAction::Abort(None) => ConcurrentActionView::Abort(None),
            ConcurrentAction::Flush => ConcurrentActionView::Flush,
            ConcurrentAction::Emit(item) => ConcurrentActionView::Emit(item),
            ConcurrentAction::Report(payload) => ConcurrentActionView::Report(payload@),
            ConcurrentAction::Finish => ConcurrentActionView::Finish,
        }
    }
}

/// What a concurrent stage keeps between calls.
pub struct ConcurrentView<O> {
    /// The name under which failures of the node are reported.
    pub node_name: Seq<char>,
    /// What is done when a task panics.
    pub policy: FaultPolicy,
    /// How many tasks may run at once.
    pub limit: nat,
    /// How many tasks run.
    pub active: nat,
    /// Whether no item will come any more.
    pub upstream_closed: bool,
    /// Where the stage stands.
    pub phase: ConcurrentPhase,
    /// The outputs of the flush that are left to send.
    pub rest: Seq<O>,
}

impl<O> ConcurrentView<O> {
    /// No more tasks run than may; a stage that runs has something to wait for, and tasks run
    /// only while it runs.
    pub open spec fn valid(self) -> bool {
        &&& 0 < self.limit
        &&& self.active <= self.limit
        &&& self.phase == ConcurrentPhase::Running ==> !self.upstream_closed || self.active > 0
        &&& self.phase != ConcurrentPhase::Running ==> self.active == 0
    }

    /// Whether an item may be taken.
    pub open spec fn wants_input(self) -> bool {
        self.phase == ConcurrentPhase::Running && !self.upstream_closed && self.active
            < self.limit
    }

    /// Whether a task can end.
    pub open spec fn waits_for_tasks(self) -> bool {
        self.phase == ConcurrentPhase::Running && self.active > 0
    }

    /// The stage, and what it does, when nothing stops it: it ends once no item will come any
    /// more and no task runs.
    pub open spec fn goes_on<T>(self) -> (ConcurrentView<O>, ConcurrentActionView<T, O>) {
        if self.upstream_closed && self.active == 0 {
            (
                ConcurrentView { phase: ConcurrentPhase::Flushing, ..self },
                ConcurrentActionView::Flush,
            )
        } else {
            (self, ConcurrentActionView::Wait)
        }
    }

    /// Whether the stage, when it is stopped, still waits for its tasks before it flushes. It does
    /// where faults are survived, unless it takes no more items already: then a task that stops it
    /// makes it flush at once.
    pub open spec fn lingers(self) -> bool {
        self.policy == FaultPolicy::Continue && !self.upstream_closed && self.active > 0
    }

    /// The stage, and what it does, when it is stopped.
    pub open spec fn stops<T>(self, payload: Option<PayloadView>) -> (
        ConcurrentView<O>,
        ConcurrentActionView<T, O>,
    ) {
        if self.lingers() {
            (ConcurrentView { upstream_closed: true, ..self }, ConcurrentActionView::Cancel)
        } else {
            (
                ConcurrentView { phase: ConcurrentPhase::Flushing, active: 0, ..self },
                ConcurrentActionView::Abort(payload),
            )
        }
    }

    /// The stage, and what it does, once it received `input`.
    pub open spec fn received<T>(self, input: Option<T>, downstream_closed: bool) -> (
        ConcurrentView<O>,
        ConcurrentActionView<T, O>,
    ) {
        match input {
            Some(input) => if downstream_closed {
                self.stops(None)
            } else {
                (
                    ConcurrentView { active: self.active + 1, ..self },
                    ConcurrentActionView::Spawn(input),
                )
            },
            None => (ConcurrentView { upstream_closed: true, ..self }).goes_on(),
        }
    }

    /// The stage, and what it does, once a task ended.
    pub open spec fn joined<T>(self, joined: Joined) -> (
        ConcurrentView<O>,
        ConcurrentActionView<T, O>,
    ) {
        let fewer = ConcurrentView { active: (self.active - 1) as nat, ..self };
        match joined {
            Joined::Completed { halt: true } => fewer.stops(None),
            Joined::Panicked => if self.policy == FaultPolicy::Halt {
                fewer.stops(Some(dlq::panic_view(self.node_name)))
            } else {
                fewer.goes_on()
            },
            _ => fewer.goes_on(),
        }
    }

    /// The stage, and what it does, once the delivery of the flush has come to `step`.
    pub open spec fn at_step<T>(self, rest: Seq<O>, step: DeliveryStepView<O>) -> (
        ConcurrentView<O>,
        ConcurrentActionView<T, O>,
    ) {
        match step {
            DeliveryStepView::Emit(item) => (
                ConcurrentView { phase: ConcurrentPhase::Closing, rest, ..self },
                ConcurrentActionView::Emit(item),
            ),
            DeliveryStepView::Report(payload) => (
                ConcurrentView { phase: ConcurrentPhase::Closing, rest, ..self },
                ConcurrentActionView::Report(payload),
            ),
            DeliveryStepView::Done { .. } => (
                ConcurrentView { phase: ConcurrentPhase::Finished, rest, ..self },
                ConcurrentActionView::Finish,
            ),
        }
    }

    /// The stage, and what it does, once its node gave `result` for the flush.
    pub open spec fn flushed<T>(self, result: Result<Seq<O>, FailureView>) -> (
        ConcurrentView<O>,
        ConcurrentActionView<T, O>,
    ) {
        let (rest, step) = delivery::delivery_started(self.node_name, result);
        self.at_step(rest, step)
    }

    /// The stage, and what it does, once an output or the payload of the flush was sent or, when
    /// `delivered` is false, its channel was found closed.
    pub open spec fn delivered<T>(self, delivered: bool) -> (
        ConcurrentView<O>,
        ConcurrentActionView<T, O>,
    ) {
        let (rest, step) = delivery::delivery_advanced(self.rest, delivered);
        self.at_step(rest, step)
    }
}

/// A stage that pipes items concurrently through a node.
///
/// Its driver performs the action that the latest call gave, beginning with
/// [`ConcurrentAction::Wait`], and hands the outcome back. Each task hands its own result on with
/// a [`Delivery`].
#[derive(Debug)]
pub struct ConcurrentStage<O> {
    node_name: String,
    policy: FaultPolicy,
    limit: usize,
    active: usize,
    upstream_closed: bool,
    phase: ConcurrentPhase,
    delivery: Delivery<O>,
}

impl<O> View for ConcurrentStage<O> {
    type V = ConcurrentView<O>;

    closed spec fn view(&self) -> ConcurrentView<O> {
        ConcurrentView {
            node_name: self.node_name@,
            policy: self.policy,
            limit: self.limit as nat,
            active: self.active as nat,
            upstream_closed: self.upstream_closed,
            phase: self.phase,
            rest: self.delivery@,
        }
    }
}

impl<O> ConcurrentStage<O> {
    /// A stage without tasks that waits for its first item.
    pub fn new(node_name: String, concurrency_limit: usize, policy: FaultPolicy) -> (stage:
        ConcurrentStage<O>)
        requires
            concurrency_limit > 0,
            policy == FaultPolicy::Continue ==> concurrency_limit <= BUFFER_SIZE,
        ensures
            stage@ == (ConcurrentView {
                node_name: node_name@,
                policy,
                limit: concurrency_limit as nat,
                active: 0,
                upstream_closed: false,
                phase: ConcurrentPhase::Running,
                rest: Seq::<O>::empty(),
            }),
            stage@.valid(),
    {
        ConcurrentStage {
            node_name,
            policy,
            limit: concurrency_limit,
            active: 0,
            upstream_closed: false,
            phase: ConcurrentPhase::Running,
            delivery: Delivery::idle(),
        }
    }

    /// Where the stage stands.
    pub fn phase(&self) -> (phase: ConcurrentPhase)
        ensures
            phase == self@.phase,
    {
        self.phase
    }

    /// Whether an item may be taken.
    pub fn wants_input(&self) -> (wants: bool)
        ensures
            wants == self@.wants_input(),
    {
        self.phase == ConcurrentPhase::Running && !self.upstream_closed && self.active
            < self.limit
    }

    /// Whether a task can end.
    pub fn waits_for_tasks(&self) -> (waits: bool)
        ensures
            waits == self@.waits_for_tasks(),
    {
        self.phase == ConcurrentPhase::Running && self.active > 0
    }

    fn go_on<T>(&mut self) -> (action: ConcurrentAction<T, O>)
        ensures
            (final(self)@, action@) == old(self)@.goes_on::<T>(),
    {
        if self.upstream_closed && self.active == 0 {
            self.phase = ConcurrentPhase::Flushing;
            ConcurrentAction::Flush
        } else {
            ConcurrentAction::Wait
        }
    }

    fn stop<T>(&mut self, payload: Option<ErrorPayload>) -> (action: ConcurrentAction<T, O>)
        ensures
            (final(self)@, action@) == old(self)@.stops::<T>(
                match payload {
                    Some(payload) => Some(payload@),
                    None => None,
                },
            ),
    {
        if self.policy == FaultPolicy::Continue && !self.upstream_closed && self.active > 0 {
            self.upstream_closed = true;
            ConcurrentAction::Cancel
        } else {
            self.phase = ConcurrentPhase::Flushing;
            self.active = 0;
            ConcurrentAction::Abort(payload)
        }
    }

    /// The stage received an item, or learned that none will come any more; `downstream_closed`
    /// says that nobody takes its outputs.
    pub fn on_received<T>(&mut self, input: Option<T>, downstream_closed: bool) -> (action:
        ConcurrentAction<T, O>)
        requires
            old(self)@.valid(),
            old(self)@.wants_input(),
        ensures
            (final(self)@, action@) == old(self)@.received::<T>(input, downstream_closed),
            final(self)@.valid(),
    {
        match input {
            Some(input) => {
                if downstream_closed {
                    self.stop(None)
                } else {
                    self.active = self.active + 1;
                    ConcurrentAction::Spawn(input)
                }
            },
            None => {
                self.upstream_closed = true;
                self.go_on()
            },
        }
    }

    /// A task ended.
    pub fn on_joined<T>(&mut self, joined: Joined) -> (action: ConcurrentAction<T, O>)
        requires
            old(self)@.valid(),
            old(self)@.waits_for_tasks(),
        ensures
            (final(self)@, action@) == old(self)@.joined::<T>(joined),
            final(self)@.valid(),
    {
        self.active = self.active - 1;
        match joined {
            Joined::Completed { halt: true } => self.stop(None),
            Joined::Panicked => {
                if self.policy == FaultPolicy::Halt {
                    let payload = ErrorPayload::task_panicked(self.node_name.as_str());
                    self.stop(Some(payload))
                } else {
                    self.go_on()
                }
            },
            _ => self.go_on(),
        }
    }

    fn at_step<T>(&mut self, step: DeliveryStep<O>) -> (action: ConcurrentAction<T, O>)
        ensures
            (final(self)@, action@) == old(self)@.at_step::<T>(old(self)@.rest, step@),
    {
        match step {
            DeliveryStep::Emit(item) => {
                self.phase = ConcurrentPhase::Closing;
                ConcurrentAction::Emit(item)
            },
            DeliveryStep::Report(payload) => {
                self.phase = ConcurrentPhase::Closing;
                ConcurrentAction::Report(payload)
            },
            DeliveryStep::Done { .. } => {
                self.phase = ConcurrentPhase::Finished;
                ConcurrentAction::Finish
            },
        }
    }

    /// The node gave `result` for the flush.
    pub fn on_flushed<T>(&mut self, result: Result<Vec<O>, String>) -> (action: ConcurrentAction<
        T,
        O,
    >)
        requires
            old(self)@.valid(),
            old(self)@.phase == ConcurrentPhase::Flushing,
        ensures
            (final(self)@, action@) == old(self)@.flushed::<T>(pipe::flush_view(result)),
            final(self)@.valid(),
    {
        let result = match result {
            Ok(items) => Ok(items),
            Err(message) => Err(NodeFailure { error_message: message, raw_data: None }),
        };
        let (delivery, step) = Delivery::start(self.node_name.as_str(), result);
        self.delivery = delivery;
        self.at_step(step)
    }

    /// An output or the payload of the flush was sent, or, when `delivered` is false, its channel
    /// was closed.
    pub fn on_delivered<T>(&mut self, delivered: bool) -> (action: ConcurrentAction<T, O>)
        requires
            old(self)@.valid(),
            old(self)@.phase == ConcurrentPhase::Closing,
        ensures
            (final(self)@, action@) == old(self)@.delivered::<T>(delivered),
            final(self)@.valid(),
    {
        let step = self.delivery.advance(delivered);
        self.at_step(step)
    }
}

/// What can happen to a concurrent stage that runs.
pub enum ConcurrentEvent<T> {
    /// An item came, or none will come any more.
    Received {
        /// The item.
        input: Option<T>,
        /// Whether nobody takes the outputs.
        downstream_closed: bool,
    },
    /// A task ended.
    Joined(Joined),
}

impl<T> ConcurrentEvent<T> {
    /// Whether the event can happen to `stage`.
    pub open spec fn possible<O>(self, stage: ConcurrentView<O>) -> bool {
        match self {
            ConcurrentEvent::Received { .. } => stage.wants_input(),
            ConcurrentEvent::Joined(_) => stage.waits_for_tasks(),
        }
    }

    /// The stage, and what it does, once the event happened.
    pub open spec fn happens<O>(self, stage: ConcurrentView<O>) -> (
        ConcurrentView<O>,
        ConcurrentActionView<T, O>,
    ) {
        match self {
            ConcurrentEvent::Received { input, downstream_closed } => stage.received(
                input,
                downstream_closed,
            ),
            ConcurrentEvent::Joined(joined) => stage.joined(joined),
        }
    }

    /// Whether the event stops a stage under `policy`: nobody takes the outputs any more, or a
    /// task panicked and that is not survived.
    pub open spec fn stops(self, policy: FaultPolicy) -> bool {
        match self {
            ConcurrentEvent::Received { input, downstream_closed } => input is Some
                && downstream_closed,
            ConcurrentEvent::Joined(Joined::Completed { halt }) => halt,
            ConcurrentEvent::Joined(Joined::Panicked) => policy == FaultPolicy::Halt,
            ConcurrentEvent::Joined(Joined::Cancelled) => false,
        }
    }
}

/// The stage once `events` happened in turn; events that cannot happen change nothing.
pub open spec fn concurrent_run<T, O>(
    stage: ConcurrentView<O>,
    events: Seq<ConcurrentEvent<T>>,
) -> ConcurrentView<O>
    decreases events.len(),
{
    if events.len() == 0 {
        stage
    } else {
        let before = concurrent_run(stage, events.drop_last());
        if events.last().possible(before) {
            events.last().happens(before).0
        } else {
            before
        }
    }
}

/// At no time do more tasks run than the limit allows, whatever happens in whatever order, and a
/// stage that runs always has something to wait for.
pub proof fn stays_within_the_limit<T, O>(
    stage: ConcurrentView<O>,
    events: Seq<ConcurrentEvent<T>>,
)
    requires
        stage.valid(),
    ensures
        ({
            let after = concurrent_run(stage, events);
            &&& after.valid()
            &&& after.limit == stage.limit
            &&& after.active <= stage.limit
            &&& after.phase == ConcurrentPhase::Running ==> after.wants_input()
                || after.waits_for_tasks()
        }),
    decreases events.len(),
{
    if events.len() > 0 {
        stays_within_the_limit(stage, events.drop_last());
    }
}

/// A stage goes over to its flush exactly when it is stopped and does not linger for its tasks, or
/// when no item will come any more and every task has ended. One that lingers has its tasks
/// aborted, takes no more items, and waits for each of its tasks.
pub proof fn flushes_when_all_is_done<T, O>(stage: ConcurrentView<O>, event: ConcurrentEvent<T>)
    requires
        stage.valid(),
        event.possible(stage),
    ensures
        ({
            let (after, action) = event.happens(stage);
            let left = ConcurrentView {
                active: if event is Joined {
                    (stage.active - 1) as nat
                } else {
                    stage.active
                },
                ..stage
            };
            let stopped = event.stops(stage.policy);
            let exhausted = match event {
                ConcurrentEvent::Received { input, .. } => input is None && left.active == 0,
                ConcurrentEvent::Joined(_) => stage.upstream_closed && left.active == 0,
            };
            &&& after.phase == ConcurrentPhase::Flushing <==> (stopped && !left.lingers())
                || exhausted
            &&& action is Abort <==> stopped && !left.lingers()
            &&& action is Flush <==> exhausted && !stopped
            &&& action is Cancel <==> stopped && left.lingers()
            &&& action is Cancel ==> {
                &&& after == (ConcurrentView { upstream_closed: true, ..left })
                &&& !after.wants_input()
                &&& after.waits_for_tasks()
            }
        }),
{
}

/// A stage that takes no more items joins its tasks one by one, and goes over to its flush with the
/// last of them, and not before, as long as none of them stops it.
pub proof fn joins_its_tasks_before_the_flush<T, O>(
    stage: ConcurrentView<O>,
    joins: Seq<ConcurrentEvent<T>>,
)
    requires
        stage.valid(),
        stage.phase == ConcurrentPhase::Running,
        stage.upstream_closed,
        joins.len() <= stage.active,
        forall|i: int|
            0 <= i < joins.len() ==> (#[trigger] joins[i]) is Joined && !joins[i].stops(
                stage.policy,
            ),
    ensures
        concurrent_run(stage, joins) == (ConcurrentView {
            active: (stage.active - joins.len()) as nat,
            phase: if joins.len() == stage.active {
                ConcurrentPhase::Flushing
            } else {
                ConcurrentPhase::Running
            },
            ..stage
        }),
    decreases joins.len(),
{
    if joins.len() > 0 {
        let earlier = joins.drop_last();
        assert forall|i: int| 0 <= i < earlier.len() implies (#[trigger] earlier[i]) is Joined
            && !earlier[i].stops(stage.policy) by {
            assert(joins[i] is Joined && !joins[i].stops(stage.policy));
        }
        joins_its_tasks_before_the_flush(stage, earlier);
        assert(joins[joins.len() - 1] is Joined && !joins[joins.len() - 1].stops(stage.policy));
    }
}

/// The items on which tasks were started while `events` happened in turn.
pub open spec fn spawned<T, O>(stage: ConcurrentView<O>, events: Seq<ConcurrentEvent<T>>) -> Seq<T>
    decreases events.len(),
{
    if events.len() == 0 {
        Seq::empty()
    } else {
        let earlier = spawned(stage, events.drop_last());
        let before = concurrent_run(stage, events.drop_last());
        if events.last().possible(before) {
            match events.last().happens(before).1 {
                ConcurrentActionView::Spawn(item) => earlier.push(item),
                _ => earlier,
            }
        } else {
            earlier
        }
    }
}

/// The items that were received while `events` happened in turn.
pub open spec fn received_items<T, O>(
    stage: ConcurrentView<O>,
    events: Seq<ConcurrentEvent<T>>,
) -> Seq<T>
    decreases events.len(),
{
    if events.len() == 0 {
        Seq::empty()
    } else {
        let earlier = received_items(stage, events.drop_last());
        let before = concurrent_run(stage, events.drop_last());
        match events.last() {
            ConcurrentEvent::Received { input: Some(item), .. } if before.wants_input() => {
                earlier.push(item)
            },
            _ => earlier,
        }
    }
}

/// How many tasks ended while `events` happened in turn.
pub open spec fn joined_tasks<T, O>(
    stage: ConcurrentView<O>,
    events: Seq<ConcurrentEvent<T>>,
) -> nat
    decreases events.len(),
{
    if events.len() == 0 {
        0
    } else {
        let earlier = joined_tasks(stage, events.drop_last());
        let before = concurrent_run(stage, events.drop_last());
        if events.last() is Joined && before.waits_for_tasks() {
            earlier + 1
        } else {
            earlier
        }
    }
}

/// As long as nothing stops the stage, it starts one task on each item that it receives, in order,
/// counts the tasks that run, and goes over to its flush only once all of them have ended.
pub proof fn every_task_is_awaited<T, O>(
    stage: ConcurrentView<O>,
    events: Seq<ConcurrentEvent<T>>,
)
    requires
        stage.valid(),
        stage.phase == ConcurrentPhase::Running,
        stage.active == 0,
        forall|i: int| 0 <= i < events.len() ==> !(#[trigger] events[i]).stops(stage.policy),
    ensures
        ({
            let after = concurrent_run(stage, events);
            &&& after.policy == stage.policy
            &&& after.phase == ConcurrentPhase::Running || after.phase
                == ConcurrentPhase::Flushing
            &&& spawned(stage, events) == received_items(stage, events)
            &&& spawned(stage, events).len() == joined_tasks(stage, events) + after.active
            &&& after.phase == ConcurrentPhase::Flushing ==> {
                &&& after.upstream_closed
                &&& spawned(stage, events).len() == joined_tasks(stage, events)
            }
        }),
    decreases events.len(),
{
    if events.len() > 0 {
        let earlier = events.drop_last();
        assert forall|i: int| 0 <= i < earlier.len() implies !(#[trigger] earlier[i]).stops(
            stage.policy,
        ) by {
            assert(!events[i].stops(stage.policy));
        }
        every_task_is_awaited(stage, earlier);
        stays_within_the_limit(stage, earlier);
        assert(!events[events.len() - 1].stops(stage.policy));
    }
}

/// The stage, what it does and what it sent, once the result of the flush was handed on from
/// `action` on, while the first `open` sends are accepted and the one after them finds its channel
/// closed.
pub open spec fn flush_handed_on<T, O>(
    stage: ConcurrentView<O>,
    action: ConcurrentActionView<T, O>,
    open: nat,
) -> (ConcurrentView<O>, ConcurrentActionView<T, O>, Sent<O>)
    decreases
            stage.rest.len() + (if stage.phase == ConcurrentPhase::Closing {
                1nat
            } else {
                0nat
            }),
{
    if stage.phase != ConcurrentPhase::Closing {
        (stage, action, Sent::nothing())
    } else {
        let now = match action {
            ConcurrentActionView::Emit(item) if open > 0 => Sent {
                emitted: seq![item],
                reported: Seq::empty(),
            },
            ConcurrentActionView::Report(payload) if open > 0 => Sent {
                emitted: Seq::empty(),
                reported: seq![payload],
            },
            _ => Sent::nothing(),
        };
        let (next_stage, next_action) = stage.delivered::<T>(open > 0);
        let (end_stage, end_action, later) = flush_handed_on(
            next_stage,
            next_action,
            (open - 1) as nat,
        );
        (end_stage, end_action, now.followed_by(later))
    }
}

proof fn lemma_flush_handed_on<T, O>(
    stage: ConcurrentView<O>,
    rest: Seq<O>,
    step: DeliveryStepView<O>,
    open: nat,
)
    requires
        step is Done ==> rest.len() == 0,
    ensures
        ({
            let (first_stage, first_action) = stage.at_step::<T>(rest, step);
            let (sent, halt) = delivery::delivery_run(rest, step, open);
            flush_handed_on(first_stage, first_action, open) == (
                ConcurrentView {
                    phase: ConcurrentPhase::Finished,
                    rest: Seq::<O>::empty(),
                    ..stage
                },
                ConcurrentActionView::<T, O>::Finish,
                sent,
            )
        }),
    decreases
            rest.len() + (if step is Done {
                0nat
            } else {
                1nat
            }),
{
    let (first_stage, first_action) = stage.at_step::<T>(rest, step);
    if step is Done {
        assert(rest =~= Seq::empty());
    } else {
        let (next_rest, next_step) = delivery::delivery_advanced(rest, open > 0);
        lemma_flush_handed_on::<T, O>(stage, next_rest, next_step, (open - 1) as nat);
        assert(first_stage.delivered::<T>(open > 0) == stage.at_step::<T>(next_rest, next_step));
    }
}

/// The flush comes last: whether or not its result can be sent, the stage ends after it, and it
/// sends the result in full when the channels stay open.
pub proof fn the_concurrent_flush_comes_last<T, O>(
    stage: ConcurrentView<O>,
    flush: Result<Seq<O>, FailureView>,
    open: nat,
)
    requires
        stage.phase == ConcurrentPhase::Flushing,
    ensures
        ({
            let (first_stage, first_action) = stage.flushed::<T>(flush);
            let (end_stage, end_action, sent) = flush_handed_on(first_stage, first_action, open);
            &&& end_stage.phase == ConcurrentPhase::Finished
            &&& end_action is Finish
            &&& open >= pipe::sends_for(stage.node_name, flush) ==> sent == delivery::routed(
                stage.node_name,
                flush,
            )
        }),
{
    let (rest, step) = delivery::delivery_started(stage.node_name, flush);
    lemma_flush_handed_on::<T, O>(stage, rest, step, open);
    delivery::a_result_is_routed(stage.node_name, flush, open);
}

/// A task: it hands the result that the node gave for its item on, step by step, and ends.
pub enum TaskView<O> {
    /// It performs `step`, and has `rest` to send after it.
    Delivering {
        /// The outputs that are left to send.
        rest: Seq<O>,
        /// What it does next.
        step: DeliveryStepView<O>,
    },
    /// It ended, and the stage knows.
    Ended,
}

impl<O> TaskView<O> {
    /// A task that begins to hand `result` on.
    pub open spec fn started(node_name: Seq<char>, result: Result<Seq<O>, FailureView>) -> Self {
        let (rest, step) = delivery::delivery_started(node_name, result);
        TaskView::Delivering { rest, step }
    }

    /// What the task sends by its next step.
    pub open spec fn sends(self) -> Sent<O> {
        match self {
            TaskView::Delivering { step: DeliveryStepView::Emit(item), .. } => Sent {
                emitted: seq![item],
                reported: Seq::empty(),
            },
            TaskView::Delivering { step: DeliveryStepView::Report(payload), .. } => Sent {
                emitted: Seq::empty(),
                reported: seq![payload],
            },
            _ => Sent::nothing(),
        }
    }

    /// The task once its step was accepted.
    pub open spec fn advanced(self) -> Self {
        match self {
            TaskView::Delivering { rest, .. } => {
                let (rest, step) = delivery::delivery_advanced(rest, true);
                TaskView::Delivering { rest, step }
            },
            TaskView::Ended => self,
        }
    }

    /// What the task has still to send.
    pub open spec fn left(self) -> Sent<O> {
        match self {
            TaskView::Delivering { rest, .. } => self.sends().followed_by(
                Sent { emitted: rest, reported: Seq::empty() },
            ),
            TaskView::Ended => Sent::nothing(),
        }
    }

    /// The task has nothing left behind its last step, and found no channel closed.
    pub open spec fn valid(self) -> bool {
        match self {
            TaskView::Delivering { rest, step: DeliveryStepView::Done { halt } } => rest.len() == 0
                && !halt,
            _ => true,
        }
    }
}

/// What can happen to a concurrent stage and its tasks while the channels stay open.
pub enum TaskEvent<T, O> {
    /// An item came, for which the node gives `result`, or none will come any more.
    Received {
        /// The item.
        input: Option<T>,
        /// What the node gives for it.
        result: Result<Seq<O>, FailureView>,
    },
    /// What the task with this number sends next was accepted.
    Sends(int),
    /// The task with this number has nothing left to send, and ends.
    Ends(int),
}

/// A concurrent stage with its tasks.
pub struct ConcurrentRun<O> {
    /// The stage.
    pub stage: ConcurrentView<O>,
    /// A task for each item that was received.
    pub tasks: Seq<TaskView<O>>,
    /// What the node gave for each item that was received.
    pub results: Seq<Result<Seq<O>, FailureView>>,
    /// What the tasks have sent, in order.
    pub sent: Sent<O>,
}

impl<O> ConcurrentRun<O> {
    /// A stage that has received nothing.
    pub open spec fn new(stage: ConcurrentView<O>) -> ConcurrentRun<O> {
        ConcurrentRun { stage, tasks: Seq::empty(), results: Seq::empty(), sent: Sent::nothing() }
    }

    /// Whether `event` can happen.
    pub open spec fn possible<T>(self, event: TaskEvent<T, O>) -> bool {
        match event {
            TaskEvent::Received { .. } => self.stage.wants_input(),
            TaskEvent::Sends(task) => {
                &&& 0 <= task < self.tasks.len()
                &&& self.tasks[task] matches TaskView::Delivering { step, .. }
                &&& !(step is Done)
            },
            TaskEvent::Ends(task) => {
                &&& self.stage.waits_for_tasks()
                &&& 0 <= task < self.tasks.len()
                &&& self.tasks[task] matches TaskView::Delivering { step, .. }
                &&& step is Done
            },
        }
    }

    /// The stage and its tasks once `event` happened. A task is started for each item for which
    /// the stage asks for one, and the stage learns how it ended from its delivery.
    pub open spec fn happens<T>(self, event: TaskEvent<T, O>) -> ConcurrentRun<O> {
        match event {
            TaskEvent::Received { input, result } => {
                let (stage, action) = self.stage.received(input, false);
                if action is Spawn {
                    ConcurrentRun {
                        stage,
                        tasks: self.tasks.push(TaskView::started(stage.node_name, result)),
                        results: self.results.push(result),
                        ..self
                    }
                } else {
                    ConcurrentRun { stage, ..self }
                }
            },
            TaskEvent::Sends(task) => ConcurrentRun {
                tasks: self.tasks.update(task, self.tasks[task].advanced()),
                sent: self.sent.followed_by(self.tasks[task].sends()),
                ..self
            },
            TaskEvent::Ends(task) => match self.tasks[task] {
                TaskView::Delivering { step: DeliveryStepView::Done { halt }, .. } => {
                    ConcurrentRun {
                        stage: self.stage.joined::<T>(Joined::Completed { halt }).0,
                        tasks: self.tasks.update(task, TaskView::Ended),
                        ..self
                    }
                },
                _ => self,
            },
        }
    }
}

/// The stage and its tasks once `events` happened in turn; events that cannot happen change
/// nothing.
pub open spec fn task_run<T, O>(
    stage: ConcurrentView<O>,
    events: Seq<TaskEvent<T, O>>,
) -> ConcurrentRun<O>
    decreases events.len(),
{
    if events.len() == 0 {
        ConcurrentRun::new(stage)
    } else {
        let before = task_run(stage, events.drop_last());
        if before.possible(events.last()) {
            before.happens(events.last())
        } else {
            before
        }
    }
}

/// The items that were received while `events` happened in turn.
pub open spec fn task_items<T, O>(
    stage: ConcurrentView<O>,
    events: Seq<TaskEvent<T, O>>,
) -> Seq<T>
    decreases events.len(),
{
    if events.len() == 0 {
        Seq::empty()
    } else {
        let earlier = task_items(stage, events.drop_last());
        let before = task_run(stage, events.drop_last());
        match events.last() {
            TaskEvent::Received { input: Some(item), .. } if before.stage.wants_input() => {
                earlier.push(item)
            },
            _ => earlier,
        }
    }
}

spec fn running<O>(tasks: Seq<TaskView<O>>) -> nat
    decreases tasks.len(),
{
    if tasks.len() == 0 {
        0
    } else {
        running(tasks.drop_last()) + if tasks.last() is Ended {
            0nat
        } else {
            1nat
        }
    }
}

spec fn left_by<O>(tasks: Seq<TaskView<O>>) -> Bag<O>
    decreases tasks.len(),
{
    if tasks.len() == 0 {
        Bag::nothing()
    } else {
        left_by(tasks.drop_last()).plus(tasks.last().left().bag())
    }
}

proof fn lemma_updated_task<O>(tasks: Seq<TaskView<O>>, at: int, task: TaskView<O>)
    requires
        0 <= at < tasks.len(),
    ensures
        left_by(tasks.update(at, task)).plus(tasks[at].left().bag()) == left_by(tasks).plus(
            task.left().bag(),
        ),
        running(tasks.update(at, task)) + (if tasks[at] is Ended {
            0nat
        } else {
            1nat
        }) == running(tasks) + (if task is Ended {
            0nat
        } else {
            1nat
        }),
    decreases tasks.len(),
{
    let earlier = tasks.drop_last();
    let after = tasks.update(at, task);
    if at < earlier.len() {
        lemma_updated_task(earlier, at, task);
        assert(after.drop_last() =~= earlier.update(at, task));
        let last = tasks.last().left().bag();
        let a = left_by(earlier.update(at, task));
        let b = tasks[at].left().bag();
        let c = left_by(earlier);
        let d = task.left().bag();
        assert(a.plus(last).plus(b) =~= a.plus(b).plus(last));
        assert(c.plus(last).plus(d) =~= c.plus(d).plus(last));
    } else {
        assert(after.drop_last() =~= earlier);
        let a = left_by(earlier);
        let b = tasks[at].left().bag();
        let d = task.left().bag();
        assert(a.plus(d).plus(b) =~= a.plus(b).plus(d));
    }
}

proof fn lemma_all_ended<O>(tasks: Seq<TaskView<O>>)
    requires
        running(tasks) == 0,
    ensures
        left_by(tasks) == Bag::<O>::nothing(),
    decreases tasks.len(),
{
    if tasks.len() > 0 {
        lemma_all_ended(tasks.drop_last());
        delivery::nothing_is_empty::<O>();
    }
    assert(left_by(tasks) =~= Bag::<O>::nothing());
}

proof fn lemma_started<O>(node_name: Seq<char>, result: Result<Seq<O>, FailureView>)
    ensures
        TaskView::<O>::started(node_name, result).valid(),
        TaskView::<O>::started(node_name, result).left() == delivery::routed(node_name, result),
{
    let task = TaskView::<O>::started(node_name, result);
    assert(task.left() =~= delivery::routed(node_name, result));
}

proof fn lemma_advanced<O>(task: TaskView<O>)
    requires
        task matches TaskView::Delivering { step, .. } && !(step is Done),
    ensures
        task.advanced().valid(),
        task.left() == task.sends().followed_by(task.advanced().left()),
{
    assert(task.left() =~= task.sends().followed_by(task.advanced().left()));
}

spec fn accounted<O>(run: ConcurrentRun<O>) -> bool {
    &&& run.stage.valid()
    &&& run.stage.phase == ConcurrentPhase::Running || run.stage.phase == ConcurrentPhase::Flushing
    &&& run.tasks.len() == run.results.len()
    &&& run.stage.active == running(run.tasks)
    &&& forall|i: int| 0 <= i < run.tasks.len() ==> (#[trigger] run.tasks[i]).valid()
    &&& run.sent.bag().plus(left_by(run.tasks)) == delivery::all_routed(
        run.stage.node_name,
        run.results,
    ).bag()
}

proof fn lemma_event<T, O>(run: ConcurrentRun<O>, event: TaskEvent<T, O>)
    requires
        accounted(run),
        run.possible(event),
    ensures
        accounted(run.happens(event)),
        run.happens(event).stage.node_name == run.stage.node_name,
{
    let after = run.happens(event);
    let name = run.stage.node_name;
    match event {
        TaskEvent::Received { input, result } => {
            if input is Some {
                let task = TaskView::<O>::started(name, result);
                lemma_started(name, result);
                assert(after.tasks.drop_last() =~= run.tasks);
                assert(after.results.drop_last() =~= run.results);
                delivery::bags_add_up(
                    delivery::all_routed(name, run.results),
                    delivery::routed(name, result),
                );
                assert(run.sent.bag().plus(left_by(run.tasks).plus(task.left().bag()))
                    =~= run.sent.bag().plus(left_by(run.tasks)).plus(task.left().bag()));
            }
        },
        TaskEvent::Sends(at) => {
            let task = run.tasks[at];
            lemma_advanced(task);
            lemma_updated_task(run.tasks, at, task.advanced());
            delivery::bags_add_up(run.sent, task.sends());
            delivery::bags_add_up(task.sends(), task.advanced().left());
            let sent = run.sent.bag();
            let now = task.sends().bag();
            let later = task.advanced().left().bag();
            let before = left_by(run.tasks);
            let left = left_by(after.tasks);
            // left + (now + later) == before + later, so left + now == before.
            assert(left.plus(now.plus(later)) == before.plus(later));
            assert(left.plus(now) =~= before) by {
                assert forall|o: O| left.plus(now).emitted.count(o) == before.emitted.count(o) by {
                    assert(left.plus(now.plus(later)).emitted.count(o) == before.plus(
                        later,
                    ).emitted.count(o));
                }
                assert forall|p: PayloadView|
                    left.plus(now).reported.count(p) == before.reported.count(p) by {
                    assert(left.plus(now.plus(later)).reported.count(p) == before.plus(
                        later,
                    ).reported.count(p));
                }
            }
            assert(sent.plus(now).plus(left) =~= sent.plus(left.plus(now)));
        },
        TaskEvent::Ends(at) => {
            let task = run.tasks[at];
            assert(task.valid());
            lemma_updated_task(run.tasks, at, TaskView::<O>::Ended);
            assert(task.left() =~= Sent::<O>::nothing());
            delivery::nothing_is_empty::<O>();
            assert(left_by(after.tasks).plus(Sent::<O>::nothing().bag()) =~= left_by(after.tasks));
            assert(left_by(run.tasks).plus(Sent::<O>::nothing().bag()) =~= left_by(run.tasks));
        },
    }
}

proof fn lemma_task_run<T, O>(stage: ConcurrentView<O>, events: Seq<TaskEvent<T, O>>)
    requires
        stage.valid(),
        stage.phase == ConcurrentPhase::Running,
        stage.active == 0,
    ensures
        accounted(task_run(stage, events)),
        task_run(stage, events).stage.node_name == stage.node_name,
        task_run(stage, events).tasks.len() == task_items(stage, events).len(),
    decreases events.len(),
{
    if events.len() == 0 {
        let run = ConcurrentRun::new(stage);
        assert(run.sent.bag().plus(left_by(run.tasks)) =~= delivery::all_routed(
            stage.node_name,
            run.results,
        ).bag());
    } else {
        lemma_task_run(stage, events.drop_last());
        let before = task_run(stage, events.drop_last());
        if before.possible(events.last()) {
            lemma_event(before, events.last());
        }
    }
}

/// What the stage sees of `events`: the items that come, and how tasks end.
pub open spec fn stage_events<T, O>(
    stage: ConcurrentView<O>,
    events: Seq<TaskEvent<T, O>>,
) -> Seq<ConcurrentEvent<T>>
    decreases events.len(),
{
    if events.len() == 0 {
        Seq::empty()
    } else {
        let earlier = stage_events(stage, events.drop_last());
        let before = task_run(stage, events.drop_last());
        if before.possible(events.last()) {
            match events.last() {
                TaskEvent::Received { input, .. } => earlier.push(
                    ConcurrentEvent::Received { input, downstream_closed: false },
                ),
                TaskEvent::Sends(_) => earlier,
                TaskEvent::Ends(task) => match before.tasks[task] {
                    TaskView::Delivering { step: DeliveryStepView::Done { halt }, .. } => {
                        earlier.push(ConcurrentEvent::Joined(Joined::Completed { halt }))
                    },
                    _ => earlier,
                },
            }
        } else {
            earlier
        }
    }
}

/// A stage with its tasks behaves as the stage alone does on what it sees of them. The deliveries
/// of the tasks decide how they end, and while the channels stay open none of them stops the
/// stage.
pub proof fn tasks_feed_the_stage<T, O>(stage: ConcurrentView<O>, events: Seq<TaskEvent<T, O>>)
    requires
        stage.valid(),
        stage.phase == ConcurrentPhase::Running,
        stage.active == 0,
    ensures
        task_run(stage, events).stage == concurrent_run(stage, stage_events(stage, events)),
        forall|i: int|
            0 <= i < stage_events(stage, events).len() ==> !(#[trigger] stage_events(
                stage,
                events,
            )[i]).stops(stage.policy),
        received_items(stage, stage_events(stage, events)) == task_items(stage, events),
    decreases events.len(),
{
    if events.len() > 0 {
        let earlier = events.drop_last();
        tasks_feed_the_stage(stage, earlier);
        lemma_task_run(stage, earlier);
        let before = task_run(stage, earlier);
        let seen = stage_events(stage, events);
        if before.possible(events.last()) && !(events.last() is Sends) {
            assert(seen.drop_last() =~= stage_events(stage, earlier));
            if let TaskEvent::Ends(task) = events.last() {
                assert(before.tasks[task].valid());
            }
            assert forall|i: int| 0 <= i < seen.len() implies !(#[trigger] seen[i]).stops(
                stage.policy,
            ) by {
                if i < seen.len() - 1 {
                    assert(seen[i] == stage_events(stage, earlier)[i]);
                }
            }
        }
    }
}

/// Errors are routed, not dropped, also when several items are processed at once: whatever the
/// order in which items come, tasks send and tasks end, once a stage whose channels stay open goes
/// over to its flush, its tasks have sent exactly the outputs of the items that succeeded and one
/// payload for each item that failed, in some order. The flush is then sent as it is, and the
/// stage ends.
pub proof fn a_concurrent_stage_routes_everything<T, O>(
    stage: ConcurrentView<O>,
    events: Seq<TaskEvent<T, O>>,
    flush: Result<Seq<O>, FailureView>,
)
    requires
        stage.valid(),
        stage.phase == ConcurrentPhase::Running,
        stage.active == 0,
        task_run(stage, events).stage.phase == ConcurrentPhase::Flushing,
    ensures
        ({
            let run = task_run(stage, events);
            let (first_stage, first_action) = run.stage.flushed::<T>(flush);
            let (end_stage, end_action, last) = flush_handed_on(
                first_stage,
                first_action,
                pipe::sends_for(stage.node_name, flush),
            );
            &&& run.results.len() == task_items(stage, events).len()
            &&& run.sent.bag() == delivery::all_routed(stage.node_name, run.results).bag()
            &&& last == delivery::routed(stage.node_name, flush)
            &&& end_stage.phase == ConcurrentPhase::Finished
            &&& end_action is Finish
        }),
{
    lemma_task_run(stage, events);
    let run = task_run(stage, events);
    lemma_all_ended(run.tasks);
    assert(run.sent.bag().plus(Bag::<O>::nothing()) =~= run.sent.bag());
    the_concurrent_flush_comes_last::<T, O>(
        run.stage,
        flush,
        pipe::sends_for(stage.node_name, flush),
    );
}

/// A stage can be made for any number of tasks but none, up to a hundred where faults are
/// survived. It starts without tasks, takes items until its limit is reached, and says truly where
/// it stands and what it waits for.
pub proof fn a_new_concurrent_stage_takes_items<O>(
    node_name: String,
    limit: usize,
    policy: FaultPolicy,
    fresh: ConcurrentStage<O>,
    stage: ConcurrentStage<O>,
    phase: ConcurrentPhase,
    wants: bool,
    waits: bool,
)
    requires
        limit > 0,
        policy == FaultPolicy::Continue ==> limit <= 100,
        call_ensures(ConcurrentStage::<O>::new, (node_name, limit, policy), fresh),
        call_ensures(ConcurrentStage::<O>::phase, (&stage,), phase),
        call_ensures(ConcurrentStage::<O>::wants_input, (&stage,), wants),
        call_ensures(ConcurrentStage::<O>::waits_for_tasks, (&stage,), waits),
    ensures
        BUFFER_SIZE == 100,
        call_requires(ConcurrentStage::<O>::new, (node_name, limit, policy)),
        fresh@.node_name == node_name@,
        fresh@.policy == policy,
        fresh@.limit == limit,
        fresh@.active == 0,
        !fresh@.upstream_closed,
        fresh@.phase == ConcurrentPhase::Running,
        fresh@.rest.len() == 0,
        phase == stage@.phase,
        wants <==> stage@.phase == ConcurrentPhase::Running && !stage@.upstream_closed
            && stage@.active < stage@.limit,
        waits <==> stage@.phase == ConcurrentPhase::Running && stage@.active > 0,
{
}

/// Whatever happens, a stage keeps its name, its policy and its limit.
pub open spec fn same_settings<O>(before: ConcurrentView<O>, after: ConcurrentView<O>) -> bool {
    &&& after.node_name == before.node_name
    &&& after.policy == before.policy
    &&& after.limit == before.limit
}

/// Every item that comes while somebody takes the outputs gets a task of its own. When no more
/// come, the stage waits for the tasks that run, and flushes at once when none does. An item whose
/// outputs nobody takes gets no task: where faults are survived and tasks run, they are aborted
/// and waited for, and otherwise they are aborted and the node is flushed.
pub proof fn every_item_gets_a_task<T, O>(
    stage: &mut ConcurrentStage<O>,
    input: Option<T>,
    downstream_closed: bool,
    action: ConcurrentAction<T, O>,
)
    requires
        old(stage)@.phase == ConcurrentPhase::Running,
        !old(stage)@.upstream_closed,
        old(stage)@.active < old(stage)@.limit,
        call_ensures(
            ConcurrentStage::<O>::on_received::<T>,
            (stage, input, downstream_closed),
            action,
        ),
    ensures
        call_requires(ConcurrentStage::<O>::on_received::<T>, (stage, input, downstream_closed)),
        same_settings(old(stage)@, final(stage)@),
        final(stage)@.rest == old(stage)@.rest,
        !downstream_closed ==> (input matches Some(item) ==> {
            &&& action == ConcurrentAction::<T, O>::Spawn(item)
            &&& final(stage)@.active == old(stage)@.active + 1
            &&& !final(stage)@.upstream_closed
            &&& final(stage)@.phase == ConcurrentPhase::Running
        }),
        input is None ==> {
            &&& final(stage)@.upstream_closed
            &&& final(stage)@.active == old(stage)@.active
            &&& old(stage)@.active > 0 ==> action is Wait && final(stage)@.phase
                == ConcurrentPhase::Running
            &&& old(stage)@.active == 0 ==> action is Flush && final(stage)@.phase
                == ConcurrentPhase::Flushing
        },
        input is Some && downstream_closed ==> {
            let waits = old(stage)@.policy == FaultPolicy::Continue && old(stage)@.active > 0;
            &&& waits ==> {
                &&& action is Cancel
                &&& final(stage)@.upstream_closed
                &&& final(stage)@.active == old(stage)@.active
                &&& final(stage)@.phase == ConcurrentPhase::Running
            }
            &&& !waits ==> {
                &&& action matches ConcurrentAction::Abort(payload) && payload is None
                &&& final(stage)@.active == 0
                &&& final(stage)@.phase == ConcurrentPhase::Flushing
            }
        },
{
}

/// A task that ended is no longer counted. One that found its channel closed stops the stage, and
/// one that panicked does so where faults halt, and is reported. Any other is followed by what
/// there is to wait for, and by the flush when there is nothing. A stage that is stopped while it
/// still takes items, and survives faults, waits for the tasks that are left; otherwise it flushes
/// at once.
pub proof fn an_ended_task_is_accounted_for<T, O>(
    stage: &mut ConcurrentStage<O>,
    joined: Joined,
    action: ConcurrentAction<T, O>,
)
    requires
        old(stage)@.phase == ConcurrentPhase::Running,
        0 < old(stage)@.active <= old(stage)@.limit,
        call_ensures(ConcurrentStage::<O>::on_joined::<T>, (stage, joined), action),
    ensures
        call_requires(ConcurrentStage::<O>::on_joined::<T>, (stage, joined)),
        same_settings(old(stage)@, final(stage)@),
        final(stage)@.rest == old(stage)@.rest,
        ({
            let left = old(stage)@.active - 1;
            let stopped = joined == (Joined::Completed { halt: true }) || joined == Joined::Panicked
                && old(stage)@.policy == FaultPolicy::Halt;
            let waits = old(stage)@.policy == FaultPolicy::Continue && !old(stage)@.upstream_closed
                && left > 0;
            &&& !stopped ==> {
                &&& final(stage)@.active == left
                &&& final(stage)@.upstream_closed == old(stage)@.upstream_closed
                &&& old(stage)@.upstream_closed && left == 0 ==> action is Flush && final(
                    stage)@.phase == ConcurrentPhase::Flushing
                &&& !old(stage)@.upstream_closed || left > 0 ==> action is Wait && final(
                    stage)@.phase == ConcurrentPhase::Running
            }
            &&& stopped && waits ==> {
                &&& action is Cancel
                &&& final(stage)@.active == left
                &&& final(stage)@.upstream_closed
                &&& final(stage)@.phase == ConcurrentPhase::Running
            }
            &&& stopped && !waits ==> {
                &&& final(stage)@.active == 0
                &&& final(stage)@.phase == ConcurrentPhase::Flushing
                &&& joined is Completed ==> (action matches ConcurrentAction::Abort(payload)
                    && payload is None)
                &&& joined is Panicked ==> {
                    &&& action matches ConcurrentAction::Abort(Some(payload))
                    &&& payload.node_name@ == old(stage)@.node_name
                    &&& payload.error_message@ == "Task panicked"@
                    &&& payload.raw_data@ == "unknown — lost to panic"@
                }
            }
        }),
{
}

/// The result of the flush is sent from the first output on, all others being kept in order, or
/// reported once; without outputs the stage ends.
pub proof fn a_concurrent_flush_is_sent_or_reported<T, O>(
    stage: &mut ConcurrentStage<O>,
    result: Result<Vec<O>, String>,
    action: ConcurrentAction<T, O>,
)
    requires
        old(stage)@.limit > 0,
        old(stage)@.active == 0,
        old(stage)@.phase == ConcurrentPhase::Flushing,
        call_ensures(ConcurrentStage::<O>::on_flushed::<T>, (stage, result), action),
    ensures
        call_requires(ConcurrentStage::<O>::on_flushed::<T>, (stage, result)),
        same_settings(old(stage)@, final(stage)@),
        final(stage)@.active == 0,
        result matches Ok(items) ==> {
            &&& items@.len() > 0 ==> {
                &&& action == ConcurrentAction::<T, O>::Emit(items@[0])
                &&& items@ == seq![items@[0]] + final(stage)@.rest
                &&& final(stage)@.phase == ConcurrentPhase::Closing
            }
            &&& items@.len() == 0 ==> {
                &&& action is Finish
                &&& final(stage)@.rest.len() == 0
                &&& final(stage)@.phase == ConcurrentPhase::Finished
            }
        },
        result matches Err(message) ==> {
            &&& final(stage)@.rest.len() == 0
            &&& final(stage)@.phase == ConcurrentPhase::Closing
            &&& action matches ConcurrentAction::Report(payload)
            &&& payload.node_name@ == old(stage)@.node_name
            &&& payload.error_message@ == message@
            &&& payload.raw_data@ == "Flush"@
        },
{
    if let Ok(items) = result {
        if items@.len() > 0 {
            assert(items@ =~= seq![items@[0]] + final(stage)@.rest);
        }
    }
}

/// The outputs of the flush follow one another while they are taken; after the last, and after one
/// that is not taken, the stage ends.
pub proof fn the_next_flushed_output_follows<T, O>(
    stage: &mut ConcurrentStage<O>,
    delivered: bool,
    action: ConcurrentAction<T, O>,
)
    requires
        old(stage)@.limit > 0,
        old(stage)@.active == 0,
        old(stage)@.phase == ConcurrentPhase::Closing,
        call_ensures(ConcurrentStage::<O>::on_delivered::<T>, (stage, delivered), action),
    ensures
        call_requires(ConcurrentStage::<O>::on_delivered::<T>, (stage, delivered)),
        same_settings(old(stage)@, final(stage)@),
        final(stage)@.active == 0,
        delivered && old(stage)@.rest.len() > 0 ==> {
            &&& action == ConcurrentAction::<T, O>::Emit(old(stage)@.rest[0])
            &&& old(stage)@.rest == seq![old(stage)@.rest[0]] + final(stage)@.rest
            &&& final(stage)@.phase == ConcurrentPhase::Closing
        },
        !delivered || old(stage)@.rest.len() == 0 ==> {
            &&& action is Finish
            &&& final(stage)@.rest.len() == 0
            &&& final(stage)@.phase == ConcurrentPhase::Finished
        },
{
    if delivered && old(stage)@.rest.len() > 0 {
        assert(old(stage)@.rest =~= seq![old(stage)@.rest[0]] + final(stage)@.rest);
    }
}

} // verus!
