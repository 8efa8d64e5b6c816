//! A stage that runs a node on one item after the other.

use crate::dlq;
use crate::dlq::ErrorPayload;
use crate::dlq::PayloadView;
use crate::pipeline::delivery;
use crate::pipeline::delivery::Delivery;
use crate::pipeline::delivery::DeliveryStep;
use crate::pipeline::delivery::DeliveryStepView;
use crate::pipeline::delivery::FailureView;
use crate::pipeline::delivery::NodeFailure;
use crate::pipeline::delivery::Sent;
use vstd::prelude::*;

verus! {

/// Where a stage stands.
#[derive(Debug, Clone, Copy, PartialEq, Eq, Structural)]
pub enum PipePhase {
    /// It waits for an item.
    Receiving,
    /// Its node runs.
    Executing,
    /// The result of an item is handed on.
    Delivering,
    /// Its node is flushed.
    Flushing,
    /// The result of the flush is handed on.
    Closing,
    /// It has ended.
    Finished,
}

/// What a stage does next.
#[derive(Debug)]
pub enum PipeAction<T, O> {
    /// Wait for an item.
    Receive,
    /// Run the node on the item.
    Execute(T),
    /// Send the output downstream.
    Emit(O),
    /// Send the payload to the dead letter queue.
    Report(ErrorPayload),
    /// Flush the node.
    Flush,
    /// End.
    Finish,
}

/// A [`PipeAction`], with the payload as text.
pub enum PipeActionView<T, O> {
    /// Wait for an item.
    Receive,
    /// Run the node on the item.
    Execute(T),
    /// Send the output downstream.
    Emit(O),
    /// Send the payload to the dead letter queue.
    Report(PayloadView),
    /// Flush the node.
    Flush,
    /// End.
    Finish,
}

impl<T, O> View for PipeAction<T, O> {
    type V = PipeActionView<T, O>;

    open spec fn view(&self) -> PipeActionView<T, O> {
        match *self {
            PipeAction::Receive => PipeActionView::Receive,
            PipeAction::Execute(input) => PipeActionView::Execute(input),
            PipeAction::Emit(item) => PipeActionView::Emit(item),
            PipeAction::Report(payload) => PipeActionView::Report(payload@),
            PipeAction::Flush => PipeActionView::Flush,
            PipeAction::Finish => PipeActionView::Finish,
        }
    }
}

/// What a stage keeps between calls.
pub struct PipeView<O> {
    /// The name under which failures of the node are reported.
    pub node_name: Seq<char>,
    /// Where the stage stands.
    pub phase: PipePhase,
    /// The outputs of the current result that are left to send.
    pub rest: Seq<O>,
}

impl<O> PipeView<O> {
    /// The stage, and what it does, once the delivery of a result has come to `step` with `rest`
    /// left to send. A result that was handed on is followed by the next item, or by the flush
    /// when a channel was closed; the result of the flush is followed by the end.
    pub open spec fn at_step<T>(self, rest: Seq<O>, step: DeliveryStepView<O>, closing: bool) -> (
        PipeView<O>,
        PipeActionView<T, O>,
    ) {
        let phase = if closing {
            PipePhase::Closing
        } else {
            PipePhase::Delivering
        };
        match step {
            DeliveryStepView::Emit(item) => (
                PipeView { phase, rest, ..self },
                PipeActionView::Emit(item),
            ),
            DeliveryStepView::Report(payload) => (
                PipeView { phase, rest, ..self },
                PipeActionView::Report(payload),
            ),
            DeliveryStepView::Done { halt } => if closing {
                (PipeView { phase: PipePhase::Finished, rest, ..self }, PipeActionView::Finish)
            } else if halt {
                (PipeView { phase: PipePhase::Flushing, rest, ..self }, PipeActionView::Flush)
            } else {
                (PipeView { phase: PipePhase::Receiving, rest, ..self }, PipeActionView::Receive)
            },
        }
    }

    /// The stage, and what it does, once it received `input`. It ends with a flush when no item
    /// comes any more, and when nobody takes its outputs.
    pub open spec fn received<T>(self, input: Option<T>, downstream_closed: bool) -> (
        PipeView<O>,
        PipeActionView<T, O>,
    ) {
        if input is Some && !downstream_closed {
            (
                PipeView { phase: PipePhase::Executing, ..self },
                PipeActionView::Execute(input->Some_0),
            )
        } else {
            (PipeView { phase: PipePhase::Flushing, ..self }, PipeActionView::Flush)
        }
    }

    /// The stage, and what it does, once its node gave `result` for an item.
    pub open spec fn executed<T>(self, result: Result<Seq<O>, FailureView>) -> (
        PipeView<O>,
        PipeActionView<T, O>,
    ) {
        let (rest, step) = delivery::delivery_started(self.node_name, result);
        self.at_step(rest, step, false)
    }

    /// The stage, and what it does, once its node gave `result` for the flush.
    pub open spec fn flushed<T>(self, result: Result<Seq<O>, FailureView>) -> (
        PipeView<O>,
        PipeActionView<T, O>,
    ) {
        let (rest, step) = delivery::delivery_started(self.node_name, result);
        self.at_step(rest, step, true)
    }

    /// The stage, and what it does, once the latest output or payload was sent or, when
    /// `delivered` is false, its channel was found closed.
    pub open spec fn delivered<T>(self, delivered: bool) -> (PipeView<O>, PipeActionView<T, O>) {
        let (rest, step) = delivery::delivery_advanced(self.rest, delivered);
        self.at_step(rest, step, self.phase == PipePhase::Closing)
    }
}

/// The outcome of a flush as a result: a failed flush has no item to show.
pub open spec fn flush_view<O>(result: Result<Vec<O>, String>) -> Result<Seq<O>, FailureView> {
    match result {
        Ok(items) => Ok(items@),
        Err(message) => Err(FailureView { error_message: message@, raw_data: None }),
    }
}

/// A stage that pipes items through a node, one after the other.
///
/// Its driver performs the action that the latest call gave, beginning with
/// [`PipeAction::Receive`], and hands the outcome back: an item with
/// [`PipeStage::on_received`], the result of the node with [`PipeStage::on_executed`], whether
/// something could be sent with [`PipeStage::on_delivered`], and the result of the flush with
/// [`PipeStage::on_flushed`].
#[derive(Debug)]
pub struct PipeStage<O> {
    node_name: String,
    phase: PipePhase,
    delivery: Delivery<O>,
}

impl<O> View for PipeStage<O> {
    type V = PipeView<O>;

    closed spec fn view(&self) -> PipeView<O> {
        PipeView { node_name: self.node_name@, phase: self.phase, rest: self.delivery@ }
    }
}

impl<O> PipeStage<O> {
    /// A stage that waits for its first item.
    pub fn new(node_name: String) -> (stage: PipeStage<O>)
        ensures
            stage@ == (PipeView {
                node_name: node_name@,
                phase: PipePhase::Receiving,
                rest: Seq::<O>::empty(),
            }),
    {
        PipeStage { node_name, phase: PipePhase::Receiving, delivery: Delivery::idle() }
    }

    /// Where the stage stands.
    pub fn phase(&self) -> (phase: PipePhase)
        ensures
            phase == self@.phase,
    {
        self.phase
    }

    fn at_step<T>(&mut self, step: DeliveryStep<O>, closing: bool) -> (action: PipeAction<T, O>)
        ensures
            (final(self)@, action@) == old(self)@.at_step::<T>(old(self)@.rest, step@, closing),
    {
        match step {
            DeliveryStep::Emit(item) => {
                self.phase = if closing {
                    PipePhase::Closing
                } else {
                    PipePhase::Delivering
                };
                PipeAction::Emit(item)
            },
            DeliveryStep::Report(payload) => {
                self.phase = if closing {
                    PipePhase::Closing
                } else {
                    PipePhase::Delivering
                };
                PipeAction::Report(payload)
            },
            DeliveryStep::Done { halt } => {
                if closing {
                    self.phase = PipePhase::Finished;
                    PipeAction::Finish
                } else if halt {
                    self.phase = PipePhase::Flushing;
                    PipeAction::Flush
                } else {
                    self.phase = PipePhase::Receiving;
                    PipeAction::Receive
                }
            },
        }
    }

    /// The stage received an item, or learned that none will come any more; `downstream_closed`
    /// says that nobody takes its outputs.
    pub fn on_received<T>(&mut self, input: Option<T>, downstream_closed: bool) -> (action:
        PipeAction<T, O>)
        requires
            old(self)@.phase == PipePhase::Receiving,
        ensures
            (final(self)@, action@) == old(self)@.received::<T>(input, downstream_closed),
    {
        match input {
            Some(input) => {
                if downstream_closed {
                    self.phase = PipePhase::Flushing;
                    PipeAction::Flush
                } else {
                    self.phase = PipePhase::Executing;
                    PipeAction::Execute(input)
                }
            },
            None => {
                self.phase = PipePhase::Flushing;
                PipeAction::Flush
            },
        }
    }

    /// The node gave `result` for the item.
    pub fn on_executed<T>(&mut self, result: Result<Vec<O>, NodeFailure>) -> (action: PipeAction<
        T,
        O,
    >)
        requires
            old(self)@.phase == PipePhase::Executing,
        ensures
            (final(self)@, action@) == old(self)@.executed::<T>(delivery::result_view(result)),
    {
        let (delivery, step) = Delivery::start(self.node_name.as_str(), result);
        self.delivery = delivery;
        self.at_step(step, false)
    }

    /// The latest output or payload was sent, or, when `delivered` is false, its channel was
    /// closed.
    pub fn on_delivered<T>(&mut self, delivered: bool) -> (action: PipeAction<T, O>)
        requires
            old(self)@.phase == PipePhase::Delivering || old(self)@.phase == PipePhase::Closing,
        ensures
            (final(self)@, action@) == old(self)@.delivered::<T>(delivered),
    {
        let closing = self.phase == PipePhase::Closing;
        let step = self.delivery.advance(delivered);
        self.at_step(step, closing)
    }

    /// The node gave `result` for the flush.
    pub fn on_flushed<T>(&mut self, result: Result<Vec<O>, String>) -> (action: PipeAction<T, O>)
        requires
            old(self)@.phase == PipePhase::Flushing,
        ensures
            (final(self)@, action@) == old(self)@.flushed::<T>(flush_view(result)),
    {
        let result = match result {
            Ok(items) => Ok(items),
            Err(message) => Err(NodeFailure { error_message: message, raw_data: None }),
        };
        let (delivery, step) = Delivery::start(self.node_name.as_str(), result);
        self.delivery = delivery;
        self.at_step(step, true)
    }
}

/// What the stage sends by `action`.
pub open spec fn sent_by<T, O>(action: PipeActionView<T, O>) -> Sent<O> {
    match action {
        PipeActionView::Emit(item) => Sent { emitted: seq![item], reported: Seq::empty() },
        PipeActionView::Report(payload) => Sent {
            emitted: Seq::empty(),
            reported: seq![payload],
        },
        _ => Sent::nothing(),
    }
}

/// Whether the stage waits to learn if something could be sent.
pub open spec fn sending<O>(stage: PipeView<O>) -> bool {
    stage.phase == PipePhase::Delivering || stage.phase == PipePhase::Closing
}

/// The stage, what it does and what it sent, once the current result was handed on from `action`
/// on, while the first `open` sends are accepted and the one after them finds its channel closed.
pub open spec fn handed_on<T, O>(
    stage: PipeView<O>,
    action: PipeActionView<T, O>,
    open: nat,
) -> (PipeView<O>, PipeActionView<T, O>, Sent<O>)
    decreases
            stage.rest.len() + (if sending(stage) {
                1nat
            } else {
                0nat
            }),
{
    if !sending(stage) {
        (stage, action, Sent::nothing())
    } else {
        let now = if open > 0 {
            sent_by(action)
        } else {
            Sent::nothing()
        };
        let (next_stage, next_action) = stage.delivered::<T>(open > 0);
        let (end_stage, end_action, later) = handed_on(
            next_stage,
            next_action,
            (open - 1) as nat,
        );
        (end_stage, end_action, now.followed_by(later))
    }
}

proof fn lemma_handed_on<T, O>(
    stage: PipeView<O>,
    rest: Seq<O>,
    step: DeliveryStepView<O>,
    closing: bool,
    open: nat,
)
    requires
        step is Done ==> rest.len() == 0,
    ensures
        ({
            let (first_stage, first_action) = stage.at_step::<T>(rest, step, closing);
            let (sent, halt) = delivery::delivery_run(rest, step, open);
            let (end_stage, end_action) = stage.at_step::<T>(
                Seq::empty(),
                DeliveryStepView::Done { halt },
                closing,
            );
            handed_on(first_stage, first_action, open) == (end_stage, end_action, sent)
        }),
    decreases
            rest.len() + (if step is Done {
                0nat
            } else {
                1nat
            }),
{
    let (first_stage, first_action) = stage.at_step::<T>(rest, step, closing);
    if step is Done {
        assert(rest =~= Seq::empty());
    } else {
        let (next_rest, next_step) = delivery::delivery_advanced(rest, open > 0);
        lemma_handed_on::<T, O>(stage, next_rest, next_step, closing, (open - 1) as nat);
        assert(first_stage.delivered::<T>(open > 0) == stage.at_step::<T>(
            next_rest,
            next_step,
            closing,
        ));
    }
}

/// The number of sends that a result needs.
pub open spec fn sends_for<O>(node_name: Seq<char>, result: Result<Seq<O>, FailureView>) -> nat {
    let whole = delivery::routed(node_name, result);
    whole.emitted.len() + whole.reported.len()
}

/// An item is handed on whole before the next one is taken: while the channels stay open, the
/// outputs of an item, or its error, are sent in full, and the stage waits for the next item.
/// When a channel is found closed, the stage goes over to its flush.
pub proof fn an_item_is_handed_on<T, O>(
    stage: PipeView<O>,
    result: Result<Seq<O>, FailureView>,
    open: nat,
)
    requires
        stage.phase == PipePhase::Executing,
    ensures
        ({
            let (first_stage, first_action) = stage.executed::<T>(result);
            let (end_stage, end_action, sent) = handed_on(first_stage, first_action, open);
            &&& end_stage.node_name == stage.node_name
            &&& open >= sends_for(stage.node_name, result) ==> {
                &&& end_stage.phase == PipePhase::Receiving
                &&& end_action is Receive
                &&& sent == delivery::routed(stage.node_name, result)
            }
            &&& open < sends_for(stage.node_name, result) ==> {
                &&& end_stage.phase == PipePhase::Flushing
                &&& end_action is Flush
            }
        }),
{
    let (rest, step) = delivery::delivery_started(stage.node_name, result);
    lemma_handed_on::<T, O>(stage, rest, step, false, open);
    delivery::a_result_is_routed(stage.node_name, result, open);
}

/// The flush comes last: whether or not its result can be sent, the stage ends after it, and it
/// sends the result in full when the channels stay open.
pub proof fn the_flush_comes_last<T, O>(
    stage: PipeView<O>,
    result: Result<Seq<O>, FailureView>,
    open: nat,
)
    requires
        stage.phase == PipePhase::Flushing,
    ensures
        ({
            let (first_stage, first_action) = stage.flushed::<T>(result);
            let (end_stage, end_action, sent) = handed_on(first_stage, first_action, open);
            &&& end_stage.phase == PipePhase::Finished
            &&& end_action is Finish
            &&& open >= sends_for(stage.node_name, result) ==> sent == delivery::routed(
                stage.node_name,
                result,
            )
        }),
{
    let (rest, step) = delivery::delivery_started(stage.node_name, result);
    lemma_handed_on::<T, O>(stage, rest, step, true, open);
    delivery::a_result_is_routed(stage.node_name, result, open);
}

/// The stage, and what it sent, once it took `items`, each with the result that the node gave
/// for it, while the channels stayed open.
pub open spec fn pipe_run<T, O>(
    stage: PipeView<O>,
    items: Seq<(T, Result<Seq<O>, FailureView>)>,
) -> (PipeView<O>, Sent<O>)
    decreases items.len(),
{
    if items.len() == 0 {
        (stage, Sent::nothing())
    } else {
        let (before, sent) = pipe_run(stage, items.drop_last());
        let (input, result) = items.last();
        let (running, _) = before.received::<T>(Some(input), false);
        let (first_stage, first_action) = running.executed::<T>(result);
        let (after, _, more) = handed_on(
            first_stage,
            first_action,
            sends_for(stage.node_name, result),
        );
        (after, sent.followed_by(more))
    }
}

/// The outputs of the items that succeeded, in the order of the items.
pub open spec fn successes<T, O>(items: Seq<(T, Result<Seq<O>, FailureView>)>) -> Seq<O>
    decreases items.len(),
{
    if items.len() == 0 {
        Seq::empty()
    } else {
        successes(items.drop_last()) + match items.last().1 {
            Ok(outputs) => outputs,
            Err(_) => Seq::empty(),
        }
    }
}

/// One payload for each item that failed, in the order of the items.
pub open spec fn failures<T, O>(
    node_name: Seq<char>,
    items: Seq<(T, Result<Seq<O>, FailureView>)>,
) -> Seq<PayloadView>
    decreases items.len(),
{
    if items.len() == 0 {
        Seq::empty()
    } else {
        failures(node_name, items.drop_last()) + match items.last().1 {
            Ok(_) => Seq::empty(),
            Err(failure) => seq![
                dlq::node_failure_view(node_name, failure.error_message, failure.raw_data),
            ],
        }
    }
}

/// Errors are routed, not dropped: while the channels stay open, a stage sends downstream exactly
/// the outputs of the items that succeeded, in the order of the items, sends to the dead letter
/// queue exactly one payload for each item that failed, and is ready for the next item.
pub proof fn every_item_is_routed<T, O>(
    stage: PipeView<O>,
    items: Seq<(T, Result<Seq<O>, FailureView>)>,
)
    requires
        stage.phase == PipePhase::Receiving,
    ensures
        ({
            let (after, sent) = pipe_run(stage, items);
            &&& after.phase == PipePhase::Receiving
            &&& after.node_name == stage.node_name
            &&& sent.emitted == successes(items)
            &&& sent.reported == failures(stage.node_name, items)
        }),
    decreases items.len(),
{
    if items.len() > 0 {
        every_item_is_routed(stage, items.drop_last());
        let (before, sent) = pipe_run(stage, items.drop_last());
        let (input, result) = items.last();
        let (running, _) = before.received::<T>(Some(input), false);
        an_item_is_handed_on::<T, O>(running, result, sends_for(stage.node_name, result));
    }
}

/// The stage, and everything that it sent, once it took `items`, each with the result that the
/// node gave for it, learned that no more come, and flushed its node, which gave `flush`, while
/// the channels stayed open.
pub open spec fn whole_run<T, O>(
    stage: PipeView<O>,
    items: Seq<(T, Result<Seq<O>, FailureView>)>,
    flush: Result<Seq<O>, FailureView>,
) -> (PipeView<O>, Sent<O>) {
    let (before, sent) = pipe_run(stage, items);
    let (flushing, _) = before.received::<T>(None, false);
    let (first_stage, first_action) = flushing.flushed::<T>(flush);
    let (after, _, more) = handed_on(
        first_stage,
        first_action,
        sends_for(stage.node_name, flush),
    );
    (after, sent.followed_by(more))
}

/// Over its whole life a stage sends what its items and its flush amount to, in order, and
/// nothing else, and then it ends.
pub proof fn a_stage_routes_everything<T, O>(
    stage: PipeView<O>,
    items: Seq<(T, Result<Seq<O>, FailureView>)>,
    flush: Result<Seq<O>, FailureView>,
)
    requires
        stage.phase == PipePhase::Receiving,
    ensures
        ({
            let (after, sent) = whole_run(stage, items, flush);
            let last = delivery::routed(stage.node_name, flush);
            &&& after.phase == PipePhase::Finished
            &&& sent.emitted == successes(items) + last.emitted
            &&& sent.reported == failures(stage.node_name, items) + last.reported
        }),
{
    every_item_is_routed(stage, items);
    let (before, sent) = pipe_run(stage, items);
    let (flushing, _) = before.received::<T>(None, false);
    the_flush_comes_last::<T, O>(flushing, flush, sends_for(stage.node_name, flush));
}

/// A new stage waits for its first item, with nothing to send, and says truly where it stands.
pub proof fn a_new_stage_waits<O>(
    node_name: String,
    fresh: PipeStage<O>,
    stage: PipeStage<O>,
    phase: PipePhase,
)
    requires
        call_ensures(PipeStage::<O>::new, (node_name,), fresh),
        call_ensures(PipeStage::<O>::phase, (&stage,), phase),
    ensures
        fresh@.node_name == node_name@,
        fresh@.phase == PipePhase::Receiving,
        fresh@.rest.len() == 0,
        phase == stage@.phase,
{
}

/// The node runs on every item that comes while somebody takes the outputs; otherwise, and when no
/// item comes any more, the node is flushed.
pub proof fn every_item_is_executed<T, O>(
    stage: &mut PipeStage<O>,
    input: Option<T>,
    downstream_closed: bool,
    action: PipeAction<T, O>,
)
    requires
        old(stage)@.phase == PipePhase::Receiving,
        call_ensures(
            PipeStage::<O>::on_received::<T>,
            (stage, input, downstream_closed),
            action,
        ),
    ensures
        call_requires(PipeStage::<O>::on_received::<T>, (stage, input, downstream_closed)),
        !downstream_closed ==> (input matches Some(item) ==> action == PipeAction::<
            T,
            O,
        >::Execute(item)),
        input is None || downstream_closed ==> action is Flush,
        action is Execute ==> final(stage)@.phase == PipePhase::Executing,
        action is Flush ==> final(stage)@.phase == PipePhase::Flushing,
        final(stage)@.node_name == old(stage)@.node_name,
        final(stage)@.rest == old(stage)@.rest,
{
}

/// The outputs of an item are sent from the first on, all others being kept in order; an item
/// without outputs is followed by the next item. A failure is reported once, under the name of the
/// node, in its own words and with the item.
pub proof fn a_result_is_sent_or_reported<T, O>(
    stage: &mut PipeStage<O>,
    result: Result<Vec<O>, NodeFailure>,
    action: PipeAction<T, O>,
)
    requires
        old(stage)@.phase == PipePhase::Executing,
        call_ensures(PipeStage::<O>::on_executed::<T>, (stage, result), action),
    ensures
        call_requires(PipeStage::<O>::on_executed::<T>, (stage, result)),
        final(stage)@.node_name == old(stage)@.node_name,
        result matches Ok(items) ==> {
            &&& items@.len() > 0 ==> {
                &&& action == PipeAction::<T, O>::Emit(items@[0])
                &&& items@ == seq![items@[0]] + final(stage)@.rest
                &&& final(stage)@.phase == PipePhase::Delivering
            }
            &&& items@.len() == 0 ==> {
                &&& action is Receive
                &&& final(stage)@.rest.len() == 0
                &&& final(stage)@.phase == PipePhase::Receiving
            }
        },
        result matches Err(failure) ==> {
            &&& final(stage)@.rest.len() == 0
            &&& final(stage)@.phase == PipePhase::Delivering
            &&& action matches PipeAction::Report(payload)
            &&& payload.node_name@ == old(stage)@.node_name
            &&& payload.error_message@ == failure.error_message@
            &&& failure.raw_data matches Some(shown) ==> payload.raw_data@ == shown@
            &&& failure.raw_data is None ==> payload.raw_data@ == "Flush"@
        },
{
    if let Ok(items) = result {
        if items@.len() > 0 {
            assert(items@ =~= seq![items@[0]] + final(stage)@.rest);
        }
    }
}

/// The result of the flush is sent or reported as that of an item is, and is followed by the end.
pub proof fn a_flush_is_sent_or_reported<T, O>(
    stage: &mut PipeStage<O>,
    result: Result<Vec<O>, String>,
    action: PipeAction<T, O>,
)
    requires
        old(stage)@.phase == PipePhase::Flushing,
        call_ensures(PipeStage::<O>::on_flushed::<T>, (stage, result), action),
    ensures
        call_requires(PipeStage::<O>::on_flushed::<T>, (stage, result)),
        final(stage)@.node_name == old(stage)@.node_name,
        result matches Ok(items) ==> {
            &&& items@.len() > 0 ==> {
                &&& action == PipeAction::<T, O>::Emit(items@[0])
                &&& items@ == seq![items@[0]] + final(stage)@.rest
                &&& final(stage)@.phase == PipePhase::Closing
            }
            &&& items@.len() == 0 ==> {
                &&& action is Finish
                &&& final(stage)@.rest.len() == 0
                &&& final(stage)@.phase == PipePhase::Finished
            }
        },
        result matches Err(message) ==> {
            &&& final(stage)@.rest.len() == 0
            &&& final(stage)@.phase == PipePhase::Closing
            &&& action matches PipeAction::Report(payload)
            &&& payload.node_name@ == old(stage)@.node_name
            &&& payload.error_message@ == message@
            &&& payload.raw_data@ == "Flush"@
        },
{
    if let Ok(items) = result {
        if items@.len() > 0 {
            assert(items@ =~= seq![items@[0]] + final(stage)@.rest);
        }
    }
}

/// What was taken is followed by the next output, and after the last by the next item, or by the
/// end when it came from the flush. What was not taken drops the rest, and is followed by the
/// flush, or by the end when it came from the flush.
pub proof fn the_next_output_follows<T, O>(
    stage: &mut PipeStage<O>,
    delivered: bool,
    action: PipeAction<T, O>,
)
    requires
        old(stage)@.phase == PipePhase::Delivering || old(stage)@.phase == PipePhase::Closing,
        call_ensures(PipeStage::<O>::on_delivered::<T>, (stage, delivered), action),
    ensures
        call_requires(PipeStage::<O>::on_delivered::<T>, (stage, delivered)),
        final(stage)@.node_name == old(stage)@.node_name,
        delivered && old(stage)@.rest.len() > 0 ==> {
            &&& action == PipeAction::<T, O>::Emit(old(stage)@.rest[0])
            &&& old(stage)@.rest == seq![old(stage)@.rest[0]] + final(stage)@.rest
            &&& final(stage)@.phase == old(stage)@.phase
        },
        !delivered || old(stage)@.rest.len() == 0 ==> {
            &&& final(stage)@.rest.len() == 0
            &&& old(stage)@.phase == PipePhase::Closing ==> action is Finish && final(stage)@.phase
                == PipePhase::Finished
            &&& old(stage)@.phase == PipePhase::Delivering && delivered ==> action is Receive
                && final(stage)@.phase == PipePhase::Receiving
            &&& old(stage)@.phase == PipePhase::Delivering && !delivered ==> action is Flush
                && final(stage)@.phase == PipePhase::Flushing
        },
{
    if delivered && old(stage)@.rest.len() > 0 {
        assert(old(stage)@.rest =~= seq![old(stage)@.rest[0]] + final(stage)@.rest);
    }
}

} // verus!
