//! Hands the result of a node on: outputs downstream, a failure to the dead letter queue.

use crate::dlq;
use crate::dlq::ErrorPayload;
use crate::dlq::PayloadView;
use std::collections::VecDeque;
use vstd::multiset::Multiset;
use vstd::prelude::*;

verus! {

/// The text of a [`NodeFailure`].
pub struct FailureView {
    /// What the node reported.
    pub error_message: Seq<char>,
    /// The item that it failed on, `None` when it failed on its flush.
    pub raw_data: Option<Seq<char>>,
}

/// The failure of a node, as text.
#[derive(Debug)]
pub struct NodeFailure {
    /// What the node reported.
    pub error_message: String,
    /// The item that it failed on, `None` when it failed on its flush.
    pub raw_data: Option<String>,
}

impl View for NodeFailure {
    type V = FailureView;

    open spec fn view(&self) -> FailureView {
        FailureView {
            error_message: self.error_message@,
            raw_data: match self.raw_data {
                Some(raw_data) => Some(raw_data@),
                None => None,
            },
        }
    }
}

/// The result of a node as a sequence of outputs, or as the text of its failure.
pub open spec fn result_view<O>(result: Result<Vec<O>, NodeFailure>) -> Result<
    Seq<O>,
    FailureView,
> {
    match result {
        Ok(items) => Ok(items@),
        Err(failure) => Err(failure@),
    }
}

/// What a delivery does next.
#[derive(Debug)]
pub enum DeliveryStep<O> {
    /// Send the output downstream.
    Emit(O),
    /// Send the payload to the dead letter queue.
    Report(ErrorPayload),
    /// Nothing is left to send. `halt` says that a channel was closed.
    Done {
        /// Whether the stage must stop.
        halt: bool,
    },
}

/// A [`DeliveryStep`], with the payload as text.
pub enum DeliveryStepView<O> {
    /// Send the output downstream.
    Emit(O),
    /// Send the payload to the dead letter queue.
    Report(PayloadView),
    /// Nothing is left to send.
    Done {
        /// Whether the stage must stop.
        halt: bool,
    },
}

impl<O> View for DeliveryStep<O> {
    type V = DeliveryStepView<O>;

    open spec fn view(&self) -> DeliveryStepView<O> {
        match *self {
            DeliveryStep::Emit(item) => DeliveryStepView::Emit(item),
            DeliveryStep::Report(payload) => DeliveryStepView::Report(payload@),
            DeliveryStep::Done { halt } => DeliveryStepView::Done { halt },
        }
    }
}

/// The outputs that are left to send, and the first step, of a delivery of `result`.
pub open spec fn delivery_started<O>(
    node_name: Seq<char>,
    result: Result<Seq<O>, FailureView>,
) -> (Seq<O>, DeliveryStepView<O>) {
    match result {
        Ok(items) => delivery_advanced(items, true),
        Err(failure) => (
            Seq::empty(),
            DeliveryStepView::Report(
                dlq::node_failure_view(node_name, failure.error_message, failure.raw_data),
            ),
        ),
    }
}

/// The outputs that are left to send, and the next step, once the latest one was sent or, when
/// `delivered` is false, its channel was found closed.
pub open spec fn delivery_advanced<O>(rest: Seq<O>, delivered: bool) -> (
    Seq<O>,
    DeliveryStepView<O>,
) {
    if !delivered {
        (Seq::empty(), DeliveryStepView::Done { halt: true })
    } else if rest.len() == 0 {
        (Seq::empty(), DeliveryStepView::Done { halt: false })
    } else {
        (rest.drop_first(), DeliveryStepView::Emit(rest[0]))
    }
}

/// The delivery of one result. Its view is the outputs that are left to send.
#[derive(Debug)]
pub struct Delivery<O> {
    rest: VecDeque<O>,
}

impl<O> View for Delivery<O> {
    type V = Seq<O>;

    closed spec fn view(&self) -> Seq<O> {
        self.rest@
    }
}

/// The items of `items`, ready to be taken from the front.
fn queue_of<O>(items: Vec<O>) -> (queue: VecDeque<O>)
    ensures
        queue@ == items@,
{
    let mut items = items;
    let ghost all = items@;
    let mut queue: VecDeque<O> = VecDeque::new();
    assert(queue@ =~= all.skip(items@.len() as int));
    loop
        invariant
            items@.len() <= all.len(),
            items@ == all.take(items@.len() as int),
            queue@ == all.skip(items@.len() as int),
        ensures
            queue@ == all,
        decreases items@.len(),
    {
        match items.pop() {
            Some(item) => {
                queue.push_front(item);
                assert(items@ =~= all.take(items@.len() as int));
                assert(queue@ =~= all.skip(items@.len() as int));
            },
            None => {
                assert(queue@ =~= all);
                break;
            },
        }
    }
    queue
}

impl<O> Delivery<O> {
    /// A delivery with nothing to send.
    pub fn idle() -> (delivery: Delivery<O>)
        ensures
            delivery@ == Seq::<O>::empty(),
    {
        Delivery { rest: VecDeque::new() }
    }

    /// Begins to hand on the `result` of the node `node_name`.
    pub fn start(node_name: &str, result: Result<Vec<O>, NodeFailure>) -> (started: (
        Delivery<O>,
        DeliveryStep<O>,
    ))
        ensures
            (started.0@, started.1@) == delivery_started(node_name@, result_view(result)),
    {
        match result {
            Ok(items) => {
                let mut delivery = Delivery { rest: queue_of(items) };
                let step = delivery.advance(true);
                (delivery, step)
            },
            Err(failure) => {
                let payload = ErrorPayload::node_failure(
                    node_name,
                    failure.error_message,
                    failure.raw_data,
                );
                (Delivery::idle(), DeliveryStep::Report(payload))
            },
        }
    }

    /// The latest output or payload was sent, or, when `delivered` is false, its channel was
    /// closed: then the rest is dropped and the stage must stop.
    pub fn advance(&mut self, delivered: bool) -> (step: DeliveryStep<O>)
        ensures
            (final(self)@, step@) == delivery_advanced(old(self)@, delivered),
    {
        if !delivered {
            self.rest.clear();
            return DeliveryStep::Done { halt: true };
        }
        match self.rest.pop_front() {
            Some(item) => {
                assert(self.rest@ =~= old(self)@.drop_first());
                DeliveryStep::Emit(item)
            },
            None => {
                assert(self.rest@ =~= Seq::<O>::empty());
                DeliveryStep::Done { halt: false }
            },
        }
    }
}

/// What was sent where.
#[verifier::ext_equal]
pub struct Sent<O> {
    /// The outputs that were sent downstream, in order.
    pub emitted: Seq<O>,
    /// The payloads that were sent to the dead letter queue, in order.
    pub reported: Seq<PayloadView>,
}

impl<O> Sent<O> {
    /// Nothing.
    pub open spec fn nothing() -> Sent<O> {
        Sent { emitted: Seq::empty(), reported: Seq::empty() }
    }

    /// First this, then `later`.
    pub open spec fn followed_by(self, later: Sent<O>) -> Sent<O> {
        Sent { emitted: self.emitted + later.emitted, reported: self.reported + later.reported }
    }
}

/// What was sent where, in any order.
#[verifier::ext_equal]
pub struct Bag<O> {
    /// The outputs that were sent downstream.
    pub emitted: Multiset<O>,
    /// The payloads that were sent to the dead letter queue.
    pub reported: Multiset<PayloadView>,
}

impl<O> Bag<O> {
    /// Nothing.
    pub open spec fn nothing() -> Bag<O> {
        Bag { emitted: Multiset::empty(), reported: Multiset::empty() }
    }

    /// This and `other`.
    pub open spec fn plus(self, other: Bag<O>) -> Bag<O> {
        Bag {
            emitted: self.emitted.add(other.emitted),
            reported: self.reported.add(other.reported),
        }
    }
}

impl<O> Sent<O> {
    /// The same without its order.
    pub open spec fn bag(self) -> Bag<O> {
        Bag { emitted: self.emitted.to_multiset(), reported: self.reported.to_multiset() }
    }
}

/// Nothing, without its order, is nothing.
pub proof fn nothing_is_empty<O>()
    ensures
        Sent::<O>::nothing().bag() == Bag::<O>::nothing(),
{
    let sent = Sent::<O>::nothing();
    sent.emitted.to_multiset_ensures();
    sent.reported.to_multiset_ensures();
    assert(sent.bag() =~= Bag::<O>::nothing());
}

/// What is sent first and what is sent later make up what is sent in all.
pub proof fn bags_add_up<O>(first: Sent<O>, later: Sent<O>)
    ensures
        first.followed_by(later).bag() == first.bag().plus(later.bag()),
{
    vstd::seq_lib::lemma_multiset_commutative(first.emitted, later.emitted);
    vstd::seq_lib::lemma_multiset_commutative(first.reported, later.reported);
    assert(first.followed_by(later).bag() =~= first.bag().plus(later.bag()));
}

/// What a delivery sends from `step` on, and whether it ends in a halt, while the first `open`
/// sends are accepted and the one after them finds its channel closed.
pub open spec fn delivery_run<O>(rest: Seq<O>, step: DeliveryStepView<O>, open: nat) -> (
    Sent<O>,
    bool,
)
    decreases rest.len() + (if step is Done { 0nat } else { 1nat }),
{
    match step {
        DeliveryStepView::Done { halt } => (Sent::nothing(), halt),
        _ => {
            let (next_rest, next_step) = delivery_advanced(rest, open > 0);
            let now = if open == 0 {
                Sent::nothing()
            } else {
                match step {
                    DeliveryStepView::Emit(item) => Sent {
                        emitted: seq![item],
                        reported: Seq::empty(),
                    },
                    DeliveryStepView::Report(payload) => Sent {
                        emitted: Seq::empty(),
                        reported: seq![payload],
                    },
                    DeliveryStepView::Done { .. } => Sent::nothing(),
                }
            };
            let (later, halt) = delivery_run(next_rest, next_step, (open - 1) as nat);
            (now.followed_by(later), halt)
        },
    }
}

/// What a result amounts to: all its outputs, or one payload.
pub open spec fn routed<O>(node_name: Seq<char>, result: Result<Seq<O>, FailureView>) -> Sent<O> {
    match result {
        Ok(items) => Sent { emitted: items, reported: Seq::empty() },
        Err(failure) => Sent {
            emitted: Seq::empty(),
            reported: seq![
                dlq::node_failure_view(node_name, failure.error_message, failure.raw_data),
            ],
        },
    }
}

/// What `results` amount to, one after the other.
pub open spec fn all_routed<O>(
    node_name: Seq<char>,
    results: Seq<Result<Seq<O>, FailureView>>,
) -> Sent<O>
    decreases results.len(),
{
    if results.len() == 0 {
        Sent::nothing()
    } else {
        all_routed(node_name, results.drop_last()).followed_by(routed(node_name, results.last()))
    }
}

proof fn lemma_items_run<O>(items: Seq<O>, open: nat)
    ensures
        ({
            let (rest, step) = delivery_advanced(items, true);
            let (sent, halt) = delivery_run(rest, step, open);
            if open >= items.len() {
                sent.emitted == items && sent.reported.len() == 0 && !halt
            } else {
                sent.emitted == items.take(open as int) && sent.reported.len() == 0 && halt
            }
        }),
    decreases items.len(),
{
    let (rest, step) = delivery_advanced(items, true);
    if items.len() > 0 {
        if open > 0 {
            lemma_items_run(items.drop_first(), (open - 1) as nat);
            let (later, halt) = delivery_run(rest, step, open);
            if open >= items.len() {
                assert(later.emitted =~= items);
            } else {
                assert(later.emitted =~= items.take(open as int));
            }
        } else {
            let (next_rest, next_step) = delivery_advanced(rest, false);
            assert(delivery_run(next_rest, next_step, (open - 1) as nat) == (
                Sent::<O>::nothing(),
                true,
            ));
            let (sent, halt) = delivery_run(rest, step, open);
            assert(sent.emitted =~= items.take(0));
        }
    }
}

/// Errors are routed, not dropped: while the channels stay open, a delivery sends exactly what
/// its result amounts to, in order, and does not halt. When a channel is found closed, what was
/// sent is a prefix of that, and the stage halts.
pub proof fn a_result_is_routed<O>(
    node_name: Seq<char>,
    result: Result<Seq<O>, FailureView>,
    open: nat,
)
    ensures
        ({
            let (rest, step) = delivery_started(node_name, result);
            let (sent, halt) = delivery_run(rest, step, open);
            let whole = routed(node_name, result);
            let sends = whole.emitted.len() + whole.reported.len();
            &&& open >= sends ==> sent == whole && !halt
            &&& open < sends ==> halt && sent.emitted.is_prefix_of(whole.emitted)
                && sent.reported.is_prefix_of(whole.reported)
        }),
{
    let (rest, step) = delivery_started(node_name, result);
    match result {
        Ok(items) => {
            lemma_items_run(items, open);
            let (sent, halt) = delivery_run(rest, step, open);
            assert(sent.reported =~= Seq::empty());
            if open < items.len() {
                assert(sent.emitted.is_prefix_of(items));
            }
        },
        Err(failure) => {
            let (next_rest, next_step) = delivery_advanced(rest, open > 0);
            let (sent, halt) = delivery_run(rest, step, open);
            assert(delivery_run(next_rest, next_step, (open - 1) as nat) == (
                Sent::<O>::nothing(),
                open == 0,
            ));
            let whole = routed(node_name, result);
            assert(sent.emitted =~= Seq::<O>::empty());
            if open > 0 {
                assert(sent.reported =~= whole.reported);
            } else {
                assert(sent.reported =~= Seq::<PayloadView>::empty());
            }
        },
    }
}

/// A delivery begins with the first output and keeps all others for later, in their order. Without
/// outputs it is done at once. A failure is one report, which names the node, repeats its words in
/// full and shows the item, or says that there was none but a flush.
pub proof fn a_delivery_begins_with_the_first_output<O>(
    idle: Delivery<O>,
    node_name: &str,
    result: Result<Vec<O>, NodeFailure>,
    started: (Delivery<O>, DeliveryStep<O>),
)
    requires
        call_ensures(Delivery::<O>::idle, (), idle),
        call_ensures(Delivery::<O>::start, (node_name, result), started),
    ensures
        idle@.len() == 0,
        result matches Ok(items) ==> {
            &&& items@.len() > 0 ==> {
                &&& started.1 == DeliveryStep::Emit(items@[0])
                &&& items@ == seq![items@[0]] + started.0@
            }
            &&& items@.len() == 0 ==> {
                &&& started.1 == (DeliveryStep::<O>::Done { halt: false })
                &&& started.0@.len() == 0
            }
        },
        result matches Err(failure) ==> {
            &&& started.0@.len() == 0
            &&& started.1 matches DeliveryStep::Report(payload)
            &&& payload.node_name@ == node_name@
            &&& payload.error_message@ == failure.error_message@
            &&& failure.raw_data matches Some(shown) ==> payload.raw_data@ == shown@
            &&& failure.raw_data is None ==> payload.raw_data@ == "Flush"@
        },
{
    if let Ok(items) = result {
        if items@.len() > 0 {
            assert(items@ =~= seq![items@[0]] + started.0@);
        }
    }
}

/// A delivery goes on with the next output while what it sends is taken, and is then done without
/// a halt. What is not taken ends it with a halt, and the rest is dropped.
pub proof fn a_delivery_goes_on_in_order<O>(
    delivery: &mut Delivery<O>,
    delivered: bool,
    step: DeliveryStep<O>,
)
    requires
        call_ensures(Delivery::<O>::advance, (delivery, delivered), step),
    ensures
        !delivered ==> step == (DeliveryStep::<O>::Done { halt: true }) && final(delivery)@.len() == 0,
        delivered && old(delivery)@.len() == 0 ==> step == (DeliveryStep::<O>::Done { halt: false })
            && final(delivery)@.len() == 0,
        delivered && old(delivery)@.len() > 0 ==> {
            &&& step == DeliveryStep::Emit(old(delivery)@[0])
            &&& old(delivery)@ == seq![old(delivery)@[0]] + final(delivery)@
        },
{
    if delivered && old(delivery)@.len() > 0 {
        assert(old(delivery)@ =~= seq![old(delivery)@[0]] + final(delivery)@);
    }
}

/// All outputs of a success are handed on, each once and in order, while they are taken, and then
/// the delivery is done.
pub proof fn all_outputs_are_handed_on<O>(
    node_name: &str,
    items: Vec<O>,
    started: (Delivery<O>, DeliveryStep<O>),
    deliveries: Seq<&mut Delivery<O>>,
    steps: Seq<DeliveryStep<O>>,
    at: int,
)
    requires
        call_ensures(Delivery::<O>::start, (node_name, Ok(items)), started),
        deliveries.len() == steps.len(),
        deliveries.len() > 0 ==> *deliveries[0] == started.0,
        forall|i: int|
            0 <= i < steps.len() ==> call_ensures(
                Delivery::<O>::advance,
                (deliveries[i], true),
                #[trigger] steps[i],
            ),
        forall|i: int|
            0 < i < deliveries.len() ==> *deliveries[i] == *final(#[trigger] deliveries[i - 1]),
        -1 <= at < steps.len(),
    ensures
        ({
            let step = if at == -1 {
                started.1
            } else {
                steps[at]
            };
            let left = if at == -1 {
                started.0@
            } else {
                final(deliveries[at])@
            };
            &&& at + 1 < items@.len() ==> step == DeliveryStep::Emit(items@[at + 1])
            &&& at + 1 >= items@.len() ==> step == (DeliveryStep::<O>::Done { halt: false })
            &&& left == items@.skip(
                if at + 2 <= items@.len() {
                    at + 2
                } else {
                    items@.len() as int
                },
            )
        }),
    decreases at + 1,
{
    if at == -1 {
        if items@.len() > 0 {
            assert(started.0@ =~= items@.skip(1));
        } else {
            assert(started.0@ =~= items@.skip(items@.len() as int));
        }
    } else {
        all_outputs_are_handed_on(node_name, items, started, deliveries, steps, at - 1);
        assert(call_ensures(Delivery::<O>::advance, (deliveries[at], true), steps[at]));
        let before = deliveries[at]@;
        let after = final(deliveries[at])@;
        if at > 0 {
            assert(*deliveries[at] == *final(deliveries[at - 1]));
        }
        assert(before == items@.skip(
            if at + 1 <= items@.len() {
                at + 1
            } else {
                items@.len() as int
            },
        ));
        if before.len() > 0 {
            assert(after =~= items@.skip(at + 2));
        } else {
            assert(after =~= items@.skip(items@.len() as int));
        }
    }
}

} // verus!
