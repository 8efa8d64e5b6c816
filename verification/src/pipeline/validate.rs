//! A stage that drops items which do not pass a check.

use crate::dlq;
use crate::dlq::ErrorPayload;
use crate::dlq::PayloadView;
use vstd::prelude::*;

verus! {

/// Where a validation stage stands.
#[derive(Debug, Clone, Copy, PartialEq, Eq, Structural)]
pub enum CheckPhase {
    /// It waits for an item.
    Receiving,
    /// The validator looks at an item.
    Checking,
    /// A valid item is sent downstream.
    Emitting,
    /// The error of an invalid item is sent to the dead letter queue.
    Reporting,
    /// It has ended.
    Stopped,
}

/// What a validation stage does next.
#[derive(Debug)]
pub enum CheckAction<T> {
    /// Wait for an item.
    Receive,
    /// Let the validator look at the item.
    Check(T),
    /// Send the item downstream.
    Emit(T),
    /// Send the payload to the dead letter queue.
    Report(ErrorPayload),
    /// End.
    Stop,
}

/// A [`CheckAction`], with the payload as text.
pub enum CheckActionView<T> {
    /// Wait for an item.
    Receive,
    /// Let the validator look at the item.
    Check(T),
    /// Send the item downstream.
    Emit(T),
    /// Send the payload to the dead letter queue.
    Report(PayloadView),
    /// End.
    Stop,
}

impl<T> View for CheckAction<T> {
    type V = CheckActionView<T>;

    open spec fn view(&self) -> CheckActionView<T> {
        match *self {
            CheckAction::Receive => CheckActionView::Receive,
            CheckAction::Check(item) => CheckActionView::Check(item),
            CheckAction::Emit(item) => CheckActionView::Emit(item),
            CheckAction::Report(payload) => CheckActionView::Report(payload@),
            CheckAction::Stop => CheckActionView::Stop,
        }
    }
}

/// The text of a [`Rejection`].
pub struct RejectionView {
    /// What the validator reported.
    pub error_message: Seq<char>,
    /// The item that it rejected.
    pub raw_data: Seq<char>,
}

/// Why an item was rejected, as text.
#[derive(Debug)]
pub struct Rejection {
    /// What the validator reported.
    pub error_message: String,
    /// The item that it rejected.
    pub raw_data: String,
}

impl View for Rejection {
    type V = RejectionView;

    open spec fn view(&self) -> RejectionView {
        RejectionView { error_message: self.error_message@, raw_data: self.raw_data@ }
    }
}

/// A verdict, with the rejection as text.
pub open spec fn verdict_view(verdict: Result<(), Rejection>) -> Result<(), RejectionView> {
    match verdict {
        Ok(_) => Ok(()),
        Err(rejection) => Err(rejection@),
    }
}

/// The phase, and the action, once `input` was received. The stage ends when no item comes any
/// more, and when nobody takes its items.
pub open spec fn check_received<T>(input: Option<T>, downstream_closed: bool) -> (
    CheckPhase,
    CheckActionView<T>,
) {
    if input is Some && !downstream_closed {
        (CheckPhase::Checking, CheckActionView::Check(input->Some_0))
    } else {
        (CheckPhase::Stopped, CheckActionView::Stop)
    }
}

/// The phase, and the action, once the validator gave `verdict` on `item`.
pub open spec fn checked<T>(item: T, verdict: Result<(), RejectionView>) -> (
    CheckPhase,
    CheckActionView<T>,
) {
    match verdict {
        Ok(_) => (CheckPhase::Emitting, CheckActionView::Emit(item)),
        Err(rejection) => (
            CheckPhase::Reporting,
            CheckActionView::Report(
                dlq::validation_failure_view(rejection.error_message, rejection.raw_data),
            ),
        ),
    }
}

/// The phase, and the action, once what was sent in `phase` was accepted or, when `delivered` is
/// false, its channel was found closed. Only an item that nobody takes ends the stage: an error
/// that nobody takes is lost, and the stage goes on.
pub open spec fn check_delivered<T>(phase: CheckPhase, delivered: bool) -> (
    CheckPhase,
    CheckActionView<T>,
) {
    if phase == CheckPhase::Emitting && !delivered {
        (CheckPhase::Stopped, CheckActionView::Stop)
    } else {
        (CheckPhase::Receiving, CheckActionView::Receive)
    }
}

/// A stage that sends valid items on and reports the others.
///
/// Its driver performs the action that the latest call gave, beginning with
/// [`CheckAction::Receive`], and hands the outcome back.
#[derive(Debug)]
pub struct ValidationStage {
    /// Where the stage stands.
    pub phase: CheckPhase,
}

impl ValidationStage {
    /// A stage that waits for its first item.
    pub fn new() -> (stage: ValidationStage)
        ensures
            stage.phase == CheckPhase::Receiving,
    {
        ValidationStage { phase: CheckPhase::Receiving }
    }

    /// The stage received an item, or learned that none will come any more; `downstream_closed`
    /// says that nobody takes its items.
    pub fn on_received<T>(&mut self, input: Option<T>, downstream_closed: bool) -> (action:
        CheckAction<T>)
        requires
            old(self).phase == CheckPhase::Receiving,
        ensures
            (final(self).phase, action@) == check_received(input, downstream_closed),
    {
        match input {
            Some(item) => {
                if downstream_closed {
                    self.phase = CheckPhase::Stopped;
                    CheckAction::Stop
                } else {
                    self.phase = CheckPhase::Checking;
                    CheckAction::Check(item)
                }
            },
            None => {
                self.phase = CheckPhase::Stopped;
                CheckAction::Stop
            },
        }
    }

    /// The validator gave `verdict` on `item`.
    pub fn on_checked<T>(&mut self, item: T, verdict: Result<(), Rejection>) -> (action:
        CheckAction<T>)
        requires
            old(self).phase == CheckPhase::Checking,
        ensures
            (final(self).phase, action@) == checked(item, verdict_view(verdict)),
    {
        match verdict {
            Ok(_) => {
                self.phase = CheckPhase::Emitting;
                CheckAction::Emit(item)
            },
            Err(rejection) => {
                self.phase = CheckPhase::Reporting;
                CheckAction::Report(
                    ErrorPayload::validation_failure(rejection.error_message, rejection.raw_data),
                )
            },
        }
    }

    /// The item or the payload was sent, or, when `delivered` is false, its channel was closed.
    pub fn on_delivered<T>(&mut self, delivered: bool) -> (action: CheckAction<T>)
        requires
            old(self).phase == CheckPhase::Emitting || old(self).phase == CheckPhase::Reporting,
        ensures
            (final(self).phase, action@) == check_delivered::<T>(old(self).phase, delivered),
    {
        if self.phase == CheckPhase::Emitting && !delivered {
            self.phase = CheckPhase::Stopped;
            CheckAction::Stop
        } else {
            self.phase = CheckPhase::Receiving;
            CheckAction::Receive
        }
    }
}

/// The phase after `items` came, each with the verdict on it, while everything was accepted, what
/// was sent downstream, and what was sent to the dead letter queue.
pub open spec fn check_run<T>(items: Seq<(T, Result<(), RejectionView>)>) -> (
    CheckPhase,
    Seq<T>,
    Seq<PayloadView>,
)
    decreases items.len(),
{
    if items.len() == 0 {
        (CheckPhase::Receiving, Seq::empty(), Seq::empty())
    } else {
        let (_, passed, errors) = check_run(items.drop_last());
        let (item, verdict) = items.last();
        let (phase, action) = checked(item, verdict);
        let after = check_delivered::<T>(phase, true).0;
        match action {
            CheckActionView::Emit(sent) => (after, passed.push(sent), errors),
            CheckActionView::Report(payload) => (after, passed, errors.push(payload)),
            _ => (after, passed, errors),
        }
    }
}

/// A validator keeps what is valid and reports the rest: the items sent downstream are those that
/// passed, in their order, and there is one payload for each of the others, in their order.
pub proof fn valid_items_pass_and_others_are_reported<T>(
    items: Seq<(T, Result<(), RejectionView>)>,
)
    ensures
        ({
            let (phase, passed, errors) = check_run(items);
            &&& phase == CheckPhase::Receiving
            &&& passed == items.filter(
                |entry: (T, Result<(), RejectionView>)| entry.1 is Ok,
            ).map_values(|entry: (T, Result<(), RejectionView>)| entry.0)
            &&& errors == items.filter(
                |entry: (T, Result<(), RejectionView>)| entry.1 is Err,
            ).map_values(
                |entry: (T, Result<(), RejectionView>)|
                    dlq::validation_failure_view(
                        entry.1->Err_0.error_message,
                        entry.1->Err_0.raw_data,
                    ),
            )
        }),
    decreases items.len(),
{
    let is_ok = |entry: (T, Result<(), RejectionView>)| entry.1 is Ok;
    let is_err = |entry: (T, Result<(), RejectionView>)| entry.1 is Err;
    let item_of = |entry: (T, Result<(), RejectionView>)| entry.0;
    let payload_of = |entry: (T, Result<(), RejectionView>)|
        dlq::validation_failure_view(entry.1->Err_0.error_message, entry.1->Err_0.raw_data);
    let (phase, passed, errors) = check_run(items);
    reveal(Seq::filter);
    if items.len() > 0 {
        valid_items_pass_and_others_are_reported(items.drop_last());
        assert(passed =~= items.filter(is_ok).map_values(item_of));
        assert(errors =~= items.filter(is_err).map_values(payload_of));
    } else {
        assert(passed =~= items.filter(is_ok).map_values(item_of));
        assert(errors =~= items.filter(is_err).map_values(payload_of));
    }
}

/// A new stage waits for an item. It lets the validator look at each item that comes while
/// somebody takes its items, and otherwise stops.
pub proof fn every_item_is_looked_at<T>(
    fresh: ValidationStage,
    stage: &mut ValidationStage,
    input: Option<T>,
    downstream_closed: bool,
    action: CheckAction<T>,
)
    requires
        call_ensures(ValidationStage::new, (), fresh),
        old(stage).phase == CheckPhase::Receiving,
        call_ensures(
            ValidationStage::on_received::<T>,
            (stage, input, downstream_closed),
            action,
        ),
    ensures
        fresh.phase == CheckPhase::Receiving,
        call_requires(ValidationStage::on_received::<T>, (stage, input, downstream_closed)),
        !downstream_closed ==> (input matches Some(item) ==> action == CheckAction::<T>::Check(item)),
        input is None || downstream_closed ==> action is Stop,
        action is Check ==> final(stage).phase == CheckPhase::Checking,
        action is Stop ==> final(stage).phase == CheckPhase::Stopped,
{
}

/// An item that is valid is sent on unchanged, and one that is not is reported, with the words of
/// the validator and the item that it saw. No item is both, and none is neither.
pub proof fn a_checked_item_is_sent_or_reported<T>(
    stage: &mut ValidationStage,
    item: T,
    verdict: Result<(), Rejection>,
    action: CheckAction<T>,
)
    requires
        old(stage).phase == CheckPhase::Checking,
        call_ensures(ValidationStage::on_checked::<T>, (stage, item, verdict), action),
    ensures
        call_requires(ValidationStage::on_checked::<T>, (stage, item, verdict)),
        verdict is Ok ==> action == CheckAction::<T>::Emit(item) && final(stage).phase
            == CheckPhase::Emitting,
        verdict matches Err(rejection) ==> {
            &&& final(stage).phase == CheckPhase::Reporting
            &&& action matches CheckAction::Report(payload)
            &&& payload.node_name@ == "ValidationNode"@
            &&& payload.error_message@ == rejection.error_message@
            &&& payload.raw_data@ == rejection.raw_data@
        },
{
}

/// A stage stops only when nobody takes a valid item; after everything else that it sent, it waits
/// for the next item.
pub proof fn only_an_untaken_item_stops_the_check<T>(
    stage: &mut ValidationStage,
    delivered: bool,
    action: CheckAction<T>,
)
    requires
        old(stage).phase == CheckPhase::Emitting || old(stage).phase == CheckPhase::Reporting,
        call_ensures(ValidationStage::on_delivered::<T>, (stage, delivered), action),
    ensures
        call_requires(ValidationStage::on_delivered::<T>, (stage, delivered)),
        action is Stop <==> old(stage).phase == CheckPhase::Emitting && !delivered,
        action is Receive <==> old(stage).phase == CheckPhase::Reporting || delivered,
        action is Stop ==> final(stage).phase == CheckPhase::Stopped,
        action is Receive ==> final(stage).phase == CheckPhase::Receiving,
{
}

} // verus!
