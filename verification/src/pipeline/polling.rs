//! Polls a source and feeds the first channel of a pipeline.

use crate::dlq;
use crate::dlq::ErrorPayload;
use crate::dlq::PayloadView;
use crate::pipeline::FaultPolicy;
use vstd::prelude::*;

verus! {

/// Where the polling of a source stands.
#[derive(Debug, Clone, Copy, PartialEq, Eq, Structural)]
pub enum PollPhase {
    /// It waits for the source, or for a shutdown signal.
    Polling,
    /// It sends an item downstream.
    Emitting,
    /// It sends an error to the dead letter queue.
    Reporting,
    /// It has ended.
    Stopped,
}

/// What the polling of a source does next.
#[derive(Debug)]
pub enum PollAction<T> {
    /// Ask the source for the next item.
    Poll,
    /// Send the item downstream.
    Emit(T),
    /// Send the payload to the dead letter queue.
    Report(ErrorPayload),
    /// Close the source and end.
    Close,
    /// End.
    Stop,
}

/// A [`PollAction`], with the payload as text.
pub enum PollActionView<T> {
    /// Ask the source for the next item.
    Poll,
    /// Send the item downstream.
    Emit(T),
    /// Send the payload to the dead letter queue.
    Report(PayloadView),
    /// Close the source and end.
    Close,
    /// End.
    Stop,
}

impl<T> View for PollAction<T> {
    type V = PollActionView<T>;

    open spec fn view(&self) -> PollActionView<T> {
        match *self {
            PollAction::Poll => PollActionView::Poll,
            PollAction::Emit(item) => PollActionView::Emit(item),
            PollAction::Report(payload) => PollActionView::Report(payload@),
            PollAction::Close => PollActionView::Close,
            PollAction::Stop => PollActionView::Stop,
        }
    }
}

/// The phase, and the action, once the source gave `result`: an item is sent on, an error is
/// reported, and an exhausted source ends the polling.
pub open spec fn polled<T>(source_name: Seq<char>, result: Result<Option<T>, Seq<char>>) -> (
    PollPhase,
    PollActionView<T>,
) {
    match result {
        Ok(Some(item)) => (PollPhase::Emitting, PollActionView::Emit(item)),
        Ok(None) => (PollPhase::Stopped, PollActionView::Stop),
        Err(message) => (
            PollPhase::Reporting,
            PollActionView::Report(dlq::source_failure_view(source_name, message)),
        ),
    }
}

/// The phase, and the action, once what was sent in `phase` was accepted or, when `delivered` is
/// false, its channel was found closed. Polling goes on after an item that was accepted; whether
/// it goes on after an error is up to `policy` alone.
pub open spec fn poll_delivered<T>(phase: PollPhase, policy: FaultPolicy, delivered: bool) -> (
    PollPhase,
    PollActionView<T>,
) {
    let goes_on = if phase == PollPhase::Emitting {
        delivered
    } else {
        policy == FaultPolicy::Continue
    };
    if goes_on {
        (PollPhase::Polling, PollActionView::Poll)
    } else {
        (PollPhase::Stopped, PollActionView::Stop)
    }
}

/// The action once a shutdown was signalled.
pub open spec fn poll_cancelled<T>(policy: FaultPolicy) -> PollActionView<T> {
    if policy == FaultPolicy::Halt {
        PollActionView::Close
    } else {
        PollActionView::Stop
    }
}

/// The outcome of a poll, with the error as text.
pub open spec fn poll_result_view<T>(result: Result<Option<T>, String>) -> Result<
    Option<T>,
    Seq<char>,
> {
    match result {
        Ok(item) => Ok(item),
        Err(message) => Err(message@),
    }
}

/// The polling of a source.
///
/// Its driver performs the action that the latest call gave, beginning with
/// [`PollAction::Poll`], and hands the outcome back.
#[derive(Debug)]
pub struct SourceStage {
    /// The name under which errors of the source are reported.
    pub source_name: String,
    /// What is done about an error of the source.
    pub policy: FaultPolicy,
    /// Where the polling stands.
    pub phase: PollPhase,
}

impl SourceStage {
    /// Nothing has been polled yet.
    pub fn new(source_name: String, policy: FaultPolicy) -> (stage: SourceStage)
        ensures
            stage.source_name@ == source_name@,
            stage.policy == policy,
            stage.phase == PollPhase::Polling,
    {
        SourceStage { source_name, policy, phase: PollPhase::Polling }
    }

    /// A shutdown was signalled: no item is asked for any more, and where faults halt the pipeline,
    /// the source is closed.
    pub fn on_cancelled<T>(&mut self) -> (action: PollAction<T>)
        requires
            old(self).phase == PollPhase::Polling,
        ensures
            action@ == poll_cancelled::<T>(old(self).policy),
            final(self).phase == PollPhase::Stopped,
            final(self).source_name@ == old(self).source_name@,
            final(self).policy == old(self).policy,
    {
        self.phase = PollPhase::Stopped;
        if self.policy == FaultPolicy::Halt {
            PollAction::Close
        } else {
            PollAction::Stop
        }
    }

    /// The source gave `result`.
    pub fn on_polled<T>(&mut self, result: Result<Option<T>, String>) -> (action: PollAction<T>)
        requires
            old(self).phase == PollPhase::Polling,
        ensures
            (final(self).phase, action@) == polled(
                old(self).source_name@,
                poll_result_view(result),
            ),
            final(self).source_name@ == old(self).source_name@,
            final(self).policy == old(self).policy,
    {
        match result {
            Ok(Some(item)) => {
                self.phase = PollPhase::Emitting;
                PollAction::Emit(item)
            },
            Ok(None) => {
                self.phase = PollPhase::Stopped;
                PollAction::Stop
            },
            Err(message) => {
                self.phase = PollPhase::Reporting;
                PollAction::Report(
                    ErrorPayload::source_failure(self.source_name.as_str(), message),
                )
            },
        }
    }

    /// The item or the payload was sent, or, when `delivered` is false, its channel was closed.
    pub fn on_delivered<T>(&mut self, delivered: bool) -> (action: PollAction<T>)
        requires
            old(self).phase == PollPhase::Emitting || old(self).phase == PollPhase::Reporting,
        ensures
            (final(self).phase, action@) == poll_delivered::<T>(
                old(self).phase,
                old(self).policy,
                delivered,
            ),
            final(self).source_name@ == old(self).source_name@,
            final(self).policy == old(self).policy,
    {
        let goes_on = if self.phase == PollPhase::Emitting {
            delivered
        } else {
            self.policy == FaultPolicy::Continue
        };
        if goes_on {
            self.phase = PollPhase::Polling;
            PollAction::Poll
        } else {
            self.phase = PollPhase::Stopped;
            PollAction::Stop
        }
    }
}

/// The phase after the source gave `results` in turn and everything was accepted, what was sent
/// downstream, and what was sent to the dead letter queue. Results that come after the end are
/// not asked for.
pub open spec fn poll_run<T>(
    source_name: Seq<char>,
    policy: FaultPolicy,
    results: Seq<Result<Option<T>, Seq<char>>>,
) -> (PollPhase, Seq<T>, Seq<PayloadView>)
    decreases results.len(),
{
    if results.len() == 0 {
        (PollPhase::Polling, Seq::empty(), Seq::empty())
    } else {
        let (before, items, errors) = poll_run(source_name, policy, results.drop_last());
        if before != PollPhase::Polling {
            (before, items, errors)
        } else {
            let (phase, action) = polled(source_name, results.last());
            match action {
                PollActionView::Emit(item) => (
                    poll_delivered::<T>(phase, policy, true).0,
                    items.push(item),
                    errors,
                ),
                PollActionView::Report(payload) => (
                    poll_delivered::<T>(phase, policy, true).0,
                    items,
                    errors.push(payload),
                ),
                _ => (phase, items, errors),
            }
        }
    }
}

/// The items among `results`.
pub open spec fn items_of<T>(results: Seq<Result<Option<T>, Seq<char>>>) -> Seq<T>
    decreases results.len(),
{
    if results.len() == 0 {
        Seq::empty()
    } else {
        match results.last() {
            Ok(Some(item)) => items_of(results.drop_last()).push(item),
            _ => items_of(results.drop_last()),
        }
    }
}

/// The errors among `results`, as they are reported.
pub open spec fn errors_of<T>(
    source_name: Seq<char>,
    results: Seq<Result<Option<T>, Seq<char>>>,
) -> Seq<PayloadView>
    decreases results.len(),
{
    if results.len() == 0 {
        Seq::empty()
    } else {
        match results.last() {
            Err(message) => errors_of(source_name, results.drop_last()).push(
                dlq::source_failure_view(source_name, message),
            ),
            _ => errors_of(source_name, results.drop_last()),
        }
    }
}

/// Whether `result` ends the polling under `policy`.
pub open spec fn ends_polling<T>(policy: FaultPolicy, result: Result<Option<T>, Seq<char>>) -> bool {
    match result {
        Ok(Some(_)) => false,
        Ok(None) => true,
        Err(_) => policy == FaultPolicy::Halt,
    }
}

/// Nothing that a source gives is dropped: up to and including the result that ends the polling,
/// each item is sent downstream and each error is reported, in the order in which they came.
pub proof fn every_result_is_passed_on<T>(
    source_name: Seq<char>,
    policy: FaultPolicy,
    results: Seq<Result<Option<T>, Seq<char>>>,
)
    requires
        forall|i: int|
            0 <= i < results.len() - 1 ==> !ends_polling(policy, #[trigger] results[i]),
    ensures
        ({
            let (phase, items, errors) = poll_run(source_name, policy, results);
            &&& items == items_of(results)
            &&& errors == errors_of(source_name, results)
            &&& phase == if results.len() > 0 && ends_polling(policy, results.last()) {
                PollPhase::Stopped
            } else {
                PollPhase::Polling
            }
        }),
    decreases results.len(),
{
    if results.len() > 0 {
        let earlier = results.drop_last();
        assert forall|i: int| 0 <= i < earlier.len() - 1 implies !ends_polling(
            policy,
            #[trigger] earlier[i],
        ) by {
            assert(!ends_polling(policy, results[i]));
        }
        every_result_is_passed_on(source_name, policy, earlier);
        if earlier.len() > 0 {
            assert(earlier.last() == results[earlier.len() - 1]);
        }
    }
}

/// A new stage polls under the name and the policy that it was given.
pub proof fn a_new_source_is_polled(source_name: String, policy: FaultPolicy, stage: SourceStage)
    requires
        call_ensures(SourceStage::new, (source_name, policy), stage),
    ensures
        stage.source_name@ == source_name@,
        stage.policy == policy,
        stage.phase == PollPhase::Polling,
{
}

/// What a source gives is sent on unchanged, an error is reported under the name of the source, in
/// its own words and without an item, and the end of the source ends the polling.
pub proof fn a_polled_result_is_passed_on<T>(
    stage: &mut SourceStage,
    result: Result<Option<T>, String>,
    action: PollAction<T>,
)
    requires
        old(stage).phase == PollPhase::Polling,
        call_ensures(SourceStage::on_polled::<T>, (stage, result), action),
    ensures
        call_requires(SourceStage::on_polled::<T>, (stage, result)),
        result matches Ok(Some(item)) ==> action == PollAction::<T>::Emit(item) && final(stage).phase == PollPhase::Emitting,
        result matches Ok(None) ==> action is Stop && final(stage).phase == PollPhase::Stopped,
        result matches Err(message) ==> {
            &&& final(stage).phase == PollPhase::Reporting
            &&& action matches PollAction::Report(payload)
            &&& payload.node_name@ == old(stage).source_name@
            &&& payload.error_message@ == message@
            &&& payload.raw_data@ == ""@
        },
        final(stage).source_name@ == old(stage).source_name@,
        final(stage).policy == old(stage).policy,
{
}

/// The source is polled again after an item that somebody took, and, where faults are survived,
/// after every error; otherwise the polling ends.
pub proof fn polling_goes_on_after_what_was_taken<T>(
    stage: &mut SourceStage,
    delivered: bool,
    action: PollAction<T>,
)
    requires
        old(stage).phase == PollPhase::Emitting || old(stage).phase == PollPhase::Reporting,
        call_ensures(SourceStage::on_delivered::<T>, (stage, delivered), action),
    ensures
        call_requires(SourceStage::on_delivered::<T>, (stage, delivered)),
        old(stage).phase == PollPhase::Emitting ==> (action is Poll <==> delivered),
        old(stage).phase == PollPhase::Reporting ==> (action is Poll <==> old(stage).policy
            == FaultPolicy::Continue),
        action is Poll || action is Stop,
        action is Poll ==> final(stage).phase == PollPhase::Polling,
        action is Stop ==> final(stage).phase == PollPhase::Stopped,
        final(stage).source_name@ == old(stage).source_name@,
        final(stage).policy == old(stage).policy,
{
}

/// A shutdown ends the polling, and closes the source where faults halt the pipeline.
pub proof fn a_shutdown_ends_the_polling<T>(stage: &mut SourceStage, action: PollAction<T>)
    requires
        old(stage).phase == PollPhase::Polling,
        call_ensures(SourceStage::on_cancelled::<T>, (stage,), action),
    ensures
        call_requires(SourceStage::on_cancelled::<T>, (stage,)),
        final(stage).phase == PollPhase::Stopped,
        action is Close <==> old(stage).policy == FaultPolicy::Halt,
        action is Stop <==> old(stage).policy == FaultPolicy::Continue,
        final(stage).source_name@ == old(stage).source_name@,
        final(stage).policy == old(stage).policy,
{
}

} // verus!
