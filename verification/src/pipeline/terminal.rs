//! The end of a pipeline: what arrived, and how many errors there were.

use crate::dlq;
use crate::dlq::DlqActionView;
use crate::dlq::PayloadView;
use crate::dlq::WorkerView;
use crate::pipeline::concurrent;
use crate::pipeline::concurrent::ConcurrentPhase;
use crate::pipeline::concurrent::ConcurrentView;
use crate::pipeline::concurrent::TaskEvent;
use crate::pipeline::delivery;
use crate::pipeline::delivery::FailureView;
use crate::pipeline::pipe;
use crate::pipeline::pipe::PipePhase;
use crate::pipeline::pipe::PipeView;
use crate::pipeline::polling;
use crate::pipeline::validate;
use crate::pipeline::validate::RejectionView;
use crate::pipeline::FaultPolicy;
use vstd::multiset::Multiset;
use vstd::prelude::*;

verus! {

/// For how many seconds the end of a pipeline waits for the dead letter queue worker.
pub const GRACE_PERIOD_SECS: u64 = 10;

/// How a run of a pipeline ended.
#[derive(Debug, Clone, Copy, PartialEq, Eq, Structural)]
pub struct ExecutionSummary {
    /// The number of items that made it to the end of the pipeline.
    pub successful_items: usize,
    /// The number of errors that the dead letter queue worker received.
    pub error_count: usize,
}

/// How the wait for the dead letter queue worker ended.
#[derive(Debug, Clone, Copy, PartialEq, Eq, Structural)]
pub enum DlqShutdown {
    /// The worker ended, and received this many errors.
    Joined(usize),
    /// The worker panicked.
    Panicked,
    /// The worker did not end within the grace period.
    TimedOut,
    /// There was no worker to wait for.
    Absent,
}

impl DlqShutdown {
    /// The number of errors as far as it is known: that of a worker that ended, else zero.
    pub open spec fn known_errors(self) -> usize {
        match self {
            DlqShutdown::Joined(errors) => errors,
            _ => 0,
        }
    }

    /// The number of errors as far as it is known.
    pub fn error_count(&self) -> (errors: usize)
        ensures
            errors == self.known_errors(),
    {
        match self {
            DlqShutdown::Joined(errors) => *errors,
            DlqShutdown::Panicked | DlqShutdown::TimedOut | DlqShutdown::Absent => 0,
        }
    }
}

/// Counts the items that arrive at the end of a pipeline.
#[derive(Debug, Clone, Copy)]
pub struct Tally {
    /// How many items arrived.
    pub successful_items: usize,
}

impl Tally {
    /// Nothing has arrived.
    pub fn new() -> (tally: Tally)
        ensures
            tally.successful_items == 0,
    {
        Tally { successful_items: 0 }
    }

    /// An item arrived.
    pub fn record(&mut self)
        requires
            old(self).successful_items < usize::MAX,
        ensures
            final(self).successful_items == old(self).successful_items + 1,
    {
        self.successful_items = self.successful_items + 1;
    }

    /// The summary of the run, once the dead letter queue was shut down.
    pub fn finish(&self, shutdown: DlqShutdown) -> (summary: ExecutionSummary)
        ensures
            summary.successful_items == self.successful_items,
            summary.error_count == shutdown.known_errors(),
    {
        ExecutionSummary {
            successful_items: self.successful_items,
            error_count: shutdown.error_count(),
        }
    }
}

/// The items that arrived at the end of a pipeline, and the summary of the run, once the dead
/// letter queue was shut down.
pub fn collected<T>(results: Vec<T>, shutdown: DlqShutdown) -> (outcome: (Vec<T>, ExecutionSummary))
    ensures
        outcome.0 == results,
        outcome.1.successful_items == results@.len(),
        outcome.1.error_count == shutdown.known_errors(),
{
    let successful_items: usize = results.len();
    (results, ExecutionSummary { successful_items, error_count: shutdown.error_count() })
}

/// How many elements satisfy `property`.
pub open spec fn count_of<A>(elements: Seq<A>, property: spec_fn(A) -> bool) -> nat
    decreases elements.len(),
{
    if elements.len() == 0 {
        0
    } else {
        count_of(elements.drop_last(), property) + if property(elements.last()) {
            1nat
        } else {
            0nat
        }
    }
}

proof fn lemma_count_is_zero<A>(elements: Seq<A>, property: spec_fn(A) -> bool)
    ensures
        count_of(elements, property) == 0 <==> forall|i: int|
            0 <= i < elements.len() ==> !property(#[trigger] elements[i]),
    decreases elements.len(),
{
    if elements.len() > 0 {
        let earlier = elements.drop_last();
        lemma_count_is_zero(earlier, property);
        if count_of(elements, property) == 0 {
            assert forall|i: int| 0 <= i < elements.len() implies !property(
                #[trigger] elements[i],
            ) by {
                if i < earlier.len() {
                    assert(!property(earlier[i]));
                }
            }
        }
        if forall|i: int| 0 <= i < elements.len() ==> !property(#[trigger] elements[i]) {
            assert forall|i: int| 0 <= i < earlier.len() implies !property(
                #[trigger] earlier[i],
            ) by {
                assert(!property(elements[i]));
            }
            assert(!property(elements[elements.len() - 1]));
        }
    }
}

proof fn lemma_source_errors<T>(
    source_name: Seq<char>,
    polls: Seq<Result<Option<T>, Seq<char>>>,
)
    ensures
        polling::errors_of(source_name, polls).len() == count_of(
            polls,
            |poll: Result<Option<T>, Seq<char>>| poll is Err,
        ),
    decreases polls.len(),
{
    if polls.len() > 0 {
        lemma_source_errors(source_name, polls.drop_last());
    }
}

/// The sum of `number` over the elements.
pub open spec fn sum_of<A>(elements: Seq<A>, number: spec_fn(A) -> nat) -> nat
    decreases elements.len(),
{
    if elements.len() == 0 {
        0
    } else {
        sum_of(elements.drop_last(), number) + number(elements.last())
    }
}

/// What one stage of a pipeline did in a run, whatever the types of its items: how many items it
/// took, how many it sent on, and which errors it reported.
pub enum StageRecord {
    /// A validation step.
    Validation {
        /// The verdict on each item.
        verdicts: Seq<Result<(), RejectionView>>,
    },
    /// A node, sequential or concurrent.
    Node {
        /// The name of the node.
        node_name: Seq<char>,
        /// How many outputs the node gave for each item, or how it failed.
        results: Seq<Result<nat, FailureView>>,
        /// How many outputs the node gave for its flush, or how it failed.
        flush: Result<nat, FailureView>,
    },
}

/// How many outputs a result has.
pub open spec fn size<O>(result: Result<Seq<O>, FailureView>) -> Result<nat, FailureView> {
    match result {
        Ok(outputs) => Ok(outputs.len()),
        Err(failure) => Err(failure),
    }
}

/// How many outputs each result has.
pub open spec fn sizes<O>(results: Seq<Result<Seq<O>, FailureView>>) -> Seq<
    Result<nat, FailureView>,
> {
    results.map_values(|result: Result<Seq<O>, FailureView>| size(result))
}

/// How many outputs a result stands for.
pub open spec fn outputs(result: Result<nat, FailureView>) -> nat {
    match result {
        Ok(count) => count,
        Err(_) => 0,
    }
}

/// The payloads of the items that are not valid, in the order of the items.
pub open spec fn rejections(verdicts: Seq<Result<(), RejectionView>>) -> Seq<PayloadView>
    decreases verdicts.len(),
{
    if verdicts.len() == 0 {
        Seq::empty()
    } else {
        match verdicts.last() {
            Ok(_) => rejections(verdicts.drop_last()),
            Err(rejection) => rejections(verdicts.drop_last()).push(
                dlq::validation_failure_view(rejection.error_message, rejection.raw_data),
            ),
        }
    }
}

/// The payloads of the results that are failures, in the order of the results.
pub open spec fn node_failures(
    node_name: Seq<char>,
    results: Seq<Result<nat, FailureView>>,
) -> Seq<PayloadView>
    decreases results.len(),
{
    if results.len() == 0 {
        Seq::empty()
    } else {
        match results.last() {
            Ok(_) => node_failures(node_name, results.drop_last()),
            Err(failure) => node_failures(node_name, results.drop_last()).push(
                dlq::node_failure_view(node_name, failure.error_message, failure.raw_data),
            ),
        }
    }
}

impl StageRecord {
    /// How many items the stage took.
    pub open spec fn taken(self) -> nat {
        match self {
            StageRecord::Validation { verdicts } => verdicts.len(),
            StageRecord::Node { results, .. } => results.len(),
        }
    }

    /// How many items the stage sent on.
    pub open spec fn sent(self) -> nat {
        match self {
            StageRecord::Validation { verdicts } => count_of(
                verdicts,
                |verdict: Result<(), RejectionView>| verdict is Ok,
            ),
            StageRecord::Node { results, flush, .. } => sum_of(
                results,
                |result: Result<nat, FailureView>| outputs(result),
            ) + outputs(flush),
        }
    }

    /// The errors that the stage reported.
    pub open spec fn errors(self) -> Seq<PayloadView> {
        match self {
            StageRecord::Validation { verdicts } => rejections(verdicts),
            StageRecord::Node { node_name, results, flush } => node_failures(
                node_name,
                results.push(flush),
            ),
        }
    }

    /// How many items were not valid.
    pub open spec fn rejected(self) -> nat {
        match self {
            StageRecord::Validation { verdicts } => count_of(
                verdicts,
                |verdict: Result<(), RejectionView>| verdict is Err,
            ),
            StageRecord::Node { .. } => 0,
        }
    }

    /// How many items failed.
    pub open spec fn failed(self) -> nat {
        match self {
            StageRecord::Validation { .. } => 0,
            StageRecord::Node { results, .. } => count_of(
                results,
                |result: Result<nat, FailureView>| result is Err,
            ),
        }
    }

    /// How many flushes failed.
    pub open spec fn failed_flushes(self) -> nat {
        match self {
            StageRecord::Node { flush: Err(_), .. } => 1,
            _ => 0,
        }
    }

    /// Every item was valid, or every item and the flush succeeded.
    pub open spec fn clean(self) -> bool {
        match self {
            StageRecord::Validation { verdicts } => forall|i: int|
                0 <= i < verdicts.len() ==> (#[trigger] verdicts[i]) is Ok,
            StageRecord::Node { results, flush, .. } => {
                &&& forall|i: int| 0 <= i < results.len() ==> (#[trigger] results[i]) is Ok
                &&& flush is Ok
            },
        }
    }
}

/// What a validation step sends and reports, while its channels stay open, is what its record
/// says.
pub proof fn a_validation_is_recorded<T>(items: Seq<(T, Result<(), RejectionView>)>)
    ensures
        ({
            let record = StageRecord::Validation {
                verdicts: items.map_values(|entry: (T, Result<(), RejectionView>)| entry.1),
            };
            let (_, passed, errors) = validate::check_run(items);
            &&& record.taken() == items.len()
            &&& record.sent() == passed.len()
            &&& record.errors() == errors
        }),
    decreases items.len(),
{
    let verdicts = items.map_values(|entry: (T, Result<(), RejectionView>)| entry.1);
    if items.len() > 0 {
        a_validation_is_recorded(items.drop_last());
        assert(verdicts.drop_last() =~= items.drop_last().map_values(
            |entry: (T, Result<(), RejectionView>)| entry.1,
        ));
    }
}

/// The record of a node that gave `results` for its items and `flush` for its flush.
pub open spec fn node_record<O>(
    node_name: Seq<char>,
    results: Seq<Result<Seq<O>, FailureView>>,
    flush: Result<Seq<O>, FailureView>,
) -> StageRecord {
    StageRecord::Node { node_name, results: sizes(results), flush: size(flush) }
}

proof fn lemma_all_routed<O>(node_name: Seq<char>, results: Seq<Result<Seq<O>, FailureView>>)
    ensures
        delivery::all_routed(node_name, results).emitted.len() == sum_of(
            sizes(results),
            |result: Result<nat, FailureView>| outputs(result),
        ),
        delivery::all_routed(node_name, results).reported == node_failures(
            node_name,
            sizes(results),
        ),
    decreases results.len(),
{
    if results.len() > 0 {
        lemma_all_routed(node_name, results.drop_last());
        assert(sizes(results).drop_last() =~= sizes(results.drop_last()));
        assert(delivery::all_routed(node_name, results).reported =~= node_failures(
            node_name,
            sizes(results),
        ));
    }
}

proof fn lemma_node_record<O>(
    node_name: Seq<char>,
    results: Seq<Result<Seq<O>, FailureView>>,
    flush: Result<Seq<O>, FailureView>,
)
    ensures
        ({
            let record = node_record(node_name, results, flush);
            let sent = delivery::all_routed(node_name, results).followed_by(
                delivery::routed(node_name, flush),
            );
            &&& record.taken() == results.len()
            &&& record.sent() == sent.emitted.len()
            &&& record.errors() == sent.reported
        }),
{
    let all = results.push(flush);
    lemma_all_routed(node_name, results);
    lemma_all_routed(node_name, all);
    assert(all.drop_last() =~= results);
    assert(sizes(all) =~= sizes(results).push(size(flush)));
}

proof fn lemma_items_routed<T, O>(
    node_name: Seq<char>,
    items: Seq<(T, Result<Seq<O>, FailureView>)>,
)
    ensures
        ({
            let results = items.map_values(|entry: (T, Result<Seq<O>, FailureView>)| entry.1);
            let sent = delivery::all_routed(node_name, results);
            &&& sent.emitted == pipe::successes(items)
            &&& sent.reported == pipe::failures(node_name, items)
        }),
    decreases items.len(),
{
    let results = items.map_values(|entry: (T, Result<Seq<O>, FailureView>)| entry.1);
    if items.len() > 0 {
        lemma_items_routed(node_name, items.drop_last());
        assert(results.drop_last() =~= items.drop_last().map_values(
            |entry: (T, Result<Seq<O>, FailureView>)| entry.1,
        ));
    }
}

/// What a sequential stage sends and reports over its whole life, while its channels stay open, is
/// what its record says.
pub proof fn a_sequential_stage_is_recorded<T, O>(
    stage: PipeView<O>,
    items: Seq<(T, Result<Seq<O>, FailureView>)>,
    flush: Result<Seq<O>, FailureView>,
)
    requires
        stage.phase == PipePhase::Receiving,
    ensures
        ({
            let record = node_record(
                stage.node_name,
                items.map_values(|entry: (T, Result<Seq<O>, FailureView>)| entry.1),
                flush,
            );
            let (_, sent) = pipe::whole_run(stage, items, flush);
            &&& record.taken() == items.len()
            &&& record.sent() == sent.emitted.len()
            &&& record.errors() == sent.reported
        }),
{
    let results = items.map_values(|entry: (T, Result<Seq<O>, FailureView>)| entry.1);
    pipe::a_stage_routes_everything(stage, items, flush);
    lemma_items_routed(stage.node_name, items);
    lemma_node_record(stage.node_name, results, flush);
}

/// What a concurrent stage and its tasks send and report over their whole life, while the channels
/// stay open, is what the record says, in some order.
pub proof fn a_concurrent_stage_is_recorded<T, O>(
    stage: ConcurrentView<O>,
    events: Seq<TaskEvent<T, O>>,
    flush: Result<Seq<O>, FailureView>,
)
    requires
        stage.valid(),
        stage.phase == ConcurrentPhase::Running,
        stage.active == 0,
        concurrent::task_run(stage, events).stage.phase == ConcurrentPhase::Flushing,
    ensures
        ({
            let run = concurrent::task_run(stage, events);
            let record = node_record(stage.node_name, run.results, flush);
            let (first_stage, first_action) = run.stage.flushed::<T>(flush);
            let (_, _, last) = concurrent::flush_handed_on(
                first_stage,
                first_action,
                pipe::sends_for(stage.node_name, flush),
            );
            let sent = run.sent.followed_by(last);
            &&& record.taken() == concurrent::task_items(stage, events).len()
            &&& record.sent() == sent.emitted.len()
            &&& record.errors().to_multiset() == sent.reported.to_multiset()
        }),
{
    concurrent::a_concurrent_stage_routes_everything(stage, events, flush);
    let run = concurrent::task_run(stage, events);
    let last = delivery::routed(stage.node_name, flush);
    let all = delivery::all_routed(stage.node_name, run.results);
    lemma_node_record(stage.node_name, run.results, flush);
    delivery::bags_add_up(run.sent, last);
    delivery::bags_add_up(all, last);
    run.sent.followed_by(last).emitted.to_multiset_ensures();
    all.followed_by(last).emitted.to_multiset_ensures();
}

/// A run of a pipeline with any stages, while its channels stay open.
pub struct PipelineRun<T> {
    /// The name of the source.
    pub source_name: Seq<char>,
    /// What is done about faults.
    pub policy: FaultPolicy,
    /// What the source gave, until the polling ended.
    pub polls: Seq<Result<Option<T>, Seq<char>>>,
    /// What each stage did, from the first to the last.
    pub stages: Seq<StageRecord>,
}

/// The errors of all stages, in any order.
pub open spec fn stage_errors(stages: Seq<StageRecord>) -> Multiset<PayloadView>
    decreases stages.len(),
{
    if stages.len() == 0 {
        Multiset::empty()
    } else {
        stage_errors(stages.drop_last()).add(stages.last().errors().to_multiset())
    }
}

impl<T> PipelineRun<T> {
    /// The polling went on until the last result, and each stage took what the one before it, or
    /// the source, sent.
    pub open spec fn valid(self) -> bool {
        &&& forall|i: int|
            0 <= i < self.polls.len() - 1 ==> !polling::ends_polling(
                self.policy,
                #[trigger] self.polls[i],
            )
        &&& self.stages.len() > 0 ==> self.stages[0].taken() == polling::poll_run(
            self.source_name,
            self.policy,
            self.polls,
        ).1.len()
        &&& forall|i: int|
            0 < i < self.stages.len() ==> (#[trigger] self.stages[i]).taken() == self.stages[i
                - 1].sent()
    }

    /// How many items arrive at the end of the pipeline: those that the last stage sent, or,
    /// without a stage, the source.
    pub open spec fn arrived(self) -> nat {
        if self.stages.len() > 0 {
            self.stages.last().sent()
        } else {
            polling::poll_run(self.source_name, self.policy, self.polls).1.len()
        }
    }

    /// The errors that the dead letter queue worker receives from the source and the stages, in
    /// any order.
    pub open spec fn errors(self) -> Multiset<PayloadView> {
        polling::poll_run(self.source_name, self.policy, self.polls).2.to_multiset().add(
            stage_errors(self.stages),
        )
    }

    /// How many polls failed.
    pub open spec fn source_errors(self) -> nat {
        count_of(self.polls, |poll: Result<Option<T>, Seq<char>>| poll is Err)
    }

    /// Nothing failed anywhere.
    pub open spec fn clean(self) -> bool {
        &&& forall|i: int| 0 <= i < self.polls.len() ==> (#[trigger] self.polls[i]) is Ok
        &&& forall|i: int| 0 <= i < self.stages.len() ==> (#[trigger] self.stages[i]).clean()
    }
}

proof fn lemma_rejections(verdicts: Seq<Result<(), RejectionView>>)
    ensures
        rejections(verdicts).len() == count_of(
            verdicts,
            |verdict: Result<(), RejectionView>| verdict is Err,
        ),
    decreases verdicts.len(),
{
    if verdicts.len() > 0 {
        lemma_rejections(verdicts.drop_last());
    }
}

proof fn lemma_node_failures(node_name: Seq<char>, results: Seq<Result<nat, FailureView>>)
    ensures
        node_failures(node_name, results).len() == count_of(
            results,
            |result: Result<nat, FailureView>| result is Err,
        ),
    decreases results.len(),
{
    if results.len() > 0 {
        lemma_node_failures(node_name, results.drop_last());
    }
}

proof fn lemma_stage(stage: StageRecord)
    ensures
        stage.errors().len() == stage.rejected() + stage.failed() + stage.failed_flushes(),
        stage.clean() <==> stage.errors().len() == 0,
{
    match stage {
        StageRecord::Validation { verdicts } => {
            lemma_rejections(verdicts);
            lemma_count_is_zero(verdicts, |verdict: Result<(), RejectionView>| verdict is Err);
        },
        StageRecord::Node { node_name, results, flush } => {
            lemma_node_failures(node_name, results.push(flush));
            assert(results.push(flush).drop_last() =~= results);
            lemma_count_is_zero(results, |result: Result<nat, FailureView>| result is Err);
        },
    }
}

proof fn lemma_stages(stages: Seq<StageRecord>)
    ensures
        stage_errors(stages).len() == sum_of(stages, |stage: StageRecord| stage.rejected())
            + sum_of(stages, |stage: StageRecord| stage.failed()) + sum_of(
            stages,
            |stage: StageRecord| stage.failed_flushes(),
        ),
        stage_errors(stages).len() == 0 <==> forall|i: int|
            0 <= i < stages.len() ==> (#[trigger] stages[i]).clean(),
    decreases stages.len(),
{
    if stages.len() > 0 {
        let earlier = stages.drop_last();
        lemma_stages(earlier);
        lemma_stage(stages.last());
        stages.last().errors().to_multiset_ensures();
        if forall|i: int| 0 <= i < stages.len() ==> (#[trigger] stages[i]).clean() {
            assert forall|i: int| 0 <= i < earlier.len() implies (
            #[trigger] earlier[i]).clean() by {
                assert(stages[i].clean());
            }
            assert(stages[stages.len() - 1].clean());
        }
        if stage_errors(stages).len() == 0 {
            assert forall|i: int| 0 <= i < stages.len() implies (#[trigger] stages[i]).clean() by {
                if i < earlier.len() {
                    assert(earlier[i].clean());
                }
            }
        }
    }
}

/// The summary is exact, whatever the stages of the pipeline: the dead letter queue worker
/// receives the errors of the source and of all stages, in some order, writes each of them, and
/// ends with their number. The error count of the summary is then the number of errors of the
/// source, of items that are not valid, of items that failed and of flushes that failed, over all
/// stages. So it is zero exactly when nothing failed anywhere. The item count is the number of
/// items that the last stage sent.
pub proof fn the_summary_is_exact<T>(
    run: PipelineRun<T>,
    received: Seq<PayloadView>,
    writes: Seq<bool>,
    tally: Tally,
    shutdown: DlqShutdown,
    summary: ExecutionSummary,
)
    requires
        run.valid(),
        received.to_multiset() == run.errors(),
        writes.len() == received.len(),
        forall|i: int| 0 <= i < writes.len() ==> #[trigger] writes[i],
        shutdown matches DlqShutdown::Joined(errors) && dlq::worker_session(
            WorkerView { error_count: 0, policy: run.policy },
            received,
            writes,
        ).last() == DlqActionView::Finish(errors as nat),
        tally.successful_items == run.arrived(),
        summary.successful_items == tally.successful_items,
        summary.error_count == shutdown.known_errors(),
    ensures
        summary.successful_items == run.arrived(),
        summary.error_count == run.source_errors() + sum_of(
            run.stages,
            |stage: StageRecord| stage.rejected(),
        ) + sum_of(run.stages, |stage: StageRecord| stage.failed()) + sum_of(
            run.stages,
            |stage: StageRecord| stage.failed_flushes(),
        ),
        dlq::worker_session(
            WorkerView { error_count: 0, policy: run.policy },
            received,
            writes,
        ) == dlq::written_and_finished(received, summary.error_count as nat),
        summary.error_count == 0 <==> run.clean(),
{
    let worker = WorkerView { error_count: 0, policy: run.policy };
    dlq::writes_and_counts_every_error(worker, received, writes);
    polling::every_result_is_passed_on(run.source_name, run.policy, run.polls);
    let errors = polling::errors_of(run.source_name, run.polls);
    errors.to_multiset_ensures();
    received.to_multiset_ensures();
    lemma_source_errors(run.source_name, run.polls);
    lemma_count_is_zero(run.polls, |poll: Result<Option<T>, Seq<char>>| poll is Err);
    lemma_stages(run.stages);
}

/// Only a worker that ended says how many errors there were; of one that panicked, did not end
/// within ten seconds, or never was, none are known.
pub proof fn errors_are_known_of_an_ended_worker(shutdown: DlqShutdown, errors: usize)
    requires
        call_ensures(DlqShutdown::error_count, (&shutdown,), errors),
    ensures
        GRACE_PERIOD_SECS == 10,
        shutdown matches DlqShutdown::Joined(received) ==> errors == received,
        !(shutdown is Joined) ==> errors == 0,
{
}

/// Each item that arrives is counted once, from none, and the summary repeats the counts.
pub proof fn arrivals_are_counted(
    fresh: Tally,
    tally: &mut Tally,
    counted: Tally,
    shutdown: DlqShutdown,
    summary: ExecutionSummary,
)
    requires
        call_ensures(Tally::new, (), fresh),
        old(tally).successful_items < usize::MAX,
        call_ensures(Tally::record, (tally,), ()),
        call_ensures(Tally::finish, (&counted, shutdown), summary),
    ensures
        fresh.successful_items == 0,
        call_requires(Tally::record, (tally,)),
        final(tally).successful_items == old(tally).successful_items + 1,
        summary.successful_items == counted.successful_items,
        shutdown matches DlqShutdown::Joined(received) ==> summary.error_count == received,
        !(shutdown is Joined) ==> summary.error_count == 0,
{
}

/// Collecting hands back everything that arrived, in order, and counts it.
pub proof fn everything_that_arrived_is_collected<T>(
    results: Vec<T>,
    shutdown: DlqShutdown,
    outcome: (Vec<T>, ExecutionSummary),
)
    requires
        call_ensures(collected::<T>, (results, shutdown), outcome),
    ensures
        outcome.0@ == results@,
        outcome.1.successful_items == results@.len(),
        shutdown matches DlqShutdown::Joined(received) ==> outcome.1.error_count == received,
        !(shutdown is Joined) ==> outcome.1.error_count == 0,
{
}

} // verus!
