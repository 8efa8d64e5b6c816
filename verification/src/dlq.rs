//! What the dead letter queue stores, and the worker that fills it.

use crate::pipeline::FaultPolicy;
use vstd::prelude::*;

verus! {

/// The text of an [`ErrorPayload`].
pub struct PayloadView {
    /// Who failed.
    pub node_name: Seq<char>,
    /// How.
    pub error_message: Seq<char>,
    /// On what.
    pub raw_data: Seq<char>,
}

impl PayloadView {
    /// The fields, with a colon and a space between each two of them.
    pub open spec fn line(self) -> Seq<char> {
        self.node_name + ": "@ + self.error_message + ": "@ + self.raw_data
    }
}

/// An error on its way to the dead letter queue.
#[derive(Debug)]
pub struct ErrorPayload {
    /// The node, or the source, that failed.
    pub node_name: String,
    /// What it reported.
    pub error_message: String,
    /// The item that it failed on.
    pub raw_data: String,
}

impl View for ErrorPayload {
    type V = PayloadView;

    open spec fn view(&self) -> PayloadView {
        PayloadView {
            node_name: self.node_name@,
            error_message: self.error_message@,
            raw_data: self.raw_data@,
        }
    }
}

/// What is reported when a source fails: there is no item to show.
pub open spec fn source_failure_view(source_name: Seq<char>, message: Seq<char>) -> PayloadView {
    PayloadView { node_name: source_name, error_message: message, raw_data: ""@ }
}

/// What is reported when an item is invalid.
pub open spec fn validation_failure_view(message: Seq<char>, raw_data: Seq<char>) -> PayloadView {
    PayloadView { node_name: "ValidationNode"@, error_message: message, raw_data }
}

/// What is reported when a node fails on an item, or, without an item, on its flush.
pub open spec fn node_failure_view(
    node_name: Seq<char>,
    message: Seq<char>,
    raw_data: Option<Seq<char>>,
) -> PayloadView {
    PayloadView {
        node_name,
        error_message: message,
        raw_data: match raw_data {
            Some(raw_data) => raw_data,
            None => "Flush"@,
        },
    }
}

/// What is reported when a concurrent task panics: its item is lost.
pub open spec fn panic_view(node_name: Seq<char>) -> PayloadView {
    PayloadView {
        node_name,
        error_message: "Task panicked"@,
        raw_data: "unknown — lost to panic"@,
    }
}

impl ErrorPayload {
    /// What is reported when the source `source_name` fails with `message`.
    pub fn source_failure(source_name: &str, message: String) -> (payload: ErrorPayload)
        ensures
            payload@ == source_failure_view(source_name@, message@),
    {
        ErrorPayload {
            node_name: source_name.to_owned(),
            error_message: message,
            raw_data: "".to_owned(),
        }
    }

    /// What is reported when the item `raw_data` is invalid because of `message`.
    pub fn validation_failure(message: String, raw_data: String) -> (payload: ErrorPayload)
        ensures
            payload@ == validation_failure_view(message@, raw_data@),
    {
        ErrorPayload { node_name: "ValidationNode".to_owned(), error_message: message, raw_data }
    }

    /// What is reported when the node `node_name` fails with `message` on the item `raw_data`, or,
    /// without an item, on its flush.
    pub fn node_failure(node_name: &str, message: String, raw_data: Option<String>) -> (payload:
        ErrorPayload)
        ensures
            payload@ == node_failure_view(
                node_name@,
                message@,
                match raw_data {
                    Some(raw_data) => Some(raw_data@),
                    None => None,
                },
            ),
    {
        let raw_data = match raw_data {
            Some(raw_data) => raw_data,
            None => "Flush".to_owned(),
        };
        ErrorPayload { node_name: node_name.to_owned(), error_message: message, raw_data }
    }

    /// What is reported when a concurrent task of the node `node_name` panics.
    pub fn task_panicked(node_name: &str) -> (payload: ErrorPayload)
        ensures
            payload@ == panic_view(node_name@),
    {
        ErrorPayload {
            node_name: node_name.to_owned(),
            error_message: "Task panicked".to_owned(),
            raw_data: "unknown — lost to panic".to_owned(),
        }
    }

    /// The payload on one line, without a line break.
    pub fn to_line(&self) -> (line: String)
        ensures
            line@ == self@.line(),
    {
        let mut line = self.node_name.clone();
        line.append(": ");
        line.append(self.error_message.as_str());
        line.append(": ");
        line.append(self.raw_data.as_str());
        line
    }

    /// The payload as a log file stores it: its line and a line break.
    pub fn to_record(&self) -> (record: String)
        ensures
            record@ == self@.line() + "\n"@,
    {
        let mut record = self.to_line();
        record.append("\n");
        record
    }
}

/// What the dead letter queue worker does next.
#[derive(Debug)]
pub enum DlqAction {
    /// Wait for the next error.
    Receive,
    /// Write the payload to the queue.
    Write(ErrorPayload),
    /// Flush the queue and end; this many errors were received.
    Finish(usize),
}

/// A [`DlqAction`], with the payload as text.
pub enum DlqActionView {
    /// Wait for the next error.
    Receive,
    /// Write the payload to the queue.
    Write(PayloadView),
    /// Flush the queue and end; this many errors were received.
    Finish(nat),
}

impl View for DlqAction {
    type V = DlqActionView;

    open spec fn view(&self) -> DlqActionView {
        match *self {
            DlqAction::Receive => DlqActionView::Receive,
            DlqAction::Write(payload) => DlqActionView::Write(payload@),
            DlqAction::Finish(error_count) => DlqActionView::Finish(error_count as nat),
        }
    }
}

/// What the dead letter queue worker keeps between calls.
pub struct WorkerView {
    /// How many errors were received.
    pub error_count: nat,
    /// Whether a failed write ends the worker.
    pub policy: FaultPolicy,
}

impl WorkerView {
    /// The worker, and what it does, once it received `payload`, or learned that no error will
    /// come any more.
    pub open spec fn received(self, payload: Option<PayloadView>) -> (WorkerView, DlqActionView) {
        match payload {
            Some(payload) => (
                WorkerView { error_count: self.error_count + 1, ..self },
                DlqActionView::Write(payload),
            ),
            None => (self, DlqActionView::Finish(self.error_count)),
        }
    }

    /// Whether the worker ends after a write that succeeded or, when `written` is false, failed.
    pub open spec fn ends_after(self, written: bool) -> bool {
        !written && self.policy == FaultPolicy::Halt
    }

    /// What the worker does once the payload was written or, when `written` is false, could not
    /// be.
    pub open spec fn wrote(self, written: bool) -> DlqActionView {
        if self.ends_after(written) {
            DlqActionView::Finish(self.error_count)
        } else {
            DlqActionView::Receive
        }
    }
}

/// The background worker that writes errors to the dead letter queue and counts them.
#[derive(Debug, Clone, Copy)]
pub struct DlqWorker {
    /// How many errors were received.
    pub error_count: usize,
    /// Whether a failed write ends the worker.
    pub policy: FaultPolicy,
}

impl View for DlqWorker {
    type V = WorkerView;

    open spec fn view(&self) -> WorkerView {
        WorkerView { error_count: self.error_count as nat, policy: self.policy }
    }
}

impl DlqWorker {
    /// A worker that has not received anything. It starts with [`DlqAction::Receive`].
    pub fn new(policy: FaultPolicy) -> (worker: DlqWorker)
        ensures
            worker@ == (WorkerView { error_count: 0, policy }),
    {
        DlqWorker { error_count: 0, policy }
    }

    /// The worker received an error, or learned that none will come any more.
    pub fn on_received(&mut self, payload: Option<ErrorPayload>) -> (action: DlqAction)
        requires
            payload is Some ==> old(self).error_count < usize::MAX,
        ensures
            (final(self)@, action@) == old(self)@.received(
                match payload {
                    Some(payload) => Some(payload@),
                    None => None,
                },
            ),
    {
        match payload {
            Some(payload) => {
                self.error_count = self.error_count + 1;
                DlqAction::Write(payload)
            },
            None => DlqAction::Finish(self.error_count),
        }
    }

    /// The payload was written, or could not be. A worker that halts on faults ends on a failed
    /// write, which closes the error channel and halts the nodes that report to it.
    pub fn on_written(&self, written: bool) -> (action: DlqAction)
        ensures
            action@ == self@.wrote(written),
    {
        if !written && self.policy == FaultPolicy::Halt {
            DlqAction::Finish(self.error_count)
        } else {
            DlqAction::Receive
        }
    }
}

/// What the worker does, one action after the other, apart from waiting, when `errors` come, their
/// writes go as `writes` says, and no more follow. A worker that has ended receives nothing.
pub open spec fn worker_session(
    worker: WorkerView,
    errors: Seq<PayloadView>,
    writes: Seq<bool>,
) -> Seq<DlqActionView>
    decreases errors.len(),
{
    if errors.len() == 0 {
        seq![worker.received(None).1]
    } else {
        let (after, write) = worker.received(Some(errors[0]));
        match after.wrote(writes[0]) {
            DlqActionView::Receive => seq![write] + worker_session(
                after,
                errors.drop_first(),
                writes.drop_first(),
            ),
            end => seq![write, end],
        }
    }
}

/// One write for each error, in order, then the end with their number.
pub open spec fn written_and_finished(
    errors: Seq<PayloadView>,
    error_count: nat,
) -> Seq<DlqActionView> {
    errors.map_values(|error: PayloadView| DlqActionView::Write(error)).push(
        DlqActionView::Finish(error_count),
    )
}

/// The worker writes every error that it receives, once and in the order in which they came, also
/// counts those that could not be written, and flushes the queue once, after the last write. Where
/// faults are survived, it receives all errors; where they halt, it receives those up to the
/// first failed write.
pub proof fn writes_and_counts_every_error(
    worker: WorkerView,
    errors: Seq<PayloadView>,
    writes: Seq<bool>,
)
    requires
        writes.len() == errors.len(),
        forall|i: int|
            0 <= i < writes.len() - 1 ==> !worker.ends_after(#[trigger] writes[i]),
    ensures
        worker_session(worker, errors, writes) == written_and_finished(
            errors,
            worker.error_count + errors.len(),
        ),
    decreases errors.len(),
{
    let whole = written_and_finished(errors, worker.error_count + errors.len());
    if errors.len() == 0 {
        assert(worker_session(worker, errors, writes) =~= whole);
    } else {
        let (after, write) = worker.received(Some(errors[0]));
        let rest = errors.drop_first();
        let later = writes.drop_first();
        if after.wrote(writes[0]) is Receive {
            assert forall|i: int| 0 <= i < later.len() - 1 implies !after.ends_after(
                #[trigger] later[i],
            ) by {
                assert(!worker.ends_after(writes[i + 1]));
            }
            writes_and_counts_every_error(after, rest, later);
            assert(worker_session(worker, errors, writes) =~= whole);
        } else {
            assert(errors.len() == 1) by {
                if errors.len() > 1 {
                    assert(!worker.ends_after(writes[0]));
                }
            }
            assert(worker_session(worker, errors, writes) =~= whole);
        }
    }
}

/// A payload names who failed, repeats the message in full, and shows the item where there is one:
/// nothing for a source, the word for a flush, and a note where a panic took the item along.
pub proof fn payloads_say_who_failed_how_and_on_what(
    name: &str,
    message: String,
    raw_data: String,
    item: Option<String>,
    of_source: ErrorPayload,
    of_validation: ErrorPayload,
    of_node: ErrorPayload,
    of_panic: ErrorPayload,
)
    requires
        call_ensures(ErrorPayload::source_failure, (name, message), of_source),
        call_ensures(ErrorPayload::validation_failure, (message, raw_data), of_validation),
        call_ensures(ErrorPayload::node_failure, (name, message, item), of_node),
        call_ensures(ErrorPayload::task_panicked, (name,), of_panic),
    ensures
        of_source.node_name@ == name@,
        of_source.error_message@ == message@,
        of_source.raw_data@ == ""@,
        of_validation.node_name@ == "ValidationNode"@,
        of_validation.error_message@ == message@,
        of_validation.raw_data@ == raw_data@,
        of_node.node_name@ == name@,
        of_node.error_message@ == message@,
        item matches Some(shown) ==> of_node.raw_data@ == shown@,
        item is None ==> of_node.raw_data@ == "Flush"@,
        of_panic.node_name@ == name@,
        of_panic.error_message@ == "Task panicked"@,
        of_panic.raw_data@ == "unknown — lost to panic"@,
{
}

/// A line holds the three parts in full, in order, with a colon and a space between them; a record
/// is the line and a line break.
pub proof fn a_record_is_a_line(payload: ErrorPayload, line: String, record: String)
    requires
        call_ensures(ErrorPayload::to_line, (&payload,), line),
        call_ensures(ErrorPayload::to_record, (&payload,), record),
    ensures
        line@ == payload.node_name@ + ": "@ + payload.error_message@ + ": "@ + payload.raw_data@,
        record@ == line@ + "\n"@,
{
}

/// A worker starts with no errors. It writes every error that it is handed, unchanged, and counts
/// it; when no more come, it ends with the count.
pub proof fn a_worker_writes_what_it_is_handed(
    policy: FaultPolicy,
    fresh: DlqWorker,
    worker: &mut DlqWorker,
    payload: Option<ErrorPayload>,
    action: DlqAction,
)
    requires
        call_ensures(DlqWorker::new, (policy,), fresh),
        payload is Some ==> old(worker).error_count < usize::MAX,
        call_ensures(DlqWorker::on_received, (worker, payload), action),
    ensures
        fresh.error_count == 0,
        fresh.policy == policy,
        call_requires(DlqWorker::on_received, (worker, payload)),
        final(worker).policy == old(worker).policy,
        payload matches Some(handed) ==> {
            &&& action matches DlqAction::Write(written)
            &&& written.node_name@ == handed.node_name@
            &&& written.error_message@ == handed.error_message@
            &&& written.raw_data@ == handed.raw_data@
            &&& final(worker).error_count == old(worker).error_count + 1
        },
        payload is None ==> {
            &&& action matches DlqAction::Finish(count) && count == old(worker).error_count
            &&& final(worker).error_count == old(worker).error_count
        },
{
}

/// A write that succeeded is followed by the next error, and so is one that failed where faults
/// are survived. Where they are not, a failed write ends the worker, with the count so far.
pub proof fn a_failed_write_ends_only_where_faults_halt(
    worker: DlqWorker,
    written: bool,
    action: DlqAction,
)
    requires
        call_ensures(DlqWorker::on_written, (&worker, written), action),
    ensures
        action is Receive <==> written || worker.policy == FaultPolicy::Continue,
        !(action is Receive) ==> (action matches DlqAction::Finish(count) && count
            == worker.error_count),
{
}

} // verus!
