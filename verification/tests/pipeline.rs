use core_engine::dlq::DlqAction;
use core_engine::dlq::DlqWorker;
use core_engine::dlq::ErrorPayload;
use core_engine::pipeline::concurrent::ConcurrentAction;
use core_engine::pipeline::concurrent::ConcurrentPhase;
use core_engine::pipeline::concurrent::ConcurrentStage;
use core_engine::pipeline::concurrent::Joined;
use core_engine::pipeline::delivery::Delivery;
use core_engine::pipeline::delivery::DeliveryStep;
use core_engine::pipeline::delivery::NodeFailure;
use core_engine::pipeline::pipe::PipeAction;
use core_engine::pipeline::pipe::PipePhase;
use core_engine::pipeline::pipe::PipeStage;
use core_engine::pipeline::polling::PollAction;
use core_engine::pipeline::polling::PollPhase;
use core_engine::pipeline::polling::SourceStage;
use core_engine::pipeline::terminal::collected;
use core_engine::pipeline::terminal::DlqShutdown;
use core_engine::pipeline::terminal::ExecutionSummary;
use core_engine::pipeline::terminal::Tally;
use core_engine::pipeline::terminal::GRACE_PERIOD_SECS;
use core_engine::pipeline::validate::CheckAction;
use core_engine::pipeline::validate::CheckPhase;
use core_engine::pipeline::validate::Rejection;
use core_engine::pipeline::validate::ValidationStage;
use core_engine::pipeline::FaultPolicy;
use core_engine::pipeline::BUFFER_SIZE;
use std::collections::VecDeque;

/// What has been sent: items downstream, and errors to the dead letter queue.
#[derive(Default)]
struct Channels<T> {
    items: VecDeque<T>,
    errors: Vec<ErrorPayload>,
}

struct MockSource {
    results: VecDeque<Result<String, String>>,
}

impl MockSource {
    fn of(items: &[&str]) -> Self {
        Self { results: items.iter().map(|item| Ok(item.to_string())).collect() }
    }

    fn next(&mut self) -> Result<Option<String>, String> {
        self.results.pop_front().transpose()
    }
}

/// Polls the source to its end.
fn poll(mut source: MockSource, policy: FaultPolicy) -> Channels<String> {
    let mut sent = Channels { items: VecDeque::new(), errors: Vec::new() };
    let mut stage = SourceStage::new("MockSource".to_string(), policy);
    let mut action = PollAction::Poll;
    loop {
        action = match action {
            PollAction::Poll => stage.on_polled(source.next()),
            PollAction::Emit(item) => {
                sent.items.push_back(item);
                stage.on_delivered(true)
            }
            PollAction::Report(payload) => {
                sent.errors.push(payload);
                stage.on_delivered(true)
            }
            PollAction::Close | PollAction::Stop => return sent,
        };
    }
}

/// Sends what was polled through a validation stage.
fn validate<F: Fn(&String) -> Result<(), String>>(
    input: Channels<String>,
    validator: F,
) -> Channels<String> {
    let Channels { mut items, errors } = input;
    let mut sent = Channels { items: VecDeque::new(), errors };
    let mut stage = ValidationStage::new();
    let mut action = CheckAction::Receive;
    loop {
        action = match action {
            CheckAction::Receive => stage.on_received(items.pop_front(), false),
            CheckAction::Check(item) => {
                let verdict = validator(&item).map_err(|error_message| Rejection {
                    error_message,
                    raw_data: format!("{:?}", item),
                });
                stage.on_checked(item, verdict)
            }
            CheckAction::Emit(item) => {
                sent.items.push_back(item);
                stage.on_delivered(true)
            }
            CheckAction::Report(payload) => {
                sent.errors.push(payload);
                stage.on_delivered(true)
            }
            CheckAction::Stop => return sent,
        };
    }
}

struct MockNode;

impl MockNode {
    fn execute(&self, input: &String) -> Result<Vec<String>, String> {
        if input == "error" {
            Err("Node error triggered".to_string())
        } else {
            Ok(vec![format!("processed_{}", input)])
        }
    }
}

/// Sends what was polled through a node.
fn pipe(input: Channels<String>, node: MockNode) -> Channels<String> {
    let Channels { mut items, errors } = input;
    let mut sent = Channels { items: VecDeque::new(), errors };
    let mut stage = PipeStage::new("MockNode".to_string());
    let mut action: PipeAction<String, String> = PipeAction::Receive;
    loop {
        action = match action {
            PipeAction::Receive => stage.on_received(items.pop_front(), false),
            PipeAction::Execute(item) => {
                let result = node.execute(&item).map_err(|error_message| NodeFailure {
                    error_message,
                    raw_data: Some(format!("{:?}", item)),
                });
                stage.on_executed(result)
            }
            PipeAction::Emit(item) => {
                sent.items.push_back(item);
                stage.on_delivered(true)
            }
            PipeAction::Report(payload) => {
                sent.errors.push(payload);
                stage.on_delivered(true)
            }
            PipeAction::Flush => stage.on_flushed(Ok(Vec::new())),
            PipeAction::Finish => return sent,
        };
    }
}

/// Takes what arrives, and the count of the dead letter queue worker.
fn collect<T>(input: Channels<T>) -> (Vec<T>, ExecutionSummary) {
    let mut worker = DlqWorker::new(FaultPolicy::Halt);
    for payload in input.errors {
        assert!(matches!(worker.on_received(Some(payload)), DlqAction::Write(_)));
        assert!(matches!(worker.on_written(true), DlqAction::Receive));
    }
    let errors = match worker.on_received(None) {
        DlqAction::Finish(errors) => errors,
        _ => panic!("the worker ends with its channel"),
    };
    collected(input.items.into_iter().collect(), DlqShutdown::Joined(errors))
}

fn no_invalid_data(item: &String) -> Result<(), String> {
    if item == "invalid_data" {
        Err("Invalid data detected".to_string())
    } else {
        Ok(())
    }
}

#[test]
fn test_pipeline_validate_success() {
    let source = MockSource::of(&["valid_data", "invalid_data"]);
    let (results, summary) = collect(validate(poll(source, FaultPolicy::Halt), no_invalid_data));
    assert_eq!(results.len(), 1);
    assert_eq!(results[0], "valid_data");
    assert_eq!(summary, ExecutionSummary { successful_items: 1, error_count: 1 });
}

#[test]
fn pipeline_test_pipeline_validate_success() {
    let source = MockSource::of(&["valid_data", "invalid_data"]);
    let sent = validate(poll(source, FaultPolicy::Continue), no_invalid_data);
    assert_eq!(sent.items.len(), 1);
    assert_eq!(sent.items[0], "valid_data");
    assert_eq!(sent.errors[0].to_line(), "ValidationNode: Invalid data detected: \"invalid_data\"");
}

#[test]
fn test_pipeline_pipe() {
    let source = MockSource::of(&["data1", "error", "data2"]);
    let (results, summary) = collect(pipe(poll(source, FaultPolicy::Halt), MockNode));
    assert_eq!(results.len(), 2);
    assert!(results.contains(&"processed_data1".to_string()));
    assert!(results.contains(&"processed_data2".to_string()));
    assert_eq!(summary, ExecutionSummary { successful_items: 2, error_count: 1 });
}

#[test]
fn pipeline_test_pipeline_pipe() {
    let source = MockSource::of(&["data1", "error", "data2"]);
    let sent = pipe(poll(source, FaultPolicy::Continue), MockNode);
    assert_eq!(sent.items.len(), 2);
    assert!(sent.items.contains(&"processed_data1".to_string()));
    assert!(sent.items.contains(&"processed_data2".to_string()));
    assert_eq!(sent.errors.len(), 1);
    assert_eq!(sent.errors[0].to_line(), "MockNode: Node error triggered: \"error\"");
}

#[test]
fn a_source_error_ends_polling_only_where_faults_halt() {
    let results = || {
        let results = vec![Ok("a".to_string()), Err("torn page".to_string()), Ok("b".to_string())];
        MockSource { results: results.into_iter().collect() }
    };
    let sent = poll(results(), FaultPolicy::Halt);
    assert_eq!(sent.items, vec!["a"]);
    assert_eq!(sent.errors[0].to_line(), "MockSource: torn page: ");

    let sent = poll(results(), FaultPolicy::Continue);
    assert_eq!(sent.items, vec!["a", "b"]);
    assert_eq!(sent.errors.len(), 1);
}

#[test]
fn polling_ends_with_a_closed_channel_or_a_shutdown() {
    let mut stage = SourceStage::new("MockSource".to_string(), FaultPolicy::Continue);
    assert!(matches!(stage.on_polled(Ok(Some(1))), PollAction::Emit(1)));
    assert_eq!(stage.phase, PollPhase::Emitting);
    assert!(matches!(stage.on_delivered::<i32>(false), PollAction::Stop));
    assert_eq!(stage.phase, PollPhase::Stopped);

    let mut stage = SourceStage::new("MockSource".to_string(), FaultPolicy::Continue);
    assert!(matches!(stage.on_polled::<i32>(Err("torn".to_string())), PollAction::Report(_)));
    assert!(matches!(stage.on_delivered::<i32>(false), PollAction::Poll));
    assert!(matches!(stage.on_cancelled::<i32>(), PollAction::Stop));
    assert_eq!(stage.phase, PollPhase::Stopped);

    let mut stage = SourceStage::new("MockSource".to_string(), FaultPolicy::Halt);
    assert!(matches!(stage.on_cancelled::<i32>(), PollAction::Close));
    assert_eq!(stage.phase, PollPhase::Stopped);

    let mut stage = SourceStage::new("MockSource".to_string(), FaultPolicy::Halt);
    assert!(matches!(stage.on_polled::<i32>(Err("torn".to_string())), PollAction::Report(_)));
    assert!(matches!(stage.on_delivered::<i32>(true), PollAction::Stop));
}

#[test]
fn validation_survives_a_dead_error_channel() {
    let rejection =
        || Err(Rejection { error_message: "bad".to_string(), raw_data: "1".to_string() });
    let mut stage = ValidationStage::new();
    assert!(matches!(stage.on_received(Some(1), false), CheckAction::Check(1)));
    assert!(matches!(stage.on_checked(1, rejection()), CheckAction::Report(_)));
    assert!(matches!(stage.on_delivered::<i32>(false), CheckAction::Receive));
    assert!(matches!(stage.on_received(Some(2), false), CheckAction::Check(2)));
    assert!(matches!(stage.on_checked(2, Ok(())), CheckAction::Emit(2)));
    assert!(matches!(stage.on_delivered::<i32>(false), CheckAction::Stop));
    assert_eq!(stage.phase, CheckPhase::Stopped);

    let mut stage = ValidationStage::new();
    assert!(matches!(stage.on_received(Some(3), true), CheckAction::Stop));
}

#[test]
fn a_delivery_stops_at_a_closed_channel() {
    let (mut delivery, step) = Delivery::start("MockNode", Ok(vec![1, 2, 3]));
    assert!(matches!(step, DeliveryStep::Emit(1)));
    assert!(matches!(delivery.advance(true), DeliveryStep::Emit(2)));
    assert!(matches!(delivery.advance(false), DeliveryStep::Done { halt: true }));

    let (_, step) = Delivery::<i32>::start("MockNode", Ok(vec![]));
    assert!(matches!(step, DeliveryStep::Done { halt: false }));

    let failure = || NodeFailure { error_message: "bad".to_string(), raw_data: None };
    let (mut delivery, step) = Delivery::<i32>::start("MockNode", Err(failure()));
    match step {
        DeliveryStep::Report(payload) => assert_eq!(payload.to_line(), "MockNode: bad: Flush"),
        _ => panic!("a failure is reported"),
    }
    assert!(matches!(delivery.advance(true), DeliveryStep::Done { halt: false }));
    let (mut delivery, _) = Delivery::<i32>::start("MockNode", Err(failure()));
    assert!(matches!(delivery.advance(false), DeliveryStep::Done { halt: true }));
}

#[test]
fn a_stage_flushes_even_when_it_is_halted() {
    let mut stage: PipeStage<u8> = PipeStage::new("MockNode".to_string());
    assert!(matches!(stage.on_received(Some("x"), false), PipeAction::Execute("x")));
    assert!(matches!(stage.on_executed::<&str>(Ok(vec![1, 2])), PipeAction::Emit(1)));
    assert!(matches!(stage.on_delivered::<&str>(false), PipeAction::Flush));
    match stage.on_flushed::<&str>(Err("late".to_string())) {
        PipeAction::Report(payload) => assert_eq!(payload.to_line(), "MockNode: late: Flush"),
        _ => panic!("a failed flush is reported"),
    }
    assert!(matches!(stage.on_delivered::<&str>(true), PipeAction::Finish));
    assert_eq!(stage.phase(), PipePhase::Finished);

    let mut stage: PipeStage<u8> = PipeStage::new("MockNode".to_string());
    assert!(matches!(stage.on_received(Some("x"), true), PipeAction::Flush));
    assert!(matches!(stage.on_flushed::<&str>(Ok(vec![7, 8])), PipeAction::Emit(7)));
    assert!(matches!(stage.on_delivered::<&str>(true), PipeAction::Emit(8)));
    assert!(matches!(stage.on_delivered::<&str>(true), PipeAction::Finish));
}

fn concurrent(limit: usize, policy: FaultPolicy) -> ConcurrentStage<u8> {
    ConcurrentStage::new("MockNode".to_string(), limit, policy)
}

#[test]
fn no_more_tasks_run_than_the_limit_allows() {
    let mut stage = concurrent(2, FaultPolicy::Halt);
    assert!(stage.wants_input() && !stage.waits_for_tasks());
    assert!(matches!(stage.on_received(Some('a'), false), ConcurrentAction::Spawn('a')));
    assert!(stage.wants_input() && stage.waits_for_tasks());
    assert!(matches!(stage.on_received(Some('b'), false), ConcurrentAction::Spawn('b')));
    assert!(!stage.wants_input() && stage.waits_for_tasks());
    let done = Joined::Completed { halt: false };
    assert!(matches!(stage.on_joined::<char>(done), ConcurrentAction::Wait));
    assert!(stage.wants_input());
    assert!(matches!(stage.on_received::<char>(None, false), ConcurrentAction::Wait));
    assert!(!stage.wants_input() && stage.waits_for_tasks());
    assert!(matches!(stage.on_joined::<char>(done), ConcurrentAction::Flush));
    assert_eq!(stage.phase(), ConcurrentPhase::Flushing);
    assert!(matches!(stage.on_flushed::<char>(Ok(vec![5])), ConcurrentAction::Emit(5)));
    assert!(matches!(stage.on_delivered::<char>(true), ConcurrentAction::Finish));
    assert_eq!(stage.phase(), ConcurrentPhase::Finished);
}

#[test]
fn an_empty_concurrent_stage_only_flushes() {
    let mut stage = concurrent(1, FaultPolicy::Halt);
    assert!(matches!(stage.on_received::<char>(None, false), ConcurrentAction::Flush));
    match stage.on_flushed::<char>(Err("late".to_string())) {
        ConcurrentAction::Report(payload) => assert_eq!(payload.to_line(), "MockNode: late: Flush"),
        _ => panic!("a failed flush is reported"),
    }
    assert!(matches!(stage.on_delivered::<char>(false), ConcurrentAction::Finish));
}

#[test]
fn a_closed_channel_aborts_all_tasks() {
    let mut stage = concurrent(3, FaultPolicy::Halt);
    assert!(matches!(stage.on_received(Some('a'), false), ConcurrentAction::Spawn('a')));
    assert!(matches!(stage.on_received(Some('b'), true), ConcurrentAction::Abort(None)));
    assert_eq!(stage.phase(), ConcurrentPhase::Flushing);
    assert!(!stage.waits_for_tasks());

    let mut stage = concurrent(3, FaultPolicy::Halt);
    assert!(matches!(stage.on_received(Some('a'), false), ConcurrentAction::Spawn('a')));
    assert!(matches!(stage.on_received(Some('b'), false), ConcurrentAction::Spawn('b')));
    assert!(matches!(
        stage.on_joined::<char>(Joined::Completed { halt: true }),
        ConcurrentAction::Abort(None)
    ));
    assert!(!stage.wants_input() && !stage.waits_for_tasks());
}

#[test]
fn where_faults_are_survived_aborted_tasks_end_before_the_flush() {
    let done = Joined::Completed { halt: false };
    let halt = Joined::Completed { halt: true };
    let filled = || {
        let mut stage = concurrent(4, FaultPolicy::Continue);
        for item in ['a', 'b', 'c'] {
            assert!(matches!(stage.on_received(Some(item), false), ConcurrentAction::Spawn(_)));
        }
        stage
    };

    // Nobody takes the outputs any more.
    let mut stage = filled();
    assert!(matches!(stage.on_received(Some('d'), true), ConcurrentAction::Cancel));
    assert_eq!(stage.phase(), ConcurrentPhase::Running);
    assert!(!stage.wants_input() && stage.waits_for_tasks());
    assert!(matches!(stage.on_joined::<char>(Joined::Cancelled), ConcurrentAction::Wait));
    assert!(matches!(stage.on_joined::<char>(done), ConcurrentAction::Wait));
    assert!(matches!(stage.on_joined::<char>(Joined::Cancelled), ConcurrentAction::Flush));

    // A task found its channel closed; a second one ends the wait.
    let mut stage = filled();
    assert!(matches!(stage.on_joined::<char>(halt), ConcurrentAction::Cancel));
    assert!(!stage.wants_input() && stage.waits_for_tasks());
    assert!(matches!(stage.on_joined::<char>(halt), ConcurrentAction::Abort(None)));
    assert_eq!(stage.phase(), ConcurrentPhase::Flushing);

    // No more items come when a task finds its channel closed.
    let mut stage = filled();
    assert!(matches!(stage.on_received::<char>(None, false), ConcurrentAction::Wait));
    assert!(matches!(stage.on_joined::<char>(halt), ConcurrentAction::Abort(None)));

    // No task is left to wait for.
    let mut stage = concurrent(4, FaultPolicy::Continue);
    assert!(matches!(stage.on_received(Some('a'), true), ConcurrentAction::Abort(None)));
    assert_eq!(stage.phase(), ConcurrentPhase::Flushing);
}

#[test]
fn a_panic_is_reported_only_where_faults_halt() {
    let mut stage = concurrent(2, FaultPolicy::Halt);
    assert!(matches!(stage.on_received(Some('a'), false), ConcurrentAction::Spawn('a')));
    match stage.on_joined::<char>(Joined::Panicked) {
        ConcurrentAction::Abort(Some(payload)) => {
            assert_eq!(payload.node_name, "MockNode");
            assert_eq!(payload.error_message, "Task panicked");
        }
        _ => panic!("a panic ends the stage"),
    }

    let mut stage = concurrent(2, FaultPolicy::Continue);
    assert!(matches!(stage.on_received(Some('a'), false), ConcurrentAction::Spawn('a')));
    assert!(matches!(stage.on_joined::<char>(Joined::Panicked), ConcurrentAction::Wait));
    assert!(matches!(stage.on_received(Some('b'), false), ConcurrentAction::Spawn('b')));
    assert!(matches!(stage.on_joined::<char>(Joined::Cancelled), ConcurrentAction::Wait));
}

#[test]
fn the_summary_counts_items_and_known_errors() {
    let mut tally = Tally::new();
    tally.record();
    tally.record();
    let summary = tally.finish(DlqShutdown::Joined(3));
    assert_eq!(summary, ExecutionSummary { successful_items: 2, error_count: 3 });
    for shutdown in [DlqShutdown::Panicked, DlqShutdown::TimedOut, DlqShutdown::Absent] {
        assert_eq!(tally.finish(shutdown).error_count, 0);
        assert_eq!(shutdown.error_count(), 0);
    }
    assert_eq!((GRACE_PERIOD_SECS, BUFFER_SIZE), (10, 100));
}

#[test]
fn every_error_of_a_run_is_counted() {
    let results = ["a", "invalid_data", "error", "b"].iter().map(|item| Ok(item.to_string()));
    let mut source = MockSource { results: results.collect() };
    source.results.push_back(Err("torn page".to_string()));
    let sent = validate(poll(source, FaultPolicy::Halt), no_invalid_data);
    let (arrived, summary) = collect(pipe(sent, MockNode));
    assert_eq!(arrived, vec!["processed_a", "processed_b"]);
    assert_eq!(summary, ExecutionSummary { successful_items: 2, error_count: 3 });

    let source = MockSource::of(&["a", "b"]);
    let (_, summary) = collect(pipe(validate(poll(source, FaultPolicy::Halt), no_invalid_data), MockNode));
    assert_eq!(summary, ExecutionSummary { successful_items: 2, error_count: 0 });
}

/// Sends what was polled through a node, up to `limit` items at once. `order` decides what happens
/// next where several things can.
fn pipe_concurrently(
    input: Channels<String>,
    node: MockNode,
    limit: usize,
    mut order: usize,
) -> Channels<String> {
    let Channels { mut items, errors } = input;
    let mut sent = Channels { items: VecDeque::new(), errors };
    let mut stage = ConcurrentStage::new("MockNode".to_string(), limit, FaultPolicy::Halt);
    let mut tasks: Vec<(Delivery<String>, DeliveryStep<String>)> = Vec::new();
    let mut action: ConcurrentAction<String, String> = ConcurrentAction::Wait;
    loop {
        order = order.wrapping_mul(6_364_136_223_846_793_005).wrapping_add(1_442_695_040_888_963_407);
        action = match action {
            ConcurrentAction::Wait if stage.wants_input() && (order >> 33) % 2 == 0 => {
                stage.on_received(items.pop_front(), false)
            }
            ConcurrentAction::Wait if !stage.waits_for_tasks() => {
                stage.on_received(items.pop_front(), false)
            }
            ConcurrentAction::Wait => {
                assert!(tasks.len() <= limit);
                let at = (order >> 34) % tasks.len();
                let (mut delivery, step) = tasks.swap_remove(at);
                match step {
                    DeliveryStep::Emit(item) => {
                        sent.items.push_back(item);
                        let step = delivery.advance(true);
                        tasks.push((delivery, step));
                        ConcurrentAction::Wait
                    }
                    DeliveryStep::Report(payload) => {
                        sent.errors.push(payload);
                        let step = delivery.advance(true);
                        tasks.push((delivery, step));
                        ConcurrentAction::Wait
                    }
                    DeliveryStep::Done { halt } => stage.on_joined(Joined::Completed { halt }),
                }
            }
            ConcurrentAction::Spawn(item) => {
                let result = node.execute(&item).map_err(|error_message| NodeFailure {
                    error_message,
                    raw_data: Some(format!("{:?}", item)),
                });
                tasks.push(Delivery::start("MockNode", result));
                ConcurrentAction::Wait
            }
            ConcurrentAction::Cancel | ConcurrentAction::Abort(_) => {
                panic!("the channels stay open")
            }
            ConcurrentAction::Flush => {
                assert!(tasks.is_empty());
                stage.on_flushed(Ok(vec!["flushed".to_string()]))
            }
            ConcurrentAction::Emit(item) => {
                sent.items.push_back(item);
                stage.on_delivered(true)
            }
            ConcurrentAction::Report(payload) => {
                sent.errors.push(payload);
                stage.on_delivered(true)
            }
            ConcurrentAction::Finish => {
                assert_eq!(stage.phase(), ConcurrentPhase::Finished);
                return sent;
            }
        };
    }
}

#[test]
fn a_concurrent_stage_routes_everything_in_any_order() {
    let names = ["a", "error", "b", "c", "error", "d", "e"];
    for limit in 1..5 {
        for order in 0..20 {
            let sent = pipe_concurrently(
                poll(MockSource::of(&names), FaultPolicy::Halt),
                MockNode,
                limit,
                order,
            );
            assert_eq!(sent.items.back(), Some(&"flushed".to_string()));
            let mut items: Vec<String> = sent.items.into_iter().collect();
            items.sort();
            assert_eq!(
                items,
                vec!["flushed", "processed_a", "processed_b", "processed_c", "processed_d", "processed_e"]
            );
            let errors: Vec<String> = sent.errors.iter().map(|error| error.to_line()).collect();
            assert_eq!(errors, vec!["MockNode: Node error triggered: \"error\""; 2]);
        }
    }
}

#[test]
fn the_summary_counts_the_errors_of_all_stages() {
    let results = ["a", "invalid_data", "error", "b", "processed_"].iter();
    let mut source = MockSource { results: results.map(|item| Ok(item.to_string())).collect() };
    source.results.push_back(Err("torn page".to_string()));
    let polled = poll(source, FaultPolicy::Continue);
    let valid = validate(polled, no_invalid_data);
    let once = pipe(valid, MockNode);
    let shorter = validate(once, |item| {
        if item == "processed_b" {
            Err("b is not wanted".to_string())
        } else {
            Ok(())
        }
    });
    let (arrived, summary) = collect(pipe_concurrently(shorter, MockNode, 2, 7));
    assert_eq!(arrived.len(), 3);
    assert_eq!(summary, ExecutionSummary { successful_items: 3, error_count: 4 });

    // Without any stage, what the source gave arrives.
    let (arrived, summary) = collect(poll(MockSource::of(&["x", "y"]), FaultPolicy::Halt));
    assert_eq!(arrived, vec!["x", "y"]);
    assert_eq!(summary, ExecutionSummary { successful_items: 2, error_count: 0 });
}
