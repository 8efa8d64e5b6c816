use core_engine::graph::CheckpointStrategy;
use core_engine::graph::ExecutionContext;
use core_engine::graph::ExecutionResult;
use core_engine::graph::GraphEngine;
use core_engine::graph::GraphError;
use core_engine::graph::GraphStep;
use core_engine::graph::Reducer;
use core_engine::graph::SaveReason;
use core_engine::graph::Topology;
use std::cell::RefCell;
use std::collections::HashMap;
use std::rc::Rc;
use tokio_util::sync::CancellationToken;

#[derive(Debug, Clone, PartialEq, Eq)]
enum TestNode {
    Step1,
    Step2,
    Step3,
    Faulty,
}

#[derive(Debug, Clone, PartialEq, Eq)]
struct TestState {
    count: usize,
}

enum TestDelta {
    Increment,
    Impossible,
}

impl Topology for TestNode {
    type State = TestState;
    type Delta = TestDelta;
    type Error = String;

    fn route(&self, _state: &TestState) -> Option<TestNode> {
        match self {
            TestNode::Step1 => Some(TestNode::Step2),
            TestNode::Step2 => Some(TestNode::Step3),
            TestNode::Step3 => None,
            TestNode::Faulty => Some(TestNode::Faulty),
        }
    }
}

impl Reducer<TestDelta, String> for TestState {
    fn reduce(&mut self, delta: TestDelta) -> Result<(), String> {
        match delta {
            TestDelta::Increment => {
                self.count += 1;
                Ok(())
            }
            TestDelta::Impossible => Err("cannot be merged".to_string()),
        }
    }
}

type Saved = (ExecutionContext<TestNode>, TestState);

/// Keeps checkpoints in memory, and the step counts at which they were written.
#[derive(Clone, Default)]
struct MockCheckpoint {
    store: Rc<RefCell<HashMap<String, Saved>>>,
    written: Rc<RefCell<Vec<usize>>>,
    broken: bool,
}

impl MockCheckpoint {
    fn new() -> Self {
        Self::default()
    }

    fn save_checkpoint(&self, ctx: &ExecutionContext<TestNode>, state: &TestState) -> Result<(), String> {
        if self.broken {
            return Err("disk full".to_string());
        }
        self.written.borrow_mut().push(ctx.step_count);
        self.store.borrow_mut().insert(ctx.thread_id.clone(), (ctx.clone(), state.clone()));
        Ok(())
    }

    fn load_checkpoint(&self, thread_id: &str) -> Result<Option<Saved>, String> {
        if self.broken {
            return Err("disk full".to_string());
        }
        Ok(self.store.borrow().get(thread_id).cloned())
    }
}

type Engine = GraphEngine<TestNode, MockCheckpoint>;

type Outcome = Result<ExecutionResult<TestNode>, GraphError<String>>;

fn run_node(node: &TestNode) -> Result<TestDelta, String> {
    match node {
        TestNode::Faulty => Err("node failed".to_string()),
        _ => Ok(TestDelta::Increment),
    }
}

/// Performs the steps until the execution ends.
fn drive(engine: &Engine, first: GraphStep<TestNode>) -> Outcome {
    let token = engine.cancel_token();
    let mut step = first;
    loop {
        step = match step {
            GraphStep::Execute { node, ctx, state } => {
                if token.is_cancelled() {
                    engine.on_cancelled(ctx, state)
                } else {
                    let result = run_node(&node);
                    engine.on_executed(node, ctx, state, result)
                }
            }
            GraphStep::Save { reason, ctx, state } => {
                let result = engine.force_save().unwrap().save_checkpoint(&ctx, &state);
                engine.on_saved(reason, ctx, state, result)
            }
            GraphStep::Finish(result) => return result,
        };
    }
}

fn execute(engine: &Engine, ctx: ExecutionContext<TestNode>, state: TestState) -> Outcome {
    drive(engine, engine.execute(ctx, state))
}

fn resume(engine: &Engine, thread_id: &str) -> Outcome {
    let loaded = engine.resume()?.load_checkpoint(thread_id);
    drive(engine, engine.on_loaded(thread_id, loaded))
}

fn start(thread_id: &str) -> (ExecutionContext<TestNode>, TestState) {
    (ExecutionContext::new(thread_id.to_string(), TestNode::Step1), TestState { count: 0 })
}

#[test]
fn test_graph_executes_to_completion() {
    let engine = Engine::new();
    let (ctx, state) = start("t1");
    match execute(&engine, ctx, state).unwrap() {
        ExecutionResult::Completed { state, ctx } => {
            assert_eq!(state.count, 3);
            assert_eq!(ctx.step_count, 3);
        }
        _ => panic!("Expected Completed result"),
    }
}

#[test]
fn test_max_steps_exceeded() {
    let engine = Engine::new().with_max_steps(2);
    let (ctx, state) = start("t2");
    let result = execute(&engine, ctx, state);
    assert!(matches!(result, Err(GraphError::MaxStepsExceeded(2))));
}

#[test]
fn test_suspend_and_resume() {
    let cp = MockCheckpoint::new();
    let engine = Engine::new()
        .with_interrupt_before(TestNode::Step2)
        .with_checkpoint(cp.clone(), CheckpointStrategy::OnSuspendOnly);

    let (ctx, state) = start("t3");
    match execute(&engine, ctx, state).unwrap() {
        ExecutionResult::Suspended { state, pending_node, ctx } => {
            assert_eq!(state.count, 1);
            assert_eq!(ctx.step_count, 1);
            assert_eq!(pending_node, TestNode::Step2);
        }
        _ => panic!("Expected Suspended result"),
    }

    match resume(&engine, "t3").unwrap() {
        ExecutionResult::Completed { state, ctx } => {
            assert_eq!(state.count, 3);
            assert_eq!(ctx.step_count, 3);
        }
        _ => panic!("Expected Completed result on resume"),
    }
}

#[test]
fn test_cancellation_saves_state() {
    let cp = MockCheckpoint::new();
    let cancel_token = CancellationToken::new();
    let engine = Engine::new()
        .with_cancel_token(cancel_token.clone())
        .with_checkpoint(cp.clone(), CheckpointStrategy::OnSuspendOnly);

    let (ctx, state) = start("t4");
    cancel_token.cancel();
    let result = execute(&engine, ctx, state);
    assert!(matches!(result, Err(GraphError::Cancelled)));

    let saved = cp.load_checkpoint("t4").unwrap();
    assert!(saved.is_some());
    let (saved_ctx, saved_state) = saved.unwrap();
    assert_eq!(saved_ctx.step_count, 0);
    assert_eq!(saved_state.count, 0);
}

#[test]
fn contexts_carry_metadata() {
    let (ctx, _) = start("t5");
    assert_eq!(ctx.next_node, Some(TestNode::Step1));
    assert_eq!((ctx.step_count, ctx.is_resuming), (0, false));
    let ctx = ctx
        .with_metadata("user".to_string(), "a".to_string())
        .with_metadata("user".to_string(), "b".to_string());
    assert_eq!(ctx.metadata.get("user"), Some("b"));
    assert_eq!(ctx.metadata.get("other"), None);
    assert_eq!(ctx.thread_id, "t5");
    assert_eq!(ctx.next_node, Some(TestNode::Step1));
}

#[test]
fn checkpoints_are_written_as_the_strategy_says() {
    for (strategy, expected) in [
        (CheckpointStrategy::Always, vec![1, 2, 3]),
        (CheckpointStrategy::EveryNSteps(1), vec![1, 2, 3]),
        (CheckpointStrategy::EveryNSteps(2), vec![2]),
        (CheckpointStrategy::EveryNSteps(4), vec![]),
        (CheckpointStrategy::OnSuspendOnly, vec![]),
    ] {
        let cp = MockCheckpoint::new();
        let engine = Engine::new().with_checkpoint(cp.clone(), strategy);
        let (ctx, state) = start("t6");
        assert!(execute(&engine, ctx, state).is_ok());
        assert_eq!(*cp.written.borrow(), expected);
    }

    let cp = MockCheckpoint::new();
    let engine = Engine::new().with_checkpoint(cp, CheckpointStrategy::EveryNSteps(3));
    let (mut ctx, _) = start("t6");
    assert!(engine.save(&ctx).is_none());
    ctx.step_count = 6;
    assert!(engine.save(&ctx).is_some());
    assert!(Engine::new().save(&ctx).is_none());
    assert!(Engine::new().force_save().is_none());
}

#[test]
fn without_checkpoints_an_interruption_still_suspends() {
    let engine = Engine::new().with_interrupt_before(TestNode::Step3);
    let (ctx, state) = start("t7");
    let (state, ctx) = match execute(&engine, ctx, state).unwrap() {
        ExecutionResult::Suspended { state, pending_node, ctx } => {
            assert_eq!(pending_node, TestNode::Step3);
            assert_eq!(ctx.next_node, Some(TestNode::Step3));
            (state, ctx)
        }
        _ => panic!("Expected Suspended result"),
    };
    assert_eq!((state.count, ctx.step_count), (2, 2));

    // Executed anew it stops at once; resumed it passes.
    assert!(matches!(
        execute(&engine, ctx.clone(), state.clone()),
        Ok(ExecutionResult::Suspended { pending_node: TestNode::Step3, .. })
    ));
    let mut resumed = ctx;
    resumed.is_resuming = true;
    match execute(&engine, resumed, state).unwrap() {
        ExecutionResult::Completed { state, ctx } => {
            assert_eq!((state.count, ctx.step_count, ctx.is_resuming), (3, 3, false));
        }
        _ => panic!("Expected Completed result"),
    }
}

#[test]
fn a_resumed_execution_stops_before_the_next_listed_node() {
    let cp = MockCheckpoint::new();
    let engine = Engine::new()
        .with_interrupt_before(TestNode::Step2)
        .with_interrupt_before(TestNode::Step3)
        .with_checkpoint(cp.clone(), CheckpointStrategy::OnSuspendOnly);
    let (ctx, state) = start("t8");
    assert!(matches!(
        execute(&engine, ctx, state),
        Ok(ExecutionResult::Suspended { pending_node: TestNode::Step2, .. })
    ));
    assert!(matches!(
        resume(&engine, "t8"),
        Ok(ExecutionResult::Suspended { pending_node: TestNode::Step3, .. })
    ));
    assert!(matches!(resume(&engine, "t8"), Ok(ExecutionResult::Completed { .. })));
    assert_eq!(*cp.written.borrow(), vec![1, 2]);
}

#[test]
fn a_suspension_comes_before_the_step_limit() {
    let engine = Engine::new().with_max_steps(1).with_interrupt_before(TestNode::Step2);
    let (ctx, state) = start("t9");
    assert!(matches!(
        execute(&engine, ctx, state),
        Ok(ExecutionResult::Suspended { pending_node: TestNode::Step2, .. })
    ));
}

#[test]
fn nothing_can_be_resumed_without_a_checkpoint() {
    match resume(&Engine::new(), "t10") {
        Err(GraphError::CheckpointError(message)) => {
            assert_eq!(message, "Cannot resume: no checkpoint configured");
        }
        _ => panic!("Expected an error"),
    }
    let cp = MockCheckpoint::new();
    let engine = Engine::new().with_checkpoint(cp, CheckpointStrategy::Always);
    match resume(&engine, "t10") {
        Err(GraphError::CheckpointError(message)) => {
            assert_eq!(message, "No checkpoint found for thread_id: t10");
        }
        _ => panic!("Expected an error"),
    }
}

#[test]
fn a_broken_checkpoint_store_ends_the_execution() {
    let cp = MockCheckpoint { broken: true, ..MockCheckpoint::new() };
    let engine = Engine::new().with_checkpoint(cp.clone(), CheckpointStrategy::Always);
    let (ctx, state) = start("t11");
    assert!(matches!(
        execute(&engine, ctx, state),
        Err(GraphError::CheckpointError(message)) if message == "disk full"
    ));
    assert!(matches!(
        resume(&engine, "t11"),
        Err(GraphError::CheckpointError(message)) if message == "disk full"
    ));

    let engine = Engine::new()
        .with_interrupt_before(TestNode::Step1)
        .with_checkpoint(cp.clone(), CheckpointStrategy::OnSuspendOnly);
    let (ctx, state) = start("t11");
    assert!(matches!(
        execute(&engine, ctx, state),
        Err(GraphError::CheckpointError(message)) if message == "disk full"
    ));

    // A cancelled execution is cancelled even so.
    let token = CancellationToken::new();
    token.cancel();
    let engine = Engine::new()
        .with_cancel_token(token)
        .with_checkpoint(cp, CheckpointStrategy::OnSuspendOnly);
    let (ctx, state) = start("t11");
    assert!(matches!(execute(&engine, ctx, state), Err(GraphError::Cancelled)));
}

#[test]
fn errors_of_nodes_and_of_merging_are_told_apart() {
    let engine = Engine::new();
    let ctx = ExecutionContext::new("t12".to_string(), TestNode::Faulty);
    assert!(matches!(
        execute(&engine, ctx, TestState { count: 0 }),
        Err(GraphError::NodeError(message)) if message == "node failed"
    ));

    let (ctx, state) = start("t12");
    let step = engine.on_executed(TestNode::Step1, ctx, state, Ok(TestDelta::Impossible));
    assert!(matches!(
        step,
        GraphStep::Finish(Err(GraphError::LogicalError(message))) if message == "cannot be merged"
    ));
}

#[test]
fn an_execution_without_a_next_node_is_complete() {
    let engine = Engine::new().with_max_steps(0);
    let (mut ctx, state) = start("t13");
    ctx.next_node = None;
    assert!(matches!(execute(&engine, ctx, state), Ok(ExecutionResult::Completed { .. })));
    let (ctx, state) = start("t13");
    assert!(matches!(execute(&engine, ctx, state), Err(GraphError::MaxStepsExceeded(0))));
}

#[test]
fn a_finished_checkpoint_hands_the_context_on() {
    let engine = Engine::new().with_checkpoint(MockCheckpoint::new(), CheckpointStrategy::Always);
    let (ctx, state) = start("t14");
    match engine.on_executed(TestNode::Step1, ctx, state, Ok(TestDelta::Increment)) {
        GraphStep::Save { reason: SaveReason::Stepped, ctx, state } => {
            assert_eq!((ctx.step_count, state.count), (1, 1));
            assert_eq!(ctx.next_node, Some(TestNode::Step2));
            assert!(matches!(
                engine.on_saved(SaveReason::Stepped, ctx, state, Ok(())),
                GraphStep::Execute { node: TestNode::Step2, .. }
            ));
        }
        _ => panic!("a checkpoint is due"),
    }
}

#[test]
fn a_suspended_execution_suspends_again_unchanged() {
    let cp = MockCheckpoint::new();
    let engine = Engine::new()
        .with_interrupt_before(TestNode::Step2)
        .with_checkpoint(cp.clone(), CheckpointStrategy::OnSuspendOnly);
    let (ctx, state) = start("t15");
    let ctx = ctx.with_metadata("user".to_string(), "a".to_string());
    let mut outcome = execute(&engine, ctx, state).unwrap();
    for written in 1..4 {
        match outcome {
            ExecutionResult::Suspended { state, pending_node, ctx } => {
                assert_eq!(pending_node, TestNode::Step2);
                assert_eq!((state.count, ctx.step_count, ctx.is_resuming), (1, 1, false));
                assert_eq!(ctx.thread_id, "t15");
                assert_eq!(ctx.metadata.get("user"), Some("a"));
                assert_eq!(cp.written.borrow().len(), written);
                outcome = execute(&engine, ctx, state).unwrap();
            }
            _ => panic!("Expected Suspended result"),
        }
    }
}

#[test]
fn a_resumed_execution_ends_as_an_uninterrupted_one() {
    for listed in [TestNode::Step1, TestNode::Step2, TestNode::Step3] {
        for max_steps in [2, 3, 10] {
            let cp = MockCheckpoint::new();
            let engine = Engine::new()
                .with_max_steps(max_steps)
                .with_interrupt_before(listed.clone())
                .with_checkpoint(cp, CheckpointStrategy::OnSuspendOnly);
            let (ctx, state) = start("t16");
            assert!(matches!(
                execute(&engine, ctx, state),
                Ok(ExecutionResult::Suspended { pending_node, .. }) if pending_node == listed
            ));
            let resumed = resume(&engine, "t16");

            let (ctx, state) = start("t16");
            let direct = execute(&Engine::new().with_max_steps(max_steps), ctx, state);
            match (resumed, direct) {
                (
                    Ok(ExecutionResult::Completed { state: a, ctx: c }),
                    Ok(ExecutionResult::Completed { state: b, ctx: d }),
                ) => {
                    assert_eq!(a, b);
                    assert_eq!((c.step_count, c.next_node), (d.step_count, d.next_node));
                    assert_eq!(max_steps > 2, true);
                }
                (
                    Err(GraphError::MaxStepsExceeded(a)),
                    Err(GraphError::MaxStepsExceeded(b)),
                ) => assert_eq!((a, b), (2, 2)),
                _ => panic!("the outcomes differ"),
            }
        }
    }
}

#[test]
fn a_failing_merge_comes_before_the_strategy() {
    // This strategy could not say whether a checkpoint is due after the step.
    let engine = Engine::new()
        .with_checkpoint(MockCheckpoint::new(), CheckpointStrategy::EveryNSteps(0));
    let (ctx, state) = start("t17");
    assert!(matches!(
        engine.on_executed(TestNode::Step1, ctx, state, Ok(TestDelta::Impossible)),
        GraphStep::Finish(Err(GraphError::LogicalError(message))) if message == "cannot be merged"
    ));
    let (ctx, state) = start("t17");
    assert!(matches!(
        engine.on_executed(TestNode::Step1, ctx, state, Err("down".to_string())),
        GraphStep::Finish(Err(GraphError::NodeError(message))) if message == "down"
    ));

    // Nor could this step be counted.
    let engine = Engine::new();
    let (mut ctx, state) = start("t17");
    ctx.step_count = usize::MAX;
    assert!(matches!(
        engine.on_executed(TestNode::Step1, ctx, state, Ok(TestDelta::Impossible)),
        GraphStep::Finish(Err(GraphError::LogicalError(message))) if message == "cannot be merged"
    ));
}
