use core_engine::idempotency::IdempotencyStatus;
use core_engine::node::idempotency::IdempotencyError;
use core_engine::node::idempotency::IdempotencyNode;
use core_engine::node::idempotency::IdempotencyStep;
use core_engine::node::idempotency::Idempotent;
use std::collections::HashMap;

struct TestInput {
    id: String,
    should_fail: bool,
}

impl Idempotent for TestInput {
    fn get_id(&self) -> String {
        self.id.clone()
    }
}

struct MockNode;

impl MockNode {
    fn execute(&self, input: &TestInput) -> Result<Vec<String>, String> {
        if input.should_fail {
            Err("Mock Node Execution Failure".to_string())
        } else {
            Ok(vec![format!("Processed {}", input.id)])
        }
    }
}

#[derive(Default)]
struct MockStore {
    state: HashMap<String, IdempotencyStatus>,
    broken: bool,
}

impl MockStore {
    fn seed(&mut self, id: &str, status: IdempotencyStatus) {
        self.state.insert(id.to_string(), status);
    }

    fn get_status(&self, id: &str) -> Option<IdempotencyStatus> {
        self.state.get(id).copied()
    }

    fn check_and_lock(&mut self, id: &str) -> Result<IdempotencyStatus, String> {
        let current = self.get_status(id).unwrap_or(IdempotencyStatus::New);
        if current == IdempotencyStatus::New {
            self.seed(id, IdempotencyStatus::InProgress);
        }
        Ok(current)
    }

    fn store(&mut self, id: &str, status: IdempotencyStatus) -> Result<(), String> {
        if self.broken {
            return Err("store is down".to_string());
        }
        self.seed(id, status);
        Ok(())
    }
}

type Outcome = Result<Vec<String>, IdempotencyError<String, String>>;

/// Processes one item as the node says.
fn execute(node: &mut IdempotencyNode<MockNode, MockStore>, input: &TestInput) -> Outcome {
    let id = node.begin(input);
    let status = node.store.check_and_lock(&id);
    let mut step: IdempotencyStep<String, String, String> = node.on_checked(status);
    loop {
        step = match step {
            IdempotencyStep::Execute => {
                let result = node.inner_node.execute(input);
                node.on_executed(result)
            }
            IdempotencyStep::MarkSuccess(output) => {
                let stored = node.store.store(&id, IdempotencyStatus::Completed);
                node.on_marked(output, stored)
            }
            IdempotencyStep::ReleaseLock(error) => {
                let _ = node.store.store(&id, IdempotencyStatus::New);
                node.on_released(error)
            }
            IdempotencyStep::Finish(result) => return result,
        };
    }
}

fn node() -> IdempotencyNode<MockNode, MockStore> {
    IdempotencyNode::new(MockNode, MockStore::default())
}

fn input(id: &str, should_fail: bool) -> TestInput {
    TestInput { id: id.to_string(), should_fail }
}

#[test]
fn test_new_item_processes_and_marks_completed() {
    let mut node = node();
    let result = execute(&mut node, &input("item_1", false)).unwrap();
    assert_eq!(result, vec!["Processed item_1"]);
    assert_eq!(node.store.get_status("item_1"), Some(IdempotencyStatus::Completed));
}

#[test]
fn test_node_failure_releases_lock() {
    let mut node = node();
    let result = execute(&mut node, &input("item_2", true));
    assert!(result.is_err());
    assert_eq!(node.store.get_status("item_2"), Some(IdempotencyStatus::New));
}

#[test]
fn test_completed_item_is_skipped() {
    let mut node = node();
    node.store.seed("item_3", IdempotencyStatus::Completed);
    let result = execute(&mut node, &input("item_3", false)).unwrap();
    assert!(result.is_empty());
    assert_eq!(node.store.get_status("item_3"), Some(IdempotencyStatus::Completed));
}

#[test]
fn test_in_progress_item_is_skipped() {
    let mut node = node();
    node.store.seed("item_4", IdempotencyStatus::InProgress);
    let result = execute(&mut node, &input("item_4", false)).unwrap();
    assert!(result.is_empty());
    assert_eq!(node.store.get_status("item_4"), Some(IdempotencyStatus::InProgress));
}

#[test]
fn a_failed_item_can_be_processed_again_and_then_only_once() {
    let mut node = node();
    assert_eq!(node.name(), "IdempotencyNode");
    assert!(matches!(
        execute(&mut node, &input("item_5", true)),
        Err(IdempotencyError::Inner(message)) if message == "Mock Node Execution Failure"
    ));
    assert_eq!(execute(&mut node, &input("item_5", false)).unwrap(), vec!["Processed item_5"]);
    assert!(execute(&mut node, &input("item_5", false)).unwrap().is_empty());
    assert!(execute(&mut node, &input("item_5", true)).unwrap().is_empty());
}

#[test]
fn errors_of_the_store_are_handed_back_unless_the_node_failed() {
    let mut node = node();
    node.store.broken = true;
    assert!(matches!(
        execute(&mut node, &input("item_6", false)),
        Err(IdempotencyError::Store(message)) if message == "store is down"
    ));
    assert!(matches!(
        execute(&mut node, &input("item_7", true)),
        Err(IdempotencyError::Inner(message)) if message == "Mock Node Execution Failure"
    ));
    assert!(matches!(
        node.on_checked::<String, String, &str>(Err("unreachable")),
        IdempotencyStep::Finish(Err(IdempotencyError::Store("unreachable")))
    ));
}
