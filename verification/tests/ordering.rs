use core_engine::node::ordering::OrderState;
use core_engine::node::ordering::OrderingNode;
use core_engine::node::ordering::Sequenced;
use core_engine::node::Node;

struct TestInput {
    id: u64,
    val: String,
    should_fail: bool,
}

impl Sequenced for TestInput {
    fn get_sequence_id(&self) -> u64 {
        self.id
    }
}

struct MockNode;

impl Node for MockNode {
    type Input = TestInput;
    type Output = Vec<String>;
    type Error = String;

    fn execute(&mut self, input: &TestInput) -> Result<Vec<String>, String> {
        if input.should_fail {
            Err("Mock Failure".to_string())
        } else {
            Ok(vec![input.val.clone()])
        }
    }

    fn flush(&mut self) -> Result<Vec<String>, String> {
        Ok(Vec::new())
    }
}

fn item(id: u64, val: &str) -> TestInput {
    TestInput { id, val: val.to_string(), should_fail: false }
}

fn failing(id: u64, val: &str) -> TestInput {
    TestInput { id, val: val.to_string(), should_fail: true }
}

#[test]
fn test_in_order_execution() {
    let mut node = OrderingNode::new(MockNode, 1);

    let res1 = node.execute(&item(1, "A")).unwrap();
    assert_eq!(res1, vec!["A"], "Item 1 should emit immediately");

    let res2 = node.execute(&item(2, "B")).unwrap();
    assert_eq!(res2, vec!["B"], "Item 2 should emit immediately");
}

#[test]
fn test_out_of_order_execution() {
    let mut node = OrderingNode::new(MockNode, 1);

    let res3 = node.execute(&item(3, "C")).unwrap();
    assert!(res3.is_empty(), "Item 3 should be buffered");

    let res2 = node.execute(&item(2, "B")).unwrap();
    assert!(res2.is_empty(), "Item 2 should be buffered");

    let res1 = node.execute(&item(1, "A")).unwrap();
    assert_eq!(res1, vec!["A", "B", "C"], "Item 1 should unblock and emit buffered items");

    assert_eq!(node.state.next_expected_id(), 4);
    assert_eq!(node.state.depth(), 0);
}

#[test]
fn test_failure_prevents_deadlock() {
    let mut node = OrderingNode::new(MockNode, 1);

    let _ = node.execute(&item(3, "C"));

    let err2 = node.execute(&failing(2, "B"));
    assert!(err2.is_err());

    let res1 = node.execute(&item(1, "A")).unwrap();
    assert_eq!(res1, vec!["A", "C"]);
    assert_eq!(node.state.next_expected_id(), 4);
}

#[test]
fn test_flush_force_emits_buffer() {
    let mut node = OrderingNode::new(MockNode, 1);

    let _ = node.execute(&item(2, "B"));
    let _ = node.execute(&item(3, "C"));
    assert_eq!(node.state.depth(), 2, "Items are stuck waiting for ID 1");

    let flush_res = node.flush().unwrap();
    assert_eq!(flush_res, vec!["B", "C"], "Flush should force emit the remaining items");
}

#[test]
fn a_failure_alone_is_released_with_the_next_success() {
    let mut node = OrderingNode::new(MockNode, 1);
    assert_eq!(node.name(), "OrderingNode");
    assert_eq!(node.execute(&failing(1, "A")), Err("Mock Failure".to_string()));
    assert_eq!(node.state.next_expected_id(), 1);
    assert_eq!(node.state.depth(), 1);

    assert_eq!(node.execute(&item(2, "B")), Ok(vec!["B".to_string()]));
    assert_eq!(node.state.next_expected_id(), 3);
    assert_eq!(node.state.depth(), 0);
}

#[test]
fn every_permutation_comes_out_in_order() {
    let orders: [[u64; 4]; 6] = [
        [7, 8, 9, 10],
        [10, 9, 8, 7],
        [8, 7, 10, 9],
        [9, 10, 7, 8],
        [7, 10, 8, 9],
        [10, 7, 9, 8],
    ];
    for order in orders.iter() {
        let mut node = OrderingNode::new(MockNode, 7);
        let mut emitted: Vec<String> = Vec::new();
        for id in order.iter() {
            emitted.extend(node.execute(&item(*id, &id.to_string())).unwrap());
        }
        assert_eq!(emitted, vec!["7", "8", "9", "10"]);
        assert_eq!(node.flush().unwrap(), Vec::<String>::new());
    }
}

#[test]
fn outputs_of_one_id_are_kept_together() {
    let mut state: OrderState<i32> = OrderState::new(0);
    assert_eq!(state.release(1, vec![10, 11]), Vec::<i32>::new());
    assert_eq!(state.release(1, vec![12]), Vec::<i32>::new());
    assert_eq!(state.release(0, vec![1, 2]), vec![1, 2, 10, 11, 12]);
    assert_eq!(state.next_expected_id(), 2);
}

#[test]
fn a_tombstone_replaces_what_was_buffered() {
    let mut state: OrderState<i32> = OrderState::new(0);
    assert_eq!(state.release(5, vec![50]), Vec::<i32>::new());
    state.bury(5);
    assert_eq!(state.release(9, vec![90]), Vec::<i32>::new());
    assert_eq!(state.drain(), vec![90]);
    assert_eq!(state.depth(), 0);
    assert_eq!(state.next_expected_id(), 0);
}

#[test]
fn a_failed_inner_flush_keeps_the_buffer() {
    let mut node: OrderingNode<MockNode, i32> = OrderingNode::new(MockNode, 0);
    assert_eq!(node.complete::<String>(3, Ok(vec![30])), Ok(Vec::new()));
    assert_eq!(node.complete::<String>(2, Ok(vec![20])), Ok(Vec::new()));
    assert_eq!(node.complete_flush::<String>(Err("late".to_string())), vec![20, 30]);
    assert_eq!(node.complete::<String>(4, Ok(vec![40])), Ok(Vec::new()));
    assert_eq!(node.complete_flush::<String>(Ok(vec![1])), vec![1, 40]);
}
