use core_engine::fault::Fault;
use core_engine::fault::FaultKind;
use core_engine::fault::NodeError;
use core_engine::node::concurrency::ConcurrencyLimitNode;
use core_engine::node::timeout::TimeoutNode;
use std::future::Future;
use std::sync::atomic::AtomicBool;
use std::sync::atomic::AtomicUsize;
use std::sync::atomic::Ordering;
use std::sync::Arc;
use std::time::Duration;

fn block_on<F: Future>(future: F) -> F::Output {
    tokio::runtime::Builder::new_current_thread().enable_time().build().unwrap().block_on(future)
}

/// Takes a while, and notes that it came to its end.
struct SlowNode {
    delay: Duration,
    finished: AtomicBool,
}

impl SlowNode {
    fn new(delay: Duration) -> Self {
        Self { delay, finished: AtomicBool::new(false) }
    }

    async fn execute(&self) -> Result<String, String> {
        tokio::time::sleep(self.delay).await;
        self.finished.store(true, Ordering::SeqCst);
        Ok("Success".to_string())
    }
}

/// Runs the node until it finishes or its limit elapses.
async fn execute(node: &TimeoutNode<SlowNode>) -> Result<String, NodeError<String>> {
    let limit = Duration::from_nanos(node.timeout as u64);
    node.on_executed(tokio::time::timeout(limit, node.node.execute()).await.ok())
}

#[test]
fn test_successful_execution_within_timeout() {
    let mock = SlowNode::new(Duration::from_millis(5));
    let node = TimeoutNode::new(mock, Duration::from_millis(50).as_nanos());
    let res = block_on(execute(&node));
    assert!(res.is_ok());
    assert_eq!(res.unwrap(), "Success");
    assert!(node.node.finished.load(Ordering::SeqCst));
}

#[test]
fn test_execution_aborted_on_timeout() {
    let mock = SlowNode::new(Duration::from_millis(100));
    let node = TimeoutNode::new(mock, Duration::from_millis(10).as_nanos());
    let res = block_on(execute(&node));
    assert!(res.is_err());
    let err = match res.unwrap_err() {
        NodeError::Fault(fault) => fault,
        NodeError::Inner(_) => panic!("the node did not finish"),
    };
    assert_eq!(err.kind(), FaultKind::TimedOut);
    assert_eq!(err.message(), "Node execution exceeded the configured timeout");
    assert!(!node.node.finished.load(Ordering::SeqCst));
}

#[test]
fn an_error_of_the_node_is_passed_on() {
    let node = TimeoutNode::new((), 1);
    assert_eq!(
        node.on_executed::<u8, &str>(Some(Err("broken"))),
        Err(NodeError::Inner("broken"))
    );
    assert_eq!(node.on_executed::<u8, &str>(Some(Ok(3))), Ok(3));
}

/// Takes a while, may fail, and notes how many requests it served at once.
struct MockNode {
    delay: Duration,
    should_fail: bool,
    active: AtomicUsize,
    max_concurrent_requests: AtomicUsize,
}

impl MockNode {
    fn new(delay: Duration, should_fail: bool) -> Self {
        let active = AtomicUsize::new(0);
        Self { delay, should_fail, active, max_concurrent_requests: AtomicUsize::new(0) }
    }

    async fn execute(&self) -> Result<String, String> {
        let active = self.active.fetch_add(1, Ordering::SeqCst) + 1;
        self.max_concurrent_requests.fetch_max(active, Ordering::SeqCst);
        tokio::time::sleep(self.delay).await;
        self.active.fetch_sub(1, Ordering::SeqCst);
        if self.should_fail {
            Err("Mock error".to_string())
        } else {
            Ok("Success".to_string())
        }
    }
}

/// Waits for a permit, asks the node, and runs what it wraps.
async fn run(node: &ConcurrencyLimitNode<MockNode>) -> Result<String, NodeError<String>> {
    let permit = node.no_of_requests.acquire().await;
    node.on_acquired(permit.is_ok()).map_err(NodeError::Fault)?;
    node.node.execute().await.map_err(NodeError::Inner)
}

#[test]
fn test_successful_execution() {
    let node = ConcurrencyLimitNode::new(MockNode::new(Duration::from_millis(5), false), 2);
    let res = block_on(run(&node));
    assert!(res.is_ok());
    assert_eq!(res.unwrap(), "Success");
}

#[test]
fn test_error_propagation() {
    let node = ConcurrencyLimitNode::new(MockNode::new(Duration::from_millis(5), true), 2);
    let res = block_on(run(&node));
    assert!(res.is_err());
    assert_eq!(res.unwrap_err(), NodeError::Inner("Mock error".to_string()));
}

#[test]
fn test_concurrency_limit_is_enforced() {
    let max_allowed_concurrency = 2;
    let mock = MockNode::new(Duration::from_millis(100), false);
    let node = Arc::new(ConcurrencyLimitNode::new(mock, max_allowed_concurrency));
    block_on(async {
        let mut handles = Vec::new();
        for _ in 0..10 {
            let node = node.clone();
            handles.push(tokio::spawn(async move { run(&node).await }));
        }
        for handle in handles {
            assert!(handle.await.unwrap().is_ok());
        }
    });
    let max_observed = node.node.max_concurrent_requests.load(Ordering::SeqCst);
    assert_eq!(max_observed, max_allowed_concurrency);
    assert_eq!(node.no_of_requests.available_permits(), max_allowed_concurrency);
}

#[test]
fn test_semaphore_closure_yields_broken_pipe() {
    let node = ConcurrencyLimitNode::new(MockNode::new(Duration::from_millis(5), false), 1);
    assert_eq!(node.name(), "ConcurrencyLimitNode");
    node.no_of_requests.close();

    let res = block_on(run(&node));
    assert!(res.is_err());
    let err = match res.unwrap_err() {
        NodeError::Fault(fault) => fault,
        NodeError::Inner(_) => panic!("the node was executed"),
    };
    assert_eq!(err, Fault::SemaphoreClosed);
    assert_eq!(err.kind(), FaultKind::BrokenPipe);
    assert_eq!(err.message(), "Concurrency semaphore closed");
    assert_eq!(node.node.max_concurrent_requests.load(Ordering::SeqCst), 0);
}
