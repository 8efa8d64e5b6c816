use core_engine::node::backoff;
use core_engine::node::retry::base_delay;
use core_engine::node::retry::decide;
use core_engine::node::retry::ClassifyRetry;
use core_engine::node::retry::RetryNode;
use core_engine::node::retry::RetryStep;

#[derive(Debug, Clone, Copy, PartialEq, Eq)]
enum MockError {
    TimedOut,
    PermissionDenied,
}

struct MockNode {
    execution_count: usize,
    fails_until: usize,
    error: MockError,
}

impl MockNode {
    fn new(fails_until: usize, error: MockError) -> Self {
        Self { execution_count: 0, fails_until, error }
    }

    fn execute(&mut self) -> Result<String, MockError> {
        let current = self.execution_count;
        self.execution_count += 1;
        if current < self.fails_until {
            Err(self.error)
        } else {
            Ok("Success".to_string())
        }
    }
}

/// Runs the node as often as its wrapper says, without the delays.
fn execute<C: ClassifyRetry<MockError>>(
    retry: &mut RetryNode<MockNode, C>,
) -> Result<String, MockError> {
    let mut left = retry.begin();
    loop {
        let result = retry.node.execute();
        match retry.on_executed(left, result) {
            RetryStep::Finish { result, attempts } => {
                assert_eq!(attempts, retry.node.execution_count);
                return result;
            }
            RetryStep::Backoff { attempt, delay_secs, remaining, .. } => {
                assert_eq!(attempt, retry.node.execution_count);
                assert!(delay_secs <= base_delay(attempt));
                assert_eq!(remaining, left - 1);
                left = remaining;
            }
        }
    }
}

fn only_timeouts(error: &MockError) -> bool {
    *error == MockError::TimedOut
}

#[test]
fn test_successful_execution_first_try() {
    let policy = |_: &MockError| true;
    let mut retry = RetryNode::new(MockNode::new(0, MockError::TimedOut), 3, policy);
    let res = execute(&mut retry);
    assert!(res.is_ok());
    assert_eq!(res.unwrap(), "Success");
    assert_eq!(retry.node.execution_count, 1);
}

#[test]
fn test_transient_error_retries_and_succeeds() {
    let mut retry = RetryNode::new(MockNode::new(2, MockError::TimedOut), 3, only_timeouts);
    let res = execute(&mut retry);
    assert!(res.is_ok());
    assert_eq!(res.unwrap(), "Success");
    assert_eq!(retry.node.execution_count, 3);
}

#[test]
fn test_transient_error_exhausts_retries() {
    let mut retry = RetryNode::new(MockNode::new(5, MockError::TimedOut), 2, only_timeouts);
    let res = execute(&mut retry);
    assert!(res.is_err());
    assert_eq!(res.unwrap_err(), MockError::TimedOut);
    assert_eq!(retry.node.execution_count, 3);
}

#[test]
fn test_fatal_error_fails_immediately() {
    let mut retry = RetryNode::new(MockNode::new(3, MockError::PermissionDenied), 3, only_timeouts);
    let res = execute(&mut retry);
    assert!(res.is_err());
    assert_eq!(res.unwrap_err(), MockError::PermissionDenied);
    assert_eq!(retry.node.execution_count, 1);
}

#[test]
fn base_delays_double_up_to_two_minutes() {
    let delays: Vec<u64> = (1..10).map(base_delay).collect();
    assert_eq!(delays, vec![2, 4, 8, 16, 32, 64, 120, 120, 120]);
    assert_eq!(base_delay(1_000_000), 120);
    assert_eq!(base_delay(0x1_0000_0000), 120);
    assert_eq!(base_delay(0x1_0000_0003), 120);
    assert_eq!(base_delay(usize::MAX), 120);
}

#[test]
fn delays_are_spread_over_the_whole_range() {
    let retry = RetryNode::new((), 7, |_: &u8| true);
    let mut seen = [false; 3];
    let mut longest: u64 = 0;
    for _ in 0..2000 {
        match retry.on_executed::<u8, u8>(7, Err(1)) {
            RetryStep::Backoff { error, attempt, delay_secs, remaining } => {
                assert_eq!((error, attempt, remaining), (1, 1, 6));
                seen[delay_secs as usize] = true;
            }
            RetryStep::Finish { .. } => panic!("a retry was left"),
        }
        match retry.on_executed::<u8, u8>(1, Err(1)) {
            RetryStep::Backoff { attempt, delay_secs, .. } => {
                assert_eq!(attempt, 7);
                longest = longest.max(delay_secs);
            }
            RetryStep::Finish { .. } => panic!("a retry was left"),
        }
    }
    assert_eq!(seen, [true, true, true]);
    assert!(longest > 64 && longest <= 120);
}

#[test]
fn decisions_are_exact() {
    match decide::<u8, &str>(Err("busy"), true, 3, 2, 5) {
        RetryStep::Backoff { error, attempt, delay_secs, remaining } => {
            assert_eq!((error, attempt, delay_secs, remaining), ("busy", 3, 5, 1));
        }
        RetryStep::Finish { .. } => panic!("a retry was left"),
    }
    for (result, transient, remaining) in
        [(Err("busy"), true, 0), (Err("broken"), false, 2), (Ok(1u8), true, 2)]
    {
        match decide(result, transient, 3, remaining, 5) {
            RetryStep::Finish { result: last, attempts } => {
                assert_eq!((last, attempts), (result, 3));
            }
            RetryStep::Backoff { .. } => panic!("nothing to retry"),
        }
    }
}

#[test]
fn retries_without_a_policy_have_exact_delays() {
    let retry = backoff::RetryNode { node: (), retry_count: 9 };
    let mut left = retry.begin();
    let mut delays: Vec<u64> = Vec::new();
    loop {
        match retry.on_executed::<u8, &str>(left, Err("down")) {
            RetryStep::Backoff { delay_secs, remaining, .. } => {
                delays.push(delay_secs);
                left = remaining;
            }
            RetryStep::Finish { result, attempts } => {
                assert_eq!((result, attempts), (Err("down"), 10));
                break;
            }
        }
    }
    assert_eq!(delays, vec![2, 4, 8, 16, 32, 64, 120, 120, 120]);

    let once = backoff::RetryNode { node: (), retry_count: 0 };
    assert!(matches!(
        once.on_executed::<u8, &str>(once.begin(), Err("down")),
        RetryStep::Finish { result: Err("down"), attempts: 1 }
    ));
}
