use core_engine::fault::Fault;
use core_engine::fault::FaultKind;
use core_engine::node::circuit_breaker::BreakerState;
use core_engine::node::circuit_breaker::CircuitBreakerNode;

const MILLI: u128 = 1_000_000;

struct MockNode {
    should_fail: bool,
}

/// Sends one request through the breaker at time `now`.
fn execute(breaker: &mut CircuitBreakerNode<MockNode>, now: u128) -> Result<String, String> {
    let probe = match breaker.begin(now) {
        Ok(probe) => probe,
        Err(fault) => return Err(fault.message().to_string()),
    };
    let result = if breaker.node.should_fail {
        Err("Mock error".to_string())
    } else {
        Ok("Success".to_string())
    };
    breaker.record(probe, result.is_ok(), now);
    result
}

#[test]
fn test_successful_requests_stay_closed() {
    let mut breaker = CircuitBreakerNode::new(MockNode { should_fail: false }, 2, 1000 * MILLI);
    for _ in 0..5 {
        let res = execute(&mut breaker, 0);
        assert!(res.is_ok());
    }
    assert_eq!(breaker.state, BreakerState::Closed { failures: 0 });
}

#[test]
fn test_breaker_trips_open() {
    let mut breaker = CircuitBreakerNode::new(MockNode { should_fail: true }, 2, 10_000 * MILLI);

    let res1 = execute(&mut breaker, 0);
    assert_eq!(res1.unwrap_err(), "Mock error");

    let res2 = execute(&mut breaker, 0);
    assert_eq!(res2.unwrap_err(), "Mock error");

    let res3 = execute(&mut breaker, 0);
    assert_eq!(res3.unwrap_err(), "Circuit breaker tripped");
}

#[test]
fn test_half_open_success_resets_breaker() {
    let mut breaker = CircuitBreakerNode::new(MockNode { should_fail: true }, 1, 10 * MILLI);
    let _ = execute(&mut breaker, 0);

    breaker.node.should_fail = false;
    let res = execute(&mut breaker, 15 * MILLI);
    assert!(res.is_ok());
    assert_eq!(breaker.state, BreakerState::Closed { failures: 0 });
}

#[test]
fn test_half_open_failure_reopens_breaker() {
    let mut breaker = CircuitBreakerNode::new(MockNode { should_fail: true }, 1, 10 * MILLI);
    let _ = execute(&mut breaker, 0);

    let res1 = execute(&mut breaker, 15 * MILLI);
    assert_eq!(res1.unwrap_err(), "Mock error");

    let res2 = execute(&mut breaker, 15 * MILLI);
    assert_eq!(res2.unwrap_err(), "Circuit breaker tripped");
    assert_eq!(breaker.state, BreakerState::Open { until: 25 * MILLI });
}

#[test]
fn test_concurrent_half_open_rejection() {
    let mut breaker = CircuitBreakerNode::new(MockNode { should_fail: true }, 1, 10 * MILLI);
    let _ = execute(&mut breaker, 0);

    breaker.state = BreakerState::HalfOpen { probe_id: 1 };
    let res = execute(&mut breaker, 15 * MILLI);
    assert_eq!(res.unwrap_err(), "Circuit breaker is half-open");
}

#[test]
fn the_breaker_opens_exactly_until_its_time() {
    let mut breaker = CircuitBreakerNode::new(MockNode { should_fail: true }, 1, 10);
    let _ = execute(&mut breaker, 5);
    assert_eq!(breaker.state, BreakerState::Open { until: 15 });
    assert_eq!(breaker.begin(14), Err(Fault::BreakerOpen));
    assert_eq!(breaker.begin(15), Ok(Some(0)));
    assert_eq!(breaker.state, BreakerState::HalfOpen { probe_id: 0 });
    assert_eq!(breaker.probe_id, 1);
    assert_eq!(breaker.begin(16), Err(Fault::BreakerHalfOpen));
}

#[test]
fn only_the_probe_decides() {
    let mut breaker = CircuitBreakerNode::new(MockNode { should_fail: true }, 1, 10);
    assert_eq!(breaker.begin(0), Ok(None));
    let _ = execute(&mut breaker, 0);
    assert_eq!(breaker.begin(10), Ok(Some(0)));

    // A request from before the breaker opened reports late.
    breaker.record(None, true, 11);
    assert_eq!(breaker.state, BreakerState::HalfOpen { probe_id: 0 });
    breaker.record(Some(7), false, 11);
    assert_eq!(breaker.state, BreakerState::HalfOpen { probe_id: 0 });

    breaker.record(Some(0), true, 12);
    assert_eq!(breaker.state, BreakerState::Closed { failures: 0 });
}

#[test]
fn a_success_forgets_the_failures() {
    let mut breaker = CircuitBreakerNode::new(MockNode { should_fail: false }, 3, 10);
    breaker.record(None, false, 0);
    breaker.record(None, false, 0);
    assert_eq!(breaker.state, BreakerState::Closed { failures: 2 });
    breaker.record(None, true, 0);
    assert_eq!(breaker.state, BreakerState::Closed { failures: 0 });
    breaker.record(None, false, 1);
    breaker.record(None, false, 2);
    breaker.record(None, false, 3);
    assert_eq!(breaker.state, BreakerState::Open { until: 13 });
    breaker.record(None, true, 4);
    breaker.record(None, false, 4);
    assert_eq!(breaker.state, BreakerState::Open { until: 13 });
}

#[test]
fn faults_have_a_kind_and_a_message() {
    let faults = [
        (Fault::BreakerOpen, FaultKind::Other, "Circuit breaker tripped"),
        (Fault::BreakerHalfOpen, FaultKind::Other, "Circuit breaker is half-open"),
        (Fault::RateLimited, FaultKind::Other, "Rate limit exceeded"),
        (Fault::TimedOut, FaultKind::TimedOut, "Node execution exceeded the configured timeout"),
        (Fault::SemaphoreClosed, FaultKind::BrokenPipe, "Concurrency semaphore closed"),
    ];
    for (fault, kind, message) in faults.iter() {
        assert_eq!(fault.kind(), *kind);
        assert_eq!(fault.message(), *message);
    }
}
