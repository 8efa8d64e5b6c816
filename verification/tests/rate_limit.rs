use core_engine::fault::Fault;
use core_engine::node::rate_limit::RateLimitNode;
use core_engine::node::rate_limit::RateLimitState;
use core_engine::node::rate_limit::RateLimitStrategy;
use core_engine::node::rate_limit::TokenRate;

const MILLI: u128 = 1_000_000;

fn per_minute(tokens: u64) -> TokenRate {
    TokenRate { tokens, minutes: 1 }
}

fn limited(tokens: u64, strategy: RateLimitStrategy) -> RateLimitNode<()> {
    RateLimitNode::new((), per_minute(tokens), strategy, 1_000 * MILLI)
}

#[test]
fn test_initial_burst_allowed() {
    let mut node = limited(60, RateLimitStrategy::Reject);
    for i in 0..60 {
        let res = node.begin(1_000 * MILLI);
        assert!(res.is_ok(), "Failed on iteration {}", i);
    }
    assert_eq!(node.begin(1_000 * MILLI), Err(Fault::RateLimited));
}

#[test]
fn test_rate_limit_rejection() {
    let mut node = limited(5, RateLimitStrategy::Reject);
    for _ in 0..5 {
        assert!(node.begin(1_000 * MILLI).is_ok());
    }
    let res = node.begin(1_000 * MILLI);
    assert!(res.is_err());
    assert_eq!(res.unwrap_err().message(), "Rate limit exceeded");
}

#[test]
fn test_tokens_regenerate_over_time() {
    let mut node = limited(60, RateLimitStrategy::Reject);
    for _ in 0..60 {
        assert!(node.begin(1_000 * MILLI).is_ok());
    }
    assert!(node.begin(1_000 * MILLI).is_err());
    assert!(node.begin(2_100 * MILLI).is_ok());
    assert!(node.begin(2_100 * MILLI).is_err());
}

#[test]
fn test_tokens_do_not_exceed_capacity() {
    let start = 4_000_000 * MILLI;
    let mut node = RateLimitNode::new((), per_minute(600), RateLimitStrategy::Reject, start);
    for _ in 0..600 {
        assert!(node.begin(start).is_ok());
    }
    node.state.last_updated -= 3_600_000 * MILLI;
    assert!(node.begin(start + 110 * MILLI).is_ok());
    assert!(node.state.tokens <= 600 * node.tokens_per_minute.token());
    assert_eq!(node.state.tokens, 599 * node.tokens_per_minute.token());
}

#[test]
fn test_sleep_strategy_waits_for_tokens() {
    let mut node = limited(600, RateLimitStrategy::Sleep);
    for _ in 0..600 {
        assert_eq!(node.begin(1_000 * MILLI), Ok(None));
    }
    assert_eq!(node.begin(1_000 * MILLI), Ok(Some(100 * MILLI)));
}

#[test]
fn test_sleep_strategy_concurrent_staggering() {
    let mut node = limited(600, RateLimitStrategy::Sleep);
    for _ in 0..600 {
        let _ = node.begin(1_000 * MILLI);
    }
    let waits: Vec<Result<Option<u128>, Fault>> =
        (0..3).map(|_| node.begin(1_000 * MILLI)).collect();
    assert_eq!(waits, vec![Ok(Some(100 * MILLI)), Ok(Some(200 * MILLI)), Ok(Some(300 * MILLI))]);
}

#[test]
fn a_token_is_there_exactly_when_it_has_regenerated() {
    let mut node = limited(7, RateLimitStrategy::Reject);
    for _ in 0..7 {
        assert!(node.begin(1_000 * MILLI).is_ok());
    }
    // A seventh of a minute is not a whole number of nanoseconds.
    let token = 8_571_428_572;
    assert_eq!(node.begin(1_000 * MILLI + token - 1), Err(Fault::RateLimited));
    assert_eq!(node.begin(1_000 * MILLI + token), Ok(None));
}

#[test]
fn less_than_a_token_per_minute_never_suffices_at_once() {
    let rate = TokenRate { tokens: 1, minutes: 2 };
    let mut node = RateLimitNode::new((), rate, RateLimitStrategy::Sleep, 0);
    assert_eq!(node.state, RateLimitState { last_updated: 0, tokens: 60_000 * MILLI as i128 });
    assert_eq!(node.begin(0), Ok(Some(60_000 * MILLI)));
    assert_eq!(node.begin(60_000 * MILLI), Ok(Some(120_000 * MILLI)));
}

#[test]
fn an_earlier_time_regenerates_nothing() {
    let mut node = limited(1, RateLimitStrategy::Reject);
    assert_eq!(node.begin(1_000 * MILLI), Ok(None));
    assert_eq!(node.begin(0), Err(Fault::RateLimited));
    assert_eq!(node.state, RateLimitState { last_updated: 0, tokens: 0 });
}

#[test]
fn a_rejection_consumes_nothing() {
    let mut node = limited(60, RateLimitStrategy::Reject);
    for _ in 0..60 {
        assert!(node.begin(1_000 * MILLI).is_ok());
    }
    for _ in 0..5 {
        assert!(node.begin(1_500 * MILLI).is_err());
    }
    assert_eq!(node.state.tokens * 2, node.tokens_per_minute.token());
    assert!(node.begin(2_000 * MILLI).is_ok());
}

#[test]
fn a_long_pause_fills_a_deep_debt() {
    let mut node = limited(u64::MAX, RateLimitStrategy::Sleep);
    node.state.tokens = i128::MIN / 2;
    assert_eq!(node.begin(u128::MAX), Ok(None));
    let full = u64::MAX as i128 * 60_000 * MILLI as i128;
    assert_eq!(node.state.tokens, full - node.tokens_per_minute.token());
}

#[test]
fn the_rate_is_kept_over_time() {
    let mut node = limited(90, RateLimitStrategy::Reject);
    let mut served: u64 = 0;
    for tick in 0..3_000u128 {
        if node.begin((1_000 + tick * 100) * MILLI).is_ok() {
            served += 1;
        }
    }
    // Five minutes, less a tick, and the burst at the start.
    assert!(served <= 90 + 450);
    assert!(served >= 90 + 448);
}

#[test]
fn no_request_runs_ahead_of_its_token() {
    let mut node = limited(50, RateLimitStrategy::Sleep);
    let token = node.tokens_per_minute.token();
    let full = 50 * token;
    let mut now = 1_000 * MILLI;
    let mut waited = false;
    for served in 0..200i128 {
        now += (served as u128 * 7_919 % 900) * MILLI;
        let wait = node.begin(now).unwrap().unwrap_or(0);
        waited = waited || wait > 0;
        let regenerated = (now + wait - 1_000 * MILLI) as i128 * 50;
        assert!((served + 1) * token <= full + regenerated);
        if wait > 0 {
            assert!((served + 1) * token > full + regenerated - 50);
        }
    }
    assert!(waited);
}
