//! Limits how often a node is called.

use crate::fault::Fault;
use vstd::prelude::*;

verus! {

/// How many nanoseconds a minute has.
pub const MINUTE_NANOS: u128 = 60_000_000_000;

/// A number of tokens per minute, as a fraction: `tokens` every `minutes` minutes.
///
/// A bucket of this rate is filled in parts of which [`TokenRate::token`] make a token, chosen so
/// that `tokens` parts regenerate every nanosecond.
#[derive(Debug, Clone, Copy, PartialEq, Eq, Structural)]
pub struct TokenRate {
    /// How many tokens regenerate.
    pub tokens: u64,
    /// In how many minutes.
    pub minutes: u64,
}

impl TokenRate {
    /// Something regenerates.
    pub open spec fn positive(self) -> bool {
        self.tokens > 0 && self.minutes > 0
    }

    /// How many parts make one token.
    pub open spec fn one(self) -> int {
        MINUTE_NANOS * self.minutes
    }

    /// How many parts a full bucket holds: the tokens of one minute.
    pub open spec fn capacity(self) -> int {
        MINUTE_NANOS * self.tokens
    }

    /// What a bucket that holds `level` parts holds after `elapsed` nanoseconds.
    pub open spec fn regenerated(self, level: int, elapsed: int) -> int {
        let filled = level + elapsed * self.tokens;
        if filled < self.capacity() {
            filled
        } else {
            self.capacity()
        }
    }

    /// The least number of nanoseconds after which a bucket that holds `level` parts holds a
    /// whole token.
    pub open spec fn wait(self, level: int) -> int {
        (self.one() - level + self.tokens - 1) / self.tokens as int
    }

    /// How many parts make one token.
    pub fn token(&self) -> (parts: i128)
        ensures
            parts == self.one(),
            0 <= parts <= 0x1_0000_0000_0000_0000 * MINUTE_NANOS,
    {
        assert(MINUTE_NANOS * self.minutes <= MINUTE_NANOS * 0x1_0000_0000_0000_0000)
            by (nonlinear_arith)
            requires
                self.minutes <= 0x1_0000_0000_0000_0000,
        ;
        MINUTE_NANOS as i128 * self.minutes as i128
    }

    fn full(&self) -> (parts: i128)
        ensures
            parts == self.capacity(),
            0 <= parts <= 0x1_0000_0000_0000_0000 * MINUTE_NANOS,
    {
        assert(MINUTE_NANOS * self.tokens <= MINUTE_NANOS * 0x1_0000_0000_0000_0000)
            by (nonlinear_arith)
            requires
                self.tokens <= 0x1_0000_0000_0000_0000,
        ;
        MINUTE_NANOS as i128 * self.tokens as i128
    }
}

/// What a token bucket holds.
#[derive(Debug, Clone, Copy, PartialEq, Eq, Structural)]
pub struct RateLimitState {
    /// When it was last looked at, in nanoseconds since a fixed origin.
    pub last_updated: u128,
    /// How many parts it holds. It is negative while requests wait for tokens that they have
    /// consumed already.
    pub tokens: i128,
}

/// What is done with a request that finds no token.
#[derive(Debug, Clone, Copy, PartialEq, Eq, Structural)]
pub enum RateLimitStrategy {
    /// It is rejected at once.
    Reject,
    /// It waits until a token regenerates.
    Sleep,
}

impl RateLimitState {
    /// What the bucket holds at time `now`. Time does not run backwards: an earlier time counts as
    /// the last one.
    pub open spec fn level_at(self, rate: TokenRate, now: u128) -> int {
        rate.regenerated(
            self.tokens as int,
            if now > self.last_updated {
                now - self.last_updated
            } else {
                0
            },
        )
    }

    /// What a request at time `now` is told: how many nanoseconds to wait, if at all, or that it
    /// is rejected.
    pub open spec fn admission(
        self,
        rate: TokenRate,
        strategy: RateLimitStrategy,
        now: u128,
    ) -> Result<Option<u128>, Fault> {
        let level = self.level_at(rate, now);
        if level >= rate.one() {
            Ok(None)
        } else {
            match strategy {
                RateLimitStrategy::Reject => Err(Fault::RateLimited),
                RateLimitStrategy::Sleep => Ok(Some(rate.wait(level) as u128)),
            }
        }
    }

    /// The bucket once a request asked at time `now`. Every request that is not rejected consumes
    /// a token, also one that has to wait for it, so that no other request takes that token.
    pub open spec fn after_admission(
        self,
        rate: TokenRate,
        strategy: RateLimitStrategy,
        now: u128,
    ) -> RateLimitState {
        let level = self.level_at(rate, now);
        RateLimitState {
            last_updated: now,
            tokens: if self.admission(rate, strategy, now) is Ok {
                (level - rate.one()) as i128
            } else {
                level as i128
            },
        }
    }

    /// The bucket holds no more than its capacity.
    pub open spec fn within(self, rate: TokenRate) -> bool {
        self.tokens <= rate.capacity()
    }

    /// Another token can be consumed within the range of the counter.
    pub open spec fn has_room(self, rate: TokenRate) -> bool {
        self.tokens > i128::MIN + rate.one()
    }
}

/// A node wrapper that enforces a rate limit with a token bucket.
///
/// Tokens regenerate continuously, up to the tokens of one minute. A request takes one token, or
/// is rejected or delayed as the strategy says.
///
/// A request asks with [`RateLimitNode::begin`], waits if it is told to, and runs the inner node.
pub struct RateLimitNode<N> {
    /// The node whose calls are limited.
    pub node: N,
    /// What is done with requests that find no token.
    pub strategy: RateLimitStrategy,
    /// How fast tokens regenerate, and how many there can be.
    pub tokens_per_minute: TokenRate,
    /// The token bucket.
    pub state: RateLimitState,
}

impl<N> RateLimitNode<N> {
    /// Limits the calls of `node`, with a bucket that is full at time `now`.
    pub fn new(node: N, tokens_per_minute: TokenRate, strategy: RateLimitStrategy, now: u128) -> (
    limited: Self)
        requires
            tokens_per_minute.positive(),
        ensures
            limited.node == node,
            limited.tokens_per_minute == tokens_per_minute,
            limited.strategy == strategy,
            limited.state.last_updated == now,
            limited.state.tokens == tokens_per_minute.capacity(),
    {
        let state = RateLimitState { last_updated: now, tokens: tokens_per_minute.full() };
        RateLimitNode { node, strategy, tokens_per_minute, state }
    }

    fn regenerate(&self, now: u128) -> (level: i128)
        requires
            self.tokens_per_minute.positive(),
            self.state.within(self.tokens_per_minute),
            self.state.has_room(self.tokens_per_minute),
        ensures
            level == self.state.level_at(self.tokens_per_minute, now),
            level >= self.state.tokens,
    {
        let rate = self.tokens_per_minute;
        let elapsed: u128 = if now > self.state.last_updated {
            now - self.state.last_updated
        } else {
            0
        };
        let full: i128 = rate.full();
        let token: i128 = rate.token();
        let tokens: i128 = self.state.tokens;
        // The difference need not fit a signed number.
        let missing: u128 = if tokens >= 0 {
            (full - tokens) as u128
        } else {
            full as u128 + (-(tokens + 1)) as u128 + 1
        };
        let regenerates: u128 = rate.tokens as u128;
        assert(missing == rate.capacity() - tokens);
        if elapsed > missing / regenerates {
            assert(elapsed * regenerates >= missing) by (nonlinear_arith)
                requires
                    elapsed > missing / regenerates,
                    regenerates > 0,
            ;
            full
        } else {
            assert(0 <= elapsed * regenerates <= missing) by (nonlinear_arith)
                requires
                    elapsed <= missing / regenerates,
                    regenerates > 0,
            ;
            let gained: u128 = elapsed * regenerates;
            if gained > i128::MAX as u128 {
                // Split, because the sum fits although the summand does not.
                tokens + i128::MAX + (gained - i128::MAX as u128) as i128
            } else {
                tokens + gained as i128
            }
        }
    }

    /// Asks whether a request at time `now` may run the inner node, and how many nanoseconds it
    /// waits before, if at all.
    pub fn begin(&mut self, now: u128) -> (admission: Result<Option<u128>, Fault>)
        requires
            old(self).tokens_per_minute.positive(),
            old(self).state.within(old(self).tokens_per_minute),
            old(self).state.has_room(old(self).tokens_per_minute),
        ensures
            admission == old(self).state.admission(
                old(self).tokens_per_minute,
                old(self).strategy,
                now,
            ),
            final(self).state == old(self).state.after_admission(
                old(self).tokens_per_minute,
                old(self).strategy,
                now,
            ),
            final(self).state.within(old(self).tokens_per_minute),
            final(self).node == old(self).node,
            final(self).strategy == old(self).strategy,
            final(self).tokens_per_minute == old(self).tokens_per_minute,
    {
        let rate = self.tokens_per_minute;
        let token: i128 = rate.token();
        let level: i128 = self.regenerate(now);
        self.state.last_updated = now;
        if level >= token {
            self.state.tokens = level - token;
            return Ok(None);
        }
        match self.strategy {
            RateLimitStrategy::Reject => {
                self.state.tokens = level;
                Err(Fault::RateLimited)
            },
            RateLimitStrategy::Sleep => {
                let deficit: u128 = (token - level) as u128;
                let regenerates: u128 = rate.tokens as u128;
                let wait: u128 = (deficit + (regenerates - 1)) / regenerates;
                self.state.tokens = level - token;
                Ok(Some(wait))
            },
        }
    }
}

proof fn lemma_bounds(rate: TokenRate)
    ensures
        0 <= rate.one() <= i128::MAX,
        0 <= rate.capacity() <= i128::MAX,
{
    assert(0 <= MINUTE_NANOS * rate.minutes <= MINUTE_NANOS * 0x1_0000_0000_0000_0000)
        by (nonlinear_arith)
        requires
            0 <= rate.minutes <= 0x1_0000_0000_0000_0000,
    ;
    assert(0 <= MINUTE_NANOS * rate.tokens <= MINUTE_NANOS * 0x1_0000_0000_0000_0000)
        by (nonlinear_arith)
        requires
            0 <= rate.tokens <= 0x1_0000_0000_0000_0000,
    ;
}

/// A request that is told to wait waits exactly as long as it must: then its token has
/// regenerated, and a nanosecond earlier it has not.
pub proof fn waits_no_longer_than_needed(rate: TokenRate, level: int)
    requires
        rate.positive(),
        level < rate.one(),
    ensures
        rate.wait(level) > 0,
        level + rate.wait(level) * rate.tokens >= rate.one(),
        level + (rate.wait(level) - 1) * rate.tokens < rate.one(),
{
    let deficit = rate.one() - level;
    let regenerates = rate.tokens as int;
    let wait = (deficit + regenerates - 1) / regenerates;
    assert(rate.wait(level) == wait);
    assert(wait > 0 && wait * regenerates >= deficit && (wait - 1) * regenerates < deficit)
        by (nonlinear_arith)
        requires
            wait == (deficit + regenerates - 1) / regenerates,
            deficit > 0,
            regenerates > 0,
    ;
}

/// The bucket once `count` requests asked at time `now`.
pub open spec fn after_requests(
    state: RateLimitState,
    rate: TokenRate,
    strategy: RateLimitStrategy,
    now: u128,
    count: nat,
) -> RateLimitState
    decreases count,
{
    if count == 0 {
        state
    } else {
        after_requests(state, rate, strategy, now, (count - 1) as nat).after_admission(
            rate,
            strategy,
            now,
        )
    }
}

/// A full bucket serves as many requests at once as it has whole tokens, each without delay, and
/// not one more.
pub proof fn bursts_up_to_the_capacity(
    state: RateLimitState,
    rate: TokenRate,
    strategy: RateLimitStrategy,
    count: nat,
)
    requires
        rate.positive(),
        state.tokens == rate.capacity(),
        count * rate.one() <= rate.capacity(),
    ensures
        ({
            let now = state.last_updated;
            let after = after_requests(state, rate, strategy, now, count);
            &&& after.last_updated == now
            &&& after.tokens == rate.capacity() - count * rate.one()
            &&& (count + 1) * rate.one() <= rate.capacity() ==> after.admission(rate, strategy, now)
                == Ok::<Option<u128>, Fault>(None)
            &&& (count + 1) * rate.one() > rate.capacity() ==> after.admission(
                rate,
                RateLimitStrategy::Reject,
                now,
            ) == Err::<Option<u128>, Fault>(Fault::RateLimited)
        }),
    decreases count,
{
    lemma_bounds(rate);
    assert((count + 1) * rate.one() == count * rate.one() + rate.one()) by (nonlinear_arith);
    assert(count * rate.one() >= 0) by (nonlinear_arith)
        requires
            rate.one() >= 0,
    ;
    if count > 0 {
        let fewer = (count - 1) as nat;
        assert(count * rate.one() == fewer * rate.one() + rate.one()) by (nonlinear_arith)
            requires
                count == fewer + 1,
        ;
        bursts_up_to_the_capacity(state, rate, strategy, fewer);
    } else {
        assert(count * rate.one() == 0) by (nonlinear_arith)
            requires
                count == 0,
        ;
    }
}

/// Requests that find no token at the same time are staggered: each waits for a token of its own,
/// that of the request before it plus one.
pub proof fn waiters_are_staggered(state: RateLimitState, rate: TokenRate, count: nat)
    requires
        rate.positive(),
        state.within(rate),
        state.tokens < rate.one(),
        state.tokens - (count + 1) * rate.one() > i128::MIN,
    ensures
        ({
            let now = state.last_updated;
            let after = after_requests(state, rate, RateLimitStrategy::Sleep, now, count);
            let level = state.tokens - count * rate.one();
            &&& after.last_updated == now
            &&& after.tokens == level
            &&& after.admission(rate, RateLimitStrategy::Sleep, now) == Ok::<Option<u128>, Fault>(
                Some(rate.wait(level) as u128),
            )
            &&& state.tokens + rate.wait(level) * rate.tokens >= (count + 1) * rate.one()
            &&& state.tokens + (rate.wait(level) - 1) * rate.tokens < (count + 1) * rate.one()
        }),
    decreases count,
{
    lemma_bounds(rate);
    let level = state.tokens - count * rate.one();
    assert((count + 1) * rate.one() == count * rate.one() + rate.one()) by (nonlinear_arith);
    assert(count * rate.one() >= 0) by (nonlinear_arith)
        requires
            rate.one() >= 0,
    ;
    if count > 0 {
        let fewer = (count - 1) as nat;
        assert(count * rate.one() == fewer * rate.one() + rate.one()) by (nonlinear_arith)
            requires
                count == fewer + 1,
        ;
        waiters_are_staggered(state, rate, fewer);
    } else {
        assert(count * rate.one() == 0) by (nonlinear_arith)
            requires
                count == 0,
        ;
    }
    waits_no_longer_than_needed(rate, level);
}

/// The bucket once requests asked at `times` in turn, and how many of them were not rejected.
pub open spec fn request_run(
    state: RateLimitState,
    rate: TokenRate,
    strategy: RateLimitStrategy,
    times: Seq<u128>,
) -> (RateLimitState, nat)
    decreases times.len(),
{
    if times.len() == 0 {
        (state, 0)
    } else {
        let (before, served) = request_run(state, rate, strategy, times.drop_last());
        let now = times.last();
        (
            before.after_admission(rate, strategy, now),
            served + if before.admission(rate, strategy, now) is Ok {
                1nat
            } else {
                0nat
            },
        )
    }
}

/// The times do not run backwards, and begin no earlier than `start`.
pub open spec fn in_order(start: u128, times: Seq<u128>) -> bool {
    &&& forall|i: int| 0 <= i < times.len() ==> start <= #[trigger] times[i]
    &&& forall|i: int, j: int|
        0 <= i <= j < times.len() ==> #[trigger] times[i] <= #[trigger] times[j]
}

proof fn lemma_in_order_prefix(start: u128, times: Seq<u128>)
    requires
        times.len() > 0,
        in_order(start, times),
    ensures
        in_order(start, times.drop_last()),
        times.len() > 1 ==> times.drop_last().last() <= times.last(),
        start <= times.last(),
{
    let earlier = times.drop_last();
    assert forall|i: int| 0 <= i < earlier.len() implies start <= #[trigger] earlier[i] by {
        assert(earlier[i] == times[i]);
    }
    assert forall|i: int, j: int| 0 <= i <= j < earlier.len() implies #[trigger] earlier[i]
        <= #[trigger] earlier[j] by {
        assert(earlier[i] == times[i] && earlier[j] == times[j]);
    }
    if times.len() > 1 {
        assert(earlier.last() == times[times.len() - 2]);
    }
}

/// The rate is kept: whatever requests come, those that are served take no more tokens than the
/// bucket held at the start and regenerated since, and the bucket never holds more than its
/// capacity.
pub proof fn serves_no_more_than_regenerates(
    state: RateLimitState,
    rate: TokenRate,
    times: Seq<u128>,
)
    requires
        rate.positive(),
        state.within(rate),
        state.tokens >= 0,
        in_order(state.last_updated, times),
    ensures
        ({
            let (after, served) = request_run(state, rate, RateLimitStrategy::Reject, times);
            &&& 0 <= after.tokens <= rate.capacity()
            &&& after.last_updated == if times.len() > 0 {
                times.last()
            } else {
                state.last_updated
            }
            &&& served * rate.one() + after.tokens <= state.tokens + (after.last_updated
                - state.last_updated) * rate.tokens
        }),
    decreases times.len(),
{
    lemma_bounds(rate);
    let strategy = RateLimitStrategy::Reject;
    let (after, served) = request_run(state, rate, strategy, times);
    if times.len() == 0 {
        assert(served * rate.one() == 0 && (after.last_updated - state.last_updated) * rate.tokens
            == 0) by (nonlinear_arith)
            requires
                served == 0,
                after.last_updated == state.last_updated,
        ;
    } else {
        let earlier = times.drop_last();
        let now = times.last();
        lemma_in_order_prefix(state.last_updated, times);
        serves_no_more_than_regenerates(state, rate, earlier);
        let (before, count) = request_run(state, rate, strategy, earlier);
        let elapsed = now - before.last_updated;
        let sooner = before.last_updated - state.last_updated;
        assert(elapsed * rate.tokens >= 0) by (nonlinear_arith)
            requires
                elapsed >= 0,
                rate.tokens >= 0,
        ;
        assert((sooner + elapsed) * rate.tokens == sooner * rate.tokens + elapsed * rate.tokens)
            by (nonlinear_arith);
        assert((count + 1) * rate.one() == count * rate.one() + rate.one()) by (nonlinear_arith);
    }
}

proof fn lemma_consumed(
    state: RateLimitState,
    rate: TokenRate,
    strategy: RateLimitStrategy,
    times: Seq<u128>,
)
    requires
        rate.positive(),
        state.within(rate),
        in_order(state.last_updated, times),
        state.tokens - times.len() * rate.one() > i128::MIN,
    ensures
        ({
            let (after, served) = request_run(state, rate, strategy, times);
            &&& served <= times.len()
            &&& after.within(rate)
            &&& after.tokens >= state.tokens - served * rate.one()
            &&& after.last_updated == if times.len() > 0 {
                times.last()
            } else {
                state.last_updated
            }
            &&& served * rate.one() + after.tokens <= state.tokens + (after.last_updated
                - state.last_updated) * rate.tokens
        }),
    decreases times.len(),
{
    lemma_bounds(rate);
    let (after, served) = request_run(state, rate, strategy, times);
    if times.len() == 0 {
        assert(served * rate.one() == 0 && (after.last_updated - state.last_updated) * rate.tokens
            == 0) by (nonlinear_arith)
            requires
                served == 0,
                after.last_updated == state.last_updated,
        ;
    } else {
        let earlier = times.drop_last();
        let now = times.last();
        lemma_in_order_prefix(state.last_updated, times);
        assert(times.len() * rate.one() == earlier.len() * rate.one() + rate.one())
            by (nonlinear_arith)
            requires
                times.len() == earlier.len() + 1,
        ;
        lemma_consumed(state, rate, strategy, earlier);
        let (before, count) = request_run(state, rate, strategy, earlier);
        let elapsed = now - before.last_updated;
        let sooner = before.last_updated - state.last_updated;
        assert(elapsed * rate.tokens >= 0) by (nonlinear_arith)
            requires
                elapsed >= 0,
                rate.tokens >= 0,
        ;
        assert((sooner + elapsed) * rate.tokens == sooner * rate.tokens + elapsed * rate.tokens)
            by (nonlinear_arith);
        assert((count + 1) * rate.one() == count * rate.one() + rate.one()) by (nonlinear_arith);
        assert(count * rate.one() <= earlier.len() * rate.one()) by (nonlinear_arith)
            requires
                count <= earlier.len(),
                rate.one() >= 0,
        ;
    }
}

/// No request runs ahead of its token: whatever requests came before, one that is served runs,
/// once it has waited as it was told, no sooner than its token and those of all requests that
/// were served before it were there at the start or have regenerated.
pub proof fn no_request_runs_ahead_of_its_token(
    state: RateLimitState,
    rate: TokenRate,
    strategy: RateLimitStrategy,
    times: Seq<u128>,
    now: u128,
)
    requires
        rate.positive(),
        state.within(rate),
        in_order(state.last_updated, times.push(now)),
        state.tokens - (times.len() + 1) * rate.one() > i128::MIN,
    ensures
        ({
            let (before, served) = request_run(state, rate, strategy, times);
            before.admission(rate, strategy, now) matches Ok(wait) ==> (served + 1) * rate.one()
                <= state.tokens + (now - state.last_updated + match wait {
                Some(nanos) => nanos as int,
                None => 0,
            }) * rate.tokens
        }),
{
    lemma_bounds(rate);
    assert(times.push(now).drop_last() =~= times);
    lemma_in_order_prefix(state.last_updated, times.push(now));
    assert((times.len() + 1) * rate.one() == times.len() * rate.one() + rate.one())
        by (nonlinear_arith);
    lemma_consumed(state, rate, strategy, times);
    let (before, served) = request_run(state, rate, strategy, times);
    let level = before.level_at(rate, now);
    let elapsed = now - before.last_updated;
    let sooner = before.last_updated - state.last_updated;
    assert((sooner + elapsed) * rate.tokens == sooner * rate.tokens + elapsed * rate.tokens)
        by (nonlinear_arith);
    assert((served + 1) * rate.one() == served * rate.one() + rate.one()) by (nonlinear_arith);
    assert(served * rate.one() <= times.len() * rate.one()) by (nonlinear_arith)
        requires
            served <= times.len(),
            rate.one() >= 0,
    ;
    assert(elapsed * rate.tokens >= 0) by (nonlinear_arith)
        requires
            elapsed >= 0,
            rate.tokens >= 0,
    ;
    if level < rate.one() {
        let wait = rate.wait(level);
        waits_no_longer_than_needed(rate, level);
        assert(wait <= rate.one() - level) by (nonlinear_arith)
            requires
                (wait - 1) * rate.tokens < rate.one() - level,
                rate.tokens >= 1,
                wait > 0,
        ;
        assert((sooner + elapsed + wait) * rate.tokens == (sooner + elapsed) * rate.tokens + wait
            * rate.tokens) by (nonlinear_arith);
    }
}

/// A token has as many parts as there are nanoseconds in the minutes of the rate.
pub proof fn a_token_is_the_time_of_its_rate(rate: TokenRate, parts: i128)
    requires
        call_ensures(TokenRate::token, (&rate,), parts),
    ensures
        parts == 60_000_000_000 * rate.minutes,
{
}

/// A new bucket is full: it holds the tokens of one minute.
pub proof fn a_new_bucket_is_full<N>(
    node: N,
    rate: TokenRate,
    strategy: RateLimitStrategy,
    now: u128,
    limited: RateLimitNode<N>,
)
    requires
        rate.tokens > 0,
        rate.minutes > 0,
        call_ensures(RateLimitNode::<N>::new, (node, rate, strategy, now), limited),
    ensures
        call_requires(RateLimitNode::<N>::new, (node, rate, strategy, now)),
        limited.node == node,
        limited.strategy == strategy,
        limited.tokens_per_minute == rate,
        limited.state.last_updated == now,
        limited.state.tokens == 60_000_000_000 * rate.tokens,
{
}

/// Tokens regenerate with the time that passed, and fill the bucket at most: whatever the strategy
/// and the outcome, what the bucket holds after a request, with the token that the request took
/// put back, is the smaller of its capacity and what it held before plus what regenerated since.
/// The request is told to go ahead at once exactly when that makes a token, and takes one exactly
/// when it is not rejected.
pub proof fn a_request_finds_what_regenerated<N>(
    limited: &mut RateLimitNode<N>,
    now: u128,
    admission: Result<Option<u128>, Fault>,
    elapsed: nat,
)
    requires
        call_ensures(RateLimitNode::<N>::begin, (limited, now), admission),
        old(limited).tokens_per_minute.tokens > 0,
        old(limited).tokens_per_minute.minutes > 0,
        old(limited).state.tokens <= 60_000_000_000 * old(limited).tokens_per_minute.tokens,
        old(limited).state.tokens > i128::MIN + 60_000_000_000 * old(
            limited,
        ).tokens_per_minute.minutes,
        now >= old(limited).state.last_updated ==> elapsed == now - old(
            limited,
        ).state.last_updated,
        now < old(limited).state.last_updated ==> elapsed == 0,
    ensures
        call_requires(RateLimitNode::<N>::begin, (limited, now)),
        ({
            let rate = old(limited).tokens_per_minute;
            let token = 60_000_000_000 * rate.minutes;
            let capacity = 60_000_000_000 * rate.tokens;
            let regenerated = old(limited).state.tokens + elapsed * rate.tokens;
            let found = final(limited).state.tokens + if admission is Ok {
                token
            } else {
                0
            };
            &&& found <= capacity
            &&& found <= regenerated
            &&& found == capacity || found == regenerated
            &&& admission == Ok::<Option<u128>, Fault>(None) <==> capacity >= token && regenerated
                >= token
            &&& admission is Err ==> admission == Err::<Option<u128>, Fault>(Fault::RateLimited)
            &&& admission is Err ==> old(limited).strategy == RateLimitStrategy::Reject
            &&& admission matches Ok(Some(_)) ==> old(limited).strategy == RateLimitStrategy::Sleep
        }),
        final(limited).state.last_updated == now,
        final(limited).node == old(limited).node,
        final(limited).strategy == old(limited).strategy,
        final(limited).tokens_per_minute == old(limited).tokens_per_minute,
{
    let rate = old(limited).tokens_per_minute;
    lemma_bounds(rate);
    assert(elapsed * rate.tokens >= 0) by (nonlinear_arith);
    let state = old(limited).state;
    let level = state.level_at(rate, now);
    assert(elapsed == if now > state.last_updated {
        now - state.last_updated
    } else {
        0
    });
    assert(level >= state.tokens);
    assert(level - rate.one() >= i128::MIN);
}

/// A request that is told to wait is told the least number of nanoseconds after which its token
/// has regenerated, counted from what the bucket holds once the token is taken: then the debt is
/// paid, and a nanosecond earlier it is not.
pub proof fn a_wait_pays_the_debt<N>(
    limited: &mut RateLimitNode<N>,
    now: u128,
    wait: u128,
)
    requires
        call_ensures(
            RateLimitNode::<N>::begin,
            (limited, now),
            Ok::<Option<u128>, Fault>(Some(wait)),
        ),
        old(limited).tokens_per_minute.tokens > 0,
        old(limited).tokens_per_minute.minutes > 0,
        old(limited).state.tokens <= 60_000_000_000 * old(limited).tokens_per_minute.tokens,
        old(limited).state.tokens > i128::MIN + 60_000_000_000 * old(
            limited,
        ).tokens_per_minute.minutes,
    ensures
        wait > 0,
        final(limited).state.tokens < 0,
        final(limited).state.tokens + wait * old(limited).tokens_per_minute.tokens >= 0,
        final(limited).state.tokens + (wait - 1) * old(limited).tokens_per_minute.tokens < 0,
{
    let rate = old(limited).tokens_per_minute;
    lemma_bounds(rate);
    let state = old(limited).state;
    let elapsed = if now > state.last_updated {
        now - state.last_updated
    } else {
        0
    };
    assert(elapsed * rate.tokens >= 0) by (nonlinear_arith)
        requires
            elapsed >= 0,
    ;
    let level = state.level_at(rate, now);
    assert(level >= state.tokens);
    waits_no_longer_than_needed(rate, level);
    let least = rate.wait(level);
    assert(least <= rate.one() - level) by (nonlinear_arith)
        requires
            (least - 1) * rate.tokens < rate.one() - level,
            rate.tokens >= 1,
            least > 0,
    ;
    assert(wait == least);
}

/// A rejection leaves no trace: a request that comes after one that was rejected is told the same,
/// and leaves the same bucket, as if the rejected one had never asked.
pub proof fn a_rejection_leaves_no_trace<N>(
    first: &mut RateLimitNode<N>,
    sooner: u128,
    second: &mut RateLimitNode<N>,
    later: u128,
    admission: Result<Option<u128>, Fault>,
    alone: &mut RateLimitNode<N>,
    alone_admission: Result<Option<u128>, Fault>,
)
    requires
        old(first).tokens_per_minute.tokens > 0,
        old(first).tokens_per_minute.minutes > 0,
        old(first).state.tokens <= 60_000_000_000 * old(first).tokens_per_minute.tokens,
        old(first).state.tokens > i128::MIN + 60_000_000_000 * old(
            first,
        ).tokens_per_minute.minutes,
        old(first).state.last_updated <= sooner <= later,
        call_ensures(
            RateLimitNode::<N>::begin,
            (first, sooner),
            Err::<Option<u128>, Fault>(Fault::RateLimited),
        ),
        *old(second) == *final(first),
        call_ensures(RateLimitNode::<N>::begin, (second, later), admission),
        *old(alone) == *old(first),
        call_ensures(RateLimitNode::<N>::begin, (alone, later), alone_admission),
    ensures
        admission == alone_admission,
        *final(second) == *final(alone),
{
    let rate = old(first).tokens_per_minute;
    let tokens = rate.tokens as int;
    lemma_bounds(rate);
    let start = old(first).state.last_updated;
    assert((sooner - start) * tokens + (later - sooner) * tokens == (later - start) * tokens)
        by (nonlinear_arith);
    assert((sooner - start) * tokens >= 0 && (later - sooner) * tokens >= 0 && (later - start)
        * tokens >= 0) by (nonlinear_arith)
        requires
            start <= sooner <= later,
            tokens >= 0,
    ;
    let level = old(first).state.level_at(rate, sooner);
    assert(old(second).state.tokens == level);
    assert(old(second).state.level_at(rate, later) == old(first).state.level_at(rate, later));
}

/// A request is served as soon as its token is there: with a bucket that can hold a token, one that
/// comes when the bucket held a token, or when one has regenerated since, is told to go ahead at
/// once, whatever the strategy.
pub proof fn a_token_that_regenerated_is_served<N>(
    limited: &mut RateLimitNode<N>,
    now: u128,
    admission: Result<Option<u128>, Fault>,
)
    requires
        call_ensures(RateLimitNode::<N>::begin, (limited, now), admission),
        old(limited).tokens_per_minute.tokens >= old(limited).tokens_per_minute.minutes > 0,
        old(limited).state.tokens <= 60_000_000_000 * old(limited).tokens_per_minute.tokens,
        old(limited).state.tokens > i128::MIN + 60_000_000_000 * old(
            limited,
        ).tokens_per_minute.minutes,
        old(limited).state.last_updated <= now,
        old(limited).state.tokens + (now - old(limited).state.last_updated) * old(
            limited,
        ).tokens_per_minute.tokens >= 60_000_000_000 * old(limited).tokens_per_minute.minutes,
    ensures
        admission == Ok::<Option<u128>, Fault>(None),
{
    let elapsed = (now - old(limited).state.last_updated) as nat;
    a_request_finds_what_regenerated(limited, now, admission, elapsed);
}

} // verus!
