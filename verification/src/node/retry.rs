//! Tries a failing node again.

use vstd::arithmetic::power2;
use vstd::prelude::*;

verus! {

/// Tells temporary errors from fatal ones.
pub trait ClassifyRetry<E> {
    /// Whether the policy can judge `error`.
    open spec fn judges(&self, error: E) -> bool {
        true
    }

    /// Whether the policy may call `error` transient, or, when `transient` is false, fatal.
    open spec fn classifies(&self, error: E, transient: bool) -> bool {
        true
    }

    /// Whether `error` is transient and should be retried.
    fn is_transient(&self, error: &E) -> (transient: bool)
        requires
            self.judges(*error),
        ensures
            self.classifies(*error, transient),
    ;
}

impl<E, F> ClassifyRetry<E> for F where F: Fn(&E) -> bool {
    open spec fn judges(&self, error: E) -> bool {
        call_requires(*self, (&error,))
    }

    open spec fn classifies(&self, error: E, transient: bool) -> bool {
        call_ensures(*self, (&error,), transient)
    }

    fn is_transient(&self, error: &E) -> (transient: bool) {
        (self)(error)
    }
}

/// A function or closure is a policy: it can judge the errors that it can be called on, and
/// classifies them as its own contract says.
pub proof fn functions_are_policies<E, F: Fn(&E) -> bool>(function: F, error: E)
    ensures
        function.judges(error) <==> call_requires(function, (&error,)),
        function.classifies(error, true) <==> call_ensures(function, (&error,), true),
        function.classifies(error, false) <==> call_ensures(function, (&error,), false),
{
}

/// No retry is delayed longer than this many seconds.
pub const MAX_DELAY_SECS: u64 = 120;

/// The longest delay before the retry that follows attempt `attempt`, in seconds: two to the power
/// of the attempt's number, up to the maximal delay.
pub open spec fn delay_limit(attempt: nat) -> nat {
    if power2::pow2(attempt) < MAX_DELAY_SECS {
        power2::pow2(attempt)
    } else {
        MAX_DELAY_SECS as nat
    }
}

/// The longest delay, in seconds, before the retry that follows attempt `attempt`.
pub fn base_delay(attempt: usize) -> (delay: u64)
    ensures
        delay == delay_limit(attempt as nat),
{
    proof {
        power2::lemma2_to64();
        if attempt > 7 {
            power2::lemma_pow2_strictly_increases(7, attempt as nat);
        }
    }
    let mut delay: u64 = 1;
    let mut i: usize = 0;
    while i < attempt && delay < MAX_DELAY_SECS
        invariant
            i <= attempt,
            i <= 7,
            delay == power2::pow2(i as nat),
            power2::pow2(7) == 128,
            i == 7 || delay <= 64,
        decreases attempt - i,
    {
        proof {
            power2::lemma2_to64();
        }
        delay = delay * 2;
        i = i + 1;
    }
    if delay < MAX_DELAY_SECS {
        delay
    } else {
        proof {
            if i < attempt {
                power2::lemma_pow2_strictly_increases(i as nat, attempt as nat);
            }
        }
        MAX_DELAY_SECS
    }
}

/// `rand::random_range` on the range from zero to `limit`: some number of that range. Which one
/// is left to chance.
#[verifier::external_body]
fn random_up_to(limit: u64) -> (number: u64)
    ensures
        number <= limit,
{
    rand::random_range(0..=limit)
}

/// How an attempt ended.
pub enum Attempt {
    /// It succeeded.
    Succeeded,
    /// It failed, and may be tried again.
    Transient,
    /// It failed for good.
    Fatal,
}

impl Attempt {
    /// The retries that are left when the node is tried again after this attempt, before which
    /// `remaining` were left; nothing when it is not tried again.
    pub open spec fn left(self, remaining: nat) -> Option<nat> {
        if self is Transient && remaining > 0 {
            Some((remaining - 1) as nat)
        } else {
            None
        }
    }
}

/// What the driver of a retried node does next.
#[derive(Debug)]
pub enum RetryStep<O, E> {
    /// Wait, then execute the node again.
    Backoff {
        /// Why the attempt failed.
        error: E,
        /// The number of the attempt that failed; the first is one.
        attempt: usize,
        /// For how many seconds to wait.
        delay_secs: u64,
        /// How many retries are left.
        remaining: usize,
    },
    /// End.
    Finish {
        /// What the last attempt gave.
        result: Result<O, E>,
        /// The number of the last attempt.
        attempts: usize,
    },
}

/// The step after attempt `attempt` gave `result`; `remaining` retries were left, and `transient`
/// says whether an error is temporary.
pub open spec fn retried<O, E>(
    result: Result<O, E>,
    transient: bool,
    attempt: usize,
    remaining: usize,
    delay_secs: u64,
) -> RetryStep<O, E> {
    match result {
        Err(error) if remaining > 0 && transient => RetryStep::Backoff {
            error,
            attempt,
            delay_secs,
            remaining: (remaining - 1) as usize,
        },
        _ => RetryStep::Finish { result, attempts: attempt },
    }
}

/// Decides what follows attempt `attempt`, which gave `result`, when `remaining` retries were
/// left. `transient` says whether its error is temporary, and `delay_secs` for how long to wait.
pub fn decide<O, E>(
    result: Result<O, E>,
    transient: bool,
    attempt: usize,
    remaining: usize,
    delay_secs: u64,
) -> (step: RetryStep<O, E>)
    ensures
        step == retried(result, transient, attempt, remaining, delay_secs),
{
    match result {
        Ok(output) => RetryStep::Finish { result: Ok(output), attempts: attempt },
        Err(error) => if remaining > 0 && transient {
            RetryStep::Backoff { error, attempt, delay_secs, remaining: remaining - 1 }
        } else {
            RetryStep::Finish { result: Err(error), attempts: attempt }
        },
    }
}

/// A node wrapper that automatically retries the inner node upon failure.
///
/// Its policy determines whether an error is transient. If so, the wrapper backs off
/// exponentially with jitter before the next attempt, up to `retry_count` times.
///
/// A function or closure can be the policy: see [`functions_are_policies`].
///
/// The driver executes the node with [`RetryNode::begin`] retries left, hands the result to
/// [`RetryNode::on_executed`], and so on until the step is [`RetryStep::Finish`].
pub struct RetryNode<N, C> {
    /// The node that is retried.
    pub node: N,
    /// How often it is retried.
    pub retry_count: usize,
    /// Which errors are retried.
    pub policy: C,
}

impl<N, C> RetryNode<N, C> {
    /// Retries `node` up to `retry_count` times on the errors that `policy` calls transient.
    pub fn new(node: N, retry_count: usize, policy: C) -> (retry: Self)
        requires
            retry_count > 0,
        ensures
            retry.node == node,
            retry.retry_count == retry_count,
            retry.policy == policy,
    {
        RetryNode { node, retry_count, policy }
    }

    /// How many retries are left before the first attempt.
    pub fn begin(&self) -> (remaining: usize)
        ensures
            remaining == self.retry_count,
    {
        self.retry_count
    }

    /// An attempt gave `result`; `remaining` retries were left.
    pub fn on_executed<O, E>(&self, remaining: usize, result: Result<O, E>) -> (step: RetryStep<
        O,
        E,
    >) where C: ClassifyRetry<E>
        requires
            remaining <= self.retry_count,
            self.retry_count - remaining < usize::MAX,
            remaining > 0 ==> (result matches Err(error) ==> self.policy.judges(error)),
        ensures
            ({
                let attempt = (self.retry_count - remaining + 1) as usize;
                match result {
                    Err(error) if remaining > 0 => {
                        ||| {
                            &&& self.policy.classifies(error, true)
                            &&& exists|delay_secs: u64|
                                {
                                    &&& delay_secs <= delay_limit(attempt as nat)
                                    &&& step == #[trigger] retried(
                                        result,
                                        true,
                                        attempt,
                                        remaining,
                                        delay_secs,
                                    )
                                }
                        }
                        ||| {
                            &&& self.policy.classifies(error, false)
                            &&& step == retried(result, false, attempt, remaining, 0)
                        }
                    },
                    _ => step == retried(result, false, attempt, remaining, 0),
                }
            }),
    {
        let attempt: usize = self.retry_count - remaining + 1;
        let transient = match &result {
            Err(error) => remaining > 0 && self.policy.is_transient(error),
            Ok(_) => false,
        };
        if transient {
            let delay_secs: u64 = random_up_to(base_delay(attempt));
            decide(result, true, attempt, remaining, delay_secs)
        } else {
            decide(result, false, attempt, remaining, 0)
        }
    }
}

/// The node is tried again exactly when the attempt failed transiently and a retry was left, which
/// is then used up. Otherwise what the attempt gave is handed back.
pub proof fn retries_transient_failures<O, E>(
    result: Result<O, E>,
    transient: bool,
    attempt: usize,
    remaining: usize,
    delay_secs: u64,
)
    ensures
        ({
            let ended = match result {
                Ok(_) => Attempt::Succeeded,
                Err(_) => if transient {
                    Attempt::Transient
                } else {
                    Attempt::Fatal
                },
            };
            match retried(result, transient, attempt, remaining, delay_secs) {
                RetryStep::Backoff { remaining: left, .. } => ended.left(remaining as nat) == Some(
                    left as nat,
                ),
                RetryStep::Finish { result: last, .. } => {
                    &&& ended.left(remaining as nat) is None
                    &&& last == result
                },
            }
        }),
{
}

/// How often the node is executed when its attempts, from number `from` on, end as `attempts`
/// says and `remaining` retries are left.
pub open spec fn executions(attempts: spec_fn(nat) -> Attempt, from: nat, remaining: nat) -> nat
    decreases remaining,
{
    match attempts(from).left(remaining) {
        Some(left) => 1 + executions(attempts, from + 1, left),
        None => 1,
    }
}

/// The node is executed at least once and at most `remaining` more times.
pub proof fn executes_at_most_once_more_than_retries(
    attempts: spec_fn(nat) -> Attempt,
    from: nat,
    remaining: nat,
)
    ensures
        1 <= executions(attempts, from, remaining) <= remaining + 1,
    decreases remaining,
{
    match attempts(from).left(remaining) {
        Some(left) => executes_at_most_once_more_than_retries(attempts, from + 1, left),
        None => {},
    }
}

/// After `failures` transient errors, no more than there are retries, and an attempt that succeeds
/// or fails for good, the node was executed once more than it failed transiently. So a fatal
/// first error is not retried at all.
pub proof fn retries_until_it_settles(
    attempts: spec_fn(nat) -> Attempt,
    from: nat,
    failures: nat,
    remaining: nat,
)
    requires
        failures <= remaining,
        forall|i: nat| from <= i < from + failures ==> #[trigger] attempts(i) is Transient,
        !(attempts(from + failures) is Transient),
    ensures
        executions(attempts, from, remaining) == failures + 1,
    decreases remaining,
{
    if failures > 0 {
        assert(attempts(from) is Transient);
        retries_until_it_settles(
            attempts,
            from + 1,
            (failures - 1) as nat,
            (remaining - 1) as nat,
        );
    }
}

/// When every attempt fails transiently, all retries are used: the node is executed once more
/// than there are retries.
pub proof fn exhausts_its_retries(attempts: spec_fn(nat) -> Attempt, from: nat, remaining: nat)
    requires
        forall|i: nat| from <= i <= from + remaining ==> #[trigger] attempts(i) is Transient,
    ensures
        executions(attempts, from, remaining) == remaining + 1,
    decreases remaining,
{
    assert(attempts(from) is Transient);
    if remaining > 0 {
        exhausts_its_retries(attempts, from + 1, (remaining - 1) as nat);
    }
}

/// The delays grow with the attempts up to the maximal delay: at most two seconds before the
/// first retry, four before the second, and from the seventh on the maximum.
pub proof fn delays_double(attempt: nat)
    requires
        0 < attempt,
    ensures
        attempt <= 6 ==> delay_limit(attempt) == power2::pow2(attempt),
        attempt >= 7 ==> delay_limit(attempt) == MAX_DELAY_SECS,
        delay_limit(1) == 2,
        delay_limit(2) == 4,
{
    power2::lemma2_to64();
    if attempt > 7 {
        power2::lemma_pow2_strictly_increases(7, attempt);
    }
}

/// The longest delay doubles with each attempt, from two seconds after the first, and never exceeds
/// two minutes.
pub proof fn the_longest_delay_doubles(
    attempt: usize,
    delay: u64,
    next: usize,
    next_delay: u64,
)
    requires
        call_ensures(base_delay, (attempt,), delay),
        next == attempt + 1,
        call_ensures(base_delay, (next,), next_delay),
    ensures
        call_requires(base_delay, (attempt,)),
        attempt == 0 ==> delay == 1,
        attempt == 1 ==> delay == 2,
        delay <= 120,
        attempt <= 6 <==> delay < 120,
        next_delay == if 2 * delay < 120 {
            2 * delay
        } else {
            120
        },
{
    power2::lemma2_to64();
    power2::lemma_pow2_unfold(next as nat);
    if attempt > 6 {
        power2::lemma_pow2_strictly_increases(6, attempt as nat);
    }
    if attempt > 7 {
        power2::lemma_pow2_strictly_increases(7, attempt as nat);
    }
    if attempt < 6 {
        power2::lemma_pow2_strictly_increases(attempt as nat, 6);
    }
}

/// A decision retries a transient error while a retry is left, and hands everything else back as
/// it is: a success, an error that is not transient, and an error when no retry is left.
pub proof fn a_decision_retries_or_hands_back<O, E>(
    result: Result<O, E>,
    transient: bool,
    attempt: usize,
    remaining: usize,
    delay_secs: u64,
    step: RetryStep<O, E>,
)
    requires
        call_ensures(
            decide::<O, E>,
            (result, transient, attempt, remaining, delay_secs),
            step,
        ),
    ensures
        call_requires(decide::<O, E>, (result, transient, attempt, remaining, delay_secs)),
        step is Backoff <==> result is Err && transient && remaining > 0,
        step matches RetryStep::Backoff { error, attempt: number, delay_secs: delay, remaining: left }
            ==> {
            &&& result == Err::<O, E>(error)
            &&& number == attempt
            &&& delay == delay_secs
            &&& left + 1 == remaining
        },
        step matches RetryStep::Finish { result: last, attempts } ==> last == result && attempts
            == attempt,
{
}

/// A new node has all its retries left.
pub proof fn a_new_node_has_all_retries<N, C>(
    node: N,
    retry_count: usize,
    policy: C,
    retry: RetryNode<N, C>,
    remaining: usize,
)
    requires
        retry_count > 0,
        call_ensures(RetryNode::<N, C>::new, (node, retry_count, policy), retry),
        call_ensures(RetryNode::<N, C>::begin, (&retry,), remaining),
    ensures
        call_requires(RetryNode::<N, C>::new, (node, retry_count, policy)),
        retry.node == node,
        retry.retry_count == retry_count,
        retry.policy == policy,
        remaining == retry_count,
{
}

/// The policy decides whether an error is tried again, as long as a retry is left. A success ends
/// the attempts, and so does an error that the policy calls fatal, or that comes when no retry is
/// left; what the attempt gave is then handed back. A retry uses up one, and waits no longer than
/// two to the power of the attempt's number, and than two minutes.
pub proof fn the_policy_decides<N, C, O, E>(
    retry: RetryNode<N, C>,
    remaining: usize,
    result: Result<O, E>,
    step: RetryStep<O, E>,
) where C: ClassifyRetry<E>
    requires
        remaining <= retry.retry_count,
        retry.retry_count - remaining < usize::MAX,
        remaining > 0 ==> (result matches Err(error) ==> retry.policy.judges(error)),
        call_ensures(
            RetryNode::<N, C>::on_executed::<O, E>,
            (&retry, remaining, result),
            step,
        ),
    ensures
        call_requires(RetryNode::<N, C>::on_executed::<O, E>, (&retry, remaining, result)),
        step matches RetryStep::Finish { result: last, attempts } ==> {
            &&& last == result
            &&& attempts == retry.retry_count - remaining + 1
            &&& remaining > 0 ==> (result matches Err(error) ==> retry.policy.classifies(
                error,
                false,
            ))
        },
        step matches RetryStep::Backoff { error, attempt, delay_secs, remaining: left } ==> {
            &&& result == Err::<O, E>(error)
            &&& retry.policy.classifies(error, true)
            &&& attempt == retry.retry_count - remaining + 1
            &&& left + 1 == remaining
            &&& delay_secs <= 120
            &&& delay_secs <= power2::pow2(attempt as nat)
        },
{
}

/// Attempts go on until one is handed back: they are numbered from one, all but the last fail with
/// an error that the policy calls transient, there is at most one more of them than retries, and
/// what the last one gave is the result. An error is the result only when the policy calls it
/// fatal, or when every retry is used up.
pub proof fn attempts_go_on_until_one_is_handed_back<N, C, O, E>(
    retry: RetryNode<N, C>,
    remaining: Seq<usize>,
    results: Seq<Result<O, E>>,
    steps: Seq<RetryStep<O, E>>,
    count: nat,
) where C: ClassifyRetry<E>
    requires
        0 < retry.retry_count < usize::MAX,
        remaining.len() == results.len() == steps.len(),
        count < steps.len(),
        call_ensures(RetryNode::<N, C>::begin, (&retry,), remaining[0]),
        forall|i: int|
            0 <= i < results.len() && remaining[i] > 0 ==> ((
            #[trigger] results[i]) matches Err(error) ==> retry.policy.judges(error)),
        forall|i: int|
            0 <= i < steps.len() ==> call_ensures(
                RetryNode::<N, C>::on_executed::<O, E>,
                (&retry, remaining[i], results[i]),
                #[trigger] steps[i],
            ),
        forall|i: int|
            0 <= i < count ==> ((#[trigger] steps[i]) matches RetryStep::Backoff {
                remaining: left,
                ..
            } && remaining[i + 1] == left),
    ensures
        count <= retry.retry_count,
        remaining[count as int] == retry.retry_count - count,
        steps[count as int] matches RetryStep::Backoff { error, attempt, .. } ==> {
            &&& results[count as int] == Err::<O, E>(error)
            &&& retry.policy.classifies(error, true)
            &&& attempt == count + 1
            &&& count < retry.retry_count
        },
        steps[count as int] matches RetryStep::Finish { result, attempts } ==> {
            &&& result == results[count as int]
            &&& attempts == count + 1
            &&& result matches Err(error) ==> retry.policy.classifies(error, false) || attempts
                == retry.retry_count + 1
        },
    decreases count,
{
    let n = count as int;
    if count > 0 {
        attempts_go_on_until_one_is_handed_back(
            retry,
            remaining,
            results,
            steps,
            (count - 1) as nat,
        );
        assert(steps[n - 1] matches RetryStep::Backoff { remaining: left, .. } && remaining[n]
            == left);
        the_policy_decides(retry, remaining[n - 1], results[n - 1], steps[n - 1]);
    }
    assert(remaining[n] > 0 ==> (results[n] matches Err(error) ==> retry.policy.judges(error)));
    the_policy_decides(retry, remaining[n], results[n], steps[n]);
}

} // verus!
