//! Stops calling a node that keeps failing.

use crate::fault::Fault;
use vstd::prelude::*;

verus! {

/// The state of a circuit breaker. Times are nanoseconds since a fixed origin.
#[derive(Debug, Clone, Copy, PartialEq, Eq, Structural)]
pub enum BreakerState {
    /// Requests pass. Counts the consecutive failures.
    Closed {
        /// How many requests failed since the last success.
        failures: usize,
    },
    /// Requests fail at once.
    Open {
        /// When the node may be tried again.
        until: u128,
    },
    /// A single probe tries the node; other requests fail at once.
    HalfOpen {
        /// Which request is the probe.
        probe_id: u64,
    },
}

impl BreakerState {
    /// What a request at time `now` is told: the probe id it carries, if any, or why it is
    /// refused. `fresh_id` is the id that a new probe would get.
    pub open spec fn admission(self, now: u128, fresh_id: u64) -> Result<Option<u64>, Fault> {
        match self {
            BreakerState::Closed { .. } => Ok(None),
            BreakerState::Open { until } => if now < until {
                Err(Fault::BreakerOpen)
            } else {
                Ok(Some(fresh_id))
            },
            BreakerState::HalfOpen { .. } => Err(Fault::BreakerHalfOpen),
        }
    }

    /// The state once a request asked for admission at time `now`.
    pub open spec fn after_admission(self, now: u128, fresh_id: u64) -> BreakerState {
        match self {
            BreakerState::Open { until } if now >= until => BreakerState::HalfOpen {
                probe_id: fresh_id,
            },
            _ => self,
        }
    }

    /// Whether the failure of a request that carries `probe` opens the breaker.
    pub open spec fn trips(self, probe: Option<u64>, allowed_failures: usize) -> bool {
        match self {
            BreakerState::Closed { failures } => failures + 1 >= allowed_failures,
            BreakerState::HalfOpen { probe_id } => probe == Some(probe_id),
            BreakerState::Open { .. } => false,
        }
    }

    /// The state once a request that carries `probe` succeeded.
    pub open spec fn after_success(self, probe: Option<u64>) -> BreakerState {
        match self {
            BreakerState::Closed { .. } => BreakerState::Closed { failures: 0 },
            BreakerState::HalfOpen { probe_id } => if probe == Some(probe_id) {
                BreakerState::Closed { failures: 0 }
            } else {
                self
            },
            BreakerState::Open { .. } => self,
        }
    }

    /// The state once a request that carries `probe` failed; an opened breaker stays open until
    /// `reopens_at`.
    pub open spec fn after_failure(
        self,
        probe: Option<u64>,
        allowed_failures: usize,
        reopens_at: int,
    ) -> BreakerState {
        if self.trips(probe, allowed_failures) {
            BreakerState::Open { until: reopens_at as u128 }
        } else {
            match self {
                BreakerState::Closed { failures } => BreakerState::Closed {
                    failures: (failures + 1) as usize,
                },
                _ => self,
            }
        }
    }

    /// The failure count can still be raised.
    pub open spec fn countable(self) -> bool {
        self matches BreakerState::Closed { failures } ==> failures < usize::MAX
    }

    /// A closed breaker has seen fewer consecutive failures than are allowed.
    pub open spec fn below(self, allowed_failures: usize) -> bool {
        self matches BreakerState::Closed { failures } ==> failures < allowed_failures
    }
}

/// A node wrapper that implements the circuit breaker pattern to protect downstream services.
///
/// When the inner node fails `allowed_failures` times in a row, the breaker opens, and requests
/// fail at once for `reset_after` nanoseconds. Then a single request probes the service: its
/// success closes the breaker, its failure opens it again.
///
/// A request asks for admission with [`CircuitBreakerNode::begin`], runs the inner node, and
/// reports the result with [`CircuitBreakerNode::record`].
pub struct CircuitBreakerNode<N> {
    /// The node that is protected.
    pub node: N,
    /// Where the breaker stands.
    pub state: BreakerState,
    /// The id of the next probe.
    pub probe_id: u64,
    /// How many consecutive failures open the breaker.
    pub allowed_failures: usize,
    /// For how many nanoseconds the breaker stays open.
    pub reset_after: u128,
}

impl<N> CircuitBreakerNode<N> {
    /// A closed breaker around `node`.
    pub fn new(node: N, allowed_failures: usize, reset_after: u128) -> (breaker: Self)
        requires
            allowed_failures > 0,
        ensures
            breaker.node == node,
            breaker.state == (BreakerState::Closed { failures: 0 }),
            breaker.probe_id == 0,
            breaker.allowed_failures == allowed_failures,
            breaker.reset_after == reset_after,
    {
        CircuitBreakerNode {
            node,
            state: BreakerState::Closed { failures: 0 },
            probe_id: 0,
            allowed_failures,
            reset_after,
        }
    }

    /// Asks whether a request at time `now` may run the inner node. The answer carries an id when
    /// the request is the probe of a half-open breaker.
    pub fn begin(&mut self, now: u128) -> (admission: Result<Option<u64>, Fault>)
        ensures
            admission == old(self).state.admission(now, old(self).probe_id),
            final(self).state == old(self).state.after_admission(now, old(self).probe_id),
            old(self).state.countable() ==> final(self).state.countable(),
            old(self).state.below(old(self).allowed_failures) ==> final(self).state.below(
                old(self).allowed_failures,
            ),
            final(self).probe_id == if admission matches Ok(Some(_)) {
                (old(self).probe_id as nat + 1) % 0x1_0000_0000_0000_0000
            } else {
                old(self).probe_id as nat
            },
            final(self).node == old(self).node,
            final(self).allowed_failures == old(self).allowed_failures,
            final(self).reset_after == old(self).reset_after,
    {
        match self.state {
            BreakerState::Closed { .. } => Ok(None),
            BreakerState::Open { until } => {
                if now < until {
                    return Err(Fault::BreakerOpen);
                }
                let id: u64 = self.probe_id;
                self.probe_id = id.wrapping_add(1);
                self.state = BreakerState::HalfOpen { probe_id: id };
                Ok(Some(id))
            },
            BreakerState::HalfOpen { .. } => Err(Fault::BreakerHalfOpen),
        }
    }

    /// Reports at time `now` how an admitted request ended. `probe` is what its admission carried.
    pub fn record(&mut self, probe: Option<u64>, succeeded: bool, now: u128)
        requires
            old(self).state.countable(),
            !succeeded && old(self).state.trips(probe, old(self).allowed_failures) ==> now
                + old(self).reset_after <= u128::MAX,
        ensures
            final(self).state == if succeeded {
                old(self).state.after_success(probe)
            } else {
                old(self).state.after_failure(
                    probe,
                    old(self).allowed_failures,
                    now + old(self).reset_after,
                )
            },
            final(self).state.countable(),
            old(self).allowed_failures > 0 && old(self).state.below(old(self).allowed_failures)
                ==> final(self).state.below(old(self).allowed_failures),
            final(self).node == old(self).node,
            final(self).probe_id == old(self).probe_id,
            final(self).allowed_failures == old(self).allowed_failures,
            final(self).reset_after == old(self).reset_after,
    {
        match self.state {
            BreakerState::Closed { failures } => {
                if succeeded {
                    self.state = BreakerState::Closed { failures: 0 };
                } else {
                    let failures: usize = failures + 1;
                    if failures >= self.allowed_failures {
                        self.state = BreakerState::Open { until: now + self.reset_after };
                    } else {
                        self.state = BreakerState::Closed { failures };
                    }
                }
            },
            BreakerState::HalfOpen { probe_id } => {
                // Only the probe decides: other requests were admitted before the breaker opened.
                let is_probe = match probe {
                    Some(id) => id == probe_id,
                    None => false,
                };
                if is_probe {
                    if succeeded {
                        self.state = BreakerState::Closed { failures: 0 };
                    } else {
                        self.state = BreakerState::Open { until: now + self.reset_after };
                    }
                }
            },
            BreakerState::Open { .. } => {},
        }
    }
}

/// The state once `count` requests in a row failed, all reported when an opened breaker would
/// stay open until `reopens_at`.
pub open spec fn after_failures(
    state: BreakerState,
    count: nat,
    allowed_failures: usize,
    reopens_at: int,
) -> BreakerState
    decreases count,
{
    if count == 0 {
        state
    } else {
        after_failures(state, (count - 1) as nat, allowed_failures, reopens_at).after_failure(
            None,
            allowed_failures,
            reopens_at,
        )
    }
}

/// The breaker opens with the `allowed_failures`-th consecutive failure, not before and not
/// later; failures that are reported while it is open change nothing.
pub proof fn trips_at_the_limit(count: nat, allowed_failures: usize, reopens_at: u128)
    requires
        allowed_failures > 0,
    ensures
        after_failures(
            BreakerState::Closed { failures: 0 },
            count,
            allowed_failures,
            reopens_at as int,
        ) == if count < allowed_failures {
            BreakerState::Closed { failures: count as usize }
        } else {
            BreakerState::Open { until: reopens_at }
        },
    decreases count,
{
    if count > 0 {
        trips_at_the_limit((count - 1) as nat, allowed_failures, reopens_at);
    }
}

/// A success forgets the failures before it: from then on it takes as many failures to open the
/// breaker as at the start.
pub proof fn success_forgets_failures(state: BreakerState, probe: Option<u64>)
    requires
        state is Closed,
    ensures
        state.after_success(probe) == (BreakerState::Closed { failures: 0 }),
{
}

/// An open breaker refuses every request until its time is up, and stays as it is whatever
/// requests that are still under way report.
pub proof fn open_breaker_refuses(
    until: u128,
    now: u128,
    fresh_id: u64,
    probe: Option<u64>,
    allowed_failures: usize,
    reopens_at: int,
)
    requires
        now < until,
    ensures
        ({
            let open = BreakerState::Open { until };
            &&& open.admission(now, fresh_id) == Err::<Option<u64>, Fault>(Fault::BreakerOpen)
            &&& open.after_admission(now, fresh_id) == open
            &&& open.after_success(probe) == open
            &&& open.after_failure(probe, allowed_failures, reopens_at) == open
        }),
{
}

/// When its time is up, an open breaker admits one request as the probe. Until that probe
/// reports, every other request is refused, and no report of another request changes the state.
pub proof fn admits_a_single_probe(
    until: u128,
    now: u128,
    later: u128,
    fresh_id: u64,
    next_id: u64,
    other: Option<u64>,
    allowed_failures: usize,
    reopens_at: int,
)
    requires
        now >= until,
        other != Some(fresh_id),
    ensures
        ({
            let open = BreakerState::Open { until };
            let half_open = open.after_admission(now, fresh_id);
            &&& open.admission(now, fresh_id) == Ok::<Option<u64>, Fault>(Some(fresh_id))
            &&& half_open.admission(later, next_id) == Err::<Option<u64>, Fault>(
                Fault::BreakerHalfOpen,
            )
            &&& half_open.after_admission(later, next_id) == half_open
            &&& half_open.after_success(other) == half_open
            &&& half_open.after_failure(other, allowed_failures, reopens_at) == half_open
        }),
{
}

/// The probe decides: its success closes the breaker, its failure opens it again.
pub proof fn the_probe_decides(probe_id: u64, allowed_failures: usize, reopens_at: u128)
    ensures
        ({
            let half_open = BreakerState::HalfOpen { probe_id };
            &&& half_open.after_success(Some(probe_id)) == (BreakerState::Closed { failures: 0 })
            &&& half_open.after_failure(Some(probe_id), allowed_failures, reopens_at as int) == (
            BreakerState::Open { until: reopens_at })
        }),
{
}

/// A new breaker is closed, has seen no failure, and keeps its settings.
pub proof fn a_new_breaker_is_closed<N>(
    node: N,
    allowed_failures: usize,
    reset_after: u128,
    breaker: CircuitBreakerNode<N>,
)
    requires
        allowed_failures > 0,
        call_ensures(
            CircuitBreakerNode::<N>::new,
            (node, allowed_failures, reset_after),
            breaker,
        ),
    ensures
        call_requires(CircuitBreakerNode::<N>::new, (node, allowed_failures, reset_after)),
        breaker == (CircuitBreakerNode {
            node,
            state: BreakerState::Closed { failures: 0 },
            probe_id: 0,
            allowed_failures,
            reset_after,
        }),
{
}

/// A closed breaker lets every request pass, however many failed before it and whatever the time,
/// and is left as it was.
pub proof fn a_closed_breaker_admits_every_request<N>(
    breaker: &mut CircuitBreakerNode<N>,
    now: u128,
    admission: Result<Option<u64>, Fault>,
)
    requires
        call_ensures(CircuitBreakerNode::<N>::begin, (breaker, now), admission),
        old(breaker).state is Closed,
    ensures
        admission == Ok::<Option<u64>, Fault>(None),
        *final(breaker) == *old(breaker),
{
}

/// Whether a request is refused depends on the breaker alone: one that is open and whose time is
/// not up refuses it, and so does one whose probe is under way. A refusal leaves the breaker as it
/// was, and nothing else is refused.
pub proof fn refuses_exactly_while_not_closed<N>(
    breaker: &mut CircuitBreakerNode<N>,
    now: u128,
    admission: Result<Option<u64>, Fault>,
)
    requires
        call_ensures(CircuitBreakerNode::<N>::begin, (breaker, now), admission),
    ensures
        call_requires(CircuitBreakerNode::<N>::begin, (breaker, now)),
        admission == Err::<Option<u64>, Fault>(Fault::BreakerOpen) <==> (
        old(breaker).state matches BreakerState::Open { until } && now < until),
        admission == Err::<Option<u64>, Fault>(Fault::BreakerHalfOpen) <==> old(
            breaker,
        ).state is HalfOpen,
        admission matches Err(fault) ==> {
            &&& fault == Fault::BreakerOpen || fault == Fault::BreakerHalfOpen
            &&& *final(breaker) == *old(breaker)
        },
        admission == Ok::<Option<u64>, Fault>(None) <==> old(breaker).state is Closed,
{
}

/// The first request after an open breaker's time is up becomes the probe: it carries the next id,
/// the breaker waits for exactly that id, and the probe after it will carry another.
pub proof fn the_first_late_request_probes<N>(
    breaker: &mut CircuitBreakerNode<N>,
    now: u128,
    admission: Result<Option<u64>, Fault>,
)
    requires
        call_ensures(CircuitBreakerNode::<N>::begin, (breaker, now), admission),
        old(breaker).state matches BreakerState::Open { until } && until <= now,
    ensures
        admission == Ok::<Option<u64>, Fault>(Some(old(breaker).probe_id)),
        *final(breaker) == (CircuitBreakerNode {
            state: BreakerState::HalfOpen { probe_id: old(breaker).probe_id },
            probe_id: final(breaker).probe_id,
            ..*old(breaker)
        }),
        old(breaker).probe_id < u64::MAX ==> final(breaker).probe_id == old(breaker).probe_id + 1,
        old(breaker).probe_id == u64::MAX ==> final(breaker).probe_id == 0,
{
}

/// A report changes nothing but the state, and can be made whenever the count and the time of the
/// next probe can be represented.
pub proof fn a_report_keeps_the_settings<N>(
    breaker: &mut CircuitBreakerNode<N>,
    probe: Option<u64>,
    succeeded: bool,
    now: u128,
)
    requires
        call_ensures(CircuitBreakerNode::<N>::record, (breaker, probe, succeeded, now), ()),
    ensures
        (old(breaker).state matches BreakerState::Closed { failures } ==> failures < usize::MAX)
            && (succeeded || now + old(breaker).reset_after <= u128::MAX) ==> call_requires(
            CircuitBreakerNode::<N>::record,
            (breaker, probe, succeeded, now),
        ),
        *final(breaker) == (CircuitBreakerNode { state: final(breaker).state, ..*old(breaker) }),
{
}

/// A closed breaker counts failures in a row: a success starts the count again, a failure raises
/// it by one, and the failure with which it reaches what is allowed opens the breaker for the
/// reset time, counted from the report. The id of a probe does not matter.
pub proof fn a_closed_breaker_counts_failures<N>(
    breaker: &mut CircuitBreakerNode<N>,
    probe: Option<u64>,
    succeeded: bool,
    now: u128,
    failures: usize,
)
    requires
        call_ensures(CircuitBreakerNode::<N>::record, (breaker, probe, succeeded, now), ()),
        old(breaker).state == (BreakerState::Closed { failures }),
        failures < usize::MAX,
    ensures
        succeeded ==> final(breaker).state == (BreakerState::Closed { failures: 0 }),
        !succeeded && failures + 1 < old(breaker).allowed_failures ==> final(breaker).state == (
        BreakerState::Closed { failures: (failures + 1) as usize }),
        !succeeded && failures + 1 >= old(breaker).allowed_failures ==> (
        final(breaker).state matches BreakerState::Open { until } && (now + old(
            breaker,
        ).reset_after <= u128::MAX ==> until == now + old(breaker).reset_after)),
{
}

/// While the breaker is not closed, only the report of its probe counts: it closes the breaker, or
/// opens it anew for the reset time. Every other report, and every report to an open breaker,
/// leaves the breaker as it was.
pub proof fn only_the_probe_is_heard<N>(
    breaker: &mut CircuitBreakerNode<N>,
    probe: Option<u64>,
    succeeded: bool,
    now: u128,
)
    requires
        call_ensures(CircuitBreakerNode::<N>::record, (breaker, probe, succeeded, now), ()),
        !(old(breaker).state is Closed),
    ensures
        ({
            let heard = old(breaker).state matches BreakerState::HalfOpen { probe_id } && probe
                == Some(probe_id);
            &&& !heard ==> *final(breaker) == *old(breaker)
            &&& heard && succeeded ==> final(breaker).state == (BreakerState::Closed { failures: 0 })
            &&& heard && !succeeded ==> (final(breaker).state matches BreakerState::Open { until }
                && (now + old(breaker).reset_after <= u128::MAX ==> until == now + old(
                breaker,
            ).reset_after))
        }),
{
}

/// From the start, with requests that each run and fail before the next one asks, exactly as many
/// requests are admitted as failures are allowed. The next one is refused until the reset time,
/// counted from the last report, is over.
pub proof fn admits_as_many_as_may_fail<N>(
    node: N,
    allowed_failures: usize,
    reset_after: u128,
    asking: Seq<&mut CircuitBreakerNode<N>>,
    reporting: Seq<&mut CircuitBreakerNode<N>>,
    asked_at: Seq<u128>,
    reported_at: Seq<u128>,
    admissions: Seq<Result<Option<u64>, Fault>>,
    count: nat,
)
    requires
        allowed_failures > 0,
        count < asking.len() == asked_at.len() == admissions.len(),
        reporting.len() == reported_at.len(),
        asking.len() == reporting.len() + 1,
        call_ensures(
            CircuitBreakerNode::<N>::new,
            (node, allowed_failures, reset_after),
            *asking[0],
        ),
        forall|i: int|
            0 <= i < asking.len() ==> call_ensures(
                CircuitBreakerNode::<N>::begin,
                (asking[i], asked_at[i]),
                #[trigger] admissions[i],
            ),
        forall|i: int|
            0 <= i < reporting.len() ==> {
                &&& *reporting[i] == *final(asking[i])
                &&& call_ensures(
                    CircuitBreakerNode::<N>::record,
                    (reporting[i], None, false, #[trigger] reported_at[i]),
                    (),
                )
                &&& *asking[i + 1] == *final(reporting[i])
                &&& reported_at[i] + reset_after <= u128::MAX
            },
        count <= allowed_failures,
    ensures
        count < allowed_failures ==> admissions[count as int] == Ok::<Option<u64>, Fault>(None),
        count == allowed_failures && asked_at[count as int] < reported_at[count - 1] + reset_after
            ==> admissions[count as int] == Err::<Option<u64>, Fault>(Fault::BreakerOpen),
        count == allowed_failures && asked_at[count as int] >= reported_at[count - 1] + reset_after
            ==> admissions[count as int] == Ok::<Option<u64>, Fault>(Some(0)),
        asking[count as int].allowed_failures == allowed_failures,
        asking[count as int].reset_after == reset_after,
        asking[count as int].probe_id == 0,
        count < allowed_failures ==> asking[count as int].state == (BreakerState::Closed {
            failures: count as usize,
        }),
    decreases count,
{
    if count > 0 {
        let before = (count - 1) as nat;
        admits_as_many_as_may_fail(
            node,
            allowed_failures,
            reset_after,
            asking,
            reporting,
            asked_at,
            reported_at,
            admissions,
            before,
        );
        assert(admissions[before as int] == Ok::<Option<u64>, Fault>(None));
        assert(reported_at[before as int] + reset_after <= u128::MAX);
    }
    assert(call_ensures(
        CircuitBreakerNode::<N>::begin,
        (asking[count as int], asked_at[count as int]),
        admissions[count as int],
    ));
}

} // verus!
