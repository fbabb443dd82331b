//! The circuit breaker that shields the durable backend's connection
//! source.
//!
//! This module is the breaker's decision core: a pure state machine from
//! (state, event, clock reading) to (next state, action).  The caller
//! owns the clock, performs the actual pool calls, reinitializes the pool
//! when told to, and serializes access to the shared state; every
//! decision it takes, it takes from here.
//!
//! States: **closed** passes calls through and counts consecutive
//! countable failures; **open** fails calls fast until a cooldown has
//! elapsed; **probing** has let exactly one call through to test
//! recovery and fails every other call fast until that probe reports
//! back.  Only countable failures — those that speak of the backend's
//! availability — advance the breaker towards open, so one caller's bad
//! input cannot trip the circuit for everyone.

use vstd::prelude::*;

use crate::error::Error;

verus! {

/// The breaker's tunables.
#[derive(Clone, Copy, Debug, PartialEq, Eq, Structural)]
pub struct BreakerConfig {
    /// How many consecutive countable failures open the circuit.
    pub max_failures: u64,
    /// How long an open circuit rejects calls before one probe is
    /// allowed through, in milliseconds.
    pub cooldown_ms: u64,
}

impl BreakerConfig {
    /// At least one failure must be needed to open the circuit.
    pub open spec fn wf(&self) -> bool {
        self.max_failures >= 1
    }
}

/// The breaker's state.
#[derive(Clone, Copy, Debug, PartialEq, Eq, Structural)]
pub enum BreakerState {
    /// Calls pass through; `failures` consecutive countable failures
    /// have been seen since the last success.
    Closed { failures: u64 },
    /// Calls fail fast; the circuit opened at `opened_at` (in
    /// milliseconds of the caller's clock).
    Open { opened_at: u64 },
    /// One probe call is in flight; every other call fails fast until
    /// the probe reports back.
    Probing,
}

/// What the breaker tells the caller to do with one incoming call.
#[derive(Clone, Copy, Debug, PartialEq, Eq, Structural)]
pub enum CallDecision {
    /// The circuit is closed: perform the call.
    Pass,
    /// The circuit was open and the cooldown has elapsed: perform the
    /// call as the one probe of the backend's recovery.
    Probe,
    /// The circuit is open or a probe is already in flight: fail
    /// immediately without touching the backend.
    FailFast,
}

/// Whether the cooldown that started at `opened_at` has elapsed at
/// `now`.  A clock reading earlier than `opened_at` counts as not
/// elapsed.
pub open spec fn spec_cooldown_elapsed(cfg: BreakerConfig, opened_at: u64, now: u64) -> bool {
    now >= opened_at && now - opened_at >= cfg.cooldown_ms
}

/// The decision for a call arriving at `now`, and the state after it.
pub open spec fn spec_on_request(cfg: BreakerConfig, st: BreakerState, now: u64) -> (
    CallDecision,
    BreakerState,
) {
    match st {
        BreakerState::Closed { .. } => (CallDecision::Pass, st),
        BreakerState::Open { opened_at } => if spec_cooldown_elapsed(cfg, opened_at, now) {
            (CallDecision::Probe, BreakerState::Probing)
        } else {
            (CallDecision::FailFast, st)
        },
        BreakerState::Probing => (CallDecision::FailFast, st),
    }
}

/// The state after a passed-through or probe call succeeds, and whether
/// the connection source should be reinitialized: a success ends any
/// probe, closes the circuit and clears the failure count, and recovery
/// from an outage (a successful probe) reinitializes the source, since a
/// long outage can leave pooled connections stale.
pub open spec fn spec_on_success(st: BreakerState) -> (BreakerState, bool) {
    match st {
        BreakerState::Probing => (BreakerState::Closed { failures: 0 }, true),
        _ => (BreakerState::Closed { failures: 0 }, false),
    }
}

/// The state after a passed-through or probe call fails at `now` with a
/// failure that is (`countable`) or is not about the backend's
/// availability.  Only countable failures move the breaker: the
/// `max_failures`-th consecutive one opens the circuit, and a countable
/// probe failure re-opens it and restarts the cooldown.  A failure that
/// a probe brings back and that is not countable proves the backend
/// reachable and closes the circuit.
pub open spec fn spec_on_failure(
    cfg: BreakerConfig,
    st: BreakerState,
    countable: bool,
    now: u64,
) -> (BreakerState, bool) {
    match st {
        BreakerState::Closed { failures } => if countable {
            if failures + 1 >= cfg.max_failures {
                (BreakerState::Open { opened_at: now }, false)
            } else {
                (BreakerState::Closed { failures: (failures + 1) as u64 }, false)
            }
        } else {
            (st, false)
        },
        BreakerState::Probing => if countable {
            (BreakerState::Open { opened_at: now }, false)
        } else {
            (BreakerState::Closed { failures: 0 }, true)
        },
        BreakerState::Open { .. } => (st, false),
    }
}

/// The state after a run of consecutive countable failures, one at each
/// listed time, in order.
pub open spec fn failures_applied(
    cfg: BreakerConfig,
    st: BreakerState,
    times: Seq<u64>,
) -> BreakerState
    decreases times.len(),
{
    if times.len() == 0 {
        st
    } else {
        spec_on_failure(cfg, failures_applied(cfg, st, times.drop_last()), true, times.last()).0
    }
}

/// The decisions for a run of calls, one at each listed time, in order,
/// and the state they leave behind.
pub open spec fn spec_run_requests(cfg: BreakerConfig, st: BreakerState, times: Seq<u64>) -> (
    Seq<CallDecision>,
    BreakerState,
)
    decreases times.len(),
{
    if times.len() == 0 {
        (Seq::<CallDecision>::empty(), st)
    } else {
        let prior = spec_run_requests(cfg, st, times.drop_last());
        let step = spec_on_request(cfg, prior.1, times.last());
        (prior.0.push(step.0), step.1)
    }
}

/// Fewer consecutive countable failures than the threshold leave the
/// circuit closed, with each one counted.
pub proof fn lemma_failures_counted(cfg: BreakerConfig, times: Seq<u64>, k: int)
    requires
        cfg.wf(),
        0 <= k <= times.len(),
        k < cfg.max_failures,
    ensures
        failures_applied(cfg, BreakerState::Closed { failures: 0u64 }, times.take(k))
            == (BreakerState::Closed { failures: k as u64 }),
    decreases k,
{
    if k == 0 {
        assert(times.take(0) =~= Seq::<u64>::empty());
    } else {
        lemma_failures_counted(cfg, times, k - 1);
        assert(times.take(k).drop_last() =~= times.take(k - 1));
    }
}

/// After exactly the threshold of consecutive countable failures, the
/// circuit is open, timed from the failure that tripped it.
pub proof fn lemma_consecutive_failures_open(cfg: BreakerConfig, times: Seq<u64>)
    requires
        cfg.wf(),
        times.len() == cfg.max_failures,
    ensures
        failures_applied(cfg, BreakerState::Closed { failures: 0u64 }, times)
            == (BreakerState::Open { opened_at: times.last() }),
{
    let n = times.len() as int;
    lemma_failures_counted(cfg, times, n - 1);
    assert(times.take(n) =~= times);
    assert(times.take(n).drop_last() =~= times.take(n - 1));
}

/// While the circuit is open, every call arriving before the cooldown
/// has elapsed fails fast without touching the backend, and leaves the
/// circuit open exactly as it was — however many such calls arrive.
pub proof fn lemma_open_fails_fast(cfg: BreakerConfig, opened_at: u64, times: Seq<u64>)
    requires
        forall|i: int|
            0 <= i < times.len() ==> !spec_cooldown_elapsed(cfg, opened_at, #[trigger] times[i]),
    ensures
        spec_run_requests(cfg, BreakerState::Open { opened_at }, times).1 == (BreakerState::Open {
            opened_at,
        }),
        spec_run_requests(cfg, BreakerState::Open { opened_at }, times).0.len() == times.len(),
        forall|i: int|
            0 <= i < times.len() ==> spec_run_requests(
                cfg,
                BreakerState::Open { opened_at },
                times,
            ).0[i] == CallDecision::FailFast,
    decreases times.len(),
{
    if times.len() > 0 {
        assert forall|i: int| 0 <= i < times.drop_last().len() implies !spec_cooldown_elapsed(
            cfg,
            opened_at,
            #[trigger] times.drop_last()[i],
        ) by {
            assert(times.drop_last()[i] == times[i]);
        }
        lemma_open_fails_fast(cfg, opened_at, times.drop_last());
        let prior = spec_run_requests(cfg, BreakerState::Open { opened_at }, times.drop_last());
        assert(!spec_cooldown_elapsed(cfg, opened_at, times.last()));
        assert forall|i: int| 0 <= i < times.len() implies spec_run_requests(
            cfg,
            BreakerState::Open { opened_at },
            times,
        ).0[i] == CallDecision::FailFast by {
            if i < times.len() - 1 {
                assert(spec_run_requests(cfg, BreakerState::Open { opened_at }, times).0[i]
                    == prior.0[i]);
            }
        }
    }
}

/// Once the cooldown has elapsed, one call is let through as a probe,
/// and a successful probe closes the circuit again: the next call passes
/// normally.
pub proof fn lemma_probe_recovers(
    cfg: BreakerConfig,
    opened_at: u64,
    probe_time: u64,
    next_time: u64,
)
    requires
        cfg.wf(),
        spec_cooldown_elapsed(cfg, opened_at, probe_time),
    ensures
        ({
            let probe = spec_on_request(cfg, BreakerState::Open { opened_at }, probe_time);
            let recovered = spec_on_success(probe.1);
            let next = spec_on_request(cfg, recovered.0, next_time);
            &&& probe.0 == CallDecision::Probe
            &&& recovered.0 == (BreakerState::Closed { failures: 0u64 })
            &&& recovered.1
            &&& next.0 == CallDecision::Pass
            &&& next.1 == recovered.0
        }),
{
}

/// The breaker: its tunables and its current state.
pub struct CircuitBreaker {
    pub config: BreakerConfig,
    pub state: BreakerState,
}

impl CircuitBreaker {
    /// The failure count never reaches the threshold while closed, so
    /// counting one more failure cannot overflow.
    pub open spec fn wf(&self) -> bool {
        &&& self.config.wf()
        &&& (self.state matches BreakerState::Closed { failures } ==> failures
            < self.config.max_failures)
    }

    /// A fresh breaker: closed, with no failures counted.
    pub fn new(config: BreakerConfig) -> (r: CircuitBreaker)
        requires
            config.max_failures >= 1,
        ensures
            r.wf(),
            r.config == config,
            r.state == (BreakerState::Closed { failures: 0u64 }),
    {
        CircuitBreaker { config, state: BreakerState::Closed { failures: 0 } }
    }

    /// Decides what to do with a call arriving at `now_ms`, advancing
    /// the state exactly as [`spec_on_request`] says.
    pub fn on_request(&mut self, now_ms: u64) -> (d: CallDecision)
        requires
            old(self).wf(),
        ensures
            final(self).wf(),
            final(self).config == old(self).config,
            (d, final(self).state) == spec_on_request(old(self).config, old(self).state, now_ms),
    {
        match self.state {
            BreakerState::Closed { .. } => CallDecision::Pass,
            BreakerState::Open { opened_at } => {
                if now_ms >= opened_at && now_ms - opened_at >= self.config.cooldown_ms {
                    self.state = BreakerState::Probing;
                    CallDecision::Probe
                } else {
                    CallDecision::FailFast
                }
            },
            BreakerState::Probing => CallDecision::FailFast,
        }
    }

    /// Records that a passed-through or probe call succeeded; returns
    /// whether the caller should reinitialize the connection source.
    pub fn on_success(&mut self) -> (reinit: bool)
        requires
            old(self).wf(),
        ensures
            final(self).wf(),
            final(self).config == old(self).config,
            (final(self).state, reinit) == spec_on_success(old(self).state),
    {
        let was_probe = match self.state {
            BreakerState::Probing => true,
            _ => false,
        };
        self.state = BreakerState::Closed { failures: 0 };
        was_probe
    }

    /// Records that a passed-through or probe call failed with `err` at
    /// `now_ms`; returns whether the caller should reinitialize the
    /// connection source.  The error's own classification decides
    /// whether the failure counts towards opening the circuit.
    pub fn on_failure(&mut self, err: &Error, now_ms: u64) -> (reinit: bool)
        requires
            old(self).wf(),
        ensures
            final(self).wf(),
            final(self).config == old(self).config,
            (final(self).state, reinit) == spec_on_failure(
                old(self).config,
                old(self).state,
                err.spec_is_countable(),
                now_ms,
            ),
    {
        let countable = err.is_countable();
        match self.state {
            BreakerState::Closed { failures } => {
                if countable {
                    if failures + 1 >= self.config.max_failures {
                        self.state = BreakerState::Open { opened_at: now_ms };
                    } else {
                        self.state = BreakerState::Closed { failures: failures + 1 };
                    }
                }
                false
            },
            BreakerState::Probing => {
                if countable {
                    self.state = BreakerState::Open { opened_at: now_ms };
                    false
                } else {
                    self.state = BreakerState::Closed { failures: 0 };
                    true
                }
            },
            BreakerState::Open { .. } => false,
        }
    }
}

} // verus!
