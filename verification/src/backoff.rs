//! Bounded-retry reconnect state machine with exponential backoff.
//!
//! The streaming client owns one `ReconnectState` and drives it with the
//! events it observes (attempt failed, retry timer fired, handshake
//! succeeded); each transition hands back the action the owner must
//! perform. The delay doubles after each consecutive failure, optionally
//! capped, and after `max_attempts` consecutive failures the machine
//! turns terminal and never asks for another attempt.

use vstd::prelude::*;

verus! {

/// Reconnect policy: first delay, failure budget, optional delay cap.
pub struct BackoffConfig {
    pub base_delay_ms: u64,
    pub max_attempts: u32,
    pub max_delay_ms: Option<u64>,
}

impl BackoffConfig {
    /// A usable policy grants at least one attempt.
    pub open spec fn wf(self) -> bool {
        self.max_attempts >= 1
    }
}

#[derive(Clone, Copy, Debug, PartialEq, Eq, Structural)]
pub enum ReconnectState {
    /// One handshake is in flight, after `failures` consecutive failures.
    Connecting { failures: u32 },
    /// The link is up and both pumps run; the failure count is reset.
    Connected,
    /// Suspended for `delay_ms` before the next attempt.
    Waiting { failures: u32, delay_ms: u64 },
    /// Terminal: the failure budget is spent, no further attempts occur.
    Failed,
}

#[derive(Clone, Copy, Debug, PartialEq, Eq, Structural)]
pub enum ReconnectAction {
    /// Begin one transport handshake.
    StartConnect,
    /// Suspend for the given number of milliseconds, then hand back the timer event.
    Sleep(u64),
    /// Start the inbound and outbound pumps.
    RunPumps,
    /// Surface the terminal failure to the owner.
    ReportFailure,
    /// The event carries no work in the current state.
    Ignore,
}

pub open spec fn pow2(n: nat) -> nat
    decreases n,
{
    if n == 0 {
        1
    } else {
        2 * pow2((n - 1) as nat)
    }
}

/// The delay slept after the `f`-th consecutive failure:
/// base_delay × 2^(f−1), clamped to `u64` and to the configured cap.
pub open spec fn delay_after_failures(cfg: BackoffConfig, f: nat) -> u64
    recommends
        f >= 1,
{
    let raw = cfg.base_delay_ms * pow2((f - 1) as nat);
    let clamped: u64 = if raw > u64::MAX { u64::MAX } else { raw as u64 };
    match cfg.max_delay_ms {
        Some(m) => if clamped > m { m } else { clamped },
        None => clamped,
    }
}

/// Where a failure of the attempt in flight (or of the live link) leads:
/// into a capped-delay wait, or into the terminal state once this failure
/// spends the budget.
pub open spec fn fail_transition(cfg: BackoffConfig, prior: nat) -> (ReconnectState, ReconnectAction)
    recommends
        prior < cfg.max_attempts,
{
    if prior + 1 >= cfg.max_attempts {
        (ReconnectState::Failed, ReconnectAction::ReportFailure)
    } else {
        let d = delay_after_failures(cfg, prior + 1);
        ((ReconnectState::Waiting { failures: (prior + 1) as u32, delay_ms: d }), ReconnectAction::Sleep(d))
    }
}

/// The whole step taken on a failure event, from any state.
pub open spec fn spec_on_failure(cfg: BackoffConfig, s: ReconnectState) -> (ReconnectState, ReconnectAction) {
    match s {
        ReconnectState::Connecting { failures } => fail_transition(cfg, failures as nat),
        ReconnectState::Connected => fail_transition(cfg, 0),
        _ => (s, ReconnectAction::Ignore),
    }
}

/// The step taken when the retry timer fires.
pub open spec fn spec_on_retry_timer(s: ReconnectState) -> (ReconnectState, ReconnectAction) {
    match s {
        ReconnectState::Waiting { failures, delay_ms } => (
            (ReconnectState::Connecting { failures }),
            ReconnectAction::StartConnect,
        ),
        _ => (s, ReconnectAction::Ignore),
    }
}

/// The step taken when a handshake succeeds: counters reset.
pub open spec fn spec_on_connected(s: ReconnectState) -> (ReconnectState, ReconnectAction) {
    match s {
        ReconnectState::Connecting { failures } => (ReconnectState::Connected, ReconnectAction::RunPumps),
        _ => (s, ReconnectAction::Ignore),
    }
}

impl ReconnectState {
    /// States the machine can actually reach under a policy: the failure
    /// count stays under the budget and a waiting state holds exactly the
    /// delay its failure count dictates.
    pub open spec fn wf(self, cfg: BackoffConfig) -> bool {
        match self {
            ReconnectState::Connecting { failures } => failures < cfg.max_attempts,
            ReconnectState::Waiting { failures, delay_ms } => {
                &&& 1 <= failures < cfg.max_attempts
                &&& delay_ms == delay_after_failures(cfg, failures as nat)
            },
            _ => true,
        }
    }

    /// A fresh client: first handshake in flight, clean failure count.
    pub fn initial() -> (s: Self)
        ensures
            s == (ReconnectState::Connecting { failures: 0u32 }),
            forall|cfg: BackoffConfig| cfg.wf() ==> s.wf(cfg),
    {
        ReconnectState::Connecting { failures: 0 }
    }

    /// The attempt in flight failed, or the live link dropped.
    pub fn on_failure(&mut self, cfg: &BackoffConfig) -> (a: ReconnectAction)
        requires
            cfg.wf(),
            old(self).wf(*cfg),
        ensures
            *final(self) == spec_on_failure(*cfg, *old(self)).0,
            a == spec_on_failure(*cfg, *old(self)).1,
            final(self).wf(*cfg),
    {
        let prior: u32 = match *self {
            ReconnectState::Connecting { failures } => failures,
            ReconnectState::Connected => 0,
            _ => {
                return ReconnectAction::Ignore;
            },
        };
        if prior >= cfg.max_attempts - 1 {
            *self = ReconnectState::Failed;
            ReconnectAction::ReportFailure
        } else {
            let f = prior + 1;
            let d = compute_delay(cfg, f);
            *self = ReconnectState::Waiting { failures: f, delay_ms: d };
            ReconnectAction::Sleep(d)
        }
    }

    /// The retry timer fired: start the next handshake.
    pub fn on_retry_timer(&mut self) -> (a: ReconnectAction)
        ensures
            *final(self) == spec_on_retry_timer(*old(self)).0,
            a == spec_on_retry_timer(*old(self)).1,
            forall|cfg: BackoffConfig| old(self).wf(cfg) ==> final(self).wf(cfg),
    {
        match *self {
            ReconnectState::Waiting { failures, delay_ms } => {
                *self = ReconnectState::Connecting { failures };
                ReconnectAction::StartConnect
            },
            _ => ReconnectAction::Ignore,
        }
    }

    /// The handshake succeeded: the failure count and the delay reset.
    pub fn on_connected(&mut self) -> (a: ReconnectAction)
        ensures
            *final(self) == spec_on_connected(*old(self)).0,
            a == spec_on_connected(*old(self)).1,
            forall|cfg: BackoffConfig| old(self).wf(cfg) ==> final(self).wf(cfg),
    {
        match *self {
            ReconnectState::Connecting { failures } => {
                *self = ReconnectState::Connected;
                ReconnectAction::RunPumps
            },
            _ => ReconnectAction::Ignore,
        }
    }
}

/// The delay owed after `failures` consecutive failures, by repeated
/// saturating doubling of the base delay, then the configured cap.
fn compute_delay(cfg: &BackoffConfig, failures: u32) -> (d: u64)
    requires
        failures >= 1,
    ensures
        d == delay_after_failures(*cfg, failures as nat),
{
    let mut d: u64 = cfg.base_delay_ms;
    let mut i: u32 = 1;
    proof {
        assert(pow2(0) == 1);
        assert(cfg.base_delay_ms * pow2(0) == cfg.base_delay_ms) by (nonlinear_arith)
            requires
                pow2(0) == 1,
        ;
    }
    while i < failures
        invariant
            1 <= i <= failures,
            d == ({
                let raw = cfg.base_delay_ms * pow2((i - 1) as nat);
                if raw > u64::MAX { u64::MAX } else { raw as u64 }
            }),
        decreases failures - i,
    {
        proof {
            let base = cfg.base_delay_ms as nat;
            let p = pow2((i - 1) as nat);
            assert(pow2(i as nat) == 2 * p);
            assert(base * (2 * p) == 2 * (base * p)) by (nonlinear_arith);
        }
        if d > u64::MAX / 2 {
            d = u64::MAX;
        } else {
            d = d * 2;
        }
        i = i + 1;
    }
    match cfg.max_delay_ms {
        Some(m) => if d > m { m } else { d },
        None => d,
    }
}

/// State after `f` complete failure rounds (a failed attempt, then the
/// retry timer) starting from a fresh client.
pub open spec fn chain(cfg: BackoffConfig, f: nat) -> ReconnectState
    decreases f,
{
    if f == 0 {
        ReconnectState::Connecting { failures: 0 }
    } else {
        spec_on_retry_timer(spec_on_failure(cfg, chain(cfg, (f - 1) as nat)).0).0
    }
}

pub proof fn lemma_chain_connecting(cfg: BackoffConfig, f: nat)
    requires
        cfg.wf(),
        f < cfg.max_attempts,
    ensures
        chain(cfg, f) == (ReconnectState::Connecting { failures: f as u32 }),
    decreases f,
{
    if f > 0 {
        lemma_chain_connecting(cfg, (f - 1) as nat);
    }
}

/// Backoff law. Starting fresh, the delay slept before retry attempt
/// f+1 equals base_delay × 2^f, clamped to `u64` and to the configured
/// cap, for every f whose next failure still leaves budget; the
/// max_attempts-th consecutive failure instead turns the machine
/// terminal and reports the failure; and the terminal state absorbs
/// every further event with no action, so no attempt follows it and the
/// failure is reported exactly once.
pub proof fn lemma_backoff_law(cfg: BackoffConfig, f: nat)
    requires
        cfg.wf(),
        f < cfg.max_attempts,
    ensures
        f + 1 < cfg.max_attempts ==> spec_on_failure(cfg, chain(cfg, f)).1 == ReconnectAction::Sleep(
            delay_after_failures(cfg, f + 1),
        ),
        f + 1 == cfg.max_attempts ==> spec_on_failure(cfg, chain(cfg, f)) == (
            ReconnectState::Failed,
            ReconnectAction::ReportFailure,
        ),
        spec_on_failure(cfg, ReconnectState::Failed) == (ReconnectState::Failed, ReconnectAction::Ignore),
        spec_on_retry_timer(ReconnectState::Failed) == (ReconnectState::Failed, ReconnectAction::Ignore),
        spec_on_connected(ReconnectState::Failed) == (ReconnectState::Failed, ReconnectAction::Ignore),
{
    lemma_chain_connecting(cfg, f);
}

/// The terminal failure is reported exactly at the step that enters the
/// terminal state, and at no other: a failure step reports it if and
/// only if it moves a non-terminal state to the terminal one, and the
/// other two steps never report it nor reach the terminal state anew.
pub proof fn lemma_failure_reported_once(cfg: BackoffConfig, s: ReconnectState)
    ensures
        (spec_on_failure(cfg, s).1 == ReconnectAction::ReportFailure) <==> (!(s is Failed)
            && spec_on_failure(cfg, s).0 is Failed),
        spec_on_retry_timer(s).1 != ReconnectAction::ReportFailure,
        spec_on_connected(s).1 != ReconnectAction::ReportFailure,
        !(s is Failed) ==> !(spec_on_retry_timer(s).0 is Failed),
        !(s is Failed) ==> !(spec_on_connected(s).0 is Failed),
{
}

} // verus!
