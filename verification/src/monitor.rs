//! The respawn rules of the monitor.
//!
//! Each tick checks a managed child; a child that is gone is respawned,
//! unless the backoff window after a failed spawn is still open or another
//! process already serves what the child would serve. Failed spawns double
//! the backoff up to its maximum; a successful spawn resets it.
//!
//! Times are monotonic milliseconds, read by the caller.
use vstd::prelude::*;
use crate::config::{BACKOFF_INITIAL_SECS, BACKOFF_MAX_SECS};
use crate::metrics::Metrics;
use crate::text;

verus! {

/// The backoff that follows `secs` after a failed spawn: doubled, capped
/// at the maximum.
pub open spec fn next_backoff(secs: u64) -> u64 {
    if 2 * secs <= BACKOFF_MAX_SECS {
        (2 * secs) as u64
    } else {
        BACKOFF_MAX_SECS
    }
}

/// `now_ms` plus `secs` seconds, saturating at `u64::MAX`.
pub open spec fn deadline(now_ms: u64, secs: u64) -> u64 {
    if now_ms + secs * 1000 <= u64::MAX {
        (now_ms + secs * 1000) as u64
    } else {
        u64::MAX
    }
}

/// Respawn backoff of one managed process.
pub struct Backoff {
    /// How long to wait after the next failed spawn, in seconds.
    pub secs: u64,
    /// No spawn is attempted before this time, if set.
    pub next_attempt_ms: Option<u64>,
}

impl Backoff {
    /// The backoff lies between its initial value and its maximum.
    pub open spec fn wf(self) -> bool {
        BACKOFF_INITIAL_SECS <= self.secs <= BACKOFF_MAX_SECS
    }

    /// The backoff window is open at `now_ms`: a spawn failed and its wait
    /// has not passed yet.
    pub open spec fn waiting(self, now_ms: u64) -> bool {
        self.next_attempt_ms matches Some(next) && now_ms < next
    }

    /// The state of a fresh session: initial delay, no window.
    pub open spec fn initial() -> Backoff {
        Backoff { secs: BACKOFF_INITIAL_SECS, next_attempt_ms: None }
    }

    pub fn new() -> (b: Backoff)
        ensures
            b == Backoff::initial(),
    {
        Backoff { secs: BACKOFF_INITIAL_SECS, next_attempt_ms: None }
    }

    /// Back to the state of a fresh session.
    pub fn reset(&mut self)
        ensures
            *final(self) == Backoff::initial(),
    {
        self.secs = BACKOFF_INITIAL_SECS;
        self.next_attempt_ms = None;
    }

    pub fn in_window(&self, now_ms: u64) -> (b: bool)
        ensures
            b == self.waiting(now_ms),
    {
        match self.next_attempt_ms {
            Some(next) => now_ms < next,
            None => false,
        }
    }

    /// A spawn succeeded: the delay goes back to its initial value and the
    /// window closes.
    pub fn on_spawn_success(&mut self)
        ensures
            *final(self) == Backoff::initial(),
    {
        self.reset();
    }

    /// A spawn failed at `now_ms`: no attempt before the current delay has
    /// passed, and the delay doubles up to the maximum.
    pub fn on_spawn_failure(&mut self, now_ms: u64)
        ensures
            final(self).next_attempt_ms == Some(deadline(now_ms, old(self).secs)),
            final(self).secs == next_backoff(old(self).secs),
            now_ms + 1000 * old(self).secs <= u64::MAX ==> final(self).next_attempt_ms == Some(
                (now_ms + 1000 * old(self).secs) as u64,
            ),
            now_ms + 1000 * old(self).secs > u64::MAX ==> final(self).next_attempt_ms == Some(
                u64::MAX,
            ),
    {
        let wait_ms: u64 = if self.secs <= u64::MAX / 1000 {
            self.secs * 1000
        } else {
            u64::MAX
        };
        self.next_attempt_ms = Some(
            if now_ms <= u64::MAX - wait_ms {
                now_ms + wait_ms
            } else {
                u64::MAX
            },
        );
        self.secs = if self.secs <= BACKOFF_MAX_SECS / 2 {
            self.secs * 2
        } else {
            BACKOFF_MAX_SECS
        };
    }
}

/// What a look at a managed child found.
#[derive(Clone, Copy, PartialEq, Eq, Structural, Debug)]
pub enum ChildCheck {
    /// No child was started, or it was already cleared.
    NoChild,
    /// The child is still running.
    Running,
    /// The child has exited.
    Exited,
    /// Its status could not be read; it is treated as not running.
    CheckFailed,
}

/// What must be checked before a child is spawned, so that two processes
/// do not compete for the same resource.
#[derive(Clone, Copy, PartialEq, Eq, Structural, Debug)]
pub enum Probe {
    /// The trace agent's socket or pipe: is another process listening?
    Endpoint,
    /// The agent's remote configuration service: does an agent already run?
    RemoteConfig,
    /// Nothing to check.
    Nothing,
}

pub open spec fn probe_kind(name: Seq<char>) -> Probe {
    if name == "trace-agent"@ {
        Probe::Endpoint
    } else if name == "agent"@ {
        Probe::RemoteConfig
    } else {
        Probe::Nothing
    }
}

/// The check that comes before spawning the process named `name`.
pub fn probe_for(name: &str) -> (p: Probe)
    ensures
        p == probe_kind(name@),
{
    if text::str_eq(name, "trace-agent") {
        Probe::Endpoint
    } else if text::str_eq(name, "agent") {
        Probe::RemoteConfig
    } else {
        Probe::Nothing
    }
}

/// What the monitor does next in a tick.
#[derive(Clone, Copy, PartialEq, Eq, Structural, Debug)]
pub enum TickStep {
    /// Nothing this tick: the child runs, or the backoff window is open.
    Idle,
    /// Run the given check, then spawn unless it found a conflict.
    Attempt(Probe),
}

/// The child was lost: it exited, or its status could not be read.
pub open spec fn child_lost(check: ChildCheck) -> bool {
    check is Exited || check is CheckFailed
}

pub open spec fn tick_step(name: Seq<char>, check: ChildCheck, backoff: Backoff, now_ms: u64) -> TickStep {
    if check is Running || backoff.waiting(now_ms) {
        TickStep::Idle
    } else {
        TickStep::Attempt(probe_kind(name))
    }
}

/// First half of a tick of the process named `name`: a lost child is
/// counted as a failure (the caller clears it), and the step says whether
/// a spawn is due.
pub fn begin_tick(name: &str, check: ChildCheck, backoff: &Backoff, now_ms: u64, metrics: &mut Metrics) -> (step:
    TickStep)
    ensures
        step == tick_step(name@, check, *backoff, now_ms),
        *final(metrics) == (if child_lost(check) {
            old(metrics).after_failure(name@)
        } else {
            *old(metrics)
        }),
{
    match check {
        ChildCheck::Running => {
            return TickStep::Idle;
        },
        ChildCheck::Exited | ChildCheck::CheckFailed => {
            metrics.record_process_failure(name);
        },
        ChildCheck::NoChild => {},
    }
    if backoff.in_window(now_ms) {
        TickStep::Idle
    } else {
        TickStep::Attempt(probe_for(name))
    }
}

/// How an attempted spawn ended.
#[derive(Clone, Copy, PartialEq, Eq, Structural, Debug)]
pub enum SpawnOutcome {
    /// The check found another process serving the resource; nothing was spawned.
    Skipped,
    /// The child was spawned.
    Spawned,
    /// Spawning failed.
    Failed,
}

/// Second half of a tick of the process named `name`, after the spawn
/// attempt at `now_ms`. Returns whether a new trace agent was spawned (its
/// readiness must then be checked again).
pub fn finish_tick(name: &str, outcome: SpawnOutcome, backoff: &mut Backoff, now_ms: u64, metrics: &mut Metrics) -> (trace_spawned:
    bool)
    ensures
        outcome is Skipped ==> *final(backoff) == *old(backoff) && *final(metrics) == *old(metrics)
            && !trace_spawned,
        outcome is Spawned ==> *final(backoff) == Backoff::initial() && *final(metrics) == old(
            metrics,
        ).after_spawn(name@) && trace_spawned == (name@ == "trace-agent"@),
        outcome is Failed ==> final(backoff).next_attempt_ms == Some(deadline(now_ms, old(backoff).secs))
            && final(backoff).secs == next_backoff(old(backoff).secs) && *final(metrics) == old(
            metrics,
        ).after_failure(name@) && !trace_spawned,
{
    match outcome {
        SpawnOutcome::Skipped => false,
        SpawnOutcome::Spawned => {
            backoff.on_spawn_success();
            metrics.record_process_spawn(name);
            text::str_eq(name, "trace-agent")
        },
        SpawnOutcome::Failed => {
            metrics.record_process_failure(name);
            backoff.on_spawn_failure(now_ms);
            false
        },
    }
}

/// How long until `next`, if it lies after `now_ms`.
pub open spec fn pending(now_ms: u64, next: Option<u64>) -> Option<int> {
    match next {
        Some(n) => if now_ms < n {
            Some(n - now_ms)
        } else {
            None
        },
        None => None,
    }
}

pub open spec fn min_pending(d: int, now_ms: u64, next: Option<u64>) -> int {
    match pending(now_ms, next) {
        Some(p) => if p < d {
            p
        } else {
            d
        },
        None => d,
    }
}

/// How long the monitor sleeps after a tick: the check interval, cut short
/// so that the earlier of the two pending respawn deadlines is not missed.
pub fn sleep_ms(interval_ms: u64, now_ms: u64, agent_next: Option<u64>, trace_next: Option<u64>) -> (d:
    u64)
    ensures
        d == min_pending(min_pending(interval_ms as int, now_ms, agent_next), now_ms, trace_next),
{
    let mut d = interval_ms;
    if let Some(n) = agent_next {
        if now_ms < n && n - now_ms < d {
            d = n - now_ms;
        }
    }
    if let Some(n) = trace_next {
        if now_ms < n && n - now_ms < d {
            d = n - now_ms;
        }
    }
    d
}

/// The backoff after `k` failed spawns in a row from a fresh session.
pub open spec fn backoff_after_failures(k: nat) -> u64
    decreases k,
{
    if k == 0 {
        BACKOFF_INITIAL_SECS
    } else {
        next_backoff(backoff_after_failures((k - 1) as nat))
    }
}

pub open spec fn pow2(k: nat) -> nat
    decreases k,
{
    if k == 0 {
        1
    } else {
        2 * pow2((k - 1) as nat)
    }
}

/// The wait a failed spawn opens is its delay in milliseconds: from `now_ms`
/// to `now_ms + 1000 * secs` (the end of time when that overflows).
pub proof fn lemma_deadline_is_delay(now_ms: u64, secs: u64)
    ensures
        now_ms + 1000 * secs <= u64::MAX ==> deadline(now_ms, secs) == now_ms + 1000 * secs,
        now_ms + 1000 * secs > u64::MAX ==> deadline(now_ms, secs) == u64::MAX,
{
}

/// The window after the `k`-th failed spawn in a row from a fresh session
/// (`k >= 1`), started at `now_ms`, lasts `1000 * min(2^(k-1), 30)`
/// milliseconds.
pub proof fn lemma_window_after_failures(k: nat, now_ms: u64)
    requires
        k >= 1,
    ensures
        ({
            let secs = if pow2((k - 1) as nat) <= BACKOFF_MAX_SECS {
                pow2((k - 1) as nat)
            } else {
                BACKOFF_MAX_SECS as nat
            };
            &&& backoff_after_failures((k - 1) as nat) == secs
            &&& now_ms + 1000 * secs <= u64::MAX ==> deadline(
                now_ms,
                backoff_after_failures((k - 1) as nat),
            ) == now_ms + 1000 * secs
        }),
{
    lemma_backoff_doubles((k - 1) as nat);
    lemma_deadline_is_delay(now_ms, backoff_after_failures((k - 1) as nat));
}

/// Every backoff step keeps the delay between its initial value and its
/// maximum.
pub proof fn lemma_backoff_stays_bounded(b: Backoff, now_ms: u64)
    requires
        b.wf(),
    ensures
        Backoff::initial().wf(),
        (Backoff { secs: next_backoff(b.secs), next_attempt_ms: Some(deadline(now_ms, b.secs)) }).wf(),
{
}

/// After `k` failed spawns in a row from a fresh session the delay is
/// `2^k` seconds, capped at the maximum.
pub proof fn lemma_backoff_doubles(k: nat)
    ensures
        backoff_after_failures(k) == (if pow2(k) <= BACKOFF_MAX_SECS {
            pow2(k)
        } else {
            BACKOFF_MAX_SECS as nat
        }),
    decreases k,
{
    if k > 0 {
        lemma_backoff_doubles((k - 1) as nat);
        lemma_pow2_grows((k - 1) as nat);
    }
}

proof fn lemma_pow2_grows(k: nat)
    ensures
        pow2(k) >= 1,
        pow2(k + 1) == 2 * pow2(k),
    decreases k,
{
    if k > 0 {
        lemma_pow2_grows((k - 1) as nat);
    }
}

/// The monitor never sleeps longer than its interval, nor past a pending
/// respawn deadline.
pub proof fn lemma_sleep_bounded(interval_ms: u64, now_ms: u64, agent_next: Option<u64>, trace_next: Option<u64>)
    ensures
        ({
            let d = min_pending(min_pending(interval_ms as int, now_ms, agent_next), now_ms, trace_next);
            &&& d <= interval_ms
            &&& (pending(now_ms, agent_next) matches Some(p) ==> d <= p)
            &&& (pending(now_ms, trace_next) matches Some(p) ==> d <= p)
        }),
{
}

/// After a failed spawn at `now_ms`, a missing child is not respawned
/// before the backoff delay has passed, and is attempted again once it has.
pub proof fn lemma_no_retry_within_backoff(name: Seq<char>, b: Backoff, now_ms: u64, later_ms: u64)
    ensures
        ({
            let failed = Backoff {
                secs: next_backoff(b.secs),
                next_attempt_ms: Some(deadline(now_ms, b.secs)),
            };
            &&& later_ms < deadline(now_ms, b.secs) ==> tick_step(
                name,
                ChildCheck::NoChild,
                failed,
                later_ms,
            ) == TickStep::Idle
            &&& later_ms >= deadline(now_ms, b.secs) ==> tick_step(
                name,
                ChildCheck::NoChild,
                failed,
                later_ms,
            ) == TickStep::Attempt(probe_kind(name))
        }),
{
}

/// A running child is never respawned, whatever the backoff.
pub proof fn lemma_running_child_left_alone(name: Seq<char>, b: Backoff, now_ms: u64)
    ensures
        tick_step(name, ChildCheck::Running, b, now_ms) == TickStep::Idle,
{
}

} // verus!
