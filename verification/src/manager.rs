//! The manager's lifecycle: idempotent start and stop of a session, and the
//! readiness gate before requests are proxied to a newly spawned trace agent.
//!
//! The caller owns the child processes, the monitor thread and the locks;
//! it performs what these transitions decide.
use vstd::prelude::*;
use crate::monitor::Backoff;
use crate::text;

verus! {

/// The state the manager keeps across calls.
pub struct ManagerState {
    /// Whether a session is running (children managed, monitor active).
    pub running: bool,
    /// Respawn backoff of the agent.
    pub agent: Backoff,
    /// Respawn backoff of the trace agent.
    pub trace: Backoff,
    /// Whether the current trace agent was seen accepting connections.
    pub trace_ready: bool,
}

impl ManagerState {
    /// No session, fresh backoff, readiness unknown.
    pub open spec fn fresh() -> ManagerState {
        ManagerState {
            running: false,
            agent: Backoff::initial(),
            trace: Backoff::initial(),
            trace_ready: false,
        }
    }

    /// A session that has just started.
    pub open spec fn started() -> ManagerState {
        ManagerState { running: true, ..ManagerState::fresh() }
    }

    /// The state after a call of `start`.
    pub open spec fn after_start(self) -> ManagerState {
        if self.running {
            self
        } else {
            ManagerState::started()
        }
    }

    /// The state after a call of `stop`.
    pub open spec fn after_stop(self) -> ManagerState {
        if self.running {
            ManagerState::fresh()
        } else {
            self
        }
    }

    pub fn new() -> (s: ManagerState)
        ensures
            s == ManagerState::fresh(),
    {
        ManagerState {
            running: false,
            agent: Backoff::new(),
            trace: Backoff::new(),
            trace_ready: false,
        }
    }

    /// Starts a session unless one runs. Returns whether this call started
    /// it; the caller then records the initialization, spawns both children
    /// and starts the monitor.
    pub fn start(&mut self) -> (started: bool)
        ensures
            started == !old(self).running,
            *final(self) == old(self).after_start(),
    {
        if self.running {
            return false;
        }
        self.running = true;
        self.agent.reset();
        self.trace.reset();
        self.trace_ready = false;
        true
    }

    /// Stops the session if one runs. Returns whether this call stopped it;
    /// the caller then stops the monitor and terminates both children. The
    /// backoff and readiness are cleared for a later restart.
    pub fn stop(&mut self) -> (stopped: bool)
        ensures
            stopped == old(self).running,
            *final(self) == old(self).after_stop(),
    {
        if !self.running {
            return false;
        }
        self.running = false;
        self.agent.reset();
        self.trace.reset();
        self.trace_ready = false;
        true
    }

    /// A new trace agent was spawned: its readiness must be checked again.
    pub fn reset_trace_agent_readiness(&mut self)
        ensures
            *final(self) == (ManagerState { trace_ready: false, ..*old(self) }),
    {
        self.trace_ready = false;
    }

    /// Whether the current trace agent is known to accept connections.
    pub fn is_trace_agent_ready(&self) -> (b: bool)
        ensures
            b == self.trace_ready,
    {
        self.trace_ready
    }
}

/// Starts the runtime unless it runs: a running session is left alone;
/// otherwise the state is replaced by a fresh one and started. Returns
/// whether a session was started.
pub fn initialize(state: &mut ManagerState) -> (started: bool)
    ensures
        started == !old(state).running,
        *final(state) == old(state).after_start(),
{
    if state.running {
        return false;
    }
    *state = ManagerState::new();
    state.start()
}

/// What to do before a request is proxied to the trace agent.
#[derive(Clone, Copy, PartialEq, Eq, Structural, Debug)]
pub enum ReadyStep {
    /// Send the request now.
    Proceed,
    /// Wait up to this many milliseconds for the trace agent to accept
    /// connections, then report with `after_readiness_wait`.
    Wait(u64),
}

/// How long to wait for a new trace agent: half a second in debug builds,
/// ten seconds otherwise.
pub open spec fn readiness_timeout_ms(debug_build: bool) -> u64 {
    if debug_build {
        500
    } else {
        10000
    }
}

/// The error when a trace agent did not become ready in time.
pub open spec fn not_ready_message() -> Seq<char> {
    "trace-agent not ready to accept connections within timeout"@
}

impl ManagerState {
    /// The readiness gate: no wait when readiness was already seen, or when
    /// no trace agent was spawned by this library (another process serves
    /// the endpoint).
    pub open spec fn ready_step(self, trace_child_present: bool, debug_build: bool) -> ReadyStep {
        if self.trace_ready || !trace_child_present {
            ReadyStep::Proceed
        } else {
            ReadyStep::Wait(readiness_timeout_ms(debug_build))
        }
    }

    pub fn readiness_step(&self, trace_child_present: bool, debug_build: bool) -> (step: ReadyStep)
        ensures
            step == self.ready_step(trace_child_present, debug_build),
    {
        if self.trace_ready || !trace_child_present {
            ReadyStep::Proceed
        } else if debug_build {
            ReadyStep::Wait(500)
        } else {
            ReadyStep::Wait(10000)
        }
    }

    /// After the wait: a ready trace agent is remembered. A timeout is an
    /// error in release builds; debug builds go on and do not wait again.
    pub fn after_readiness_wait(&mut self, became_ready: bool, debug_build: bool) -> (r: Result<(), String>)
        ensures
            (became_ready || debug_build) ==> r is Ok && *final(self) == (ManagerState {
                trace_ready: true,
                ..*old(self)
            }),
            !(became_ready || debug_build) ==> (r matches Err(e) && e@ == not_ready_message())
                && *final(self) == *old(self),
    {
        if became_ready || debug_build {
            self.trace_ready = true;
            Ok(())
        } else {
            Err(text::owned("trace-agent not ready to accept connections within timeout"))
        }
    }
}

/// Starting twice is starting once: the second call starts nothing and
/// changes nothing.
pub proof fn lemma_start_idempotent(s: ManagerState)
    ensures
        s.after_start().running,
        s.after_start().after_start() == s.after_start(),
{
}

/// Stopping twice is stopping once.
pub proof fn lemma_stop_idempotent(s: ManagerState)
    ensures
        !s.after_stop().running,
        s.after_stop().after_stop() == s.after_stop(),
{
}

/// A stop after a start, from any state, leaves a fresh state; a start after
/// a stop begins a session with fresh backoff and unknown readiness.
pub proof fn lemma_restart_is_fresh(s: ManagerState)
    ensures
        s.after_start().after_stop() == ManagerState::fresh(),
        s.after_stop().after_start() == ManagerState::started(),
{
}

/// A newly spawned trace agent is waited for before the next proxied
/// request; once it was seen ready (or the wait ended in a debug build),
/// later requests go ahead at once.
pub proof fn lemma_readiness_after_respawn(s: ManagerState, debug_build: bool)
    ensures
        (ManagerState { trace_ready: false, ..s }).ready_step(true, debug_build) == ReadyStep::Wait(
            readiness_timeout_ms(debug_build),
        ),
        (ManagerState { trace_ready: true, ..s }).ready_step(true, debug_build) == ReadyStep::Proceed,
        s.ready_step(false, debug_build) == ReadyStep::Proceed,
{
}

} // verus!
