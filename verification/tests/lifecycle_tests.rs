use libagent::config::{get_backoff_initial_secs, BACKOFF_MAX_SECS};
use libagent::manager::{initialize, ManagerState, ReadyStep};
use libagent::metrics::Metrics;
use libagent::monitor::{
    begin_tick, finish_tick, probe_for, sleep_ms, Backoff, ChildCheck, Probe, SpawnOutcome,
    TickStep,
};

#[test]
fn test_tick_process_backoff_logic() {
    // No child, but the backoff window is still open: nothing is attempted.
    let mut metrics = Metrics::new();
    let now = 10_000;
    let backoff = Backoff { secs: 1, next_attempt_ms: Some(now + 1000) };
    let step = begin_tick("test", ChildCheck::NoChild, &backoff, now, &mut metrics);
    assert_eq!(step, TickStep::Idle);
    assert_eq!(backoff.secs, 1);
    assert_eq!(metrics, Metrics::new());
}

#[test]
fn test_agent_manager_tick_process_none_spec() {
    let mut metrics = Metrics::new();
    let mut backoff = Backoff::new();
    let step = begin_tick("test", ChildCheck::NoChild, &backoff, 0, &mut metrics);
    assert_eq!(step, TickStep::Attempt(Probe::Nothing));
    let spawned = finish_tick("test", SpawnOutcome::Failed, &mut backoff, 0, &mut metrics);
    assert!(!spawned);
    assert_eq!(metrics, Metrics::new());
}

#[test]
fn test_tick_process_respects_uds_override_conflict() {
    // The probe found the socket in use: the spawn is skipped and the
    // backoff stays as it was.
    let mut metrics = Metrics::new();
    let mut backoff = Backoff { secs: get_backoff_initial_secs(), next_attempt_ms: None };
    let step = begin_tick("trace-agent", ChildCheck::NoChild, &backoff, 5, &mut metrics);
    assert_eq!(step, TickStep::Attempt(Probe::Endpoint));
    let spawned = finish_tick("trace-agent", SpawnOutcome::Skipped, &mut backoff, 5, &mut metrics);
    assert!(!spawned);
    assert!(backoff.next_attempt_ms.is_none());
    assert_eq!(backoff.secs, get_backoff_initial_secs());
}

#[test]
fn running_child_needs_nothing() {
    let mut metrics = Metrics::new();
    let backoff = Backoff::new();
    let step = begin_tick("agent", ChildCheck::Running, &backoff, 0, &mut metrics);
    assert_eq!(step, TickStep::Idle);
    assert_eq!(metrics.agent_failures(), 0);
}

#[test]
fn exited_child_is_counted_and_respawned() {
    let mut metrics = Metrics::new();
    let mut backoff = Backoff::new();
    let step = begin_tick("trace-agent", ChildCheck::Exited, &backoff, 0, &mut metrics);
    assert_eq!(step, TickStep::Attempt(Probe::Endpoint));
    assert_eq!(metrics.trace_agent_failures(), 1);
    let spawned = finish_tick("trace-agent", SpawnOutcome::Spawned, &mut backoff, 0, &mut metrics);
    assert!(spawned);
    assert_eq!(metrics.trace_agent_spawns(), 1);

    let step = begin_tick("agent", ChildCheck::CheckFailed, &backoff, 0, &mut metrics);
    assert_eq!(step, TickStep::Attempt(Probe::RemoteConfig));
    assert_eq!(metrics.agent_failures(), 1);
    let spawned = finish_tick("agent", SpawnOutcome::Spawned, &mut backoff, 0, &mut metrics);
    assert!(!spawned);
}

#[test]
fn backoff_timeline_from_the_docs() {
    // Attempt 1 fails: next attempt 1s later, backoff 2s.
    let mut metrics = Metrics::new();
    let mut b = Backoff::new();
    finish_tick("agent", SpawnOutcome::Failed, &mut b, 0, &mut metrics);
    assert_eq!(b.next_attempt_ms, Some(1000));
    assert_eq!(b.secs, 2);
    assert!(b.in_window(999));
    assert!(!b.in_window(1000));
    // Attempt 2 fails: next attempt 2s later, backoff 4s.
    finish_tick("agent", SpawnOutcome::Failed, &mut b, 1000, &mut metrics);
    assert_eq!(b.next_attempt_ms, Some(3000));
    assert_eq!(b.secs, 4);
    // Attempt 3 succeeds: backoff back to 1s.
    finish_tick("agent", SpawnOutcome::Spawned, &mut b, 3000, &mut metrics);
    assert_eq!(b.secs, 1);
    assert_eq!(b.next_attempt_ms, None);
    assert_eq!(metrics.agent_failures(), 2);
    assert_eq!(metrics.agent_spawns(), 1);
}

#[test]
fn backoff_is_capped() {
    let mut b = Backoff::new();
    let mut seen = Vec::new();
    for i in 0..7u64 {
        b.on_spawn_failure(i);
        seen.push(b.secs);
    }
    assert_eq!(seen, vec![2, 4, 8, 16, 30, 30, 30]);
    assert_eq!(b.secs, BACKOFF_MAX_SECS);
}

#[test]
fn backoff_deadline_saturates() {
    let mut b = Backoff { secs: 30, next_attempt_ms: None };
    b.on_spawn_failure(u64::MAX - 10);
    assert_eq!(b.next_attempt_ms, Some(u64::MAX));
}

#[test]
fn probes_by_name() {
    assert_eq!(probe_for("trace-agent"), Probe::Endpoint);
    assert_eq!(probe_for("agent"), Probe::RemoteConfig);
    assert_eq!(probe_for("other"), Probe::Nothing);
}

#[test]
fn monitor_sleep_follows_deadlines() {
    assert_eq!(sleep_ms(1000, 0, None, None), 1000);
    assert_eq!(sleep_ms(1000, 100, Some(400), None), 300);
    assert_eq!(sleep_ms(1000, 100, Some(900), Some(250)), 150);
    assert_eq!(sleep_ms(1000, 100, Some(50), Some(5000)), 1000);
}

#[test]
fn test_agent_manager_new() {
    let state = ManagerState::new();
    assert!(!state.running);
    assert!(!state.is_trace_agent_ready());
    assert_eq!(state.agent.secs, get_backoff_initial_secs());
    assert_eq!(state.trace.next_attempt_ms, None);
}

#[test]
fn start_and_stop_are_idempotent() {
    let mut state = ManagerState::new();
    assert!(initialize(&mut state));
    assert!(state.running);
    assert!(!initialize(&mut state));
    assert!(!state.start());
    assert!(state.running);
    assert!(state.stop());
    assert!(!state.running);
    assert!(!state.stop());
}

#[test]
fn restart_clears_backoff_and_readiness() {
    let mut state = ManagerState::new();
    state.start();
    state.trace.on_spawn_failure(0);
    state.trace.on_spawn_failure(0);
    state.trace_ready = true;
    state.stop();
    assert_eq!(state.trace.secs, 1);
    assert_eq!(state.trace.next_attempt_ms, None);
    assert!(!state.trace_ready);
    state.start();
    assert_eq!(state.trace.secs, 1);
}

#[test]
fn test_agent_manager_ensure_trace_agent_ready() {
    // No trace agent spawned by the library: no readiness wait.
    let state = ManagerState::new();
    assert_eq!(state.readiness_step(false, true), ReadyStep::Proceed);
}

#[test]
fn readiness_waits_for_new_trace_agent() {
    let mut state = ManagerState::new();
    assert_eq!(state.readiness_step(true, true), ReadyStep::Wait(500));
    assert_eq!(state.readiness_step(true, false), ReadyStep::Wait(10000));
    assert_eq!(state.after_readiness_wait(false, false), Err("trace-agent not ready to accept connections within timeout".to_string()));
    assert!(!state.trace_ready);
    assert_eq!(state.after_readiness_wait(false, true), Ok(()));
    assert!(state.trace_ready);
    assert_eq!(state.readiness_step(true, false), ReadyStep::Proceed);
}

#[test]
fn test_trace_agent_readiness_reset_on_respawn() {
    let mut state = ManagerState::new();
    assert_eq!(state.readiness_step(false, true), ReadyStep::Proceed);
    assert!(!state.is_trace_agent_ready(), "Initial readiness should be false");
    state.trace_ready = true;
    assert!(state.is_trace_agent_ready());
    state.reset_trace_agent_readiness();
    assert!(!state.is_trace_agent_ready());
    assert_eq!(state.readiness_step(false, true), ReadyStep::Proceed);
}
