//! How a child is terminated on Unix: an escalation of signals, first to
//! its process group (the child was made a group leader), then to the
//! process itself, then a forced kill. Each step waits up to the graceful
//! shutdown timeout; the first step after which the child has exited ends
//! the escalation.
use vstd::prelude::*;

verus! {

/// A signal sent during termination.
#[derive(Clone, Copy, PartialEq, Eq, Structural, Debug)]
pub enum Signal {
    /// `SIGTERM`: ask to exit.
    Term,
    /// `SIGKILL`: end at once.
    Kill,
}

/// One step of the escalation.
#[derive(Clone, Copy, PartialEq, Eq, Structural, Debug)]
pub enum KillStep {
    /// Signal the child's process group.
    Group(Signal),
    /// Signal the child's own pid.
    Pid(Signal),
    /// Kill the child through its handle.
    Force,
}

/// The steps in order: TERM then KILL to the group, TERM then KILL to the
/// pid, then a forced kill.
pub open spec fn escalation() -> Seq<KillStep> {
    seq![
        KillStep::Group(Signal::Term),
        KillStep::Group(Signal::Kill),
        KillStep::Pid(Signal::Term),
        KillStep::Pid(Signal::Kill),
        KillStep::Force,
    ]
}

pub fn kill_escalation() -> (v: Vec<KillStep>)
    ensures
        v@ == escalation(),
{
    let v = vec![
        KillStep::Group(Signal::Term),
        KillStep::Group(Signal::Kill),
        KillStep::Pid(Signal::Term),
        KillStep::Pid(Signal::Kill),
        KillStep::Force,
    ];
    assert(v@ =~= escalation());
    v
}

/// The id a step's signal is sent to: the negated pid names the process
/// group; `None` for the forced kill, which needs no id.
pub fn signal_target(pid: i32, step: KillStep) -> (t: Option<i32>)
    requires
        pid > i32::MIN,
    ensures
        t == (match step {
            KillStep::Group(_) => Some((-pid) as i32),
            KillStep::Pid(_) => Some(pid),
            KillStep::Force => None,
        }),
{
    match step {
        KillStep::Group(_) => Some(-pid),
        KillStep::Pid(_) => Some(pid),
        KillStep::Force => None,
    }
}

/// The signal's name as logged.
pub fn signal_name(sig: Signal) -> (s: &'static str)
    ensures
        s@ == (match sig {
            Signal::Term => "SIGTERM"@,
            Signal::Kill => "SIGKILL"@,
        }),
{
    proof {
        reveal_strlit("SIGTERM");
        reveal_strlit("SIGKILL");
    }
    match sig {
        Signal::Term => "SIGTERM",
        Signal::Kill => "SIGKILL",
    }
}

/// Whether the escalation has ended after `outcomes`, the results of its
/// first steps (`true` when the child exited within the timeout).
pub open spec fn escalation_done(outcomes: Seq<bool>) -> bool {
    outcomes.len() >= escalation().len() || (outcomes.len() > 0 && outcomes.last())
}

/// The step that follows the steps whose results are `outcomes`, or `None`
/// when the child has exited or all steps were taken.
pub fn next_kill_step(outcomes: &Vec<bool>) -> (next: Option<KillStep>)
    ensures
        escalation_done(outcomes@) ==> next is None,
        !escalation_done(outcomes@) ==> next == Some(escalation()[outcomes@.len() as int]),
{
    let n = outcomes.len();
    if n >= 5 || (n > 0 && outcomes[n - 1]) {
        return None;
    }
    let steps = kill_escalation();
    Some(steps[n])
}

/// Whether the child was terminated, from the results of the steps taken.
pub fn terminated(outcomes: &Vec<bool>) -> (t: bool)
    ensures
        t == (exists|i: int| 0 <= i < outcomes@.len() && outcomes@[i]),
{
    let mut i: usize = 0;
    while i < outcomes.len()
        invariant
            i <= outcomes@.len(),
            forall|j: int| 0 <= j < i ==> !outcomes@[j],
        decreases outcomes@.len() - i,
    {
        if outcomes[i] {
            return true;
        }
        i = i + 1;
    }
    false
}

/// A run of the escalation in which every step was taken only while the
/// child had not exited yet.
pub open spec fn well_run(outcomes: Seq<bool>) -> bool {
    &&& outcomes.len() <= escalation().len()
    &&& forall|i: int| 0 <= i < outcomes.len() - 1 ==> !outcomes[i]
}

/// In a run driven by `next_kill_step`, the child counts as terminated
/// exactly when the last step taken succeeded, and no step is taken after
/// a success.
pub proof fn lemma_escalation_stops_at_first_success(outcomes: Seq<bool>)
    requires
        well_run(outcomes),
    ensures
        (exists|i: int| 0 <= i < outcomes.len() && outcomes[i]) <==> (outcomes.len() > 0
            && outcomes.last()),
        (outcomes.len() > 0 && outcomes.last()) ==> escalation_done(outcomes),
        !escalation_done(outcomes) ==> well_run(outcomes.push(false)) && well_run(
            outcomes.push(true),
        ),
{
    if outcomes.len() > 0 && outcomes.last() {
        assert(outcomes[outcomes.len() - 1]);
    }
    if !escalation_done(outcomes) {
        assert forall|i: int| 0 <= i < outcomes.push(false).len() - 1 implies !outcomes.push(
            false,
        )[i] by {
            if i < outcomes.len() - 1 {
            } else {
                assert(i == outcomes.len() - 1);
                assert(outcomes.len() > 0 ==> !outcomes.last());
            }
        }
        assert forall|i: int| 0 <= i < outcomes.push(true).len() - 1 implies !outcomes.push(
            true,
        )[i] by {
            if i < outcomes.len() - 1 {
            } else {
                assert(outcomes.len() > 0 ==> !outcomes.last());
            }
        }
    }
}

} // verus!
