//! Driving a batch of claimed workers: claim their files, start them one
//! after another or all at once, and release every claim at the end,
//! whether or not a worker ran.
use vstd::prelude::*;

verus! {

/// Where a batch of assignments stands.
#[derive(Debug, Clone, Copy, PartialEq, Eq, Structural)]
pub enum AssignmentPhase {
    Claiming,
    Running,
    Releasing,
    Done,
}

/// A batch of assignments being driven: how many workers there are, how
/// many were started and have finished, and whether a run could not be
/// executed.
#[derive(Debug, Clone, Copy, PartialEq, Eq, Structural)]
pub struct AssignmentRun {
    pub sequential: bool,
    pub workers: usize,
    pub started: usize,
    pub finished: usize,
    pub failed: bool,
    pub phase: AssignmentPhase,
}

/// What the outside world reports back to the batch.
#[derive(Debug, Clone, Copy, PartialEq, Eq, Structural)]
pub enum AssignmentEvent {
    /// The file claims were taken; `blocked` when files overlap or another
    /// agent holds one of them.
    Claimed { blocked: bool },
    /// A started worker returned; `executed` is false when its run could
    /// not be executed at all.
    WorkerFinished { executed: bool },
    /// Every claim taken was handed back.
    Released,
}

/// What the batch asks the outside world to do next.
#[derive(Debug, Clone, Copy, PartialEq, Eq, Structural)]
pub enum AssignmentAction {
    ClaimFiles,
    StartWorker(usize),
    StartAll,
    Wait,
    ReleaseClaims,
    Finish,
}

/// The counters stay within the batch.
pub open spec fn assignment_wf(s: AssignmentRun) -> bool {
    &&& s.finished <= s.started <= s.workers
    &&& s.phase is Claiming ==> s.started == 0
    &&& s.phase is Running ==> s.finished < s.started
    &&& s.phase is Running && !s.sequential ==> s.started == s.workers
    &&& s.phase is Running && s.sequential ==> s.finished + 1 == s.started
}

/// A fresh batch, which first claims its files.
pub open spec fn assignment_initial(sequential: bool, workers: usize) -> AssignmentRun {
    AssignmentRun { sequential, workers, started: 0, finished: 0, failed: false, phase: AssignmentPhase::Claiming }
}

pub open spec fn releasing(s: AssignmentRun) -> (AssignmentRun, AssignmentAction) {
    (AssignmentRun { phase: AssignmentPhase::Releasing, ..s }, AssignmentAction::ReleaseClaims)
}

/// One step of the batch. A blocked claim or an empty batch goes straight
/// to releasing. A sequential batch starts the next worker only after the
/// previous one ran, and stops at the first run that could not be
/// executed; a concurrent batch starts everyone and waits for all. An event
/// the phase does not expect changes nothing.
pub open spec fn assignment_next(s: AssignmentRun, e: AssignmentEvent) -> (AssignmentRun, AssignmentAction) {
    match (s.phase, e) {
        (AssignmentPhase::Claiming, AssignmentEvent::Claimed { blocked }) => if blocked || s.workers == 0 {
            releasing(s)
        } else if s.sequential {
            (AssignmentRun { phase: AssignmentPhase::Running, started: 1, ..s }, AssignmentAction::StartWorker(0))
        } else {
            (AssignmentRun { phase: AssignmentPhase::Running, started: s.workers, ..s }, AssignmentAction::StartAll)
        },
        (AssignmentPhase::Running, AssignmentEvent::WorkerFinished { executed }) => {
            let t = AssignmentRun { finished: (s.finished + 1) as usize, failed: s.failed || !executed, ..s };
            if s.sequential {
                if !executed || s.started >= s.workers {
                    releasing(t)
                } else {
                    (
                        AssignmentRun { started: (s.started + 1) as usize, ..t },
                        AssignmentAction::StartWorker(s.started),
                    )
                }
            } else if t.finished < s.workers {
                (t, AssignmentAction::Wait)
            } else {
                releasing(t)
            }
        },
        (AssignmentPhase::Releasing, AssignmentEvent::Released) => (
            AssignmentRun { phase: AssignmentPhase::Done, ..s },
            AssignmentAction::Finish,
        ),
        _ => (s, AssignmentAction::Wait),
    }
}

/// Opens a batch: nothing started, the files are claimed first.
pub fn assignment_start(sequential: bool, workers: usize) -> (r: (AssignmentRun, AssignmentAction))
    ensures
        r.0 == assignment_initial(sequential, workers),
        r.1 == AssignmentAction::ClaimFiles,
        assignment_wf(r.0),
{
    (
        AssignmentRun { sequential, workers, started: 0, finished: 0, failed: false, phase: AssignmentPhase::Claiming },
        AssignmentAction::ClaimFiles,
    )
}

/// Takes one event and says what happens next.
pub fn assignment_step(state: &AssignmentRun, event: AssignmentEvent) -> (r: (AssignmentRun, AssignmentAction))
    requires
        assignment_wf(*state),
    ensures
        r == assignment_next(*state, event),
        assignment_wf(r.0),
{
    let s = *state;
    match (s.phase, event) {
        (AssignmentPhase::Claiming, AssignmentEvent::Claimed { blocked }) => {
            if blocked || s.workers == 0 {
                (AssignmentRun { phase: AssignmentPhase::Releasing, ..s }, AssignmentAction::ReleaseClaims)
            } else if s.sequential {
                (AssignmentRun { phase: AssignmentPhase::Running, started: 1, ..s }, AssignmentAction::StartWorker(0))
            } else {
                (AssignmentRun { phase: AssignmentPhase::Running, started: s.workers, ..s }, AssignmentAction::StartAll)
            }
        },
        (AssignmentPhase::Running, AssignmentEvent::WorkerFinished { executed }) => {
            let t = AssignmentRun { finished: s.finished + 1, failed: s.failed || !executed, ..s };
            if s.sequential {
                if !executed || s.started >= s.workers {
                    (AssignmentRun { phase: AssignmentPhase::Releasing, ..t }, AssignmentAction::ReleaseClaims)
                } else {
                    (AssignmentRun { started: s.started + 1, ..t }, AssignmentAction::StartWorker(s.started))
                }
            } else if t.finished < s.workers {
                (t, AssignmentAction::Wait)
            } else {
                (AssignmentRun { phase: AssignmentPhase::Releasing, ..t }, AssignmentAction::ReleaseClaims)
            }
        },
        (AssignmentPhase::Releasing, AssignmentEvent::Released) => {
            (AssignmentRun { phase: AssignmentPhase::Done, ..s }, AssignmentAction::Finish)
        },
        _ => (s, AssignmentAction::Wait),
    }
}

/// Claims are always released: a batch finishes only from the releasing
/// phase, and it enters that phase only by asking for the release,
/// whether the claim was blocked, a worker could not run, or all ran.
pub proof fn law_claims_always_released(s: AssignmentRun, e: AssignmentEvent)
    requires
        assignment_wf(s),
    ensures
        assignment_next(s, e).1 is Finish ==> s.phase is Releasing && assignment_next(s, e).0.phase is Done,
        assignment_next(s, e).0.phase is Done ==> s.phase is Releasing || s.phase is Done,
        (assignment_next(s, e).0.phase is Releasing && !(s.phase is Releasing)) ==> assignment_next(s, e).1
            is ReleaseClaims,
        s.phase is Claiming ==> !(assignment_next(s, e).0.phase is Done),
        s.phase is Running ==> !(assignment_next(s, e).0.phase is Done),
{
}

/// In a sequential batch no worker starts after a run that could not be
/// executed, and workers start in order, one at a time.
pub proof fn law_sequential_stops_at_failure(s: AssignmentRun)
    requires
        assignment_wf(s),
        s.sequential,
        s.phase is Running,
    ensures
        assignment_next(s, AssignmentEvent::WorkerFinished { executed: false }).1 is ReleaseClaims,
        assignment_next(s, AssignmentEvent::WorkerFinished { executed: true }).1 is StartWorker ==> assignment_next(
            s,
            AssignmentEvent::WorkerFinished { executed: true },
        ).1 == AssignmentAction::StartWorker(s.started),
        !(assignment_next(s, AssignmentEvent::WorkerFinished { executed: true }).1 is StartAll),
{
}

/// A concurrent batch waits for every worker before it releases.
pub proof fn law_concurrent_waits_for_all(s: AssignmentRun, executed: bool)
    requires
        assignment_wf(s),
        !s.sequential,
        s.phase is Running,
    ensures
        assignment_next(s, AssignmentEvent::WorkerFinished { executed }).1 is ReleaseClaims <==> s.finished + 1
            == s.workers,
{
}

} // verus!
