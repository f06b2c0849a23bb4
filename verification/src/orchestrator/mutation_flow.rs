//! Driving an organization mutation: staffing and ownership gates, file
//! claims, the workers, the merge review, the parent's single apply, the
//! release of every claim and the projection onto the execution graph. A
//! durable run checkpoints the graph before each action.
use vstd::prelude::*;
use super::types::{ManagerAcceptanceStatus, WorkerMergeStatus};

verus! {

/// Where a mutation run stands.
#[derive(Debug, Clone, Copy, PartialEq, Eq, Structural)]
pub enum MutationPhase {
    Staffing,
    Scoping,
    Claiming,
    Working,
    Reviewing,
    Applying,
    Releasing,
    Projecting,
    Done,
}

/// A mutation run being driven.
#[derive(Debug, Clone, Copy, PartialEq, Eq, Structural)]
pub struct MutationRun {
    pub phase: MutationPhase,
    pub durable: bool,
    pub sequential: bool,
    /// The claims were blocked and no worker ran.
    pub claims_blocked: bool,
    /// The merge review approved every proposal and the parent applied.
    pub applied: bool,
}

/// What the outside world reports back.
#[derive(Debug, Clone, Copy, PartialEq, Eq, Structural)]
pub enum MutationEvent {
    /// Staffing was decided; `gate` is what `staffing_gate` returned: a
    /// direct task or a blocked decision ends the run without workers.
    Staffed { gate: Option<ManagerAcceptanceStatus> },
    /// The file scopes and worker blockers were checked.
    ScopesChecked { errors: usize },
    /// The file claims were taken.
    Claimed { blocked: bool },
    WorkersDone,
    /// The merge review over the structured proposals ended.
    Reviewed { status: WorkerMergeStatus },
    Applied,
    Released,
    Projected,
}

/// The kinds of work the run asks for.
#[derive(Debug, Clone, Copy, PartialEq, Eq, Structural)]
pub enum MutationStep {
    /// End at once with this acceptance; nothing ran.
    FinishWithoutPipeline(ManagerAcceptanceStatus),
    /// Fail the contract node, then end blocked.
    FailContract,
    CheckScopes,
    /// Complete the contract node and claim the owned files.
    ClaimFiles,
    RunWorkers { sequential: bool },
    /// Review what was submitted (nothing, when the claims were blocked).
    Review,
    /// Apply the approved structured proposals through the parent engine.
    Apply,
    ReleaseClaims,
    Project,
    Finish,
    Wait,
}

/// What the run asks for, and whether the graph is checkpointed first.
#[derive(Debug, Clone, Copy, PartialEq, Eq, Structural)]
pub struct MutationAction {
    pub step: MutationStep,
    pub checkpoint: bool,
}

pub open spec fn mutation_initial(durable: bool, sequential: bool) -> MutationRun {
    MutationRun { phase: MutationPhase::Staffing, durable, sequential, claims_blocked: false, applied: false }
}

pub open spec fn act(s: MutationRun, step: MutationStep) -> MutationAction {
    MutationAction { step, checkpoint: s.durable }
}

pub open spec fn go(s: MutationRun, p: MutationPhase, step: MutationStep) -> (MutationRun, MutationAction) {
    (MutationRun { phase: p, ..s }, act(s, step))
}

/// One step of the run.
pub open spec fn mutation_next(s: MutationRun, e: MutationEvent) -> (MutationRun, MutationAction) {
    match (s.phase, e) {
        (MutationPhase::Staffing, MutationEvent::Staffed { gate }) => match gate {
            Some(ManagerAcceptanceStatus::Blocked) => go(s, MutationPhase::Done, MutationStep::FailContract),
            Some(status) => go(s, MutationPhase::Done, MutationStep::FinishWithoutPipeline(status)),
            None => go(s, MutationPhase::Scoping, MutationStep::CheckScopes),
        },
        (MutationPhase::Scoping, MutationEvent::ScopesChecked { errors }) => if errors > 0 {
            go(s, MutationPhase::Done, MutationStep::FailContract)
        } else {
            go(s, MutationPhase::Claiming, MutationStep::ClaimFiles)
        },
        (MutationPhase::Claiming, MutationEvent::Claimed { blocked }) => if blocked {
            (
                MutationRun { phase: MutationPhase::Reviewing, claims_blocked: true, ..s },
                act(s, MutationStep::Review),
            )
        } else {
            go(s, MutationPhase::Working, MutationStep::RunWorkers { sequential: s.sequential })
        },
        (MutationPhase::Working, MutationEvent::WorkersDone) => go(s, MutationPhase::Reviewing, MutationStep::Review),
        (MutationPhase::Reviewing, MutationEvent::Reviewed { status }) => if status == WorkerMergeStatus::Approved {
            (MutationRun { phase: MutationPhase::Applying, applied: true, ..s }, act(s, MutationStep::Apply))
        } else {
            go(s, MutationPhase::Releasing, MutationStep::ReleaseClaims)
        },
        (MutationPhase::Applying, MutationEvent::Applied) => go(s, MutationPhase::Releasing, MutationStep::ReleaseClaims),
        (MutationPhase::Releasing, MutationEvent::Released) => go(s, MutationPhase::Projecting, MutationStep::Project),
        (MutationPhase::Projecting, MutationEvent::Projected) => go(s, MutationPhase::Done, MutationStep::Finish),
        _ => (s, MutationAction { step: MutationStep::Wait, checkpoint: false }),
    }
}

/// Opens a run: staffing is decided first.
pub fn mutation_start(durable: bool, sequential: bool) -> (r: MutationRun)
    ensures
        r == mutation_initial(durable, sequential),
{
    MutationRun { phase: MutationPhase::Staffing, durable, sequential, claims_blocked: false, applied: false }
}

fn goto(s: MutationRun, p: MutationPhase, step: MutationStep) -> (r: (MutationRun, MutationAction))
    ensures
        r == go(s, p, step),
{
    (MutationRun { phase: p, ..s }, MutationAction { step, checkpoint: s.durable })
}

/// Takes one event and says what happens next.
pub fn mutation_step(run: &MutationRun, event: MutationEvent) -> (r: (MutationRun, MutationAction))
    ensures
        r == mutation_next(*run, event),
{
    let s = *run;
    match (s.phase, event) {
        (MutationPhase::Staffing, MutationEvent::Staffed { gate }) => match gate {
            Some(ManagerAcceptanceStatus::Blocked) => goto(s, MutationPhase::Done, MutationStep::FailContract),
            Some(status) => goto(s, MutationPhase::Done, MutationStep::FinishWithoutPipeline(status)),
            None => goto(s, MutationPhase::Scoping, MutationStep::CheckScopes),
        },
        (MutationPhase::Scoping, MutationEvent::ScopesChecked { errors }) => {
            if errors > 0 {
                goto(s, MutationPhase::Done, MutationStep::FailContract)
            } else {
                goto(s, MutationPhase::Claiming, MutationStep::ClaimFiles)
            }
        },
        (MutationPhase::Claiming, MutationEvent::Claimed { blocked }) => {
            if blocked {
                (
                    MutationRun { phase: MutationPhase::Reviewing, claims_blocked: true, ..s },
                    MutationAction { step: MutationStep::Review, checkpoint: s.durable },
                )
            } else {
                goto(s, MutationPhase::Working, MutationStep::RunWorkers { sequential: s.sequential })
            }
        },
        (MutationPhase::Working, MutationEvent::WorkersDone) => goto(s, MutationPhase::Reviewing, MutationStep::Review),
        (MutationPhase::Reviewing, MutationEvent::Reviewed { status }) => {
            if status == WorkerMergeStatus::Approved {
                (
                    MutationRun { phase: MutationPhase::Applying, applied: true, ..s },
                    MutationAction { step: MutationStep::Apply, checkpoint: s.durable },
                )
            } else {
                goto(s, MutationPhase::Releasing, MutationStep::ReleaseClaims)
            }
        },
        (MutationPhase::Applying, MutationEvent::Applied) => goto(s, MutationPhase::Releasing, MutationStep::ReleaseClaims),
        (MutationPhase::Releasing, MutationEvent::Released) => goto(s, MutationPhase::Projecting, MutationStep::Project),
        (MutationPhase::Projecting, MutationEvent::Projected) => goto(s, MutationPhase::Done, MutationStep::Finish),
        _ => (s, MutationAction { step: MutationStep::Wait, checkpoint: false }),
    }
}

/// Nothing is applied unless the merge review approved every proposal:
/// the apply is asked for only on an approved review, and never when the
/// claims were blocked and no worker ran.
pub proof fn law_apply_only_after_approval(s: MutationRun, e: MutationEvent)
    ensures
        (mutation_next(s, e).1.step is Apply) ==> (s.phase is Reviewing && e == (MutationEvent::Reviewed {
            status: WorkerMergeStatus::Approved,
        })),
        (mutation_next(s, e).0.applied && !s.applied) ==> (mutation_next(s, e).1.step is Apply),
{
}

/// Claims taken are always released before the run is projected and
/// finished, whether the review approved, refused, or nothing ran.
pub proof fn law_release_before_projection(s: MutationRun, e: MutationEvent)
    ensures
        (mutation_next(s, e).1.step is Project) ==> (s.phase is Releasing && (e is Released)),
        (mutation_next(s, e).1.step is Finish) ==> (s.phase is Projecting),
        (s.phase is Reviewing && (e is Reviewed) && !(mutation_next(s, e).1.step is Apply)) ==> (mutation_next(
            s,
            e,
        ).1.step is ReleaseClaims),
        (s.phase is Applying && (e is Applied)) ==> (mutation_next(s, e).1.step is ReleaseClaims),
{
}

/// A durable run checkpoints its graph before every action it asks for.
pub proof fn law_durable_checkpoints(s: MutationRun, e: MutationEvent)
    ensures
        (s.durable && !(mutation_next(s, e).1.step is Wait)) ==> mutation_next(s, e).1.checkpoint,
        !s.durable ==> !mutation_next(s, e).1.checkpoint,
{
}

/// Workers run only after the ownership contract held and the claims were
/// taken without conflict.
pub proof fn law_workers_only_after_claims(s: MutationRun, e: MutationEvent)
    ensures
        (mutation_next(s, e).1.step is RunWorkers) ==> (s.phase is Claiming && e == (MutationEvent::Claimed {
            blocked: false,
        })),
        (mutation_next(s, e).1.step is ClaimFiles) ==> (s.phase is Scoping && e == (MutationEvent::ScopesChecked {
            errors: 0,
        })),
{
}

} // verus!
