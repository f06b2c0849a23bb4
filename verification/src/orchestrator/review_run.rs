//! Driving the analyst → verifier review: the analyst gathers facts without
//! running verification, the verifier checks independently with fresh
//! verification, and the lead judges both reports.
use vstd::prelude::*;
use crate::agent_loop::outcome::RunOutcome;
use super::outcomes::{review_outcome, review_pipeline_outcome};
use super::types::{ReviewPipelineRecovery, WorkerExecutionStatus};

verus! {

/// Whether a worker's run must end with fresh passing verification.
#[derive(Debug, Clone, Copy, PartialEq, Eq, Structural)]
pub enum VerificationPolicy {
    NotRequired,
    Required,
}

/// Where the review stands.
#[derive(Debug, Clone, Copy, PartialEq, Eq, Structural)]
pub enum ReviewPhase {
    Start,
    Analyst,
    Verifier,
    Done,
}

/// The review being driven, with the analyst's outcome once it reported.
#[derive(Debug, Clone, Copy, PartialEq, Eq, Structural)]
pub struct ReviewPipelineState {
    pub phase: ReviewPhase,
    pub analyst: RunOutcome,
}

/// What the outside world reports back.
#[derive(Debug, Clone, Copy, PartialEq, Eq, Structural)]
pub enum ReviewEvent {
    /// The review was asked for; `within_limit` when two workers fit the
    /// orchestrator's worker limit.
    Begin { within_limit: bool },
    /// A worker's run ended with this outcome.
    Reported(RunOutcome),
    /// A worker's run could not be executed.
    RunFailed,
}

/// Which employee a step concerns.
#[derive(Debug, Clone, Copy, PartialEq, Eq, Structural)]
pub enum ReviewRole {
    Analyst,
    Verifier,
}

/// What the review asks the outside world to do next.
#[derive(Debug, Clone, Copy, PartialEq, Eq, Structural)]
pub enum ReviewAction {
    /// Refuse the review: two workers exceed the limit.
    Refuse,
    RunAnalyst { policy: VerificationPolicy },
    RunVerifier { policy: VerificationPolicy },
    /// Report the employee failed and end the task as failed.
    FailEmployee(ReviewRole),
    /// End with the lead's judgement.
    Finish { status: WorkerExecutionStatus, recovery: ReviewPipelineRecovery },
    Wait,
}

pub open spec fn review_initial() -> ReviewPipelineState {
    ReviewPipelineState { phase: ReviewPhase::Start, analyst: RunOutcome::Failed }
}

/// One step of the review.
pub open spec fn review_next(s: ReviewPipelineState, e: ReviewEvent) -> (ReviewPipelineState, ReviewAction) {
    match (s.phase, e) {
        (ReviewPhase::Start, ReviewEvent::Begin { within_limit }) => if within_limit {
            (
                ReviewPipelineState { phase: ReviewPhase::Analyst, ..s },
                ReviewAction::RunAnalyst { policy: VerificationPolicy::NotRequired },
            )
        } else {
            (ReviewPipelineState { phase: ReviewPhase::Done, ..s }, ReviewAction::Refuse)
        },
        (ReviewPhase::Analyst, ReviewEvent::Reported(o)) => (
            ReviewPipelineState { phase: ReviewPhase::Verifier, analyst: o },
            ReviewAction::RunVerifier { policy: VerificationPolicy::Required },
        ),
        (ReviewPhase::Analyst, ReviewEvent::RunFailed) => (
            ReviewPipelineState { phase: ReviewPhase::Done, ..s },
            ReviewAction::FailEmployee(ReviewRole::Analyst),
        ),
        (ReviewPhase::Verifier, ReviewEvent::Reported(o)) => (
            ReviewPipelineState { phase: ReviewPhase::Done, ..s },
            ReviewAction::Finish { status: review_outcome(s.analyst, o).0, recovery: review_outcome(s.analyst, o).1 },
        ),
        (ReviewPhase::Verifier, ReviewEvent::RunFailed) => (
            ReviewPipelineState { phase: ReviewPhase::Done, ..s },
            ReviewAction::FailEmployee(ReviewRole::Verifier),
        ),
        _ => (s, ReviewAction::Wait),
    }
}

/// Opens a review.
pub fn review_start() -> (r: ReviewPipelineState)
    ensures
        r == review_initial(),
{
    ReviewPipelineState { phase: ReviewPhase::Start, analyst: RunOutcome::Failed }
}

/// Takes one event and says what happens next.
pub fn review_pipeline_step(state: &ReviewPipelineState, event: ReviewEvent) -> (r: (ReviewPipelineState, ReviewAction))
    ensures
        r == review_next(*state, event),
{
    let s = *state;
    match (s.phase, event) {
        (ReviewPhase::Start, ReviewEvent::Begin { within_limit }) => {
            if within_limit {
                (
                    ReviewPipelineState { phase: ReviewPhase::Analyst, ..s },
                    ReviewAction::RunAnalyst { policy: VerificationPolicy::NotRequired },
                )
            } else {
                (ReviewPipelineState { phase: ReviewPhase::Done, ..s }, ReviewAction::Refuse)
            }
        },
        (ReviewPhase::Analyst, ReviewEvent::Reported(o)) => (
            ReviewPipelineState { phase: ReviewPhase::Verifier, analyst: o },
            ReviewAction::RunVerifier { policy: VerificationPolicy::Required },
        ),
        (ReviewPhase::Analyst, ReviewEvent::RunFailed) => (
            ReviewPipelineState { phase: ReviewPhase::Done, ..s },
            ReviewAction::FailEmployee(ReviewRole::Analyst),
        ),
        (ReviewPhase::Verifier, ReviewEvent::Reported(o)) => {
            let (status, recovery) = review_pipeline_outcome(s.analyst, o);
            (ReviewPipelineState { phase: ReviewPhase::Done, ..s }, ReviewAction::Finish { status, recovery })
        },
        (ReviewPhase::Verifier, ReviewEvent::RunFailed) => (
            ReviewPipelineState { phase: ReviewPhase::Done, ..s },
            ReviewAction::FailEmployee(ReviewRole::Verifier),
        ),
        _ => (s, ReviewAction::Wait),
    }
}

/// The analyst never runs verification and the verifier always needs fresh
/// verification: every run the review asks for carries the policy of its
/// stage.
pub proof fn law_review_stage_policies(s: ReviewPipelineState, e: ReviewEvent)
    ensures
        (review_next(s, e).1 is RunAnalyst) ==> (review_next(s, e).1 == (ReviewAction::RunAnalyst {
            policy: VerificationPolicy::NotRequired,
        })),
        (review_next(s, e).1 is RunVerifier) ==> (review_next(s, e).1 == (ReviewAction::RunVerifier {
            policy: VerificationPolicy::Required,
        })),
{
}

/// The lead's judgement for the two outcomes.
pub open spec fn lead_finish(analyst: RunOutcome, verifier: RunOutcome) -> ReviewAction {
    ReviewAction::Finish { status: review_outcome(analyst, verifier).0, recovery: review_outcome(analyst, verifier).1 }
}

/// The verifier runs only after the analyst reported, and the lead's
/// judgement weighs the analyst's outcome together with the verifier's.
pub proof fn law_verifier_follows_analyst(s: ReviewPipelineState, e: ReviewEvent, o: RunOutcome)
    ensures
        (review_next(s, e).1 is RunVerifier) ==> (s.phase is Analyst && (e is Reported)),
        (review_next(s, e).1 is Finish) ==> (s.phase is Verifier && (e is Reported)),
        (s.phase is Verifier) ==> (review_next(s, ReviewEvent::Reported(o)).1 == lead_finish(s.analyst, o)),
{
}

} // verus!
