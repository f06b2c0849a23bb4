use zhongshu_core::agent_loop::budget::AgentBudget;
use zhongshu_core::agent_loop::outcome::{RunOutcome, StopReason};
use zhongshu_core::agent_loop::run::{agent_start, agent_step, AgentAction, AgentEvent};
use zhongshu_core::orchestrator::assignment_run::{
    assignment_start, assignment_step, AssignmentAction, AssignmentEvent, AssignmentPhase,
};
use zhongshu_core::orchestrator::mutation_flow::{mutation_start, mutation_step, MutationEvent, MutationStep};
use zhongshu_core::orchestrator::organization_flow::{
    organization_start, organization_step, OrganizationAction, OrganizationEvent, OrganizationGate,
    OrganizationNotice,
};
use zhongshu_core::orchestrator::review_run::{
    review_pipeline_step, review_start, ReviewAction, ReviewEvent, ReviewRole, VerificationPolicy,
};
use zhongshu_core::orchestrator::types::{
    ManagerAcceptanceStatus, OrganizationExecutionStatus, ReviewPipelineRecovery, WorkerExecutionStatus,
    WorkerMergeStatus,
};

fn budget() -> AgentBudget {
    AgentBudget {
        max_steps: 5,
        max_tool_calls: 10,
        per_tool_limit: 3,
        token_limit: 1000,
        llm_timeout_secs: 30,
        tool_timeout_secs: 30,
    }
}

#[test]
fn sequential_batch_releases_claims_after_first_unexecuted_worker() {
    let (s, a) = assignment_start(true, 3);
    assert_eq!(a, AssignmentAction::ClaimFiles);
    let (s, a) = assignment_step(&s, AssignmentEvent::Claimed { blocked: false });
    assert_eq!(a, AssignmentAction::StartWorker(0));
    let (s, a) = assignment_step(&s, AssignmentEvent::WorkerFinished { executed: true });
    assert_eq!(a, AssignmentAction::StartWorker(1));
    let (s, a) = assignment_step(&s, AssignmentEvent::WorkerFinished { executed: false });
    assert_eq!(a, AssignmentAction::ReleaseClaims);
    let (s, a) = assignment_step(&s, AssignmentEvent::WorkerFinished { executed: true });
    assert_eq!(a, AssignmentAction::Wait);
    let (s, a) = assignment_step(&s, AssignmentEvent::Released);
    assert_eq!(a, AssignmentAction::Finish);
    assert_eq!(s.phase, AssignmentPhase::Done);
    assert!(s.failed);
    assert_eq!(s.started, 2);
}

#[test]
fn blocked_claims_are_still_released() {
    let (s, _) = assignment_start(false, 2);
    let (s, a) = assignment_step(&s, AssignmentEvent::Claimed { blocked: true });
    assert_eq!(a, AssignmentAction::ReleaseClaims);
    assert_eq!(s.started, 0);
}

#[test]
fn concurrent_batch_waits_for_every_worker() {
    let (s, _) = assignment_start(false, 2);
    let (s, a) = assignment_step(&s, AssignmentEvent::Claimed { blocked: false });
    assert_eq!(a, AssignmentAction::StartAll);
    let (s, a) = assignment_step(&s, AssignmentEvent::WorkerFinished { executed: false });
    assert_eq!(a, AssignmentAction::Wait);
    let (_, a) = assignment_step(&s, AssignmentEvent::WorkerFinished { executed: true });
    assert_eq!(a, AssignmentAction::ReleaseClaims);
}

#[test]
fn review_runs_analyst_without_and_verifier_with_verification() {
    let s = review_start();
    let (s, a) = review_pipeline_step(&s, ReviewEvent::Begin { within_limit: true });
    assert_eq!(a, ReviewAction::RunAnalyst { policy: VerificationPolicy::NotRequired });
    let (s, a) = review_pipeline_step(&s, ReviewEvent::Reported(RunOutcome::CompletedUnverified));
    assert_eq!(a, ReviewAction::RunVerifier { policy: VerificationPolicy::Required });
    let (_, a) = review_pipeline_step(&s, ReviewEvent::Reported(RunOutcome::CompletedVerified));
    assert_eq!(
        a,
        ReviewAction::Finish { status: WorkerExecutionStatus::Completed, recovery: ReviewPipelineRecovery::NotNeeded }
    );
}

#[test]
fn review_stops_when_analyst_cannot_run_or_limit_is_too_small() {
    let s = review_start();
    let (_, a) = review_pipeline_step(&s, ReviewEvent::Begin { within_limit: false });
    assert_eq!(a, ReviewAction::Refuse);
    let (s, _) = review_pipeline_step(&s, ReviewEvent::Begin { within_limit: true });
    let (_, a) = review_pipeline_step(&s, ReviewEvent::RunFailed);
    assert_eq!(a, ReviewAction::FailEmployee(ReviewRole::Analyst));
}

#[test]
fn approved_mutation_applies_then_releases_then_projects() {
    let s = mutation_start(true, false);
    let (s, a) = mutation_step(&s, MutationEvent::Staffed { gate: None });
    assert_eq!(a.step, MutationStep::CheckScopes);
    assert!(a.checkpoint);
    let (s, a) = mutation_step(&s, MutationEvent::ScopesChecked { errors: 0 });
    assert_eq!(a.step, MutationStep::ClaimFiles);
    let (s, a) = mutation_step(&s, MutationEvent::Claimed { blocked: false });
    assert_eq!(a.step, MutationStep::RunWorkers { sequential: false });
    let (s, a) = mutation_step(&s, MutationEvent::WorkersDone);
    assert_eq!(a.step, MutationStep::Review);
    let (s, a) = mutation_step(&s, MutationEvent::Reviewed { status: WorkerMergeStatus::Approved });
    assert_eq!(a.step, MutationStep::Apply);
    let (s, a) = mutation_step(&s, MutationEvent::Applied);
    assert_eq!(a.step, MutationStep::ReleaseClaims);
    let (s, a) = mutation_step(&s, MutationEvent::Released);
    assert_eq!(a.step, MutationStep::Project);
    let (_, a) = mutation_step(&s, MutationEvent::Projected);
    assert_eq!(a.step, MutationStep::Finish);
}

#[test]
fn unapproved_or_blocked_mutation_never_applies() {
    let s = mutation_start(false, true);
    let (s, _) = mutation_step(&s, MutationEvent::Staffed { gate: None });
    let (s, _) = mutation_step(&s, MutationEvent::ScopesChecked { errors: 0 });
    let (s, a) = mutation_step(&s, MutationEvent::Claimed { blocked: true });
    assert_eq!(a.step, MutationStep::Review);
    assert!(!a.checkpoint);
    let (_, a) = mutation_step(&s, MutationEvent::Reviewed { status: WorkerMergeStatus::RequiresParentReview });
    assert_eq!(a.step, MutationStep::ReleaseClaims);

    let s = mutation_start(false, false);
    let (_, a) = mutation_step(&s, MutationEvent::Staffed { gate: Some(ManagerAcceptanceStatus::Blocked) });
    assert_eq!(a.step, MutationStep::FailContract);
    let (_, a) = mutation_step(&s, MutationEvent::Staffed { gate: Some(ManagerAcceptanceStatus::AwaitingManager) });
    assert_eq!(a.step, MutationStep::FinishWithoutPipeline(ManagerAcceptanceStatus::AwaitingManager));
}

#[test]
fn sequential_organization_publishes_lifecycle_in_order() {
    let s = organization_start(true, true);
    let (s, acts) = organization_step(
        &s,
        OrganizationEvent::Begin { assigned: 2, workers: 2, gate: OrganizationGate::Ready, cancelled: false },
    );
    assert_eq!(
        acts,
        vec![
            OrganizationAction::Publish(OrganizationNotice::TaskStarted),
            OrganizationAction::Publish(OrganizationNotice::EmployeeAssigned(0)),
            OrganizationAction::Publish(OrganizationNotice::EmployeeAssigned(1)),
            OrganizationAction::Publish(OrganizationNotice::EmployeeWorking(0)),
            OrganizationAction::RunWorker(0),
        ]
    );
    let (same, none) = organization_step(&s, OrganizationEvent::Published);
    assert_eq!(same, s);
    assert!(none.is_empty());
    let (s, acts) = organization_step(&s, OrganizationEvent::Reported { success: true, cancelled: false });
    assert_eq!(
        acts,
        vec![
            OrganizationAction::Publish(OrganizationNotice::EmployeeReported(0)),
            OrganizationAction::Publish(OrganizationNotice::Handoff { from: 0, to: 1 }),
            OrganizationAction::Publish(OrganizationNotice::EmployeeWorking(1)),
            OrganizationAction::RunWorker(1),
        ]
    );
    let (_, acts) = organization_step(&s, OrganizationEvent::Reported { success: true, cancelled: false });
    assert_eq!(
        acts,
        vec![
            OrganizationAction::Publish(OrganizationNotice::EmployeeReported(1)),
            OrganizationAction::Publish(OrganizationNotice::ManagerReviewing),
            OrganizationAction::CloseAndFinish { cancelled: false },
        ]
    );
}

#[test]
fn direct_and_cancelled_organization_runs_end_at_once() {
    let s = organization_start(false, true);
    let (_, acts) = organization_step(
        &s,
        OrganizationEvent::Begin { assigned: 0, workers: 0, gate: OrganizationGate::Direct, cancelled: false },
    );
    assert_eq!(
        acts,
        vec![
            OrganizationAction::Publish(OrganizationNotice::TaskStarted),
            OrganizationAction::Publish(OrganizationNotice::TaskFinished(OrganizationExecutionStatus::AwaitingManager)),
        ]
    );
    let (_, acts) = organization_step(
        &s,
        OrganizationEvent::Begin { assigned: 1, workers: 1, gate: OrganizationGate::Ready, cancelled: true },
    );
    assert_eq!(acts.last(), Some(&OrganizationAction::CloseAndFinish { cancelled: true }));
    assert!(!acts.contains(&OrganizationAction::Publish(OrganizationNotice::ManagerReviewing)));
}

#[test]
fn agent_run_is_verified_only_by_a_check_after_the_last_edit() {
    let s = agent_start(budget());
    let (s, a) = agent_step(&s, AgentEvent::Tick { cancelled: false, estimated_tokens: 10 });
    assert_eq!(a, AgentAction::CallModel);
    let (s, a) = agent_step(&s, AgentEvent::ModelReplied { tool_calls: 2, gate_blocks: false });
    assert_eq!(a, AgentAction::RunTool(0));
    let (s, a) = agent_step(&s, AgentEvent::ToolDone { success: true, mutated: true, verification: None });
    assert_eq!(a, AgentAction::RunTool(1));
    let (s, a) = agent_step(&s, AgentEvent::ToolDone { success: true, mutated: false, verification: Some(true) });
    assert_eq!(a, AgentAction::Continue);
    let (s, _) = agent_step(&s, AgentEvent::Tick { cancelled: false, estimated_tokens: 10 });
    let (done, a) = agent_step(&s, AgentEvent::ModelReplied { tool_calls: 0, gate_blocks: false });
    // The check ran in the same step as the edit, so it does not count.
    assert_eq!(a, AgentAction::Finish { stop: StopReason::Finished, outcome: RunOutcome::CompletedUnverified });
    let _ = done;

    let (s, _) = agent_step(&s, AgentEvent::ModelReplied { tool_calls: 1, gate_blocks: false });
    let (s, _) = agent_step(&s, AgentEvent::ToolDone { success: true, mutated: false, verification: Some(true) });
    let (s, _) = agent_step(&s, AgentEvent::Tick { cancelled: false, estimated_tokens: 10 });
    let (_, a) = agent_step(&s, AgentEvent::ModelReplied { tool_calls: 0, gate_blocks: false });
    assert_eq!(a, AgentAction::Finish { stop: StopReason::Finished, outcome: RunOutcome::CompletedVerified });
}

#[test]
fn agent_run_stops_on_gate_cancellation_and_budgets() {
    let s = agent_start(budget());
    let (s, _) = agent_step(&s, AgentEvent::Tick { cancelled: false, estimated_tokens: 10 });
    let (s, a) = agent_step(&s, AgentEvent::ModelReplied { tool_calls: 0, gate_blocks: true });
    assert_eq!(a, AgentAction::Feedback);
    let (_, a) = agent_step(&s, AgentEvent::Tick { cancelled: true, estimated_tokens: 10 });
    assert_eq!(a, AgentAction::Finish { stop: StopReason::Interrupted, outcome: RunOutcome::Interrupted });
    let (_, a) = agent_step(&s, AgentEvent::Tick { cancelled: false, estimated_tokens: 5000 });
    assert_eq!(
        a,
        AgentAction::Finish {
            stop: StopReason::BudgetExhausted { tokens: 5000, limit: 1000 },
            outcome: RunOutcome::BudgetExhausted,
        }
    );
    let (s, _) = agent_step(&s, AgentEvent::Tick { cancelled: false, estimated_tokens: 10 });
    let (s, _) = agent_step(&s, AgentEvent::ModelReplied { tool_calls: 3, gate_blocks: false });
    let (s, _) = agent_step(&s, AgentEvent::ToolDone { success: false, mutated: false, verification: None });
    let (s, _) = agent_step(&s, AgentEvent::ToolDone { success: false, mutated: false, verification: None });
    let (_, a) = agent_step(&s, AgentEvent::ToolDone { success: false, mutated: false, verification: None });
    assert_eq!(a, AgentAction::Finish { stop: StopReason::ToolFailurePersistent, outcome: RunOutcome::Failed });
}
