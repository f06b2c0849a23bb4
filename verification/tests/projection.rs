use zhongshu_core::agent_loop::budget::AgentBudget;
use zhongshu_core::agent_loop::outcome::RunOutcome;
use zhongshu_core::attention::{AttentionLevel, Report};
use zhongshu_core::execution_graph::types::{ExecutionGraphError, ExecutionNodeState};
use zhongshu_core::orchestrator::projection::{
    complete_mutation_contract, fail_mutation_contract, project_mutation_pipeline,
};
use zhongshu_core::orchestrator::types::{
    WorkerExecutionReport, WorkerExecutionStatus, WorkerFileClaimReport, WorkerMergeReview,
    WorkerMergeStatus, WorkerPatchApplyReport, WorkerPatchPipelineReport, WorkerPatchPipelineStatus,
};
use zhongshu_core::organization::types::{
    MutationExecutionGraphPlan, OrganizationRouter, OrganizationTaskRequest, RoleRequirement,
    StaffingRequest,
};
use zhongshu_core::profile::{AgentProfile, EmployeeRole};

fn plan() -> MutationExecutionGraphPlan {
    let roster = vec![
        AgentProfile::new("frontend-1", "p", vec![], AgentBudget::default()).with_specialty(EmployeeRole::frontend(), vec![], "ui"),
        AgentProfile::new("backend-1", "p", vec![], AgentBudget::default()).with_specialty(EmployeeRole::backend(), vec![], "api"),
    ];
    let staffing = StaffingRequest {
        objective: "update UI and API".into(),
        requirements: vec![
            RoleRequirement::required(EmployeeRole::frontend(), "propose UI patch"),
            RoleRequirement::required(EmployeeRole::backend(), "propose API patch"),
        ],
        max_workers: Some(2),
    };
    let decision = OrganizationRouter::default().route(&staffing, &roster);
    let request = OrganizationTaskRequest::manager_selected("task", "lead", staffing);
    request.compile_mutation_execution_graph(&decision).unwrap()
}

fn report(worker: &str) -> Report {
    Report {
        task_id: format!("worker-{worker}"),
        worker: worker.into(),
        run_id: "run".into(),
        summary: "proposal".into(),
        findings: String::new(),
        success: true,
        outcome: RunOutcome::CompletedVerified,
        attention: AttentionLevel::Digest,
    }
}

fn pipeline(status: WorkerPatchPipelineStatus, workers: &[String]) -> WorkerPatchPipelineReport {
    WorkerPatchPipelineReport {
        status,
        execution: WorkerExecutionReport {
            status: WorkerExecutionStatus::Completed,
            reports: workers.iter().map(|w| report(w)).collect(),
            claim_report: WorkerFileClaimReport::new(),
            conflicts: Vec::new(),
            ownership_violations: Vec::new(),
            release_failures: Vec::new(),
            execution_error: None,
        },
        merge_review: WorkerMergeReview { status: WorkerMergeStatus::Approved, decisions: Vec::new(), blockers: Vec::new() },
        apply_report: WorkerPatchApplyReport { applied: Vec::new(), failures: Vec::new() },
    }
}

#[test]
fn applied_pipeline_settles_every_node() {
    let mut plan = plan();
    complete_mutation_contract(&mut plan).unwrap();
    let workers: Vec<String> = plan.work_nodes.iter().map(|(w, _)| w.clone()).collect();

    project_mutation_pipeline(&mut plan, &pipeline(WorkerPatchPipelineStatus::Applied, &workers)).unwrap();

    for node in plan.graph.snapshot().nodes {
        assert_eq!(node.state, ExecutionNodeState::Succeeded, "node {}", node.id);
    }
}

#[test]
fn blocked_review_fails_review_and_skips_apply_but_releases() {
    let mut plan = plan();
    complete_mutation_contract(&mut plan).unwrap();
    let workers: Vec<String> = plan.work_nodes.iter().map(|(w, _)| w.clone()).collect();
    let mut p = pipeline(WorkerPatchPipelineStatus::Blocked, &workers);
    p.merge_review.status = WorkerMergeStatus::Blocked;

    project_mutation_pipeline(&mut plan, &p).unwrap();

    let review = plan.review_node.clone();
    let apply = plan.apply_node.clone();
    let release = plan.release_node.clone();
    assert_eq!(plan.graph.node(&review).unwrap().state, ExecutionNodeState::Failed);
    assert_eq!(plan.graph.node(&apply).unwrap().state, ExecutionNodeState::Skipped);
    assert_eq!(plan.graph.node(&release).unwrap().state, ExecutionNodeState::Succeeded);
}

#[test]
fn pipeline_without_contract_outcome_stalls() {
    let mut plan = plan();
    let workers: Vec<String> = plan.work_nodes.iter().map(|(w, _)| w.clone()).collect();
    let error = project_mutation_pipeline(&mut plan, &pipeline(WorkerPatchPipelineStatus::Applied, &workers)).unwrap_err();
    assert_eq!(error, ExecutionGraphError::SchedulerStalled(vec![plan.contract_node.clone()]));
}

#[test]
fn failed_contract_skips_the_rest() {
    let mut plan = plan();
    fail_mutation_contract(&mut plan, "scope missing").unwrap();
    let contract = plan.contract_node.clone();
    assert_eq!(plan.graph.node(&contract).unwrap().state, ExecutionNodeState::Failed);
    assert!(plan.graph.ready_node_ids().is_empty());
}

#[test]
fn contract_completes_only_once() {
    let mut plan = plan();
    complete_mutation_contract(&mut plan).unwrap();
    assert!(complete_mutation_contract(&mut plan).is_err());
}
