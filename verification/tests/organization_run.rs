use zhongshu_core::agent_loop::budget::AgentBudget;
use zhongshu_core::agent_loop::outcome::RunOutcome;
use zhongshu_core::attention::{AttentionLevel, Report};
use zhongshu_core::execution_graph::types::{ExecutionGraphError, ExecutionNode, ExecutionNodeState, NodeExecutionOutcome};
use zhongshu_core::orchestrator::organization_run::{
    block_organization_staffing, cancel_organization_work, close_organization_graph, closing_outcome_for, organization_status, terminal_status_label,
    worker_failure_error, worker_report_outcome,
};
use zhongshu_core::orchestrator::types::OrganizationExecutionStatus;
use zhongshu_core::organization::types::{
    OrganizationExecutionGraphPlan, OrganizationRouter, OrganizationTaskRequest, RoleRequirement,
    StaffingRequest,
};
use zhongshu_core::profile::{AgentProfile, EmployeeRole};

fn plan() -> OrganizationExecutionGraphPlan {
    let roster = vec![
        AgentProfile::new("frontend-1", "p", vec![], AgentBudget::default()).with_specialty(EmployeeRole::frontend(), vec![], "ui"),
        AgentProfile::new("backend-1", "p", vec![], AgentBudget::default()).with_specialty(EmployeeRole::backend(), vec![], "api"),
    ];
    let staffing = StaffingRequest {
        objective: "review UI and API".into(),
        requirements: vec![
            RoleRequirement::required(EmployeeRole::frontend(), "inspect UI"),
            RoleRequirement::required(EmployeeRole::backend(), "inspect API"),
        ],
        max_workers: Some(2),
    };
    let decision = OrganizationRouter::default().route(&staffing, &roster);
    let request = OrganizationTaskRequest::manager_selected("task", "lead", staffing);
    request.compile_execution_graph(&decision).unwrap()
}

fn report(worker: &str, success: bool, outcome: RunOutcome) -> Report {
    Report {
        task_id: format!("worker-{worker}"),
        worker: worker.into(),
        run_id: "run".into(),
        summary: "looked at it".into(),
        findings: String::new(),
        success,
        outcome,
        attention: AttentionLevel::Digest,
    }
}

fn finish_work(plan: &mut OrganizationExecutionGraphPlan) {
    let reports: Vec<(String, Report)> = plan
        .work_nodes
        .iter()
        .map(|(w, n)| (n.clone(), report(w, true, RunOutcome::CompletedVerified)))
        .collect();
    plan.graph
        .run_ready(|node: &ExecutionNode| {
            match reports.iter().find(|(n, _)| *n == node.id) {
                Some((n, r)) => worker_report_outcome(r, n),
                None => NodeExecutionOutcome::Deferred,
            }
        })
        .unwrap();
}

#[test]
fn successful_report_leaves_its_artifact() {
    let outcome = worker_report_outcome(&report("frontend-1", true, RunOutcome::CompletedVerified), "work-1");
    match outcome {
        NodeExecutionOutcome::Succeeded(artifacts) => {
            assert_eq!(artifacts.len(), 1);
            assert_eq!(artifacts[0].id, "artifact-work-1");
            assert_eq!(artifacts[0].producer_node, "work-1");
            assert_eq!(artifacts[0].kind, "worker_report");
            assert_eq!(artifacts[0].summary, "looked at it");
            assert_eq!(artifacts[0].evidence_refs, vec!["report:worker-frontend-1".to_string()]);
        }
        other => panic!("unexpected {other:?}"),
    }
}

#[test]
fn interrupted_report_cancels_and_failed_report_fails() {
    assert_eq!(
        worker_report_outcome(&report("a", false, RunOutcome::Interrupted), "w"),
        NodeExecutionOutcome::Cancelled("worker interrupted by task cancellation".into())
    );
    assert_eq!(
        worker_report_outcome(&report("a", false, RunOutcome::BudgetExhausted), "w"),
        NodeExecutionOutcome::Failed("worker outcome was BudgetExhausted".into())
    );
}

#[test]
fn failure_error_names_worker_or_cancellation() {
    assert_eq!(worker_failure_error("backend-1", RunOutcome::Failed, false), "worker 'backend-1' failed: Failed");
    assert_eq!(worker_failure_error("backend-1", RunOutcome::Interrupted, true), "cancelled by user");
}

#[test]
fn status_follows_cancellation_then_reports() {
    let verified = vec![report("a", true, RunOutcome::CompletedVerified)];
    let unverified = vec![report("a", true, RunOutcome::CompletedUnverified)];
    assert_eq!(organization_status(&verified, None), OrganizationExecutionStatus::Completed);
    assert_eq!(organization_status(&unverified, None), OrganizationExecutionStatus::Submitted);
    assert_eq!(organization_status(&verified, Some("cancelled by user")), OrganizationExecutionStatus::Cancelled);
    assert_eq!(organization_status(&verified, Some("worker 'a' failed: Failed")), OrganizationExecutionStatus::WorkerFailed);
    assert_eq!(terminal_status_label(OrganizationExecutionStatus::Completed), "accepted");
    assert_eq!(terminal_status_label(OrganizationExecutionStatus::WorkerFailed), "worker_failed");
}

#[test]
fn decision_cites_every_work_artifact() {
    let plan = plan();
    let decide = plan.decide_node.clone();
    match closing_outcome_for(&plan, OrganizationExecutionStatus::Submitted, &decide) {
        NodeExecutionOutcome::Succeeded(artifacts) => {
            let expected: Vec<String> = plan.work_nodes.iter().map(|(_, n)| format!("artifact-{n}")).collect();
            assert_eq!(artifacts[0].evidence_refs, expected);
            assert_eq!(artifacts[0].id, "artifact-decision-000");
        }
        other => panic!("unexpected {other:?}"),
    }
    assert_eq!(
        closing_outcome_for(&plan, OrganizationExecutionStatus::Blocked, &decide),
        NodeExecutionOutcome::Failed("deterministic completion gate rejected the submitted artifacts".into())
    );
    assert_eq!(closing_outcome_for(&plan, OrganizationExecutionStatus::Blocked, "elsewhere"), NodeExecutionOutcome::Deferred);
}

#[test]
fn completed_run_closes_every_node() {
    let mut plan = plan();
    finish_work(&mut plan);
    close_organization_graph(&mut plan, OrganizationExecutionStatus::Completed).unwrap();
    for node in plan.graph.snapshot().nodes {
        assert_eq!(node.state, ExecutionNodeState::Succeeded, "node {}", node.id);
    }
}

#[test]
fn rejected_run_fails_decision_and_skips_finalize() {
    let mut plan = plan();
    finish_work(&mut plan);
    close_organization_graph(&mut plan, OrganizationExecutionStatus::Blocked).unwrap();
    let decide = plan.decide_node.clone();
    let finalize = plan.finalize_node.clone();
    assert_eq!(plan.graph.node(&decide).unwrap().state, ExecutionNodeState::Failed);
    assert_eq!(plan.graph.node(&finalize).unwrap().state, ExecutionNodeState::Skipped);
}

#[test]
fn unfinished_work_stalls_closing() {
    let mut plan = plan();
    let mut expected = plan.graph.ready_node_ids();
    assert!(!expected.is_empty());
    expected.sort();
    let error = close_organization_graph(&mut plan, OrganizationExecutionStatus::Completed).unwrap_err();
    match error {
        ExecutionGraphError::SchedulerStalled(mut deferred) => {
            deferred.sort();
            assert_eq!(deferred, expected);
        }
        other => panic!("unexpected {other:?}"),
    }
}

#[test]
fn blocked_staffing_fails_decision_and_skips_finalize() {
    let roster: Vec<AgentProfile> = Vec::new();
    let staffing = StaffingRequest {
        objective: "review UI and API".into(),
        requirements: vec![
            RoleRequirement::required(EmployeeRole::frontend(), "inspect UI"),
            RoleRequirement::required(EmployeeRole::backend(), "inspect API"),
        ],
        max_workers: Some(2),
    };
    let decision = OrganizationRouter::default().route(&staffing, &roster);
    assert!(!decision.can_execute());
    let request = OrganizationTaskRequest::manager_selected("task", "lead", staffing);
    let mut plan = request.compile_execution_graph(&decision).unwrap();
    assert!(plan.work_nodes.is_empty());
    block_organization_staffing(&mut plan).unwrap();
    let decide = plan.decide_node.clone();
    let finalize = plan.finalize_node.clone();
    assert_eq!(plan.graph.node(&decide).unwrap().state, ExecutionNodeState::Failed);
    assert_eq!(plan.graph.node(&finalize).unwrap().state, ExecutionNodeState::Skipped);
}

#[test]
fn unsafe_tools_cancel_all_work() {
    let mut plan = plan();
    cancel_organization_work(&mut plan, "read-only capability boundary blocked execution").unwrap();
    for (_, node) in plan.work_nodes.clone() {
        assert_eq!(plan.graph.node(&node).unwrap().state, ExecutionNodeState::Cancelled);
    }
    let decide = plan.decide_node.clone();
    assert_eq!(plan.graph.node(&decide).unwrap().state, ExecutionNodeState::Skipped);
}

#[test]
fn finished_work_cannot_be_cancelled_again() {
    let mut plan = plan();
    cancel_organization_work(&mut plan, "boundary").unwrap();
    assert!(cancel_organization_work(&mut plan, "boundary").is_err());
}
