use zhongshu_core::agent_loop::budget::AgentBudget;
use zhongshu_core::agent_loop::outcome::RunOutcome;
use zhongshu_core::attention::{AttentionLevel, Report};
use zhongshu_core::execution_graph::ExecutionGraph;
use zhongshu_core::orchestrator::execution::finish_execution;
use zhongshu_core::orchestrator::mutation_run::{
    block_staffing, employee_reports_of, fail_on_submission_errors, mutation_without_pipeline, run_modes,
    staffing_gate, submission_errors,
};
use zhongshu_core::orchestrator::types::{
    AssignmentFileOverlap, ManagerAcceptanceStatus, WorkerAssignment, WorkerExecutionStatus, WorkerFileClaimReport,
    WorkerPatchProposal,
};
use zhongshu_core::organization::types::{
    AssignmentAuthority, CollaborationMode, OrganizationRouter, RoleRequirement, StaffingMode, StaffingRequest,
};
use zhongshu_core::profile::{AgentProfile, EmployeeCapability, EmployeeRole};

fn dummy_profile(name: &str) -> AgentProfile {
    AgentProfile::new(name, "test", vec![], AgentBudget::default())
}

fn roster() -> Vec<AgentProfile> {
    vec![
        dummy_profile("frontend").with_specialty(EmployeeRole::frontend(), vec![EmployeeCapability::ui_implementation()], "UI"),
        dummy_profile("backend").with_specialty(EmployeeRole::backend(), vec![EmployeeCapability::api_implementation()], "API"),
    ]
}

fn full_stack() -> StaffingRequest {
    StaffingRequest {
        objective: "ship settings".into(),
        requirements: vec![
            RoleRequirement::required(EmployeeRole::backend(), "implement API"),
            RoleRequirement::required(EmployeeRole::frontend(), "implement UI"),
        ],
        max_workers: None,
    }
}

fn report(worker: &str) -> Report {
    Report {
        task_id: format!("worker-{worker}"),
        worker: worker.into(),
        run_id: "run".into(),
        summary: "done".into(),
        findings: String::new(),
        success: true,
        outcome: RunOutcome::CompletedVerified,
        attention: AttentionLevel::Digest,
    }
}

fn assignment(worker: &str, files: &[&str]) -> WorkerAssignment {
    WorkerAssignment {
        worker_name: worker.into(),
        task_description: "edit".into(),
        owned_files: files.iter().map(|f| f.to_string()).collect(),
        profile: dummy_profile(worker),
    }
}

#[test]
fn collaboration_decides_how_workers_run() {
    assert_eq!(run_modes(CollaborationMode::Independent), (true, false));
    assert_eq!(run_modes(CollaborationMode::SequentialHandoff), (false, true));
}

#[test]
fn direct_task_waits_for_manager_and_unstaffed_task_is_blocked() {
    let router = OrganizationRouter::default();
    let direct = router.route(&StaffingRequest::direct("answer"), &roster());
    assert_eq!(direct.mode, StaffingMode::Direct);
    assert_eq!(
        staffing_gate(&direct, 0),
        Some((ManagerAcceptanceStatus::AwaitingManager, "no specialist mutation was dispatched; manager action is still required"))
    );
    let staffed = router.route(&full_stack(), &roster());
    assert!(staffed.can_execute());
    assert_eq!(staffing_gate(&staffed, 2), None);
    assert_eq!(
        staffing_gate(&staffed, 0),
        Some((ManagerAcceptanceStatus::Blocked, "staffing contract blocked mutation execution"))
    );
    let short = router.route(&full_stack(), &roster()[..1]);
    assert_eq!(
        staffing_gate(&short, 1),
        Some((ManagerAcceptanceStatus::Blocked, "staffing contract blocked mutation execution"))
    );
}

#[test]
fn broken_contract_blocks_staffing_with_reasons() {
    let mut decision = OrganizationRouter::default().route(&full_stack(), &roster());
    let before = decision.rationale.len();
    block_staffing(&mut decision, &vec!["employee 'backend' has no file scope".to_string()]);
    assert_eq!(decision.mode, StaffingMode::Blocked);
    assert_eq!(decision.rationale.len(), before + 1);
    assert_eq!(decision.rationale.last().unwrap(), "employee 'backend' has no file scope");
    assert_eq!(decision.assignments.len(), 2);

    let graph = ExecutionGraph::new("task").unwrap();
    let report = mutation_without_pipeline(
        "task",
        decision,
        "lead".into(),
        ManagerAcceptanceStatus::Blocked,
        "mutation ownership contract is invalid",
        vec!["employee 'backend' has no file scope".into()],
        graph.snapshot(),
    );
    assert_eq!(report.task_id, "task");
    assert!(report.pipeline.is_none());
    assert!(report.employee_reports.is_empty());
    assert_eq!(report.manager_acceptance.status, ManagerAcceptanceStatus::Blocked);
    assert_eq!(report.manager_acceptance.summary, "mutation ownership contract is invalid");
    assert_eq!(report.execution_graph, graph.snapshot());
    assert!(!report.can_finalize());
}

#[test]
fn submission_errors_fail_the_batch_after_existing_error() {
    let assignments = vec![assignment("backend", &["src/api.rs"])];
    let proposals = vec![WorkerPatchProposal::new("backend", vec!["src/ui.rs".into()], "edit ui")];
    let errors = submission_errors(vec!["collected".into()], false, &assignments, &proposals);
    assert_eq!(errors[0], "collected");
    assert!(errors.len() > 1);
    let blocked = submission_errors(vec!["collected".into()], true, &assignments, &proposals);
    assert_eq!(blocked, vec!["collected".to_string()]);

    let mut execution = finish_execution(WorkerFileClaimReport::new(), vec![report("backend")], Some("worker 'x' failed: boom".into()), Vec::new(), Vec::new(), Vec::new());
    fail_on_submission_errors(&mut execution, &vec!["a".into(), "b".into()]);
    assert_eq!(execution.status, WorkerExecutionStatus::WorkerFailed);
    assert_eq!(
        execution.execution_error.as_deref(),
        Some("worker 'x' failed: boom; structured patch proposal submission failed: a; b")
    );

    let mut clean = finish_execution(WorkerFileClaimReport::new(), vec![report("backend")], None, Vec::new(), Vec::new(), Vec::new());
    fail_on_submission_errors(&mut clean, &Vec::new());
    assert_eq!(clean.status, WorkerExecutionStatus::Completed);
    assert!(clean.execution_error.is_none());
}

#[test]
fn blocked_claims_keep_the_batch_blocked() {
    let mut claims = WorkerFileClaimReport::new();
    claims.local_overlaps.push(AssignmentFileOverlap { file: "src".into(), workers: vec!["a".into(), "b".into()] });
    let execution = finish_execution(claims, Vec::new(), None, Vec::new(), Vec::new(), Vec::new());
    assert_eq!(execution.status, WorkerExecutionStatus::BlockedBeforeExecution);
}

#[test]
fn manager_sees_reports_of_assigned_workers_only() {
    let decision = OrganizationRouter::default().route(&full_stack(), &roster());
    let reports = vec![report("frontend"), report("stranger"), report("backend")];
    let employee_reports = employee_reports_of(&decision, &reports, &AssignmentAuthority::manager("lead"));
    let workers: Vec<&str> = employee_reports.iter().map(|e| e.report.worker.as_str()).collect();
    assert_eq!(workers, vec!["frontend", "backend"]);
    assert_eq!(employee_reports[0].assignment.employee, "frontend");
    assert_eq!(employee_reports[1].reports_to, AssignmentAuthority::manager("lead"));
}
