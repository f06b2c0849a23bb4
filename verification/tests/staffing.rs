use zhongshu_core::orchestrator::staffing::organization_block_reason;
use zhongshu_core::orchestrator::staffing::{assignment_authority_label, collaboration_label, ensure_worker_limit};
use zhongshu_core::organization::types::OrganizationRouter;
use zhongshu_core::organization::types::{AssignmentAuthority, CollaborationMode};
use zhongshu_core::agent_loop::budget::AgentBudget;
use zhongshu_core::organization::types::{RoleRequirement, StaffingMode, StaffingRequest, DEFAULT_MAX_WORKERS_PER_TASK};
use zhongshu_core::orchestrator::collector::PatchProposalCollector;
use zhongshu_core::orchestrator::staffing::staff_task;
use zhongshu_core::orchestrator::types::PatchProposalSubmission;
use zhongshu_core::patch::{PatchOperation, ReplaceRequest};
use zhongshu_core::profile::{AgentProfile, EmployeeCapability, EmployeeRole};

fn dummy_profile(name: &str) -> AgentProfile {
    AgentProfile::new(name, "test", vec![], AgentBudget::default())
}

#[test]
fn staff_task_converts_valid_role_decision_to_bounded_assignments() {
    let roster = vec![
        dummy_profile("frontend").with_specialty(EmployeeRole::frontend(), vec![EmployeeCapability::ui_implementation()], "UI"),
        dummy_profile("backend").with_specialty(EmployeeRole::backend(), vec![EmployeeCapability::api_implementation()], "API"),
        dummy_profile("writer").with_specialty(EmployeeRole::writer(), vec![EmployeeCapability::product_copy()], "copy"),
    ];
    let request = StaffingRequest {
        objective: "ship settings".into(),
        requirements: vec![
            RoleRequirement::required(EmployeeRole::backend(), "implement API"),
            RoleRequirement::required(EmployeeRole::frontend(), "implement UI"),
            RoleRequirement::required(EmployeeRole::writer(), "write copy"),
        ],
        max_workers: None,
    };

    let staffed = staff_task(DEFAULT_MAX_WORKERS_PER_TASK, &request, &roster);

    assert!(staffed.decision.can_execute());
    assert_eq!(staffed.assignments.len(), 3);
    assert!(staffed.assignments[0].task_description.contains("组织目标：ship settings"));
    assert_eq!(staffed.assignments[0].worker_name, "backend");
    assert_eq!(
        staffed.assignments[0].task_description,
        "组织目标：ship settings\n\n岗位：backend\n岗位责任：implement API"
    );
}

#[test]
fn staff_task_never_exposes_partial_assignments_for_blocked_decision() {
    let roster = vec![dummy_profile("backend").with_specialty(EmployeeRole::backend(), vec![], "API")];
    let request = StaffingRequest {
        objective: "ship full stack".into(),
        requirements: vec![
            RoleRequirement::required(EmployeeRole::backend(), "API"),
            RoleRequirement::required(EmployeeRole::frontend(), "UI"),
        ],
        max_workers: None,
    };

    let staffed = staff_task(DEFAULT_MAX_WORKERS_PER_TASK, &request, &roster);

    assert!(!staffed.decision.can_execute());
    assert!(staffed.assignments.is_empty());
    assert_eq!(staffed.decision.assignments.len(), 1);
    assert_eq!(staffed.decision.mode, StaffingMode::Blocked);
}

fn submission(files: Vec<&str>) -> PatchProposalSubmission {
    PatchProposalSubmission {
        summary: "update copy".into(),
        files: files.into_iter().map(String::from).collect(),
        verification_commands: vec!["cargo test".into()],
        operations: vec![PatchOperation::Replace(ReplaceRequest::once("copy.txt", "old", "new"))],
    }
}

#[test]
fn collector_keeps_one_proposal_per_worker_in_name_order() {
    let mut collector = PatchProposalCollector::new();
    assert!(collector.record("writer", submission(vec!["copy.txt"])).is_ok());
    assert!(collector.record("editor", submission(vec!["copy.txt"])).is_ok());
    let error = collector.record("writer", submission(vec!["copy.txt"])).unwrap_err();
    assert_eq!(error, "employee 'writer' submitted more than one patch proposal");
    let names: Vec<&str> = collector.proposals_list().iter().map(|p| p.worker.as_str()).collect();
    assert_eq!(names, vec!["editor", "writer"]);
    assert_eq!(collector.error_list().len(), 1);
}

#[test]
fn collector_rejects_malformed_submissions_with_the_reason() {
    let mut collector = PatchProposalCollector::new();
    let error = collector.record("writer", submission(vec![""])).unwrap_err();
    assert_eq!(error, "employee 'writer' submitted invalid patch proposal: files must contain at least one non-empty path");
    let mut blank = submission(vec!["copy.txt"]);
    blank.summary = "  ".into();
    let error = collector.record("writer", blank).unwrap_err();
    assert_eq!(error, "employee 'writer' submitted invalid patch proposal: summary must not be empty");
    assert!(collector.proposals_list().is_empty());
    assert_eq!(collector.error_list().len(), 2);
}

#[test]
fn labels_and_limits_read_as_shown_to_people() {
    assert_eq!(assignment_authority_label(&AssignmentAuthority::manager("lead")), "lead");
    assert_eq!(assignment_authority_label(&AssignmentAuthority::User), "用户");
    assert_eq!(collaboration_label(CollaborationMode::SequentialHandoff), "sequential_handoff");
    assert!(ensure_worker_limit(3, 3).is_ok());
    assert_eq!(ensure_worker_limit(3, 4).unwrap_err(), "worker limit exceeded: requested 4, maximum is 3");
}

#[test]
fn blocked_decision_reason_prefers_rationale() {
    let request = StaffingRequest {
        objective: "API".into(),
        requirements: vec![RoleRequirement::required(EmployeeRole::backend(), "API")],
        max_workers: Some(0),
    };
    let decision = OrganizationRouter::default().route(&request, &[dummy_profile("x")]);
    let reason = organization_block_reason(&decision).unwrap();
    assert!(!reason.is_empty());
}
