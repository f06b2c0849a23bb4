use zhongshu_core::agent_loop::budget::AgentBudget;
use zhongshu_core::agent_loop::outcome::RunOutcome;
use zhongshu_core::attention::{AttentionLevel, Report};
use zhongshu_core::orchestrator::outcomes::{
    classify_worker_reports, manager_acceptance_from_pipeline, review_pipeline_outcome,
    worker_proposal_outcome, worker_task_id,
};
use zhongshu_core::orchestrator::paths::normalize_path;
use zhongshu_core::orchestrator::proposals::{
    apply_organization_mutation_contract, validate_organization_proposals,
};
use zhongshu_core::orchestrator::review::{execution_blockers, review_worker_patch_proposals};
use zhongshu_core::orchestrator::scopes::{apply_organization_file_scopes, normalize_owned_files};
use zhongshu_core::orchestrator::types::{
    ManagerAcceptanceStatus, OrganizationFileScope, ReviewPipelineRecovery, WorkerAssignment,
    WorkerExecutionReport, WorkerExecutionStatus, WorkerFileClaimReport, WorkerMergeReview,
    WorkerMergeStatus, WorkerPatchApplyReport, WorkerPatchPipelineReport,
    WorkerPatchPipelineStatus, WorkerPatchProposal,
};
use zhongshu_core::execution_graph::types::NodeExecutionOutcome;
use zhongshu_core::patch::{PatchOperation, ReplaceRequest};
use zhongshu_core::profile::AgentProfile;

fn dummy_profile(name: &str) -> AgentProfile {
    AgentProfile::new(name, "test", vec![], AgentBudget::default())
}

fn assignment(name: &str, owned: Vec<&str>) -> WorkerAssignment {
    WorkerAssignment {
        worker_name: name.into(),
        task_description: "update copy".into(),
        owned_files: owned.into_iter().map(String::from).collect(),
        profile: dummy_profile(name),
    }
}

fn report(worker: &str, outcome: RunOutcome) -> Report {
    Report {
        task_id: format!("worker-{worker}"),
        worker: worker.into(),
        run_id: "run".into(),
        summary: "did the work".into(),
        findings: String::new(),
        success: matches!(outcome, RunOutcome::CompletedVerified | RunOutcome::CompletedUnverified),
        outcome,
        attention: AttentionLevel::Digest,
    }
}

fn execution(status: WorkerExecutionStatus) -> WorkerExecutionReport {
    WorkerExecutionReport {
        status,
        reports: Vec::new(),
        claim_report: WorkerFileClaimReport::new(),
        conflicts: Vec::new(),
        ownership_violations: Vec::new(),
        release_failures: Vec::new(),
        execution_error: None,
    }
}

fn replace(path: &str) -> PatchOperation {
    PatchOperation::Replace(ReplaceRequest::once(path, "old", "new"))
}

#[test]
fn organization_mutation_contract_rejects_out_of_scope_operation_before_execution() {
    let mut assignments = vec![assignment("writer", vec![])];
    let scopes = vec![OrganizationFileScope { employee: "writer".into(), owned_files: vec!["copy.txt".into()] }];
    let proposals = vec![WorkerPatchProposal::new("writer", vec!["other.txt".into()], "edit outside scope")
        .with_operations(vec![replace("other.txt")])];

    let errors = apply_organization_mutation_contract(&mut assignments, &scopes, &proposals);

    assert!(errors.iter().any(|error| error.contains("outside")));
    assert_eq!(assignments[0].owned_files, vec!["copy.txt".to_string()]);
}

#[test]
fn organization_mutation_scope_rejects_absolute_and_parent_paths() {
    let mut assignments = vec![assignment("writer", vec![])];
    let scopes = vec![OrganizationFileScope {
        employee: "writer".into(),
        owned_files: vec!["../outside".into(), "/absolute".into()],
    }];

    let errors = apply_organization_file_scopes(&mut assignments, &scopes);

    assert!(errors.iter().any(|error| error.contains("relative")));
    assert!(assignments[0].owned_files.is_empty());
}

#[test]
fn review_pipeline_records_recovery_without_hiding_worker_failure() {
    let (status, recovery) = review_pipeline_outcome(RunOutcome::Failed, RunOutcome::CompletedVerified);

    assert_eq!(status, WorkerExecutionStatus::WorkerFailed);
    assert_eq!(recovery, ReviewPipelineRecovery::Succeeded);
}

#[test]
fn review_pipeline_completes_when_both_roles_finish_their_contracts() {
    let (status, recovery) =
        review_pipeline_outcome(RunOutcome::CompletedUnverified, RunOutcome::CompletedVerified);

    assert_eq!(status, WorkerExecutionStatus::Completed);
    assert_eq!(recovery, ReviewPipelineRecovery::NotNeeded);
}

#[test]
fn review_pipeline_without_fresh_verification_is_only_submitted() {
    let (status, recovery) =
        review_pipeline_outcome(RunOutcome::CompletedVerified, RunOutcome::CompletedUnverified);
    assert_eq!(status, WorkerExecutionStatus::Submitted);
    assert_eq!(recovery, ReviewPipelineRecovery::NotNeeded);
    let (status, recovery) = review_pipeline_outcome(RunOutcome::Blocked, RunOutcome::Blocked);
    assert_eq!(status, WorkerExecutionStatus::WorkerFailed);
    assert_eq!(recovery, ReviewPipelineRecovery::Failed);
}

#[test]
fn worker_batch_status_follows_the_weakest_report() {
    let verified = vec![report("a", RunOutcome::CompletedVerified)];
    assert_eq!(classify_worker_reports(&verified, None), WorkerExecutionStatus::Completed);
    assert_eq!(classify_worker_reports(&verified, Some("boom")), WorkerExecutionStatus::WorkerFailed);
    let mixed = vec![report("a", RunOutcome::CompletedVerified), report("b", RunOutcome::CompletedUnverified)];
    assert_eq!(classify_worker_reports(&mixed, None), WorkerExecutionStatus::Submitted);
    let failed = vec![report("a", RunOutcome::CompletedUnverified), report("b", RunOutcome::BudgetExhausted)];
    assert_eq!(classify_worker_reports(&failed, None), WorkerExecutionStatus::WorkerFailed);
}

#[test]
fn proposal_node_outcome_carries_the_report_or_the_reason() {
    let ok = report("writer", RunOutcome::CompletedVerified);
    match worker_proposal_outcome(Some(&ok), None, "work-000", "writer") {
        NodeExecutionOutcome::Succeeded(artifacts) => {
            assert_eq!(artifacts.len(), 1);
            assert_eq!(artifacts[0].id, "artifact-work-000");
            assert_eq!(artifacts[0].producer_node, "work-000");
            assert_eq!(artifacts[0].kind, "patch_proposal");
            assert_eq!(artifacts[0].evidence_refs, vec!["report:worker-writer".to_string()]);
        }
        other => panic!("unexpected {:?}", other),
    }
    let failed = report("writer", RunOutcome::Failed);
    assert_eq!(
        worker_proposal_outcome(Some(&failed), None, "work-000", "writer"),
        NodeExecutionOutcome::Failed("worker outcome was Failed".into())
    );
    assert_eq!(
        worker_proposal_outcome(None, None, "work-000", "writer"),
        NodeExecutionOutcome::Failed("worker 'writer' submitted no successful report".into())
    );
    assert_eq!(
        worker_proposal_outcome(None, Some("claim lost"), "work-000", "writer"),
        NodeExecutionOutcome::Failed("claim lost".into())
    );
    assert_eq!(worker_task_id("writer"), "worker-writer");
}

#[test]
fn normalized_paths_resolve_dots_and_keep_the_root() {
    assert_eq!(normalize_path("./src/../lib/a.rs"), "lib/a.rs");
    assert_eq!(normalize_path("a//b/./c/"), "a/b/c");
    assert_eq!(normalize_path("/x/../../y"), "/y");
    assert_eq!(normalize_path("../outside"), "outside");
    assert_eq!(normalize_path("."), "");
    assert_eq!(
        normalize_owned_files(&vec!["b.txt".into(), "./a.txt".into(), "b.txt".into(), "a/b".into(), "a-b".into()]),
        vec!["a/b".to_string(), "a-b".to_string(), "a.txt".to_string(), "b.txt".to_string()]
    );
}

#[test]
fn file_scopes_report_every_problem_in_order() {
    let mut assignments = vec![assignment("writer", vec![]), assignment("tester", vec![])];
    let scopes = vec![
        OrganizationFileScope { employee: "writer".into(), owned_files: vec!["a.txt".into()] },
        OrganizationFileScope { employee: "writer".into(), owned_files: vec!["b.txt".into()] },
        OrganizationFileScope { employee: "ghost".into(), owned_files: Vec::new() },
    ];

    let errors = apply_organization_file_scopes(&mut assignments, &scopes);

    assert_eq!(
        errors,
        vec![
            "employee 'writer' has duplicate file scope entries".to_string(),
            "file scope references unselected employee 'ghost'".to_string(),
            "mutation employee 'ghost' must have at least one relative owned file without parent traversal".to_string(),
            "selected mutation employee 'tester' has no file scope".to_string(),
        ]
    );
    assert!(assignments.iter().all(|a| a.owned_files.is_empty()));
}

#[test]
fn valid_scopes_assign_normalized_files() {
    let mut assignments = vec![assignment("writer", vec![]), assignment("tester", vec![])];
    let scopes = vec![
        OrganizationFileScope { employee: "tester".into(), owned_files: vec!["tests/./a.rs".into(), "tests/a.rs".into()] },
        OrganizationFileScope { employee: "writer".into(), owned_files: vec!["docs/b.md".into(), "docs/a.md".into()] },
    ];

    let errors = apply_organization_file_scopes(&mut assignments, &scopes);

    assert!(errors.is_empty());
    assert_eq!(assignments[0].owned_files, vec!["docs/a.md".to_string(), "docs/b.md".to_string()]);
    assert_eq!(assignments[1].owned_files, vec!["tests/a.rs".to_string()]);
}

#[test]
fn proposals_inside_scope_pass_and_missing_ones_are_named() {
    let assignments = vec![assignment("writer", vec!["docs"]), assignment("tester", vec!["tests"])];
    let proposals = vec![WorkerPatchProposal::new("writer", vec!["docs/a.md".into()], "update docs")
        .with_operations(vec![replace("./docs/a.md")])];

    let errors = validate_organization_proposals(&assignments, &proposals);

    assert_eq!(errors, vec!["selected mutation employee 'tester' submitted no patch proposal".to_string()]);
}

#[test]
fn proposal_problems_are_listed_per_employee() {
    let assignments = vec![assignment("writer", vec!["docs"])];
    let proposals = vec![
        WorkerPatchProposal::new("writer", vec!["docs/a.md".into(), "src/b.rs".into()], " ")
            .with_operations(vec![replace("docs/c.md")]),
        WorkerPatchProposal::new("writer", Vec::new(), "again"),
        WorkerPatchProposal::new("stranger", vec!["x".into()], "x").with_operations(vec![replace("x")]),
    ];

    let errors = validate_organization_proposals(&assignments, &proposals);

    assert_eq!(
        errors,
        vec![
            "employee 'writer' submitted an empty patch summary".to_string(),
            "employee 'writer' proposed file src/b.rs outside its mutation scope".to_string(),
            "employee 'writer' proposed operation on docs/c.md outside its declared files or mutation scope".to_string(),
            "employee 'writer' submitted more than one patch proposal".to_string(),
            "employee 'writer' must submit named files and patch operations".to_string(),
            "patch proposal references unselected employee 'stranger'".to_string(),
        ]
    );
}

#[test]
fn merge_review_approves_owned_proposals_only() {
    let assignments = vec![assignment("writer", vec!["docs"]), assignment("free", vec![])];
    let exec = execution(WorkerExecutionStatus::Completed);
    let proposals = vec![
        WorkerPatchProposal::new("writer", vec!["docs/./a.md".into()], "docs").with_operations(vec![replace("docs/a.md")]),
    ];
    let review = review_worker_patch_proposals(&assignments, &exec, proposals);
    assert_eq!(review.status, WorkerMergeStatus::Approved);
    assert!(review.decisions[0].approved);
    assert_eq!(review.decisions[0].proposal.files, vec!["docs/a.md".to_string()]);

    let unscoped = vec![WorkerPatchProposal::new("free", vec!["a".into()], "a").with_operations(vec![replace("a")])];
    let review = review_worker_patch_proposals(&assignments, &exec, unscoped);
    assert_eq!(review.status, WorkerMergeStatus::RequiresParentReview);
    assert_eq!(review.decisions[0].reasons, vec!["worker has unscoped ownership; parent review required".to_string()]);

    let none = review_worker_patch_proposals(&assignments, &execution(WorkerExecutionStatus::WorkerFailed), Vec::new());
    assert_eq!(none.status, WorkerMergeStatus::Blocked);
    assert_eq!(none.blockers, vec!["no worker patch proposals submitted".to_string()]);
}

#[test]
fn execution_blockers_list_unverified_results_first() {
    let mut exec = execution(WorkerExecutionStatus::Submitted);
    exec.execution_error = Some("timeout".into());
    assert_eq!(
        execution_blockers(&exec),
        vec!["worker results were submitted without fresh verification".to_string(), "timeout".to_string()]
    );
}

#[test]
fn manager_acceptance_reports_counts_and_reasons() {
    let pipeline = WorkerPatchPipelineReport {
        status: WorkerPatchPipelineStatus::Applied,
        execution: execution(WorkerExecutionStatus::Completed),
        merge_review: WorkerMergeReview { status: WorkerMergeStatus::Approved, decisions: Vec::new(), blockers: Vec::new() },
        apply_report: WorkerPatchApplyReport { applied: Vec::new(), failures: Vec::new() },
    };
    let (status, summary, reasons) = manager_acceptance_from_pipeline(&pipeline);
    assert_eq!(status, ManagerAcceptanceStatus::Accepted);
    assert_eq!(summary, "accepted 0 employee proposal(s); applied 0 patch operation(s)");
    assert!(reasons.is_empty());

    let blocked = WorkerPatchPipelineReport {
        status: WorkerPatchPipelineStatus::Blocked,
        execution: execution(WorkerExecutionStatus::Completed),
        merge_review: WorkerMergeReview {
            status: WorkerMergeStatus::Blocked,
            decisions: Vec::new(),
            blockers: vec!["conflict".into()],
        },
        apply_report: WorkerPatchApplyReport { applied: Vec::new(), failures: Vec::new() },
    };
    let (status, _, reasons) = manager_acceptance_from_pipeline(&blocked);
    assert_eq!(status, ManagerAcceptanceStatus::Blocked);
    assert_eq!(reasons, vec!["conflict".to_string()]);
}
