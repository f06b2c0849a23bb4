use zhongshu_core::agent_loop::budget::AgentBudget;
use zhongshu_core::execution_graph::types::NodeExecutionOutcome;
use zhongshu_core::orchestrator::pipeline::{
    apply_node_outcome, apply_refusal, approved_operations, release_worker_patch_pipeline_stage,
    review_worker_patch_pipeline_stage,
};
use zhongshu_core::orchestrator::types::{
    AppliedWorkerPatchPipeline, WorkerAssignment, WorkerExecutionReport, WorkerExecutionStatus,
    WorkerFileClaimReleaseFailure, WorkerFileClaimReport, WorkerMergeReview, WorkerMergeStatus,
    WorkerPatchApplyFailure, WorkerPatchApplyReport, WorkerPatchDecision, WorkerPatchPipelineStatus,
    WorkerPatchProposal,
};
use zhongshu_core::patch::{PatchOperation, PatchOperationKind, PatchResult, ReplaceRequest};
use zhongshu_core::profile::AgentProfile;

fn replace(path: &str) -> PatchOperation {
    PatchOperation::Replace(ReplaceRequest::once(path, "old", "new"))
}

fn decision(worker: &str, paths: &[&str], approved: bool) -> WorkerPatchDecision {
    WorkerPatchDecision {
        proposal: WorkerPatchProposal::new(worker, paths.iter().map(|p| p.to_string()).collect(), "edit")
            .with_operations(paths.iter().map(|p| replace(p)).collect()),
        approved,
        reasons: Vec::new(),
    }
}

fn execution() -> WorkerExecutionReport {
    WorkerExecutionReport {
        status: WorkerExecutionStatus::Completed,
        reports: Vec::new(),
        claim_report: WorkerFileClaimReport::new(),
        conflicts: Vec::new(),
        ownership_violations: Vec::new(),
        release_failures: Vec::new(),
        execution_error: None,
    }
}

fn applied(status: WorkerMergeStatus, failures: Vec<WorkerPatchApplyFailure>) -> AppliedWorkerPatchPipeline {
    AppliedWorkerPatchPipeline {
        execution: execution(),
        merge_review: WorkerMergeReview { status, decisions: vec![decision("w1", &["src/a.rs"], true)], blockers: Vec::new() },
        apply_report: WorkerPatchApplyReport {
            applied: vec![PatchResult { path: "src/a.rs".into(), operation: PatchOperationKind::Replace, changed: true }],
            failures,
        },
    }
}

fn release_failure() -> WorkerFileClaimReleaseFailure {
    WorkerFileClaimReleaseFailure { worker: "w1".into(), file: "src/a.rs".into(), message: "missing claim".into() }
}

#[test]
fn unapproved_review_refuses_apply() {
    let review = WorkerMergeReview {
        status: WorkerMergeStatus::Approved,
        decisions: vec![decision("w1", &["src/a.rs"], true), decision("w2", &["src/b.rs"], false)],
        blockers: Vec::new(),
    };
    let refusal = apply_refusal(&review).unwrap();
    assert!(refusal.applied.is_empty());
    assert_eq!(refusal.failures.len(), 1);
    assert_eq!(refusal.failures[0].worker, "orchestrator");
    assert_eq!(refusal.failures[0].operation, PatchOperationKind::Read);
    assert_eq!(refusal.failures[0].message, "worker merge review is not approved");
    let blocked = WorkerMergeReview { status: WorkerMergeStatus::Blocked, decisions: Vec::new(), blockers: Vec::new() };
    assert!(apply_refusal(&blocked).is_some());
}

#[test]
fn approved_operations_keep_review_order() {
    let review = WorkerMergeReview {
        status: WorkerMergeStatus::Approved,
        decisions: vec![decision("w1", &["src/a.rs", "src/c.rs"], true), decision("w2", &["src/b.rs"], true)],
        blockers: Vec::new(),
    };
    assert!(apply_refusal(&review).is_none());
    let ops = approved_operations(&review);
    let order: Vec<(&str, &str)> = ops.iter().map(|(w, o)| (w.as_str(), o.path())).collect();
    assert_eq!(order, vec![("w1", "src/a.rs"), ("w1", "src/c.rs"), ("w2", "src/b.rs")]);
}

#[test]
fn pipeline_status_follows_review_apply_and_release() {
    let clean = release_worker_patch_pipeline_stage(applied(WorkerMergeStatus::Approved, Vec::new()), Vec::new());
    assert_eq!(clean.status, WorkerPatchPipelineStatus::Applied);
    assert!(clean.passed());
    let leaked = release_worker_patch_pipeline_stage(applied(WorkerMergeStatus::Approved, Vec::new()), vec![release_failure()]);
    assert_eq!(leaked.status, WorkerPatchPipelineStatus::AppliedWithReviewFindings);
    assert_eq!(leaked.execution.release_failures, vec![release_failure()]);
    let failure = WorkerPatchApplyFailure { worker: "w1".into(), operation: PatchOperationKind::Replace, path: Some("src/a.rs".into()), message: "stale".into() };
    let failed = release_worker_patch_pipeline_stage(applied(WorkerMergeStatus::Approved, vec![failure]), Vec::new());
    assert_eq!(failed.status, WorkerPatchPipelineStatus::ApplyFailed);
    let blocked = release_worker_patch_pipeline_stage(applied(WorkerMergeStatus::Blocked, Vec::new()), Vec::new());
    assert_eq!(blocked.status, WorkerPatchPipelineStatus::Blocked);
}

#[test]
fn apply_node_cites_each_applied_file() {
    let report = applied(WorkerMergeStatus::Approved, Vec::new()).apply_report;
    match apply_node_outcome("apply-000", &report) {
        NodeExecutionOutcome::Succeeded(artifacts) => {
            assert_eq!(artifacts[0].id, "artifact-apply-000");
            assert_eq!(artifacts[0].summary, "parent PatchEngine applied 1 operation(s)");
            assert_eq!(artifacts[0].evidence_refs, vec!["file:src/a.rs".to_string()]);
        }
        other => panic!("unexpected {other:?}"),
    }
    let failure = WorkerPatchApplyFailure { worker: "w1".into(), operation: PatchOperationKind::Replace, path: None, message: "stale".into() };
    let failed = applied(WorkerMergeStatus::Approved, vec![failure]).apply_report;
    assert_eq!(apply_node_outcome("apply-000", &failed), NodeExecutionOutcome::Failed("parent PatchEngine reported 1 apply failure(s)".into()));
}

#[test]
fn review_stage_keeps_session_and_batch() {
    let assignments = vec![WorkerAssignment {
        worker_name: "w1".into(),
        task_description: "edit".into(),
        owned_files: vec!["src/a.rs".into()],
        profile: AgentProfile::new("w1", "test", vec![], AgentBudget::default()),
    }];
    let proposals = vec![decision("w1", &["src/a.rs"], true).proposal];
    let reviewed = review_worker_patch_pipeline_stage(Some("session".into()), &assignments, proposals, execution());
    assert_eq!(reviewed.session_id.as_deref(), Some("session"));
    assert_eq!(reviewed.merge_review.decisions.len(), 1);
    assert_eq!(reviewed.merge_review.status, WorkerMergeStatus::Approved);
}
