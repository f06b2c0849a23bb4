use zhongshu_core::agent_loop::budget::AgentBudget;
use zhongshu_core::orchestrator::conflicts::detect_conflicts;
use zhongshu_core::orchestrator::ownership::{detect_assignment_file_overlaps, detect_ownership_violations};
use zhongshu_core::orchestrator::review::review_worker_patch_proposals;
use zhongshu_core::orchestrator::split::split_task;
use zhongshu_core::orchestrator::types::{
    Conflict, FileEdit, WorkerAssignment, WorkerExecutionReport, WorkerExecutionStatus,
    WorkerFileClaimReport, WorkerMergeStatus, WorkerPatchProposal,
};
use zhongshu_core::patch::{PatchOperation, ReplaceRequest};
use zhongshu_core::profile::AgentProfile;

fn dummy_profile(name: &str) -> AgentProfile {
    AgentProfile::new(name, "test", vec![], AgentBudget::default())
}

fn owned_assignment(files: Vec<&str>) -> WorkerAssignment {
    WorkerAssignment {
        worker_name: "w1".into(),
        task_description: "edit owned".into(),
        owned_files: files.into_iter().map(String::from).collect(),
        profile: dummy_profile("w1"),
    }
}

fn completed_execution() -> WorkerExecutionReport {
    WorkerExecutionReport {
        status: WorkerExecutionStatus::Completed,
        reports: Vec::new(),
        claim_report: WorkerFileClaimReport::new(),
        conflicts: Vec::new(),
        ownership_violations: Vec::new(),
        release_failures: Vec::new(),
        execution_error: None,
    }
}

fn edit(worker: &str, path: &str) -> FileEdit {
    FileEdit { worker: worker.into(), path: path.into() }
}

fn files(names: &[&str]) -> Vec<String> {
    names.iter().map(|n| n.to_string()).collect()
}

#[test]
fn split_task_empty_profiles_returns_empty() {
    let result = split_task("test", &[], &files(&["a.rs"]));
    assert!(result.is_empty());
}

#[test]
fn split_task_assigns_all_files() {
    let profiles = vec![dummy_profile("w1"), dummy_profile("w2")];
    let assignments = split_task("refactor", &profiles, &files(&["a.rs", "b.rs", "c.rs", "d.rs"]));

    assert_eq!(assignments.len(), 2);
    let total: usize = assignments.iter().map(|a| a.owned_files.len()).sum();
    assert_eq!(total, 4);
    let all: std::collections::HashSet<&String> = assignments.iter().flat_map(|a| &a.owned_files).collect();
    for name in ["a.rs", "b.rs", "c.rs", "d.rs"] {
        assert!(all.contains(&name.to_string()));
    }
    assert_eq!(assignments[0].owned_files, files(&["a.rs", "c.rs"]));
    assert_eq!(assignments[0].task_description, "refactor\n\n你负责的文件:\na.rs\nc.rs");
}

#[test]
fn split_task_single_profile_gets_all() {
    let profiles = vec![dummy_profile("w1")];
    let assignments = split_task("test", &profiles, &files(&["a.rs", "b.rs"]));
    assert_eq!(assignments.len(), 1);
    assert_eq!(assignments[0].owned_files.len(), 2);
}

#[test]
fn split_task_empty_index_creates_fallback() {
    let profiles = vec![dummy_profile("w1")];
    let assignments = split_task("test", &profiles, &Vec::new());
    assert_eq!(assignments.len(), 1);
    assert!(assignments[0].owned_files.is_empty());
    assert_eq!(assignments[0].task_description, "test");
}

#[test]
fn split_task_names_the_group_of_a_worker_without_files() {
    let profiles = vec![dummy_profile("w1"), dummy_profile("w2")];
    let assignments = split_task("t", &profiles, &files(&["a.rs"]));
    assert_eq!(assignments[1].task_description, "t\n\n负责的文件：第 1 组");
}

#[test]
fn ownership_allows_edits_inside_owned_files() {
    let violations = detect_ownership_violations(&vec![owned_assignment(vec!["src/a.rs"])], &vec![edit("w1", "src/a.rs")]);
    assert!(violations.is_empty());
}

#[test]
fn ownership_detects_edit_outside_owned_files() {
    let violations = detect_ownership_violations(&vec![owned_assignment(vec!["src/a.rs"])], &vec![edit("w1", "src/b.rs")]);
    assert_eq!(violations.len(), 1);
    assert_eq!(violations[0].worker, "w1");
    assert_eq!(violations[0].file, "src/b.rs");
    assert_eq!(violations[0].reason, "file is outside worker ownership");
}

#[test]
fn ownership_allows_unscoped_fallback_assignment() {
    let violations = detect_ownership_violations(&vec![owned_assignment(vec![])], &vec![edit("w1", "src/anything.rs")]);
    assert!(violations.is_empty());
}

#[test]
fn ownership_detects_unknown_worker_edits() {
    let violations = detect_ownership_violations(&Vec::new(), &vec![edit("unknown", "src/a.rs")]);
    assert_eq!(violations.len(), 1);
    assert_eq!(violations[0].reason, "worker has no assignment");
}

#[test]
fn ownership_of_a_directory_covers_files_below_it() {
    let violations = detect_ownership_violations(
        &vec![owned_assignment(vec!["src"])],
        &vec![edit("w1", "./src/deep/a.rs"), edit("w1", "srcx/a.rs")],
    );
    assert_eq!(violations.len(), 1);
    assert_eq!(violations[0].file, "srcx/a.rs");
    assert_eq!(violations[0].owned_files, vec!["src".to_string()]);
}

fn replace(path: &str) -> PatchOperation {
    PatchOperation::Replace(ReplaceRequest::once(path, "old", "new"))
}

#[test]
fn merge_review_approves_owned_patch_proposal() {
    let proposal = WorkerPatchProposal::new("w1", files(&["src/a.rs"]), "update owned file")
        .with_verification_commands(vec!["cargo test -p zhongshu-core".into()])
        .with_operations(vec![replace("src/a.rs")]);

    let review = review_worker_patch_proposals(&vec![owned_assignment(vec!["src/a.rs"])], &completed_execution(), vec![proposal]);

    assert_eq!(review.status, WorkerMergeStatus::Approved);
    assert!(review.blockers.is_empty());
    assert_eq!(review.decisions.len(), 1);
    assert!(review.decisions[0].approved);
}

#[test]
fn merge_review_requires_parent_review_for_out_of_scope_patch() {
    let proposal = WorkerPatchProposal::new("w1", files(&["src/b.rs"]), "edit other file")
        .with_operations(vec![replace("src/b.rs")]);

    let review = review_worker_patch_proposals(&vec![owned_assignment(vec!["src/a.rs"])], &completed_execution(), vec![proposal]);

    assert_eq!(review.status, WorkerMergeStatus::RequiresParentReview);
    assert_eq!(review.decisions.len(), 1);
    assert!(!review.decisions[0].approved);
    assert!(review.decisions[0].reasons.iter().any(|reason| reason.contains("outside worker ownership")));
}

#[test]
fn merge_review_blocks_when_worker_execution_conflicted() {
    let mut execution = completed_execution();
    execution.status = WorkerExecutionStatus::CompletedWithReviewFindings;
    execution.conflicts = vec![Conflict { file: "src/a.rs".into(), workers: vec!["w1".into(), "w2".into()] }];
    let proposal = WorkerPatchProposal::new("w1", files(&["src/a.rs"]), "edit owned file")
        .with_operations(vec![replace("src/a.rs")]);

    let review = review_worker_patch_proposals(&vec![owned_assignment(vec!["src/a.rs"])], &execution, vec![proposal]);

    assert_eq!(review.status, WorkerMergeStatus::Blocked);
    assert!(review.has_blockers());
    assert!(review.blockers.iter().any(|blocker| blocker.contains("worker edit conflict")));
    assert_eq!(review.blockers, vec!["worker edit conflict on src/a.rs between w1, w2".to_string()]);
}

#[test]
fn merge_review_requires_parent_review_without_patch_operations() {
    let proposal = WorkerPatchProposal::new("w1", files(&["src/a.rs"]), "summary only");

    let review = review_worker_patch_proposals(&vec![owned_assignment(vec!["src/a.rs"])], &completed_execution(), vec![proposal]);

    assert_eq!(review.status, WorkerMergeStatus::RequiresParentReview);
    assert!(!review.decisions[0].approved);
    assert!(review.decisions[0].reasons.iter().any(|reason| reason.contains("patch operations")));
}

#[test]
fn detects_assignment_file_overlaps_before_remote_claims() {
    let mut w2 = owned_assignment(vec!["src/a.rs"]);
    w2.worker_name = "w2".into();
    let assignments = vec![owned_assignment(vec!["src"]), w2];

    let overlaps = detect_assignment_file_overlaps(&assignments);

    assert_eq!(overlaps.len(), 1);
    assert_eq!(overlaps[0].file, "src");
    assert_eq!(overlaps[0].workers, vec!["w1", "w2"]);
}

#[test]
fn disjoint_and_unscoped_assignments_do_not_overlap() {
    let mut w2 = owned_assignment(vec!["docs/a.md"]);
    w2.worker_name = "w2".into();
    let mut w3 = owned_assignment(vec![]);
    w3.worker_name = "w3".into();
    let assignments = vec![owned_assignment(vec!["src/a.rs"]), w2, w3];

    assert!(detect_assignment_file_overlaps(&assignments).is_empty());
}

#[test]
fn overlaps_are_grouped_by_path_with_sorted_workers() {
    let mut a = owned_assignment(vec!["x.txt", "lib"]);
    a.worker_name = "zed".into();
    let mut b = owned_assignment(vec!["./x.txt"]);
    b.worker_name = "amy".into();
    let mut c = owned_assignment(vec!["lib/m.rs", "x.txt"]);
    c.worker_name = "bob".into();

    let overlaps = detect_assignment_file_overlaps(&vec![a, b, c]);

    assert_eq!(overlaps.len(), 2);
    assert_eq!(overlaps[0].file, "lib");
    assert_eq!(overlaps[0].workers, vec!["bob", "zed"]);
    assert_eq!(overlaps[1].file, "x.txt");
    assert_eq!(overlaps[1].workers, vec!["amy", "bob", "zed"]);
}

#[test]
fn detect_conflicts_no_overlap() {
    let conflicts = detect_conflicts(&vec![edit("w1", "a.rs"), edit("w2", "b.rs")]);
    assert!(conflicts.is_empty());
}

#[test]
fn detect_conflicts_detects_overlap() {
    let conflicts = detect_conflicts(&vec![edit("w1", "shared.rs"), edit("w2", "shared.rs")]);
    assert_eq!(conflicts.len(), 1);
    assert_eq!(conflicts[0].file, "shared.rs");
    assert_eq!(conflicts[0].workers, vec!["w1", "w2"]);
}

#[test]
fn conflicts_compare_paths_by_component_not_text() {
    let conflicts = detect_conflicts(&vec![
        edit("w2", "src//x.rs"),
        edit("w1", "src/x.rs/"),
        edit("w1", "src/x.rs"),
        edit("w3", "./src/x.rs"),
        edit("w3", "a-b"),
        edit("w1", "a/b"),
        edit("w2", "a/b"),
    ]);
    assert_eq!(conflicts.len(), 2);
    assert_eq!(conflicts[0].file, "a/b");
    assert_eq!(conflicts[0].workers, vec!["w1", "w2"]);
    assert_eq!(conflicts[1].file, "src//x.rs");
    assert_eq!(conflicts[1].workers, vec!["w1", "w2"]);
}
