use zhongshu_core::agent_loop::outcome::RunOutcome;
use zhongshu_core::attention::{AttentionLevel, Report};
use zhongshu_core::orchestrator::execution::{
    blocked_before_execution, finish_execution, handoff_brief, handoff_line, record_worker_result, worker_run_error,
};
use zhongshu_core::orchestrator::types::{
    AssignmentFileOverlap, Conflict, WorkerExecutionStatus, WorkerFileClaimReleaseFailure, WorkerFileClaimReport,
};

fn report(worker: &str, outcome: RunOutcome) -> Report {
    Report {
        task_id: format!("worker-{worker}"),
        worker: worker.into(),
        run_id: "run".into(),
        summary: format!("{worker} done"),
        findings: String::new(),
        success: true,
        outcome,
        attention: AttentionLevel::Digest,
    }
}

fn failure(file: &str) -> WorkerFileClaimReleaseFailure {
    WorkerFileClaimReleaseFailure { worker: "w1".into(), file: file.into(), message: "missing claim".into() }
}

#[test]
fn handoff_carries_earlier_summaries() {
    let summaries = vec![handoff_line(&report("w1", RunOutcome::CompletedVerified)), handoff_line(&report("w2", RunOutcome::CompletedVerified))];
    assert_eq!(summaries[0], "- w1：w1 done");
    assert_eq!(
        handoff_brief("inspect", &summaries),
        "inspect\n\n前序员工的已提交摘要（仅作交接上下文，必须独立核对）：\n- w1：w1 done\n- w2：w2 done"
    );
    assert_eq!(handoff_brief("inspect", &Vec::new()), "inspect");
    assert_eq!(worker_run_error("w3", "timeout"), "worker 'w3' failed: timeout");
}

#[test]
fn blocked_claims_run_no_worker() {
    let mut claims = WorkerFileClaimReport::new();
    claims.local_overlaps.push(AssignmentFileOverlap { file: "src".into(), workers: vec!["w1".into(), "w2".into()] });
    claims.release_failures.push(failure("src/a.rs"));
    let batch = blocked_before_execution(claims);
    assert_eq!(batch.status, WorkerExecutionStatus::BlockedBeforeExecution);
    assert!(batch.reports.is_empty());
    assert_eq!(batch.release_failures, vec![failure("src/a.rs")]);
    assert_eq!(batch.claim_report.local_overlaps.len(), 1);
}

#[test]
fn clean_batch_keeps_its_status() {
    let batch = finish_execution(
        WorkerFileClaimReport::new(),
        vec![report("w1", RunOutcome::CompletedVerified), report("w2", RunOutcome::CompletedUnverified)],
        None,
        Vec::new(),
        Vec::new(),
        Vec::new(),
    );
    assert_eq!(batch.status, WorkerExecutionStatus::Submitted);
}

#[test]
fn findings_turn_completion_into_review_findings() {
    let conflict = Conflict { file: "src/a.rs".into(), workers: vec!["w1".into(), "w2".into()] };
    let batch = finish_execution(
        WorkerFileClaimReport::new(),
        vec![report("w1", RunOutcome::CompletedVerified)],
        None,
        vec![conflict],
        Vec::new(),
        Vec::new(),
    );
    assert_eq!(batch.status, WorkerExecutionStatus::CompletedWithReviewFindings);

    let mut claims = WorkerFileClaimReport::new();
    claims.release_failures.push(failure("src/a.rs"));
    let batch = finish_execution(
        claims,
        vec![report("w1", RunOutcome::CompletedVerified)],
        None,
        Vec::new(),
        Vec::new(),
        vec![failure("src/b.rs")],
    );
    assert_eq!(batch.status, WorkerExecutionStatus::CompletedWithReviewFindings);
    assert_eq!(batch.release_failures, vec![failure("src/a.rs"), failure("src/b.rs")]);
}

#[test]
fn failed_batch_stays_failed_despite_findings() {
    let batch = finish_execution(
        WorkerFileClaimReport::new(),
        vec![report("w1", RunOutcome::CompletedVerified)],
        Some("worker 'w2' failed: timeout".into()),
        Vec::new(),
        Vec::new(),
        vec![failure("src/b.rs")],
    );
    assert_eq!(batch.status, WorkerExecutionStatus::WorkerFailed);
    assert_eq!(batch.execution_error.as_deref(), Some("worker 'w2' failed: timeout"));
}

#[test]
fn sequential_batch_stops_at_first_unexecuted_worker() {
    let mut reports = Vec::new();
    let mut handoff = Vec::new();
    let mut error = None;
    let go_on = record_worker_result(
        &mut reports,
        &mut handoff,
        &mut error,
        "w1",
        Ok(report("w1", RunOutcome::CompletedVerified)),
        true,
    );
    assert!(go_on);
    assert_eq!(handoff, vec!["- w1：w1 done".to_string()]);
    let go_on = record_worker_result(&mut reports, &mut handoff, &mut error, "w2", Err("timeout".into()), true);
    assert!(!go_on);
    assert_eq!(reports.len(), 1);
    assert_eq!(error, Some("worker 'w2' failed: timeout".to_string()));
}

#[test]
fn concurrent_batch_keeps_first_error_and_every_report() {
    let mut reports = Vec::new();
    let mut handoff = Vec::new();
    let mut error = None;
    assert!(record_worker_result(&mut reports, &mut handoff, &mut error, "w1", Err("first".into()), false));
    assert!(record_worker_result(
        &mut reports,
        &mut handoff,
        &mut error,
        "w2",
        Ok(report("w2", RunOutcome::CompletedVerified)),
        false,
    ));
    assert!(record_worker_result(&mut reports, &mut handoff, &mut error, "w3", Err("second".into()), false));
    assert_eq!(reports.len(), 1);
    assert_eq!(reports[0].worker, "w2");
    assert!(handoff.is_empty());
    assert_eq!(error, Some("worker 'w1' failed: first".to_string()));
}
