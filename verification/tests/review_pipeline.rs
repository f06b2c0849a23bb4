use zhongshu_core::agent_loop::outcome::RunOutcome;
use zhongshu_core::attention::{AttentionLevel, Report};
use zhongshu_core::orchestrator::review_pipeline::{
    acceptance_reasons, analyst_brief, employee_failed_reason, lead_review, review_terminal_label,
    verifier_brief,
};
use zhongshu_core::orchestrator::types::{ReviewPipelineRecovery, WorkerExecutionStatus};

fn report(worker: &str, outcome: RunOutcome) -> Report {
    Report {
        task_id: format!("worker-{worker}"),
        worker: worker.into(),
        run_id: "run".into(),
        summary: "summary".into(),
        findings: "findings".into(),
        success: matches!(outcome, RunOutcome::CompletedVerified | RunOutcome::CompletedUnverified),
        outcome,
        attention: AttentionLevel::Digest,
    }
}

#[test]
fn unverified_verifier_keeps_review_submitted() {
    let review = lead_review(
        report("analyst", RunOutcome::CompletedUnverified),
        report("verifier", RunOutcome::CompletedUnverified),
    );
    assert_eq!(review.status, WorkerExecutionStatus::Submitted);
    assert_eq!(review.recovery, ReviewPipelineRecovery::NotNeeded);
    assert!(review.acceptance_reasons.iter().any(|reason| reason.contains("fresh passing evidence")));
    assert_eq!(review.analyst.worker, "analyst");
    assert_eq!(review.verifier.worker, "verifier");
}

#[test]
fn verifier_recovers_failed_analyst_without_hiding_it() {
    let review = lead_review(
        report("analyst", RunOutcome::Failed),
        report("verifier", RunOutcome::CompletedVerified),
    );
    assert_eq!(review.status, WorkerExecutionStatus::WorkerFailed);
    assert_eq!(review.recovery, ReviewPipelineRecovery::Succeeded);
    assert_eq!(review.acceptance_reasons, vec!["analysis worker ended with failed".to_string()]);
}

#[test]
fn verified_review_is_accepted_without_reasons() {
    let review = lead_review(
        report("analyst", RunOutcome::CompletedVerified),
        report("verifier", RunOutcome::CompletedVerified),
    );
    assert_eq!(review.status, WorkerExecutionStatus::Completed);
    assert!(review.acceptance_reasons.is_empty());
    assert_eq!(review_terminal_label(review.status), "accepted");
}

#[test]
fn blocked_verifier_adds_gate_reason() {
    let reasons = acceptance_reasons(
        &report("analyst", RunOutcome::BudgetExhausted),
        &report("verifier", RunOutcome::Blocked),
    );
    assert_eq!(
        reasons,
        vec![
            "analysis worker ended with blocked".to_string(),
            "verification worker did not produce fresh passing evidence".to_string(),
            "verification worker stopped at its completion gate; Lead kept the review pending".to_string(),
        ]
    );
    assert_eq!(review_terminal_label(WorkerExecutionStatus::CompletedWithReviewFindings), "review_findings");
}

#[test]
fn briefs_carry_goal_and_findings() {
    let analyst = analyst_brief("review current changes");
    assert!(analyst.starts_with("作为分析员工审查以下任务"));
    assert!(analyst.ends_with("读取必要证据后立即提交分析报告：\n\nreview current changes"));
    let verifier = verifier_brief("review current changes", "no risks found");
    assert!(verifier.ends_with("原始任务：\nreview current changes\n\n分析员工报告：\nno risks found"));
    assert_eq!(employee_failed_reason("analyst"), "employee 'analyst' failed");
}
