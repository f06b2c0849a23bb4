//! The analyst → verifier review: what each employee is asked to do and how
//! the Lead judges the two reports.
use vstd::prelude::*;
use crate::agent_loop::outcome::RunOutcome;
use crate::attention::Report;
use crate::execution_graph::types::strs_view;
use crate::text::{join2, join3};
use super::outcomes::{review_outcome, review_pipeline_outcome, status_word, submitted};
use super::types::{LeadReviewReport, WorkerExecutionStatus};

verus! {

pub open spec fn analyst_brief_of(goal: Seq<char>) -> Seq<char> {
    "作为分析员工审查以下任务，只收集事实、定位风险并提交报告，不修改文件。不要运行测试或其他验证；即使原始任务要求验证，也由后续验证员工负责。读取必要证据后立即提交分析报告：\n\n"@
        + goal
}

/// The analyst's task: gather facts and locate risks, leaving every
/// verification to the verifier.
pub fn analyst_brief(goal: &str) -> (s: String)
    ensures
        s@ == analyst_brief_of(goal@),
{
    join2(
        "作为分析员工审查以下任务，只收集事实、定位风险并提交报告，不修改文件。不要运行测试或其他验证；即使原始任务要求验证，也由后续验证员工负责。读取必要证据后立即提交分析报告：\n\n",
        goal,
    )
}

pub open spec fn verifier_brief_of(goal: Seq<char>, findings: Seq<char>) -> Seq<char> {
    "作为验证员工，独立复核分析报告并运行与任务直接相关的验证。不得修改文件；若无法获得新鲜验证证据，必须明确说明未验证。\n\n原始任务：\n"@
        + goal + "\n\n分析员工报告：\n"@ + findings
}

/// The verifier's task: the original goal and the analyst's findings,
/// with fresh verification evidence required.
pub fn verifier_brief(goal: &str, analyst_findings: &str) -> (s: String)
    ensures
        s@ == verifier_brief_of(goal@, analyst_findings@),
{
    let head = join3(
        "作为验证员工，独立复核分析报告并运行与任务直接相关的验证。不得修改文件；若无法获得新鲜验证证据，必须明确说明未验证。\n\n原始任务：\n",
        goal,
        "\n\n分析员工报告：\n",
    );
    join2(head.as_str(), analyst_findings)
}

/// Why the Lead does not accept the review outright: an analyst that did
/// not submit, a verifier without fresh passing evidence, and a verifier
/// that stopped at its completion gate.
pub open spec fn acceptance_reasons_of(analyst: RunOutcome, verifier: RunOutcome) -> Seq<Seq<char>> {
    let first: Seq<Seq<char>> = if submitted(analyst) {
        Seq::empty()
    } else {
        seq!["analysis worker ended with "@ + status_word(analyst)]
    };
    let second: Seq<Seq<char>> = if verifier is CompletedVerified {
        Seq::empty()
    } else if verifier is Blocked {
        seq![
            "verification worker did not produce fresh passing evidence"@,
            "verification worker stopped at its completion gate; Lead kept the review pending"@,
        ]
    } else {
        seq!["verification worker did not produce fresh passing evidence"@]
    };
    first + second
}

pub fn acceptance_reasons(analyst: &Report, verifier: &Report) -> (r: Vec<String>)
    ensures
        strs_view(r@) == acceptance_reasons_of(analyst.outcome, verifier.outcome),
{
    let mut reasons: Vec<String> = Vec::new();
    let analyst_submitted = match analyst.outcome {
        RunOutcome::CompletedVerified | RunOutcome::CompletedUnverified => true,
        _ => false,
    };
    if !analyst_submitted {
        reasons.push(join2("analysis worker ended with ", super::outcomes::report_status(analyst)));
    }
    if verifier.outcome != RunOutcome::CompletedVerified {
        reasons.push("verification worker did not produce fresh passing evidence".to_owned());
        if verifier.outcome == RunOutcome::Blocked {
            reasons.push(
                "verification worker stopped at its completion gate; Lead kept the review pending".to_owned(),
            );
        }
    }
    proof {
        assert(strs_view(reasons@) =~= acceptance_reasons_of(analyst.outcome, verifier.outcome));
    }
    reasons
}

/// The Lead's judgement of the two reports.
pub fn lead_review(analyst: Report, verifier: Report) -> (r: LeadReviewReport)
    ensures
        (r.status, r.recovery) == review_outcome(analyst.outcome, verifier.outcome),
        strs_view(r.acceptance_reasons@) == acceptance_reasons_of(analyst.outcome, verifier.outcome),
        r.analyst == analyst,
        r.verifier == verifier,
{
    let reasons = acceptance_reasons(&analyst, &verifier);
    let (status, recovery) = review_pipeline_outcome(analyst.outcome, verifier.outcome);
    LeadReviewReport { status, recovery, analyst, verifier, acceptance_reasons: reasons }
}

/// The status word the finished review is announced with.
pub open spec fn review_terminal_word(s: WorkerExecutionStatus) -> Seq<char> {
    match s {
        WorkerExecutionStatus::Completed => "accepted"@,
        WorkerExecutionStatus::Submitted => "submitted"@,
        WorkerExecutionStatus::WorkerFailed => "worker_failed"@,
        WorkerExecutionStatus::BlockedBeforeExecution => "blocked"@,
        WorkerExecutionStatus::CompletedWithReviewFindings => "review_findings"@,
    }
}

pub fn review_terminal_label(s: WorkerExecutionStatus) -> (w: &'static str)
    ensures
        w@ == review_terminal_word(s),
{
    match s {
        WorkerExecutionStatus::Completed => "accepted",
        WorkerExecutionStatus::Submitted => "submitted",
        WorkerExecutionStatus::WorkerFailed => "worker_failed",
        WorkerExecutionStatus::BlockedBeforeExecution => "blocked",
        WorkerExecutionStatus::CompletedWithReviewFindings => "review_findings",
    }
}

/// The reason announced when an employee's run could not be executed.
pub fn employee_failed_reason(worker: &str) -> (s: String)
    ensures
        s@ == "employee '"@ + worker@ + "' failed"@,
{
    join3("employee '", worker, "' failed")
}

} // verus!
