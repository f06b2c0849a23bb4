//! Running claimed workers: what a sequential hand-off tells the next
//! worker, and how the batch is judged once the workers are done.
use vstd::prelude::*;
use crate::agent_loop::outcome::RunOutcome;
use crate::attention::Report;
use crate::execution_graph::types::strs_view;
use crate::text::{join2, join3};
use super::claims::failures_view;
use super::outcomes::{batch_status, classify_worker_reports, report_outcomes};
use super::split::{join_lines, lines_joined};
use super::types::{
    Conflict, OwnershipViolation, WorkerExecutionReport, WorkerExecutionStatus, WorkerFileClaimReleaseFailure,
    WorkerFileClaimReport,
};

verus! {

/// The line a finished worker hands to the next one.
pub fn handoff_line(report: &Report) -> (s: String)
    ensures
        s@ == "- "@ + report.worker@ + "："@ + report.summary@,
{
    join3("- ", report.worker.as_str(), "：").concat(report.summary.as_str())
}

pub open spec fn handoff_brief_of(task: Seq<char>, summaries: Seq<Seq<char>>) -> Seq<char> {
    if summaries.len() == 0 {
        task
    } else {
        task + "\n\n前序员工的已提交摘要（仅作交接上下文，必须独立核对）：\n"@ + lines_joined(summaries)
    }
}

/// A worker's task in a sequential hand-off: the earlier workers'
/// summaries follow it as context to check, once there are any.
pub fn handoff_brief(task: &str, summaries: &Vec<String>) -> (s: String)
    ensures
        s@ == handoff_brief_of(task@, strs_view(summaries@)),
{
    if summaries.len() == 0 {
        return task.to_owned();
    }
    let head = join2(task, "\n\n前序员工的已提交摘要（仅作交接上下文，必须独立核对）：\n");
    let tail = join_lines(summaries);
    join2(head.as_str(), tail.as_str())
}

/// The batch error after a worker's run could not be executed.
pub fn worker_run_error(worker: &str, error: &str) -> (s: String)
    ensures
        s@ == "worker '"@ + worker@ + "' failed: "@ + error@,
{
    join3("worker '", worker, "' failed: ").concat(error)
}

/// Records what one worker's run returned and says whether the batch goes
/// on. A report is kept; in a sequential hand-off its line is handed to the
/// later workers. A run that could not be executed leaves no report: the
/// batch keeps the first such error only, and a sequential batch stops at
/// it while a concurrent one goes through every result.
pub fn record_worker_result(
    reports: &mut Vec<Report>,
    handoff: &mut Vec<String>,
    execution_error: &mut Option<String>,
    worker: &str,
    result: Result<Report, String>,
    sequential: bool,
) -> (go_on: bool)
    ensures
        match result {
            Ok(r) => {
                &&& go_on
                &&& final(reports)@ == old(reports)@.push(r)
                &&& final(execution_error)@ == old(execution_error)@
                &&& sequential ==> strs_view(final(handoff)@) == strs_view(old(handoff)@).push(
                    "- "@ + r.worker@ + "："@ + r.summary@,
                )
                &&& !sequential ==> final(handoff)@ == old(handoff)@
            },
            Err(e) => {
                &&& go_on == !sequential
                &&& final(reports)@ == old(reports)@
                &&& final(handoff)@ == old(handoff)@
                &&& old(execution_error)@ is None ==> (*final(execution_error) matches Some(m) && m@ == "worker '"@
                    + worker@ + "' failed: "@ + e@)
                &&& old(execution_error)@ is Some ==> final(execution_error)@ == old(execution_error)@
            },
        },
{
    match result {
        Ok(report) => {
            if sequential {
                let line = handoff_line(&report);
                handoff.push(line);
                proof {
                    assert(strs_view(handoff@) =~= strs_view(old(handoff)@).push(line@));
                }
            }
            reports.push(report);
            true
        },
        Err(error) => {
            if execution_error.is_none() {
                *execution_error = Some(worker_run_error(worker, error.as_str()));
            }
            !sequential
        },
    }
}

/// Claiming stops the batch before any worker starts when owned files
/// overlap or another agent holds one of them.
pub open spec fn claims_block(c: WorkerFileClaimReport) -> bool {
    c.local_overlaps@.len() > 0 || c.conflicts@.len() > 0
}

fn copy_failures(v: &Vec<WorkerFileClaimReleaseFailure>) -> (r: Vec<WorkerFileClaimReleaseFailure>)
    ensures
        failures_view(r@) == failures_view(v@),
{
    let mut out: Vec<WorkerFileClaimReleaseFailure> = Vec::new();
    let mut i: usize = 0;
    while i < v.len()
        invariant
            i <= v.len(),
            failures_view(out@) == failures_view(v@).subrange(0, i as int),
        decreases v.len() - i,
    {
        let f = WorkerFileClaimReleaseFailure {
            worker: v[i].worker.clone(),
            file: v[i].file.clone(),
            message: v[i].message.clone(),
        };
        let ghost prev = out@;
        out.push(f);
        proof {
            assert(out@ =~= prev.push(f));
            assert(failures_view(out@) =~= failures_view(prev).push(super::claims::failure_view(f)));
            assert(failures_view(out@) =~= failures_view(v@).subrange(0, i + 1));
        }
        i += 1;
    }
    proof {
        assert(failures_view(v@).subrange(0, v@.len() as int) =~= failures_view(v@));
    }
    out
}

/// The batch report when claiming blocked it: no worker ran, and the
/// claims that could not be given back are carried over.
pub fn blocked_before_execution(claim_report: WorkerFileClaimReport) -> (r: WorkerExecutionReport)
    ensures
        r.status == WorkerExecutionStatus::BlockedBeforeExecution,
        r.reports@.len() == 0,
        r.claim_report == claim_report,
        failures_view(r.release_failures@) == failures_view(claim_report.release_failures@),
        r.conflicts@.len() == 0,
        r.ownership_violations@.len() == 0,
        r.execution_error is None,
{
    let release_failures = copy_failures(&claim_report.release_failures);
    WorkerExecutionReport {
        status: WorkerExecutionStatus::BlockedBeforeExecution,
        reports: Vec::new(),
        claim_report,
        conflicts: Vec::new(),
        ownership_violations: Vec::new(),
        release_failures,
        execution_error: None,
    }
}

/// A failed batch stays failed; otherwise any conflict, ownership
/// violation or unreleased claim turns it into a completion with findings.
pub open spec fn execution_status_of(outcomes: Seq<RunOutcome>, errored: bool, findings: bool) -> WorkerExecutionStatus {
    let base = batch_status(outcomes, errored);
    if base == WorkerExecutionStatus::WorkerFailed {
        base
    } else if findings {
        WorkerExecutionStatus::CompletedWithReviewFindings
    } else {
        base
    }
}

/// The batch report after the workers ran, or after claiming blocked
/// them: the release failures of claiming and of giving claims back
/// afterwards, and the status they and the reports decide.
pub fn finish_execution(
    claim_report: WorkerFileClaimReport,
    reports: Vec<Report>,
    execution_error: Option<String>,
    conflicts: Vec<Conflict>,
    ownership_violations: Vec<OwnershipViolation>,
    late_release_failures: Vec<WorkerFileClaimReleaseFailure>,
) -> (r: WorkerExecutionReport)
    ensures
        failures_view(r.release_failures@) == failures_view(claim_report.release_failures@) + failures_view(
            late_release_failures@,
        ),
        r.status == if claims_block(claim_report) {
            WorkerExecutionStatus::BlockedBeforeExecution
        } else {
            execution_status_of(
                report_outcomes(reports@),
                execution_error is Some,
                conflicts@.len() > 0 || ownership_violations@.len() > 0 || r.release_failures@.len() > 0,
            )
        },
        r.reports@ == reports@,
        r.claim_report == claim_report,
        r.conflicts@ == conflicts@,
        r.ownership_violations@ == ownership_violations@,
        r.execution_error == execution_error,
{
    let mut release_failures = copy_failures(&claim_report.release_failures);
    let mut late = late_release_failures;
    let ghost a = failures_view(release_failures@);
    let ghost b = failures_view(late@);
    release_failures.append(&mut late);
    proof {
        assert(failures_view(release_failures@) =~= a + b);
    }
    let base = match &execution_error {
        Some(e) => classify_worker_reports(&reports, Some(e.as_str())),
        None => classify_worker_reports(&reports, None),
    };
    let blocked = claim_report.local_overlaps.len() > 0 || claim_report.conflicts.len() > 0;
    let status = if blocked {
        WorkerExecutionStatus::BlockedBeforeExecution
    } else if base == WorkerExecutionStatus::WorkerFailed {
        base
    } else if conflicts.len() > 0 || ownership_violations.len() > 0 || release_failures.len() > 0 {
        WorkerExecutionStatus::CompletedWithReviewFindings
    } else {
        base
    };
    WorkerExecutionReport {
        status,
        reports,
        claim_report,
        conflicts,
        ownership_violations,
        release_failures,
        execution_error,
    }
}

/// A worker batch with a conflict, an ownership violation or a claim that
/// could not be given back is never reported as a plain completion or
/// submission, and a batch with an execution error is always failed.
pub proof fn law_findings_never_pass_as_complete(outcomes: Seq<RunOutcome>, errored: bool, findings: bool)
    ensures
        findings ==> execution_status_of(outcomes, errored, findings) != WorkerExecutionStatus::Completed
            && execution_status_of(outcomes, errored, findings) != WorkerExecutionStatus::Submitted,
        errored ==> execution_status_of(outcomes, errored, findings) == WorkerExecutionStatus::WorkerFailed,
{
}

} // verus!
