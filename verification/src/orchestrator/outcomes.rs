//! How worker results are read: pipeline status, node outcomes and what the
//! manager is told.
use vstd::prelude::*;
use crate::agent_loop::outcome::RunOutcome;
use super::types::WorkerMergeStatus;
use crate::attention::Report;
use crate::execution_graph::types::{
    strs_view, ExecutionArtifact, ExecutionArtifactView, NodeExecutionOutcome,
};
use crate::execution_graph::spec::artifacts_view;
use crate::text::{decimal, decimal_string, join2, join3};
use super::types::{
    ManagerAcceptanceStatus, ReviewPipelineRecovery, WorkerExecutionStatus,
    WorkerFileClaimReleaseFailure, WorkerPatchApplyFailure, WorkerPatchDecision,
    WorkerPatchPipelineReport, WorkerPatchPipelineStatus,
};

verus! {

/// A run that handed back a result, verified or not.
pub open spec fn submitted(o: RunOutcome) -> bool {
    o is CompletedVerified || o is CompletedUnverified
}

/// The status and recovery of the analyst → verifier pipeline. The verifier
/// can recover a failed analyst, but the failure stays visible in the status.
pub open spec fn review_outcome(analyst: RunOutcome, verifier: RunOutcome) -> (
    WorkerExecutionStatus,
    ReviewPipelineRecovery,
) {
    let verified = verifier is CompletedVerified;
    let verifier_failed = verifier is Failed || verifier is BudgetExhausted
        || verifier is Interrupted;
    let recovery = if submitted(analyst) {
        ReviewPipelineRecovery::NotNeeded
    } else if verified {
        ReviewPipelineRecovery::Succeeded
    } else {
        ReviewPipelineRecovery::Failed
    };
    let status = if !submitted(analyst) || verifier_failed {
        WorkerExecutionStatus::WorkerFailed
    } else if verified {
        WorkerExecutionStatus::Completed
    } else {
        WorkerExecutionStatus::Submitted
    };
    (status, recovery)
}

pub fn review_pipeline_outcome(analyst: RunOutcome, verifier: RunOutcome) -> (r: (
    WorkerExecutionStatus,
    ReviewPipelineRecovery,
))
    ensures
        r == review_outcome(analyst, verifier),
{
    let analyst_submitted = match analyst {
        RunOutcome::CompletedVerified | RunOutcome::CompletedUnverified => true,
        _ => false,
    };
    let verifier_verified = match verifier {
        RunOutcome::CompletedVerified => true,
        _ => false,
    };
    let verifier_failed = match verifier {
        RunOutcome::Failed | RunOutcome::BudgetExhausted | RunOutcome::Interrupted => true,
        _ => false,
    };
    let recovery = if analyst_submitted {
        ReviewPipelineRecovery::NotNeeded
    } else if verifier_verified {
        ReviewPipelineRecovery::Succeeded
    } else {
        ReviewPipelineRecovery::Failed
    };
    let status = if !analyst_submitted || verifier_failed {
        WorkerExecutionStatus::WorkerFailed
    } else if verifier_verified {
        WorkerExecutionStatus::Completed
    } else {
        WorkerExecutionStatus::Submitted
    };
    (status, recovery)
}

/// The status of a worker batch: any error or unsubmitted run fails it, any
/// unverified submission leaves it submitted, else it is complete.
pub open spec fn batch_status(outcomes: Seq<RunOutcome>, errored: bool) -> WorkerExecutionStatus {
    if errored || exists|i: int| 0 <= i < outcomes.len() && !submitted(#[trigger] outcomes[i]) {
        WorkerExecutionStatus::WorkerFailed
    } else if exists|i: int| 0 <= i < outcomes.len() && #[trigger] outcomes[i] is CompletedUnverified {
        WorkerExecutionStatus::Submitted
    } else {
        WorkerExecutionStatus::Completed
    }
}

pub open spec fn report_outcomes(reports: Seq<Report>) -> Seq<RunOutcome> {
    reports.map_values(|r: Report| r.outcome)
}

pub fn classify_worker_reports(reports: &Vec<Report>, execution_error: Option<&str>) -> (s:
    WorkerExecutionStatus)
    ensures
        s == batch_status(report_outcomes(reports@), execution_error is Some),
{
    let ghost os = report_outcomes(reports@);
    let mut hard = false;
    let mut unverified = false;
    let mut i: usize = 0;
    while i < reports.len()
        invariant
            i <= reports.len(),
            os == report_outcomes(reports@),
            hard == exists|j: int| 0 <= j < i && !submitted(#[trigger] os[j]),
            unverified == exists|j: int| 0 <= j < i && #[trigger] os[j] is CompletedUnverified,
        decreases reports.len() - i,
    {
        let o = reports[i].outcome;
        proof {
            assert(os[i as int] == o);
        }
        match o {
            RunOutcome::CompletedVerified => {},
            RunOutcome::CompletedUnverified => {
                unverified = true;
            },
            _ => {
                hard = true;
            },
        }
        proof {
            if hard {
                if !submitted(o) {
                    assert(!submitted(os[i as int]));
                } else {
                    let j = choose|j: int| 0 <= j < i && !submitted(#[trigger] os[j]);
                    assert(!submitted(os[j]));
                }
            }
            if unverified {
                if o is CompletedUnverified {
                    assert(os[i as int] is CompletedUnverified);
                } else {
                    let j = choose|j: int| 0 <= j < i && #[trigger] os[j] is CompletedUnverified;
                    assert(os[j] is CompletedUnverified);
                }
            }
        }
        i += 1;
    }
    if execution_error.is_some() || hard {
        WorkerExecutionStatus::WorkerFailed
    } else if unverified {
        WorkerExecutionStatus::Submitted
    } else {
        WorkerExecutionStatus::Completed
    }
}

/// How a run outcome is written in messages.
pub open spec fn outcome_name(o: RunOutcome) -> Seq<char> {
    match o {
        RunOutcome::CompletedVerified => "CompletedVerified"@,
        RunOutcome::CompletedUnverified => "CompletedUnverified"@,
        RunOutcome::Blocked => "Blocked"@,
        RunOutcome::Interrupted => "Interrupted"@,
        RunOutcome::BudgetExhausted => "BudgetExhausted"@,
        RunOutcome::Failed => "Failed"@,
    }
}

pub fn outcome_label(o: RunOutcome) -> (s: &'static str)
    ensures
        s@ == outcome_name(o),
{
    match o {
        RunOutcome::CompletedVerified => "CompletedVerified",
        RunOutcome::CompletedUnverified => "CompletedUnverified",
        RunOutcome::Blocked => "Blocked",
        RunOutcome::Interrupted => "Interrupted",
        RunOutcome::BudgetExhausted => "BudgetExhausted",
        RunOutcome::Failed => "Failed",
    }
}

/// The short status word a report is shown with.
pub open spec fn status_word(o: RunOutcome) -> Seq<char> {
    match o {
        RunOutcome::CompletedVerified => "completed"@,
        RunOutcome::CompletedUnverified => "submitted"@,
        RunOutcome::Interrupted => "interrupted"@,
        RunOutcome::Blocked => "blocked"@,
        RunOutcome::BudgetExhausted => "blocked"@,
        RunOutcome::Failed => "failed"@,
    }
}

pub fn report_status(report: &Report) -> (s: &'static str)
    ensures
        s@ == status_word(report.outcome),
{
    match report.outcome {
        RunOutcome::CompletedVerified => "completed",
        RunOutcome::CompletedUnverified => "submitted",
        RunOutcome::Interrupted => "interrupted",
        RunOutcome::Blocked | RunOutcome::BudgetExhausted => "blocked",
        RunOutcome::Failed => "failed",
    }
}

/// The task identifier of a worker.
pub fn worker_task_id(worker_name: &str) -> (s: String)
    ensures
        s@ == "worker-"@ + worker_name@,
{
    join2("worker-", worker_name)
}

/// The artifact a successful worker's proposal node records.
pub open spec fn proposal_artifact(node_id: Seq<char>, summary: Seq<char>, task_id: Seq<char>) -> ExecutionArtifactView {
    ExecutionArtifactView {
        id: "artifact-"@ + node_id,
        producer_node: node_id,
        kind: "patch_proposal"@,
        summary: summary,
        evidence_refs: seq!["report:"@ + task_id],
        uncertainties: Seq::empty(),
    }
}

/// The node outcome for a worker's proposal: success records its artifact;
/// an unsuccessful report, or none, fails the node with the reason.
pub fn worker_proposal_outcome(
    report: Option<&Report>,
    execution_error: Option<&str>,
    node_id: &str,
    worker: &str,
) -> (o: NodeExecutionOutcome)
    ensures
        match report {
            Some(r) => if r.success {
                o matches NodeExecutionOutcome::Succeeded(a) && artifacts_view(a@) == seq![
                    proposal_artifact(node_id@, r.summary@, r.task_id@),
                ]
            } else {
                o matches NodeExecutionOutcome::Failed(m) && m@ == "worker outcome was "@
                    + outcome_name(r.outcome)
            },
            None => o matches NodeExecutionOutcome::Failed(m) && m@ == match execution_error {
                Some(e) => e@,
                None => "worker '"@ + worker@ + "' submitted no successful report"@,
            },
        },
{
    match report {
        Some(r) => {
            if r.success {
                let mut refs: Vec<String> = Vec::new();
                refs.push(join2("report:", r.task_id.as_str()));
                let a = ExecutionArtifact {
                    id: join2("artifact-", node_id),
                    producer_node: node_id.to_owned(),
                    kind: "patch_proposal".to_owned(),
                    summary: r.summary.clone(),
                    evidence_refs: refs,
                    uncertainties: Vec::new(),
                };
                let mut v: Vec<ExecutionArtifact> = Vec::new();
                v.push(a);
                proof {
                    assert(strs_view(v@[0].evidence_refs@) =~= seq!["report:"@ + r.task_id@]);
                    assert(strs_view(v@[0].uncertainties@) =~= Seq::<Seq<char>>::empty());
                    assert(v@[0]@ == proposal_artifact(node_id@, r.summary@, r.task_id@));
                    assert(artifacts_view(v@) =~= seq![
                        proposal_artifact(node_id@, r.summary@, r.task_id@),
                    ]);
                }
                NodeExecutionOutcome::Succeeded(v)
            } else {
                NodeExecutionOutcome::Failed(join2("worker outcome was ", outcome_label(r.outcome)))
            }
        },
        None => match execution_error {
            Some(e) => NodeExecutionOutcome::Failed(e.to_owned()),
            None => NodeExecutionOutcome::Failed(
                join3("worker '", worker, "' submitted no successful report"),
            ),
        },
    }
}

/// "failed to release {file} for {worker}: {message}" for each failure.
pub open spec fn release_reasons(fs: Seq<WorkerFileClaimReleaseFailure>) -> Seq<Seq<char>> {
    Seq::new(
        fs.len(),
        |i: int| "failed to release "@ + fs[i].file@ + " for "@ + fs[i].worker@ + ": "@ + fs[i].message@,
    )
}

/// "{worker}: {reason}" for each reason of each decision, in order.
pub open spec fn decision_reasons(ds: Seq<WorkerPatchDecision>) -> Seq<Seq<char>>
    decreases ds.len(),
{
    if ds.len() == 0 {
        Seq::empty()
    } else {
        let d = ds.last();
        decision_reasons(ds.drop_last()) + Seq::new(
            d.reasons@.len(),
            |j: int| d.proposal.worker@ + ": "@ + d.reasons@[j]@,
        )
    }
}

pub open spec fn failure_messages(fs: Seq<WorkerPatchApplyFailure>) -> Seq<Seq<char>> {
    Seq::new(fs.len(), |i: int| fs[i].message@)
}

pub open spec fn accepted_summary(proposals: nat, operations: nat) -> Seq<char> {
    "accepted "@ + decimal(proposals) + " employee proposal(s); applied "@ + decimal(operations)
        + " patch operation(s)"@
}

pub open spec fn released_summary() -> Seq<char> {
    "patches were applied, but one or more file claims could not be released"@
}

pub open spec fn blocked_summary() -> Seq<char> {
    "manager did not accept the mutation plan; no parent patch was applied"@
}

pub open spec fn apply_failed_summary() -> Seq<char> {
    "manager approved the proposals, but parent patch application failed or only partially applied; inspect applied operations and failures"@
}

/// What the manager concludes from a pipeline: status, summary, reasons.
pub open spec fn acceptance_of(p: WorkerPatchPipelineReport) -> (
    ManagerAcceptanceStatus,
    Seq<char>,
    Seq<Seq<char>>,
) {
    match p.status {
        WorkerPatchPipelineStatus::Applied => (
            ManagerAcceptanceStatus::Accepted,
            accepted_summary(p.merge_review.decisions@.len(), p.apply_report.applied@.len()),
            Seq::empty(),
        ),
        WorkerPatchPipelineStatus::AppliedWithReviewFindings => (
            ManagerAcceptanceStatus::AppliedWithReleaseFailures,
            released_summary(),
            release_reasons(p.execution.release_failures@),
        ),
        WorkerPatchPipelineStatus::Blocked => (
            ManagerAcceptanceStatus::Blocked,
            blocked_summary(),
            strs_view(p.merge_review.blockers@) + decision_reasons(p.merge_review.decisions@),
        ),
        WorkerPatchPipelineStatus::ApplyFailed => (
            ManagerAcceptanceStatus::ApplyFailed,
            apply_failed_summary(),
            failure_messages(p.apply_report.failures@),
        ),
    }
}

fn concat(parts: &Vec<&str>) -> (s: String)
    ensures
        s@ == concat_spec(parts@),
{
    let mut s = String::new();
    let mut i: usize = 0;
    while i < parts.len()
        invariant
            i <= parts.len(),
            s@ == concat_spec(parts@.take(i as int)),
        decreases parts.len() - i,
    {
        s.append(parts[i]);
        proof {
            assert(parts@.take(i + 1).drop_last() =~= parts@.take(i as int));
        }
        i += 1;
    }
    proof {
        assert(parts@.take(parts.len() as int) =~= parts@);
    }
    s
}

pub open spec fn concat_spec(parts: Seq<&str>) -> Seq<char>
    decreases parts.len(),
{
    if parts.len() == 0 {
        Seq::empty()
    } else {
        concat_spec(parts.drop_last()) + parts.last()@
    }
}

pub fn manager_acceptance_from_pipeline(pipeline: &WorkerPatchPipelineReport) -> (r: (
    ManagerAcceptanceStatus,
    String,
    Vec<String>,
))
    requires
        pipeline.merge_review.decisions@.len() <= u64::MAX,
        pipeline.apply_report.applied@.len() <= u64::MAX,
    ensures
        (r.0, r.1@, strs_view(r.2@)) == acceptance_of(*pipeline),
{
    match pipeline.status {
        WorkerPatchPipelineStatus::Applied => {
            let d = decimal_string(pipeline.merge_review.decisions.len() as u64);
            let a = decimal_string(pipeline.apply_report.applied.len() as u64);
            let parts = vec![
                "accepted ",
                d.as_str(),
                " employee proposal(s); applied ",
                a.as_str(),
                " patch operation(s)",
            ];
            let s = concat(&parts);
            proof {
                reveal_with_fuel(concat_spec, 6);
                assert(parts@.take(5) =~= parts@);
                assert(s@ =~= accepted_summary(
                    pipeline.merge_review.decisions@.len(),
                    pipeline.apply_report.applied@.len(),
                ));
            }
            let reasons: Vec<String> = Vec::new();
            proof {
                assert(strs_view(reasons@) =~= Seq::<Seq<char>>::empty());
            }
            (ManagerAcceptanceStatus::Accepted, s, reasons)
        },
        WorkerPatchPipelineStatus::AppliedWithReviewFindings => {
            let fs = &pipeline.execution.release_failures;
            let mut reasons: Vec<String> = Vec::new();
            let mut i: usize = 0;
            while i < fs.len()
                invariant
                    i <= fs.len(),
                    fs == &pipeline.execution.release_failures,
                    reasons@.len() == i,
                    forall|k: int| 0 <= k < i ==> (#[trigger] reasons@[k])@ == release_reasons(fs@)[k],
                decreases fs.len() - i,
            {
                let parts = vec![
                    "failed to release ",
                    fs[i].file.as_str(),
                    " for ",
                    fs[i].worker.as_str(),
                    ": ",
                    fs[i].message.as_str(),
                ];
                let line = concat(&parts);
                proof {
                    reveal_with_fuel(concat_spec, 7);
                    assert(parts@.take(6) =~= parts@);
                }
                proof {
                    assert(line@ == release_reasons(fs@)[i as int]);
                }
                reasons.push(line);
                i += 1;
            }
            proof {
                assert(strs_view(reasons@) =~= release_reasons(fs@));
            }
            (
                ManagerAcceptanceStatus::AppliedWithReleaseFailures,
                "patches were applied, but one or more file claims could not be released".to_owned(),
                reasons,
            )
        },
        WorkerPatchPipelineStatus::Blocked => {
            let mut reasons = crate::execution_graph::types::clone_strings(&pipeline.merge_review.blockers);
            let ds = &pipeline.merge_review.decisions;
            let ghost base = strs_view(pipeline.merge_review.blockers@);
            let mut i: usize = 0;
            while i < ds.len()
                invariant
                    i <= ds.len(),
                    ds == &pipeline.merge_review.decisions,
                    base == strs_view(pipeline.merge_review.blockers@),
                    strs_view(reasons@) =~= base + decision_reasons(ds@.take(i as int)),
                decreases ds.len() - i,
            {
                let d = &ds[i];
                let ghost prefix = strs_view(reasons@);
                proof {
                    assert forall|k: int| 0 <= k < prefix.len() implies (#[trigger] reasons@[k])@ == prefix[k] by {
                    }
                }
                let mut j: usize = 0;
                while j < d.reasons.len()
                    invariant
                        j <= d.reasons.len(),
                        reasons@.len() == prefix.len() + j,
                        forall|k: int| 0 <= k < prefix.len() ==> (#[trigger] reasons@[k])@ == prefix[k],
                        forall|k: int| 0 <= k < j ==> (#[trigger] reasons@[prefix.len() + k])@
                            == d.proposal.worker@ + ": "@ + d.reasons@[k]@,
                    decreases d.reasons.len() - j,
                {
                    let line = join3(d.proposal.worker.as_str(), ": ", d.reasons[j].as_str());
                    reasons.push(line);
                    proof {
                        assert(reasons@[prefix.len() + j]@ == line@);
                    }
                    j += 1;
                }
                proof {
                    assert(strs_view(reasons@) =~= prefix + Seq::new(
                        d.reasons@.len(),
                        |q: int| d.proposal.worker@ + ": "@ + d.reasons@[q]@,
                    )) by {
                        assert forall|k: int| 0 <= k < reasons@.len() implies strs_view(reasons@)[k]
                            == (prefix + Seq::new(
                            d.reasons@.len(),
                            |q: int| d.proposal.worker@ + ": "@ + d.reasons@[q]@,
                        ))[k] by {
                            if k >= prefix.len() {
                                assert(reasons@[prefix.len() + (k - prefix.len())]@ == d.proposal.worker@
                                    + ": "@ + d.reasons@[k - prefix.len()]@);
                            }
                        }
                    }
                }
                proof {
                    let t = ds@.take(i + 1);
                    assert(t.drop_last() =~= ds@.take(i as int));
                    assert(t.last() == *d);
                    assert(decision_reasons(t) == decision_reasons(ds@.take(i as int)) + Seq::new(
                        d.reasons@.len(),
                        |q: int| d.proposal.worker@ + ": "@ + d.reasons@[q]@,
                    ));
                }
                i += 1;
            }
            proof {
                assert(ds@.take(ds.len() as int) =~= ds@);
            }
            (
                ManagerAcceptanceStatus::Blocked,
                "manager did not accept the mutation plan; no parent patch was applied".to_owned(),
                reasons,
            )
        },
        WorkerPatchPipelineStatus::ApplyFailed => {
            let fs = &pipeline.apply_report.failures;
            let mut reasons: Vec<String> = Vec::new();
            let mut i: usize = 0;
            while i < fs.len()
                invariant
                    i <= fs.len(),
                    fs == &pipeline.apply_report.failures,
                    reasons@.len() == i,
                    forall|k: int| 0 <= k < i ==> (#[trigger] reasons@[k])@ == fs@[k].message@,
                decreases fs.len() - i,
            {
                reasons.push(fs[i].message.clone());
                i += 1;
            }
            proof {
                assert(strs_view(reasons@) =~= failure_messages(fs@));
            }
            (
                ManagerAcceptanceStatus::ApplyFailed,
                "manager approved the proposals, but parent patch application failed or only partially applied; inspect applied operations and failures".to_owned(),
                reasons,
            )
        },
    }
}

/// The manager accepts a mutation only when its pipeline applied the
/// patches cleanly. A pipeline that applied them but could not release a
/// file claim is reported as applied with release failures, with one reason
/// naming each claim left behind, and never as accepted.
pub proof fn law_acceptance_needs_clean_pipeline(p: WorkerPatchPipelineReport)
    ensures
        acceptance_of(p).0 == ManagerAcceptanceStatus::Accepted <==> p.status == WorkerPatchPipelineStatus::Applied,
        p.status == WorkerPatchPipelineStatus::AppliedWithReviewFindings ==> acceptance_of(p).0
            == ManagerAcceptanceStatus::AppliedWithReleaseFailures,
        p.status == WorkerPatchPipelineStatus::AppliedWithReviewFindings ==> acceptance_of(p).2.len()
            == p.execution.release_failures@.len(),
        p.status == WorkerPatchPipelineStatus::AppliedWithReviewFindings ==> forall|k: int|
            0 <= k < p.execution.release_failures@.len() ==> (#[trigger] acceptance_of(p).2[k]) == "failed to release "@
                + p.execution.release_failures@[k].file@ + " for "@ + p.execution.release_failures@[k].worker@ + ": "@
                + p.execution.release_failures@[k].message@,
        p.status == WorkerPatchPipelineStatus::Blocked ==> acceptance_of(p).0 == ManagerAcceptanceStatus::Blocked,
        p.status == WorkerPatchPipelineStatus::ApplyFailed ==> acceptance_of(p).0
            == ManagerAcceptanceStatus::ApplyFailed,
{
}

/// Through the pipeline's own status: the manager accepts exactly when the
/// merge review approved, the apply passed, and every file claim was
/// released.
pub proof fn law_acceptance_from_stages(
    p: WorkerPatchPipelineReport,
    review: WorkerMergeStatus,
    apply_passed: bool,
    release_failures: nat,
)
    requires
        p.status == super::pipeline::pipeline_status_of(review, apply_passed, release_failures),
    ensures
        acceptance_of(p).0 == ManagerAcceptanceStatus::Accepted <==> (review == WorkerMergeStatus::Approved
            && apply_passed && release_failures == 0),
        (review == WorkerMergeStatus::Approved && apply_passed && release_failures > 0) ==> acceptance_of(p).0
            == ManagerAcceptanceStatus::AppliedWithReleaseFailures,
{
}

} // verus!
