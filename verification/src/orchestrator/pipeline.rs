//! The stages of the worker patch pipeline around the patch engine: review,
//! what the engine is asked to apply, and the pipeline's final status.
use vstd::prelude::*;
use crate::execution_graph::spec::artifacts_view;
use crate::execution_graph::types::{strs_view, ExecutionArtifact, NodeExecutionOutcome};
use crate::patch::{PatchOperation, PatchOperationKind, PatchResult, ReplaceRequest};
use crate::text::{decimal, decimal_string, join2, join3};
use super::projection::{one_artifact, outcome_view, OutcomeView};
use super::claims::failures_view;
use super::review::review_worker_patch_proposals;
use super::types::{
    AppliedWorkerPatchPipeline, ReviewedWorkerPatchPipeline, WorkerAssignment, WorkerExecutionReport,
    WorkerFileClaimReleaseFailure, WorkerMergeReview, WorkerMergeStatus, WorkerPatchApplyFailure,
    WorkerPatchApplyReport, WorkerPatchDecision, WorkerPatchPipelineReport, WorkerPatchPipelineStatus,
    WorkerPatchProposal,
};

verus! {

/// Reviews the proposals against the batch that produced them.
pub fn review_worker_patch_pipeline_stage(
    session_id: Option<String>,
    assignments: &Vec<WorkerAssignment>,
    proposals: Vec<WorkerPatchProposal>,
    execution: WorkerExecutionReport,
) -> (r: ReviewedWorkerPatchPipeline)
    ensures
        r.session_id == session_id,
        r.execution == execution,
        r.merge_review.decisions@.len() == proposals@.len(),
        forall|i: int|
            0 <= i < proposals@.len() ==> super::review::decided(
                assignments@,
                proposals@[i],
                #[trigger] r.merge_review.decisions@[i],
            ),
        crate::execution_graph::types::strs_view(r.merge_review.blockers@) == super::review::blockers_of(execution)
            + super::scopes::opt_msg(proposals@.len() == 0, "no worker patch proposals submitted"@),
        r.merge_review.status == super::review::merge_status(
            execution,
            crate::execution_graph::types::strs_view(r.merge_review.blockers@),
            r.merge_review.decisions@,
        ),
{
    let merge_review = review_worker_patch_proposals(assignments, &execution, proposals);
    ReviewedWorkerPatchPipeline { session_id, execution, merge_review }
}

/// Nothing is applied unless the review approved every proposal.
pub open spec fn fully_approved(review: WorkerMergeReview) -> bool {
    review.status == WorkerMergeStatus::Approved && forall|i: int|
        0 <= i < review.decisions@.len() ==> (#[trigger] review.decisions@[i]).approved
}

/// The report of an apply refused because the review did not approve
/// everything: one failure, attributed to the orchestrator.
pub fn apply_refusal(review: &WorkerMergeReview) -> (r: Option<WorkerPatchApplyReport>)
    ensures
        r is None <==> fully_approved(*review),
        r matches Some(rep) ==> {
            &&& rep.applied@.len() == 0
            &&& rep.failures@.len() == 1
            &&& rep.failures@[0].worker@ == "orchestrator"@
            &&& rep.failures@[0].operation == PatchOperationKind::Read
            &&& rep.failures@[0].path is None
            &&& rep.failures@[0].message@ == "worker merge review is not approved"@
        },
{
    let mut all = review.status == WorkerMergeStatus::Approved;
    let mut i: usize = 0;
    while i < review.decisions.len()
        invariant
            i <= review.decisions@.len(),
            all == (review.status == WorkerMergeStatus::Approved && forall|q: int|
                0 <= q < i ==> (#[trigger] review.decisions@[q]).approved),
        decreases review.decisions@.len() - i,
    {
        if !review.decisions[i].approved {
            all = false;
        }
        i += 1;
    }
    if all {
        return None;
    }
    let mut failures: Vec<WorkerPatchApplyFailure> = Vec::new();
    failures.push(
        WorkerPatchApplyFailure {
            worker: "orchestrator".to_owned(),
            operation: PatchOperationKind::Read,
            path: None,
            message: "worker merge review is not approved".to_owned(),
        },
    );
    Some(WorkerPatchApplyReport { applied: Vec::new(), failures })
}

fn copy_operation(op: &PatchOperation) -> (r: PatchOperation)
    ensures
        r == *op,
{
    match op {
        PatchOperation::Replace(q) => PatchOperation::Replace(
            ReplaceRequest {
                path: q.path.clone(),
                old_text: q.old_text.clone(),
                new_text: q.new_text.clone(),
                replace_all: q.replace_all,
            },
        ),
    }
}

/// Each decision's operations with the worker that proposed them, in
/// review order then proposal order.
pub open spec fn operations_of(ds: Seq<WorkerPatchDecision>) -> Seq<(Seq<char>, PatchOperation)>
    decreases ds.len(),
{
    if ds.len() == 0 {
        Seq::empty()
    } else {
        let d = ds.last();
        operations_of(ds.drop_last()) + d.proposal.operations@.map_values(
            |o: PatchOperation| (d.proposal.worker@, o),
        )
    }
}

/// What the patch engine is asked to apply, in order.
pub fn approved_operations(review: &WorkerMergeReview) -> (r: Vec<(String, PatchOperation)>)
    ensures
        r@.map_values(|p: (String, PatchOperation)| (p.0@, p.1)) == operations_of(review.decisions@),
{
    let mut out: Vec<(String, PatchOperation)> = Vec::new();
    let mut i: usize = 0;
    while i < review.decisions.len()
        invariant
            i <= review.decisions@.len(),
            out@.map_values(|p: (String, PatchOperation)| (p.0@, p.1)) == operations_of(
                review.decisions@.subrange(0, i as int),
            ),
        decreases review.decisions@.len() - i,
    {
        let d = &review.decisions[i];
        let ghost before = out@.map_values(|p: (String, PatchOperation)| (p.0@, p.1));
        let mut j: usize = 0;
        while j < d.proposal.operations.len()
            invariant
                i < review.decisions@.len(),
                *d == review.decisions@[i as int],
                j <= d.proposal.operations@.len(),
                out@.map_values(|p: (String, PatchOperation)| (p.0@, p.1)) == before + d.proposal.operations@.subrange(
                    0,
                    j as int,
                ).map_values(|o: PatchOperation| (d.proposal.worker@, o)),
            decreases d.proposal.operations@.len() - j,
        {
            let w = d.proposal.worker.clone();
            let o = copy_operation(&d.proposal.operations[j]);
            let ghost prev = out@;
            out.push((w, o));
            proof {
                assert(out@ =~= prev.push((w, o)));
                assert(w@ == d.proposal.worker@);
                assert(o == d.proposal.operations@[j as int]);
                assert(out@.map_values(|p: (String, PatchOperation)| (p.0@, p.1)) =~= prev.map_values(
                    |p: (String, PatchOperation)| (p.0@, p.1),
                ).push((w@, o)));
                assert(out@.map_values(|p: (String, PatchOperation)| (p.0@, p.1)) =~= before
                    + d.proposal.operations@.subrange(0, j + 1).map_values(
                    |o: PatchOperation| (d.proposal.worker@, o),
                ));
            }
            j += 1;
        }
        proof {
            let pre = review.decisions@.subrange(0, i + 1);
            assert(pre.drop_last() =~= review.decisions@.subrange(0, i as int));
            assert(pre.last() == *d);
            assert(d.proposal.operations@.subrange(0, d.proposal.operations@.len() as int)
                =~= d.proposal.operations@);
        }
        i += 1;
    }
    proof {
        assert(review.decisions@.subrange(0, review.decisions@.len() as int) =~= review.decisions@);
    }
    out
}

/// The pipeline's status: an unapproved review blocks it; a failed apply
/// fails it; an apply followed by unreleased claims leaves findings.
pub open spec fn pipeline_status_of(
    review: WorkerMergeStatus,
    apply_passed: bool,
    release_failures: nat,
) -> WorkerPatchPipelineStatus {
    if review != WorkerMergeStatus::Approved {
        WorkerPatchPipelineStatus::Blocked
    } else if !apply_passed {
        WorkerPatchPipelineStatus::ApplyFailed
    } else if release_failures == 0 {
        WorkerPatchPipelineStatus::Applied
    } else {
        WorkerPatchPipelineStatus::AppliedWithReviewFindings
    }
}

/// Closes the pipeline once the claims were given back: the failures of
/// giving them back join the batch's, and they decide the status with the
/// review and the apply.
pub fn release_worker_patch_pipeline_stage(
    applied: AppliedWorkerPatchPipeline,
    deferred_release_failures: Vec<WorkerFileClaimReleaseFailure>,
) -> (r: WorkerPatchPipelineReport)
    ensures
        failures_view(r.execution.release_failures@) == failures_view(applied.execution.release_failures@)
            + failures_view(deferred_release_failures@),
        r.status == pipeline_status_of(
            applied.merge_review.status,
            applied.apply_report.failures@.len() == 0,
            r.execution.release_failures@.len(),
        ),
        r.execution.status == applied.execution.status,
        r.execution.reports == applied.execution.reports,
        r.execution.claim_report == applied.execution.claim_report,
        r.execution.execution_error == applied.execution.execution_error,
        r.merge_review == applied.merge_review,
        r.apply_report == applied.apply_report,
{
    let mut execution = applied.execution;
    let mut late = deferred_release_failures;
    let ghost a = failures_view(execution.release_failures@);
    let ghost b = failures_view(late@);
    execution.release_failures.append(&mut late);
    proof {
        assert(failures_view(execution.release_failures@) =~= a + b);
    }
    let status = if applied.merge_review.status != WorkerMergeStatus::Approved {
        WorkerPatchPipelineStatus::Blocked
    } else if !applied.apply_report.passed() {
        WorkerPatchPipelineStatus::ApplyFailed
    } else if execution.release_failures.len() == 0 {
        WorkerPatchPipelineStatus::Applied
    } else {
        WorkerPatchPipelineStatus::AppliedWithReviewFindings
    };
    WorkerPatchPipelineReport {
        status,
        execution,
        merge_review: applied.merge_review,
        apply_report: applied.apply_report,
    }
}

/// A pipeline counts as applied only when its review approved, its apply
/// passed and every claim was given back.
pub proof fn law_applied_means_clean(review: WorkerMergeStatus, apply_passed: bool, release_failures: nat)
    ensures
        pipeline_status_of(review, apply_passed, release_failures) == WorkerPatchPipelineStatus::Applied
            <==> (review == WorkerMergeStatus::Approved && apply_passed && release_failures == 0),
{
}

/// The outcome a durable run records for its apply node: an artifact
/// citing every applied file, or the number of apply failures.
pub open spec fn apply_node_outcome_of(apply_node: Seq<char>, report: WorkerPatchApplyReport) -> OutcomeView {
    if report.failures@.len() == 0 {
        one_artifact(
            "artifact-"@ + apply_node,
            apply_node,
            "patch_apply"@,
            "parent PatchEngine applied "@ + decimal(report.applied@.len()) + " operation(s)"@,
            report.applied@.map_values(|r: PatchResult| "file:"@ + r.path@),
        )
    } else {
        OutcomeView::Failed("parent PatchEngine reported "@ + decimal(report.failures@.len()) + " apply failure(s)"@)
    }
}

pub fn apply_node_outcome(apply_node: &str, report: &WorkerPatchApplyReport) -> (o: NodeExecutionOutcome)
    ensures
        outcome_view(o) == apply_node_outcome_of(apply_node@, *report),
{
    if report.failures.len() > 0 {
        let n = decimal_string(report.failures.len() as u64);
        return NodeExecutionOutcome::Failed(join3("parent PatchEngine reported ", n.as_str(), " apply failure(s)"));
    }
    let mut refs: Vec<String> = Vec::new();
    let mut i: usize = 0;
    while i < report.applied.len()
        invariant
            i <= report.applied@.len(),
            strs_view(refs@) == report.applied@.subrange(0, i as int).map_values(|r: PatchResult| "file:"@ + r.path@),
        decreases report.applied@.len() - i,
    {
        let f = join2("file:", report.applied[i].path.as_str());
        let ghost prev = refs@;
        refs.push(f);
        proof {
            assert(refs@ =~= prev.push(f));
            assert(strs_view(refs@) =~= strs_view(prev).push(f@));
            assert(strs_view(refs@) =~= report.applied@.subrange(0, i + 1).map_values(
                |r: PatchResult| "file:"@ + r.path@,
            ));
        }
        i += 1;
    }
    proof {
        assert(report.applied@.subrange(0, report.applied@.len() as int) =~= report.applied@);
    }
    let n = decimal_string(report.applied.len() as u64);
    let mut artifacts: Vec<ExecutionArtifact> = Vec::new();
    artifacts.push(
        ExecutionArtifact {
            id: join2("artifact-", apply_node),
            producer_node: apply_node.to_owned(),
            kind: "patch_apply".to_owned(),
            summary: join3("parent PatchEngine applied ", n.as_str(), " operation(s)"),
            evidence_refs: refs,
            uncertainties: Vec::new(),
        },
    );
    proof {
        assert(strs_view(artifacts@[0].uncertainties@) =~= Seq::<Seq<char>>::empty());
        assert(artifacts_view(artifacts@) =~= seq![artifacts@[0]@]);
    }
    NodeExecutionOutcome::Succeeded(artifacts)
}

} // verus!
