//! What the parent's gates guarantee, whatever the workers send.
use vstd::prelude::*;
use crate::agent_loop::outcome::RunOutcome;
use crate::execution_graph::types::strs_view;
use crate::organization::types::{decision_can_execute, StaffingDecisionView};
use crate::profile::AgentProfile;
use crate::text::blank;
use super::outcomes::{review_outcome, submitted};
use super::paths::path_key;
use super::projection::{projected_outcome, work_index, OutcomeView};
use super::proposals::{
    covered, has_proposal, last_named, missing_proposals, op_paths, outside_files,
    outside_operations, owned_scope, proposal_entry_errors, proposal_errors, proposal_errors_upto,
};
use super::review::{review_reasons, unlisted_operations, unowned_files};
use super::scopes::{names_of, opt_msg, owned_keys, selected};
use super::staffing::staffed;
use super::types::{
    ReviewPipelineRecovery, StaffedTask, WorkerAssignment, WorkerExecutionStatus,
    WorkerPatchPipelineReport, WorkerPatchProposal,
};
use crate::organization::types::MutationExecutionGraphPlan;

verus! {

/// A verifier can recover an analyst that failed, but the pipeline still
/// reports the failure; the recovery is recorded exactly when the verifier
/// brought fresh evidence for a failed analyst.
pub proof fn law_review_never_hides_analyst_failure(analyst: RunOutcome, verifier: RunOutcome)
    ensures
        !submitted(analyst) ==> review_outcome(analyst, verifier).0 == WorkerExecutionStatus::WorkerFailed,
        (review_outcome(analyst, verifier).1 == ReviewPipelineRecovery::Succeeded) <==> (!submitted(analyst)
            && verifier is CompletedVerified),
        review_outcome(analyst, verifier).0 == WorkerExecutionStatus::Completed ==> verifier is CompletedVerified,
{
}

proof fn lemma_unlisted_empty(files: Seq<Seq<Seq<char>>>, paths: Seq<Seq<char>>, n: int)
    requires
        unlisted_operations(files, paths, n).len() == 0,
    ensures
        forall|j: int| 0 <= j < n ==> covered(path_key(#[trigger] paths[j]), files),
    decreases n,
{
    if n > 0 {
        lemma_unlisted_empty(files, paths, n - 1);
    }
}

proof fn lemma_unowned_empty(owned: Seq<Seq<Seq<char>>>, files: Seq<Seq<Seq<char>>>, n: int)
    requires
        unowned_files(owned, files, n).len() == 0,
    ensures
        forall|j: int| 0 <= j < n ==> covered(#[trigger] files[j], owned),
    decreases n,
{
    if n > 0 {
        lemma_unowned_empty(owned, files, n - 1);
    }
}

/// A proposal the merge review approves comes from an assigned worker with
/// an explicit scope, names at least one file and one operation, has a
/// summary, and every file and operation lies inside that worker's scope
/// and the files it declared.
pub proof fn law_approved_proposal_stays_in_scope(assignments: Seq<WorkerAssignment>, p: WorkerPatchProposal)
    requires
        review_reasons(assignments, p).len() == 0,
    ensures
        names_of(assignments).contains(p.worker@),
        !blank(p.summary@),
        p.operations@.len() > 0,
        owned_keys(strs_view(p.files@)).len() > 0,
        owned_scope(assignments, p.worker@).len() > 0,
        forall|j: int|
            0 <= j < owned_keys(strs_view(p.files@)).len() ==> covered(
                #[trigger] owned_keys(strs_view(p.files@))[j],
                owned_scope(assignments, p.worker@),
            ),
        forall|j: int|
            0 <= j < p.operations@.len() ==> covered(
                path_key(#[trigger] op_paths(p.operations@)[j]),
                owned_keys(strs_view(p.files@)),
            ),
{
    let files = owned_keys(strs_view(p.files@));
    let paths = op_paths(p.operations@);
    let rest = unlisted_operations(files, paths, paths.len() as int);
    if names_of(assignments).contains(p.worker@) {
        let owned = owned_scope(assignments, p.worker@);
        if owned.len() > 0 {
            lemma_unowned_empty(owned, files, files.len() as int);
        }
    }
    lemma_unlisted_empty(files, paths, paths.len() as int);
}

proof fn lemma_outside_files_empty(w: Seq<char>, owned: Seq<Seq<Seq<char>>>, files: Seq<Seq<Seq<char>>>, n: int)
    requires
        outside_files(w, owned, files, n).len() == 0,
    ensures
        forall|j: int| 0 <= j < n ==> covered(#[trigger] files[j], owned),
    decreases n,
{
    if n > 0 {
        lemma_outside_files_empty(w, owned, files, n - 1);
    }
}

proof fn lemma_outside_ops_empty(
    w: Seq<char>,
    owned: Seq<Seq<Seq<char>>>,
    files: Seq<Seq<Seq<char>>>,
    paths: Seq<Seq<char>>,
    n: int,
)
    requires
        outside_operations(w, owned, files, paths, n).len() == 0,
    ensures
        forall|j: int|
            0 <= j < n ==> covered(path_key(#[trigger] paths[j]), files) && covered(path_key(paths[j]), owned),
    decreases n,
{
    if n > 0 {
        lemma_outside_ops_empty(w, owned, files, paths, n - 1);
    }
}

proof fn lemma_upto_empty(assignments: Seq<WorkerAssignment>, ps: Seq<WorkerPatchProposal>, n: int, i: int)
    requires
        proposal_errors_upto(assignments, ps, n).len() == 0,
        0 <= i < n,
    ensures
        proposal_entry_errors(assignments, ps, i).len() == 0,
    decreases n,
{
    if i < n - 1 {
        lemma_upto_empty(assignments, ps, n - 1, i);
    }
}

proof fn lemma_missing_empty(sel: Seq<Seq<char>>, ps: Seq<WorkerPatchProposal>, n: int, i: int)
    requires
        missing_proposals(sel, ps, n).len() == 0,
        0 <= i < n,
    ensures
        has_proposal(ps, sel[i]),
    decreases n,
{
    if i < n - 1 {
        lemma_missing_empty(sel, ps, n - 1, i);
    }
}

/// When the mutation contract finds nothing wrong, every proposal comes from
/// a selected employee, no employee sent two, and every declared file and
/// every operation lies inside the files its author owns.
#[verifier::rlimit(30)]
pub proof fn law_accepted_proposals_stay_in_scope(assignments: Seq<WorkerAssignment>, ps: Seq<WorkerPatchProposal>)
    requires
        proposal_errors(assignments, ps).len() == 0,
    ensures
        forall|i: int| 0 <= i < ps.len() ==> names_of(assignments).contains(#[trigger] ps[i].worker@),
        forall|i: int, j: int| 0 <= i < j < ps.len() ==> #[trigger] ps[i].worker@ != #[trigger] ps[j].worker@,
        forall|i: int|
            #![trigger ps[i]]
            0 <= i < ps.len() ==> {
                let files = owned_keys(strs_view(ps[i].files@));
                let owned = owned_scope(assignments, ps[i].worker@);
                &&& forall|k: int| 0 <= k < files.len() ==> covered(#[trigger] files[k], owned)
                &&& forall|k: int|
                    0 <= k < ps[i].operations@.len() ==> covered(
                        path_key(#[trigger] op_paths(ps[i].operations@)[k]),
                        owned,
                    )
            },
{
    assert forall|i: int| 0 <= i < ps.len() implies names_of(assignments).contains(#[trigger] ps[i].worker@)
        && {
        let files = owned_keys(strs_view(ps[i].files@));
        let owned = owned_scope(assignments, ps[i].worker@);
        &&& forall|k: int| 0 <= k < files.len() ==> covered(#[trigger] files[k], owned)
        &&& forall|k: int|
            0 <= k < ps[i].operations@.len() ==> covered(
                path_key(#[trigger] op_paths(ps[i].operations@)[k]),
                owned,
            )
    } by {
        lemma_upto_empty(assignments, ps, ps.len() as int, i);
        let w = ps[i].worker@;
        let files = owned_keys(strs_view(ps[i].files@));
        let owned = owned_scope(assignments, w);
        let paths = op_paths(ps[i].operations@);
        lemma_outside_files_empty(w, owned, files, files.len() as int);
        lemma_outside_ops_empty(w, owned, files, paths, paths.len() as int);
    }
    assert forall|i: int, j: int| 0 <= i < j < ps.len() implies #[trigger] ps[i].worker@ != #[trigger] ps[j].worker@ by {
        lemma_upto_empty(assignments, ps, ps.len() as int, j);
    }
}

/// Partial staffing is never handed out: either every selected employee
/// has an assignment, or there is none to run; a decision that cannot run
/// yields nothing to run.
pub proof fn law_staffing_is_all_or_nothing(
    objective: Seq<char>,
    roster: Seq<AgentProfile>,
    d: StaffingDecisionView,
    t: StaffedTask,
)
    requires
        staffed(objective, roster, d, t),
    ensures
        t.assignments@.len() == 0 || t.assignments@.len() == d.assignments.len(),
        !decision_can_execute(d) ==> t.assignments@.len() == 0,
        t.assignments@.len() > 0 ==> t.decision@ == d,
{
}

/// The projection records only what the pipeline observed: a node the plan
/// does not name is never given an outcome, and the claim gate fails
/// whenever an overlap or a remote conflict was seen.
pub proof fn law_projection_invents_no_progress(
    plan: MutationExecutionGraphPlan,
    p: WorkerPatchPipelineReport,
    id: Seq<char>,
)
    ensures
        (id != plan.finalize_node@ && id != plan.release_node@ && id != plan.apply_node@ && id
            != plan.review_node@ && id != plan.claim_node@ && work_index(plan, id) is None)
            ==> projected_outcome(plan, p, id) == OutcomeView::Deferred,
        (id == plan.claim_node@ && id != plan.finalize_node@ && id != plan.release_node@ && id
            != plan.apply_node@ && id != plan.review_node@ && work_index(plan, id) is None && (
        p.execution.claim_report.local_overlaps@.len() > 0 || p.execution.claim_report.conflicts@.len()
            > 0)) ==> projected_outcome(plan, p, id) is Failed,
        (id == plan.apply_node@ && id != plan.finalize_node@ && id != plan.release_node@
            && p.apply_report.failures@.len() > 0) ==> projected_outcome(plan, p, id) is Failed,
{
}

} // verus!
