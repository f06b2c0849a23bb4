//! Recording what the mutation pipeline actually did in the execution graph.
//! The gates themselves (claims, review, patch application) decide; this
//! projects their observed results onto the nodes and invents no progress.
use vstd::prelude::*;
use crate::attention::Report;
use crate::execution_graph::scheduler::{answered, answers_fit, executed_state, offered, outcome_state, ran_as};
use crate::execution_graph::settle::{cut_off, progressed_from};
use crate::execution_graph::spec::{artifacts_view, has_artifact_id, ready_ids, settled, state_of, ExecutionGraphView};
use crate::execution_graph::types::{
    strs_view, ExecutionArtifact, ExecutionArtifactView, ExecutionGraphError, ExecutionNode,
    ExecutionNodeState, NodeExecutionOutcome,
};
use crate::execution_graph::ExecutionGraph;
use crate::organization::types::MutationExecutionGraphPlan;
use crate::text::{decimal, decimal_string, join2, join3, str_eq};
use super::outcomes::outcome_name;
use super::types::{WorkerMergeStatus, WorkerPatchPipelineReport, WorkerPatchPipelineStatus};

verus! {

/// A node outcome as the specification reads it.
pub enum OutcomeView {
    Succeeded(Seq<ExecutionArtifactView>),
    Failed(Seq<char>),
    Cancelled(Seq<char>),
    Deferred,
}

pub open spec fn outcome_view(o: NodeExecutionOutcome) -> OutcomeView {
    match o {
        NodeExecutionOutcome::Succeeded(a) => OutcomeView::Succeeded(artifacts_view(a@)),
        NodeExecutionOutcome::Failed(m) => OutcomeView::Failed(m@),
        NodeExecutionOutcome::Cancelled(m) => OutcomeView::Cancelled(m@),
        NodeExecutionOutcome::Deferred => OutcomeView::Deferred,
    }
}

/// The state an outcome puts its node in; a deferral names none.
pub open spec fn view_state(v: OutcomeView) -> Option<ExecutionNodeState> {
    match v {
        OutcomeView::Succeeded(_) => Some(ExecutionNodeState::Succeeded),
        OutcomeView::Failed(_) => Some(ExecutionNodeState::Failed),
        OutcomeView::Cancelled(_) => Some(ExecutionNodeState::Cancelled),
        OutcomeView::Deferred => None,
    }
}

/// The artifacts an outcome offers.
pub open spec fn view_artifacts(v: OutcomeView) -> Seq<ExecutionArtifactView> {
    match v {
        OutcomeView::Succeeded(a) => a,
        _ => Seq::empty(),
    }
}

/// Every answer of the handler is the outcome `f` gives the node's
/// identifier.
pub open spec fn answers_by<F: Fn(&ExecutionNode) -> NodeExecutionOutcome>(
    h: F,
    f: spec_fn(Seq<char>) -> OutcomeView,
) -> bool {
    forall|n: ExecutionNode, o: NodeExecutionOutcome| #[trigger] call_ensures(h, (&n,), o) ==> outcome_view(o) == f(n.id@)
}

/// The outcomes `f` names fit the graph: each artifact names the node it
/// is offered for, none is recorded already, and no two nodes offer the
/// same identifier.
pub open spec fn outcomes_fit(f: spec_fn(Seq<char>) -> OutcomeView, g: ExecutionGraphView) -> bool {
    &&& forall|x: Seq<char>, j: int|
        0 <= j < view_artifacts(f(x)).len() ==> (#[trigger] view_artifacts(f(x))[j]).producer_node == x
            && !has_artifact_id(g.artifacts, view_artifacts(f(x))[j].id)
    &&& forall|x: Seq<char>, y: Seq<char>, j: int, l: int|
        #![trigger view_artifacts(f(x))[j], view_artifacts(f(y))[l]]
        x != y && 0 <= j < view_artifacts(f(x)).len() && 0 <= l < view_artifacts(f(y)).len()
            ==> view_artifacts(f(x))[j].id != view_artifacts(f(y))[l].id
}

proof fn lemma_answer_by<F: Fn(&ExecutionNode) -> NodeExecutionOutcome>(
    h: F,
    f: spec_fn(Seq<char>) -> OutcomeView,
    x: Seq<char>,
    o: NodeExecutionOutcome,
)
    requires
        answers_by(h, f),
        answered(h, x, o),
    ensures
        outcome_view(o) == f(x),
        offered(o) == view_artifacts(f(x)),
        outcome_state(o) == view_state(f(x)),
{
    let n = choose|n: ExecutionNode| #[trigger] call_ensures(h, (&n,), o) && n.id@ == x && n.state is Pending;
    assert(outcome_view(o) == f(x));
}

/// Outcomes that fit the graph make every answer of the handler fit it.
pub proof fn lemma_fit_by<F: Fn(&ExecutionNode) -> NodeExecutionOutcome>(
    h: F,
    f: spec_fn(Seq<char>) -> OutcomeView,
    g: ExecutionGraphView,
)
    requires
        answers_by(h, f),
        outcomes_fit(f, g),
    ensures
        answers_fit(h, g),
{
    assert forall|x: Seq<char>, o: NodeExecutionOutcome| #[trigger] answered(h, x, o) implies {
        &&& forall|j: int|
            0 <= j < offered(o).len() ==> (#[trigger] offered(o)[j]).producer_node == x && !has_artifact_id(
                g.artifacts,
                offered(o)[j].id,
            )
        &&& forall|y: Seq<char>, o2: NodeExecutionOutcome, j: int, l: int|
            #![trigger answered(h, y, o2), offered(o)[j], offered(o2)[l]]
            answered(h, y, o2) && y != x && 0 <= j < offered(o).len() && 0 <= l < offered(o2).len()
                ==> offered(o)[j].id != offered(o2)[l].id
    } by {
        lemma_answer_by(h, f, x, o);
        assert forall|y: Seq<char>, o2: NodeExecutionOutcome, j: int, l: int|
            #![trigger answered(h, y, o2), offered(o)[j], offered(o2)[l]]
            answered(h, y, o2) && y != x && 0 <= j < offered(o).len() && 0 <= l < offered(o2).len()
                implies offered(o)[j].id != offered(o2)[l].id by {
            lemma_answer_by(h, f, y, o2);
            assert(view_artifacts(f(x))[j] == offered(o)[j]);
            assert(view_artifacts(f(y))[l] == offered(o2)[l]);
        }
        assert forall|j: int| 0 <= j < offered(o).len() implies (#[trigger] offered(o)[j]).producer_node == x
            && !has_artifact_id(g.artifacts, offered(o)[j].id) by {
            assert(view_artifacts(f(x))[j] == offered(o)[j]);
        }
    }
}

/// Every node the handler deferred is one `f` gives no outcome.
pub proof fn lemma_deferred_by<F: Fn(&ExecutionNode) -> NodeExecutionOutcome>(
    h: F,
    f: spec_fn(Seq<char>) -> OutcomeView,
    d: Seq<String>,
)
    requires
        answers_by(h, f),
        forall|m: int| 0 <= m < d.len() ==> answered(h, #[trigger] d[m]@, NodeExecutionOutcome::Deferred),
    ensures
        forall|m: int| 0 <= m < d.len() ==> f(#[trigger] d[m]@) == OutcomeView::Deferred,
{
    assert forall|m: int| 0 <= m < d.len() implies f(#[trigger] d[m]@) == OutcomeView::Deferred by {
        lemma_answer_by(h, f, d[m]@, NodeExecutionOutcome::Deferred);
    }
}

/// Every node a run changed was skipped or ended as `f` names.
pub proof fn lemma_changed_by<F: Fn(&ExecutionNode) -> NodeExecutionOutcome>(
    h: F,
    f: spec_fn(Seq<char>) -> OutcomeView,
    a: ExecutionGraphView,
    b: ExecutionGraphView,
)
    requires
        answers_by(h, f),
        forall|y: Seq<char>|
            #[trigger] state_of(b.nodes, y) != state_of(a.nodes, y) ==> ran_as(h, b, y) || (state_of(b.nodes, y) is Skipped
                && cut_off(b, y)),
    ensures
        forall|y: Seq<char>|
            #[trigger] state_of(b.nodes, y) != state_of(a.nodes, y) ==> (state_of(b.nodes, y) is Skipped && cut_off(b, y))
                || view_state(f(y)) == Some(state_of(b.nodes, y)),
{
    assert forall|y: Seq<char>| #[trigger] state_of(b.nodes, y) != state_of(a.nodes, y) implies (state_of(
        b.nodes,
        y,
    ) is Skipped && cut_off(b, y)) || view_state(f(y)) == Some(state_of(b.nodes, y)) by {
        if ran_as(h, b, y) {
            let o = choose|o: NodeExecutionOutcome|
                #[trigger] answered(h, y, o) && outcome_state(o) == Some(state_of(b.nodes, y))
                    && crate::execution_graph::scheduler::kept(b, offered(o));
            lemma_answer_by(h, f, y, o);
        }
    }
}

pub open spec fn one_artifact(
    id: Seq<char>,
    producer: Seq<char>,
    kind: Seq<char>,
    summary: Seq<char>,
    refs: Seq<Seq<char>>,
) -> OutcomeView {
    OutcomeView::Succeeded(
        seq![ExecutionArtifactView {
            id: id,
            producer_node: producer,
            kind: kind,
            summary: summary,
            evidence_refs: refs,
            uncertainties: Seq::empty(),
        }],
    )
}

pub open spec fn claim_refs(p: WorkerPatchPipelineReport) -> Seq<Seq<char>> {
    let cs = p.execution.claim_report.active_claims@;
    Seq::new(cs.len(), |i: int| "claim:"@ + cs[i].worker@ + ":"@ + cs[i].file@)
}

/// The claim gate: blocked by a local overlap or a remote conflict.
pub open spec fn claim_outcome(plan: MutationExecutionGraphPlan, p: WorkerPatchPipelineReport) -> OutcomeView {
    if p.execution.claim_report.local_overlaps@.len() > 0 || p.execution.claim_report.conflicts@.len() > 0 {
        OutcomeView::Failed("file ownership overlap or remote claim conflict blocked execution"@)
    } else {
        one_artifact(
            "artifact-claim-000"@,
            plan.claim_node@,
            "file_claims"@,
            "acquired "@ + decimal(p.execution.claim_report.active_claims@.len()) + " file claim(s)"@,
            claim_refs(p),
        )
    }
}

/// The first report of the executor, if any.
pub open spec fn report_of(reports: Seq<Report>, worker: Seq<char>) -> Option<int> {
    if exists|i: int| 0 <= i < reports.len() && #[trigger] reports[i].worker@ == worker {
        Some(choose|i: int| 0 <= i < reports.len() && #[trigger] reports[i].worker@ == worker
            && forall|j: int| 0 <= j < i ==> reports[j].worker@ != worker)
    } else {
        None
    }
}

/// A work node: the executor's first report decides.
pub open spec fn work_outcome(
    p: WorkerPatchPipelineReport,
    executor: Seq<char>,
    node_id: Seq<char>,
) -> OutcomeView {
    let reports = p.execution.reports@;
    match report_of(reports, executor) {
        Some(i) => if reports[i].success {
            one_artifact(
                "artifact-"@ + node_id,
                node_id,
                "patch_proposal"@,
                reports[i].summary@,
                seq!["report:"@ + reports[i].task_id@],
            )
        } else {
            OutcomeView::Failed("worker outcome was "@ + outcome_name(reports[i].outcome))
        },
        None => OutcomeView::Failed(
            match p.execution.execution_error {
                Some(e) => e@,
                None => "executor '"@ + executor + "' submitted no successful report"@,
            },
        ),
    }
}

pub open spec fn work_refs(plan: MutationExecutionGraphPlan) -> Seq<Seq<char>> {
    let ws = plan.work_nodes@;
    Seq::new(ws.len(), |i: int| "artifact-"@ + ws[i].1@)
}

pub open spec fn review_outcome_of(plan: MutationExecutionGraphPlan, p: WorkerPatchPipelineReport) -> OutcomeView {
    if p.merge_review.status == WorkerMergeStatus::Approved {
        one_artifact(
            "artifact-review-000"@,
            plan.review_node@,
            "merge_review"@,
            "approved "@ + decimal(p.merge_review.decisions@.len()) + " structured proposal(s)"@,
            work_refs(plan),
        )
    } else {
        OutcomeView::Failed("ownership, verification, conflict, or proposal review did not approve"@)
    }
}

pub open spec fn apply_outcome(plan: MutationExecutionGraphPlan, p: WorkerPatchPipelineReport) -> OutcomeView {
    if (p.status == WorkerPatchPipelineStatus::Applied || p.status
        == WorkerPatchPipelineStatus::AppliedWithReviewFindings) && p.apply_report.failures@.len() == 0 {
        one_artifact(
            "artifact-apply-000"@,
            plan.apply_node@,
            "patch_apply"@,
            "parent PatchEngine applied "@ + decimal(p.apply_report.applied@.len()) + " operation(s)"@,
            Seq::empty(),
        )
    } else {
        OutcomeView::Failed("parent PatchEngine did not apply the complete approved proposal set"@)
    }
}

pub open spec fn release_outcome(plan: MutationExecutionGraphPlan, p: WorkerPatchPipelineReport) -> OutcomeView {
    if p.execution.release_failures@.len() == 0 {
        one_artifact(
            "artifact-release-000"@,
            plan.release_node@,
            "claim_release"@,
            "all acquired file claims were released"@,
            Seq::empty(),
        )
    } else {
        OutcomeView::Failed(decimal(p.execution.release_failures@.len()) + " file claim release(s) failed"@)
    }
}

/// The last work node with the identifier, if any.
pub open spec fn work_index(plan: MutationExecutionGraphPlan, id: Seq<char>) -> Option<int> {
    if exists|i: int| 0 <= i < plan.work_nodes@.len() && #[trigger] plan.work_nodes@[i].1@ == id {
        Some(choose|i: int| 0 <= i < plan.work_nodes@.len() && #[trigger] plan.work_nodes@[i].1@ == id
            && forall|j: int| i < j < plan.work_nodes@.len() ==> plan.work_nodes@[j].1@ != id)
    } else {
        None
    }
}

/// The recorded outcome for a node; a later gate's entry for the same
/// identifier replaces an earlier one, and a node without one is deferred.
pub open spec fn projected_outcome(
    plan: MutationExecutionGraphPlan,
    p: WorkerPatchPipelineReport,
    id: Seq<char>,
) -> OutcomeView {
    if id == plan.finalize_node@ {
        OutcomeView::Succeeded(Seq::empty())
    } else if id == plan.release_node@ {
        release_outcome(plan, p)
    } else if id == plan.apply_node@ {
        apply_outcome(plan, p)
    } else if id == plan.review_node@ {
        review_outcome_of(plan, p)
    } else if work_index(plan, id) is Some {
        let i = work_index(plan, id)->0;
        work_outcome(p, plan.work_nodes@[i].0@, id)
    } else if id == plan.claim_node@ {
        claim_outcome(plan, p)
    } else {
        OutcomeView::Deferred
    }
}

fn artifact(id: String, producer: &str, kind: &str, summary: String, refs: Vec<String>) -> (o: NodeExecutionOutcome)
    ensures
        outcome_view(o) == one_artifact(id@, producer@, kind@, summary@, strs_view(refs@)),
{
    let a = ExecutionArtifact {
        id,
        producer_node: producer.to_owned(),
        kind: kind.to_owned(),
        summary,
        evidence_refs: refs,
        uncertainties: Vec::new(),
    };
    let mut v: Vec<ExecutionArtifact> = Vec::new();
    v.push(a);
    proof {
        assert(strs_view(v@[0].uncertainties@) =~= Seq::<Seq<char>>::empty());
        assert(artifacts_view(v@) =~= seq![v@[0]@]);
    }
    NodeExecutionOutcome::Succeeded(v)
}

fn claim_outcome_exec(plan: &MutationExecutionGraphPlan, p: &WorkerPatchPipelineReport) -> (o: NodeExecutionOutcome)
    ensures
        outcome_view(o) == claim_outcome(*plan, *p),
{
    let cr = &p.execution.claim_report;
    if cr.local_overlaps.len() > 0 || cr.conflicts.len() > 0 {
        return NodeExecutionOutcome::Failed(
            "file ownership overlap or remote claim conflict blocked execution".to_owned(),
        );
    }
    let mut refs: Vec<String> = Vec::new();
    let mut i: usize = 0;
    while i < cr.active_claims.len()
        invariant
            i <= cr.active_claims.len(),
            cr == &p.execution.claim_report,
            refs@.len() == i,
            forall|q: int| 0 <= q < i ==> (#[trigger] refs@[q])@ == claim_refs(*p)[q],
        decreases cr.active_claims.len() - i,
    {
        let head = join3("claim:", cr.active_claims[i].worker.as_str(), ":");
        refs.push(join2(head.as_str(), cr.active_claims[i].file.as_str()));
        i += 1;
    }
    proof {
        assert(strs_view(refs@) =~= claim_refs(*p));
    }
    let n = decimal_string(cr.active_claims.len() as u64);
    let summary = join3("acquired ", n.as_str(), " file claim(s)");
    artifact("artifact-claim-000".to_owned(), plan.claim_node.as_str(), "file_claims", summary, refs)
}

fn first_report(reports: &Vec<Report>, worker: &str) -> (r: Option<usize>)
    ensures
        match r {
            Some(i) => report_of(reports@, worker@) == Some(i as int) && i < reports.len(),
            None => report_of(reports@, worker@) is None,
        },
{
    let mut i: usize = 0;
    while i < reports.len()
        invariant
            i <= reports.len(),
            forall|j: int| 0 <= j < i ==> reports@[j].worker@ != worker@,
        decreases reports.len() - i,
    {
        if str_eq(reports[i].worker.as_str(), worker) {
            proof {
                let c = choose|c: int| 0 <= c < reports@.len() && #[trigger] reports@[c].worker@ == worker@
                    && forall|j: int| 0 <= j < c ==> reports@[j].worker@ != worker@;
                assert(reports@[i as int].worker@ == worker@);
                if c < i {
                    assert(reports@[c].worker@ != worker@);
                }
                if c > i {
                    assert(reports@[i as int].worker@ != worker@);
                }
            }
            return Some(i);
        }
        i += 1;
    }
    None
}

fn work_outcome_exec(p: &WorkerPatchPipelineReport, executor: &str, node_id: &str) -> (o: NodeExecutionOutcome)
    ensures
        outcome_view(o) == work_outcome(*p, executor@, node_id@),
{
    match first_report(&p.execution.reports, executor) {
        Some(i) => {
            let r = &p.execution.reports[i];
            if r.success {
                let mut refs: Vec<String> = Vec::new();
                refs.push(join2("report:", r.task_id.as_str()));
                proof {
                    assert(strs_view(refs@) =~= seq!["report:"@ + r.task_id@]);
                }
                artifact(join2("artifact-", node_id), node_id, "patch_proposal", r.summary.clone(), refs)
            } else {
                NodeExecutionOutcome::Failed(join2("worker outcome was ", super::outcomes::outcome_label(r.outcome)))
            }
        },
        None => match &p.execution.execution_error {
            Some(e) => NodeExecutionOutcome::Failed(e.clone()),
            None => NodeExecutionOutcome::Failed(join3("executor '", executor, "' submitted no successful report")),
        },
    }
}

fn review_outcome_exec(plan: &MutationExecutionGraphPlan, p: &WorkerPatchPipelineReport) -> (o: NodeExecutionOutcome)
    ensures
        outcome_view(o) == review_outcome_of(*plan, *p),
{
    if p.merge_review.status == WorkerMergeStatus::Approved {
        let mut refs: Vec<String> = Vec::new();
        let mut i: usize = 0;
        while i < plan.work_nodes.len()
            invariant
                i <= plan.work_nodes.len(),
                refs@.len() == i,
                forall|q: int| 0 <= q < i ==> (#[trigger] refs@[q])@ == work_refs(*plan)[q],
            decreases plan.work_nodes.len() - i,
        {
            refs.push(join2("artifact-", plan.work_nodes[i].1.as_str()));
            i += 1;
        }
        proof {
            assert(strs_view(refs@) =~= work_refs(*plan));
        }
        let n = decimal_string(p.merge_review.decisions.len() as u64);
        let summary = join3("approved ", n.as_str(), " structured proposal(s)");
        artifact("artifact-review-000".to_owned(), plan.review_node.as_str(), "merge_review", summary, refs)
    } else {
        NodeExecutionOutcome::Failed(
            "ownership, verification, conflict, or proposal review did not approve".to_owned(),
        )
    }
}

fn apply_outcome_exec(plan: &MutationExecutionGraphPlan, p: &WorkerPatchPipelineReport) -> (o: NodeExecutionOutcome)
    ensures
        outcome_view(o) == apply_outcome(*plan, *p),
{
    let applied = p.status == WorkerPatchPipelineStatus::Applied || p.status
        == WorkerPatchPipelineStatus::AppliedWithReviewFindings;
    if applied && p.apply_report.passed() {
        let n = decimal_string(p.apply_report.applied.len() as u64);
        let summary = join3("parent PatchEngine applied ", n.as_str(), " operation(s)");
        let refs: Vec<String> = Vec::new();
        proof {
            assert(strs_view(refs@) =~= Seq::<Seq<char>>::empty());
        }
        artifact("artifact-apply-000".to_owned(), plan.apply_node.as_str(), "patch_apply", summary, refs)
    } else {
        NodeExecutionOutcome::Failed(
            "parent PatchEngine did not apply the complete approved proposal set".to_owned(),
        )
    }
}

fn release_outcome_exec(plan: &MutationExecutionGraphPlan, p: &WorkerPatchPipelineReport) -> (o: NodeExecutionOutcome)
    ensures
        outcome_view(o) == release_outcome(*plan, *p),
{
    if p.execution.release_failures.len() == 0 {
        let refs: Vec<String> = Vec::new();
        proof {
            assert(strs_view(refs@) =~= Seq::<Seq<char>>::empty());
        }
        artifact(
            "artifact-release-000".to_owned(),
            plan.release_node.as_str(),
            "claim_release",
            "all acquired file claims were released".to_owned(),
            refs,
        )
    } else {
        let n = decimal_string(p.execution.release_failures.len() as u64);
        NodeExecutionOutcome::Failed(join2(n.as_str(), " file claim release(s) failed"))
    }
}

fn last_work_node(plan: &MutationExecutionGraphPlan, id: &str) -> (r: Option<usize>)
    ensures
        match r {
            Some(i) => work_index(*plan, id@) == Some(i as int) && i < plan.work_nodes.len(),
            None => work_index(*plan, id@) is None,
        },
{
    let ws = &plan.work_nodes;
    let mut j: usize = ws.len();
    while j > 0
        invariant
            j <= ws.len(),
            ws == &plan.work_nodes,
            forall|q: int| j <= q < ws.len() ==> ws@[q].1@ != id@,
        decreases j,
    {
        if str_eq(ws[j - 1].1.as_str(), id) {
            proof {
                let i = (j - 1) as int;
                let c = choose|c: int| 0 <= c < ws@.len() && #[trigger] ws@[c].1@ == id@
                    && forall|q: int| c < q < ws@.len() ==> ws@[q].1@ != id@;
                assert(ws@[i].1@ == id@);
                if c < i {
                    assert(ws@[i].1@ != id@);
                }
                if c > i {
                    assert(ws@[c].1@ != id@);
                }
            }
            return Some(j - 1);
        }
        j -= 1;
    }
    None
}

/// The outcome the pipeline recorded for a node.
pub fn projected_outcome_for(
    plan: &MutationExecutionGraphPlan,
    pipeline: &WorkerPatchPipelineReport,
    node_id: &str,
) -> (o: NodeExecutionOutcome)
    ensures
        outcome_view(o) == projected_outcome(*plan, *pipeline, node_id@),
{
    if str_eq(node_id, plan.finalize_node.as_str()) {
        let v: Vec<ExecutionArtifact> = Vec::new();
        proof {
            assert(artifacts_view(v@) =~= Seq::<ExecutionArtifactView>::empty());
        }
        NodeExecutionOutcome::Succeeded(v)
    } else if str_eq(node_id, plan.release_node.as_str()) {
        release_outcome_exec(plan, pipeline)
    } else if str_eq(node_id, plan.apply_node.as_str()) {
        apply_outcome_exec(plan, pipeline)
    } else if str_eq(node_id, plan.review_node.as_str()) {
        review_outcome_exec(plan, pipeline)
    } else {
        match last_work_node(plan, node_id) {
            Some(i) => work_outcome_exec(pipeline, plan.work_nodes[i].0.as_str(), node_id),
            None => if str_eq(node_id, plan.claim_node.as_str()) {
                claim_outcome_exec(plan, pipeline)
            } else {
                NodeExecutionOutcome::Deferred
            },
        }
    }
}

/// The projected outcomes as a function of the node identifier.
pub open spec fn projected_fn(plan: MutationExecutionGraphPlan, p: WorkerPatchPipelineReport) -> spec_fn(
    Seq<char>,
) -> OutcomeView {
    |id: Seq<char>| projected_outcome(plan, p, id)
}

/// The suffixes of the gates' artifact identifiers.
pub open spec fn gate_tags() -> Seq<Seq<char>> {
    seq!["claim-000"@, "review-000"@, "apply-000"@, "release-000"@]
}

/// The artifact identifiers the projection records are free: no work node
/// carries a gate's name, and the graph holds no artifact under any of
/// them yet.
pub open spec fn projection_ids_free(plan: MutationExecutionGraphPlan, g: ExecutionGraphView) -> bool {
    &&& forall|k: int| 0 <= k < plan.work_nodes@.len() ==> !gate_tags().contains(#[trigger] plan.work_nodes@[k].1@)
    &&& forall|t: Seq<char>| #[trigger] gate_tags().contains(t) ==> !has_artifact_id(g.artifacts, "artifact-"@ + t)
    &&& forall|k: int|
        0 <= k < plan.work_nodes@.len() ==> !has_artifact_id(g.artifacts, "artifact-"@ + #[trigger] plan.work_nodes@[k].1@)
}

/// The suffix of the artifact identifier a node's outcome offers.
pub open spec fn projected_tag(plan: MutationExecutionGraphPlan, x: Seq<char>) -> Seq<char> {
    if x == plan.release_node@ {
        "release-000"@
    } else if x == plan.apply_node@ {
        "apply-000"@
    } else if x == plan.review_node@ {
        "review-000"@
    } else if work_index(plan, x) is Some {
        x
    } else {
        "claim-000"@
    }
}

proof fn lemma_prefix_cancel(p: Seq<char>, a: Seq<char>, b: Seq<char>)
    requires
        p + a == p + b,
    ensures
        a == b,
{
    assert((p + a).subrange(p.len() as int, (p + a).len() as int) =~= a);
    assert((p + b).subrange(p.len() as int, (p + b).len() as int) =~= b);
}

proof fn lemma_gate_literals()
    ensures
        "artifact-claim-000"@ == "artifact-"@ + "claim-000"@,
        "artifact-review-000"@ == "artifact-"@ + "review-000"@,
        "artifact-apply-000"@ == "artifact-"@ + "apply-000"@,
        "artifact-release-000"@ == "artifact-"@ + "release-000"@,
        "claim-000"@ != "review-000"@,
        "claim-000"@ != "apply-000"@,
        "claim-000"@ != "release-000"@,
        "review-000"@ != "apply-000"@,
        "review-000"@ != "release-000"@,
        "apply-000"@ != "release-000"@,
{
    reveal_strlit("artifact-");
    reveal_strlit("artifact-claim-000");
    reveal_strlit("artifact-review-000");
    reveal_strlit("artifact-apply-000");
    reveal_strlit("artifact-release-000");
    reveal_strlit("claim-000");
    reveal_strlit("review-000");
    reveal_strlit("apply-000");
    reveal_strlit("release-000");
    assert("artifact-claim-000"@ =~= "artifact-"@ + "claim-000"@);
    assert("artifact-review-000"@ =~= "artifact-"@ + "review-000"@);
    assert("artifact-apply-000"@ =~= "artifact-"@ + "apply-000"@);
    assert("artifact-release-000"@ =~= "artifact-"@ + "release-000"@);
    assert("claim-000"@[0] != "review-000"@[0]);
    assert("claim-000"@[0] != "apply-000"@[0]);
    assert("claim-000"@[0] != "release-000"@[0]);
    assert("review-000"@[0] != "apply-000"@[0]);
    assert("review-000"@[2] != "release-000"@[2]);
    assert("apply-000"@[0] != "release-000"@[0]);
}

/// What a node's projected outcome offers: nothing, or one artifact of its
/// own under its tag.
proof fn lemma_projected_shape(plan: MutationExecutionGraphPlan, p: WorkerPatchPipelineReport, x: Seq<char>)
    ensures
        view_artifacts(projected_fn(plan, p)(x)).len() > 0 ==> view_artifacts(projected_fn(plan, p)(x)).len() == 1
            && view_artifacts(projected_fn(plan, p)(x))[0].producer_node == x
            && view_artifacts(projected_fn(plan, p)(x))[0].id == "artifact-"@ + projected_tag(plan, x),
        view_artifacts(projected_fn(plan, p)(x)).len() > 0 ==> {
            ||| projected_tag(plan, x) == "release-000"@ && x == plan.release_node@
            ||| projected_tag(plan, x) == "apply-000"@ && x == plan.apply_node@
            ||| projected_tag(plan, x) == "review-000"@ && x == plan.review_node@
            ||| projected_tag(plan, x) == "claim-000"@ && x == plan.claim_node@
            ||| projected_tag(plan, x) == x && exists|k: int|
                0 <= k < plan.work_nodes@.len() && #[trigger] plan.work_nodes@[k].1@ == x
        },
{
    lemma_gate_literals();
    if work_index(plan, x) is Some && x != plan.release_node@ && x != plan.apply_node@ && x != plan.review_node@
        && x != plan.finalize_node@ {
        assert(exists|i: int| 0 <= i < plan.work_nodes@.len() && #[trigger] plan.work_nodes@[i].1@ == x);
    }
}

/// The projected outcomes fit a graph whose projection identifiers are
/// free.
proof fn lemma_projected_fit(plan: MutationExecutionGraphPlan, p: WorkerPatchPipelineReport, g: ExecutionGraphView)
    requires
        projection_ids_free(plan, g),
    ensures
        outcomes_fit(projected_fn(plan, p), g),
{
    let f = projected_fn(plan, p);
    lemma_gate_literals();
    assert(gate_tags()[0] == "claim-000"@);
    assert(gate_tags()[1] == "review-000"@);
    assert(gate_tags()[2] == "apply-000"@);
    assert(gate_tags()[3] == "release-000"@);
    assert forall|x: Seq<char>, j: int| 0 <= j < view_artifacts(f(x)).len() implies (#[trigger] view_artifacts(
        f(x),
    )[j]).producer_node == x && !has_artifact_id(g.artifacts, view_artifacts(f(x))[j].id) by {
        lemma_projected_shape(plan, p, x);
        let t = projected_tag(plan, x);
        if exists|k: int| 0 <= k < plan.work_nodes@.len() && #[trigger] plan.work_nodes@[k].1@ == x && t == x {
            let k = choose|k: int| 0 <= k < plan.work_nodes@.len() && #[trigger] plan.work_nodes@[k].1@ == x && t == x;
            assert(!has_artifact_id(g.artifacts, "artifact-"@ + plan.work_nodes@[k].1@));
        } else {
            assert(t == "release-000"@ || t == "apply-000"@ || t == "review-000"@ || t == "claim-000"@);
            assert(gate_tags().contains(t));
        }
    }
    assert forall|x: Seq<char>, y: Seq<char>, j: int, l: int|
        #![trigger view_artifacts(f(x))[j], view_artifacts(f(y))[l]]
        x != y && 0 <= j < view_artifacts(f(x)).len() && 0 <= l < view_artifacts(f(y)).len()
            implies view_artifacts(f(x))[j].id != view_artifacts(f(y))[l].id by {
        lemma_projected_shape(plan, p, x);
        lemma_projected_shape(plan, p, y);
        if view_artifacts(f(x))[j].id == view_artifacts(f(y))[l].id {
            lemma_prefix_cancel("artifact-"@, projected_tag(plan, x), projected_tag(plan, y));
            let tx = projected_tag(plan, x);
            if tx == x && exists|k: int| 0 <= k < plan.work_nodes@.len() && #[trigger] plan.work_nodes@[k].1@ == x {
                let k = choose|k: int| 0 <= k < plan.work_nodes@.len() && #[trigger] plan.work_nodes@[k].1@ == x;
                assert(!gate_tags().contains(x));
            }
            if projected_tag(plan, y) == y && exists|k: int| 0 <= k < plan.work_nodes@.len() && #[trigger] plan.work_nodes@[k].1@ == y {
                let k = choose|k: int| 0 <= k < plan.work_nodes@.len() && #[trigger] plan.work_nodes@[k].1@ == y;
                assert(!gate_tags().contains(y));
            }
        }
    }
}

/// The identifiers of a plan other than its graph.
pub open spec fn same_ids(a: MutationExecutionGraphPlan, b: MutationExecutionGraphPlan) -> bool {
    &&& a.work_nodes == b.work_nodes
    &&& a.contract_node == b.contract_node
    &&& a.claim_node == b.claim_node
    &&& a.review_node == b.review_node
    &&& a.apply_node == b.apply_node
    &&& a.release_node == b.release_node
    &&& a.finalize_node == b.finalize_node
}

proof fn lemma_started(g: crate::execution_graph::spec::ExecutionGraphView, id: Seq<char>)
    requires
        crate::execution_graph::spec::graph_wf(g),
        crate::execution_graph::spec::is_ready_id(g, id),
        g.next_sequence < u64::MAX,
    ensures
        ({
            let a = crate::execution_graph::spec::after_set(
                g,
                crate::execution_graph::spec::idx_of(g.nodes, id),
                crate::execution_graph::types::ExecutionNodeState::Running,
                None,
            );
            crate::execution_graph::spec::has_id(a.nodes, id) && state_of(a.nodes, id) is Running
        }),
{
    let i = choose|i: int| 0 <= i < g.nodes.len() && (#[trigger] g.nodes[i]).id == id
        && crate::execution_graph::spec::node_ready(g, g.nodes[i]);
    crate::execution_graph::lifecycle::lemma_idx_of(g.nodes, i);
    crate::execution_graph::lifecycle::lemma_after_set_wf(
        g,
        i,
        crate::execution_graph::types::ExecutionNodeState::Running,
        None,
    );
    assert(crate::execution_graph::spec::has_id(g.nodes, id));
}

/// Marks the contract node failed and skips everything that can no longer
/// run.
pub fn fail_mutation_contract(plan: &mut MutationExecutionGraphPlan, reason: &str) -> (r: Result<
    (),
    ExecutionGraphError,
>)
    requires
        old(plan).graph.wf(),
        old(plan).graph@.next_sequence + old(plan).graph@.nodes.len() + 2 < u64::MAX,
    ensures
        final(plan).graph.wf(),
        old(plan).graph.faithful() ==> final(plan).graph.faithful(),
        same_ids(*old(plan), *final(plan)),
        r is Ok <==> crate::execution_graph::spec::is_ready_id(old(plan).graph@, old(plan).contract_node@),
        r is Ok ==> settled(final(plan).graph@) && state_of(
            final(plan).graph@.nodes,
            old(plan).contract_node@,
        ) is Failed,
        r is Err ==> final(plan).graph@ == old(plan).graph@,
{
    let ghost g0 = plan.graph@;
    let ghost id = plan.contract_node@;
    match plan.graph.start_node(plan.contract_node.as_str()) {
        Ok(()) => {},
        Err(e) => {
            return Err(e);
        },
    }
    proof {
        lemma_started(g0, id);
    }
    let ghost g1 = plan.graph@;
    match plan.graph.fail_node(plan.contract_node.as_str(), reason) {
        Ok(()) => {},
        Err(e) => {
            proof {
                assert(false);
            }
            return Err(e);
        },
    }
    let ghost g2 = plan.graph@;
    proof {
        let i = crate::execution_graph::spec::idx_of(g1.nodes, id);
        assert(0 <= i < g1.nodes.len() && g1.nodes[i].id == id);
        crate::execution_graph::lemmas::lemma_state_of_index(g1.nodes, i);
        crate::execution_graph::lifecycle::lemma_after_set_wf(
            g1,
            i,
            crate::execution_graph::types::ExecutionNodeState::Failed,
            Some(reason@),
        );
    }
    proof {
        crate::execution_graph::lemmas::lemma_pending_count_bound(plan.graph@.nodes);
    }
    match plan.graph.settle_unreachable() {
        Ok(_) => {},
        Err(e) => {
            proof {
                assert(false);
            }
            return Err(e);
        },
    }
    proof {
        crate::execution_graph::settle::lemma_progress_keeps(g2, plan.graph@, id);
    }
    Ok(())
}

/// Starts the contract node and records that preflight passed.
pub fn complete_mutation_contract(plan: &mut MutationExecutionGraphPlan) -> (r: Result<(), ExecutionGraphError>)
    requires
        old(plan).graph.wf(),
        old(plan).graph@.next_sequence + 2 < u64::MAX,
    ensures
        final(plan).graph.wf(),
        old(plan).graph.faithful() ==> final(plan).graph.faithful(),
        same_ids(*old(plan), *final(plan)),
        !crate::execution_graph::spec::is_ready_id(old(plan).graph@, old(plan).contract_node@) ==> (r is Err
            && final(plan).graph@ == old(plan).graph@),
        r is Ok ==> state_of(final(plan).graph@.nodes, old(plan).contract_node@) is Succeeded,
        r is Ok <==> crate::execution_graph::spec::is_ready_id(old(plan).graph@, old(plan).contract_node@)
            && !crate::execution_graph::spec::has_artifact_id(
            old(plan).graph@.artifacts,
            "artifact-contract-000"@,
        ),
{
    let ghost g0 = plan.graph@;
    let ghost id = plan.contract_node@;
    match plan.graph.start_node(plan.contract_node.as_str()) {
        Ok(()) => {},
        Err(e) => {
            return Err(e);
        },
    }
    proof {
        lemma_started(g0, id);
    }
    let ghost g1 = plan.graph@;
    let mut artifacts: Vec<ExecutionArtifact> = Vec::new();
    artifacts.push(
        ExecutionArtifact {
            id: "artifact-contract-000".to_owned(),
            producer_node: plan.contract_node.clone(),
            kind: "mutation_contract".to_owned(),
            summary: "staffing, ownership, and proposal shape passed preflight".to_owned(),
            evidence_refs: Vec::new(),
            uncertainties: Vec::new(),
        },
    );
    proof {
        let av = crate::execution_graph::spec::artifacts_view(artifacts@);
        assert(av.len() == 1);
        assert(av[0].id == "artifact-contract-000"@);
        assert(av[0].producer_node == id);
        assert(g1.artifacts == g0.artifacts);
        assert(crate::execution_graph::spec::artifacts_acceptable(g1, id, av) <==> !crate::execution_graph::spec::has_artifact_id(
            g0.artifacts,
            "artifact-contract-000"@,
        ));
    }
    let r = plan.graph.complete_node(plan.contract_node.as_str(), artifacts);
    proof {
        if r is Ok {
            let i = crate::execution_graph::spec::idx_of(g1.nodes, id);
            assert(0 <= i < g1.nodes.len() && g1.nodes[i].id == id);
            crate::execution_graph::lemmas::lemma_state_of_index(g1.nodes, i);
            crate::execution_graph::lifecycle::lemma_after_set_wf(
                g1,
                i,
                crate::execution_graph::types::ExecutionNodeState::Succeeded,
                None,
            );
        }
    }
    r
}

/// Runs the graph's ready nodes with the outcomes the pipeline recorded.
/// A node the pipeline has no outcome for stays pending, and a graph left
/// with ready but unrecorded nodes is reported as stalled.
pub fn project_mutation_pipeline(
    plan: &mut MutationExecutionGraphPlan,
    pipeline: &WorkerPatchPipelineReport,
) -> (r: Result<(), ExecutionGraphError>)
    requires
        old(plan).graph.wf(),
        old(plan).graph@.next_sequence + 3 * old(plan).graph@.nodes.len() + 1 < u64::MAX,
    ensures
        final(plan).graph.wf(),
        old(plan).graph.faithful() ==> final(plan).graph.faithful(),
        progressed_from(old(plan).graph@, final(plan).graph@),
        same_ids(*old(plan), *final(plan)),
        match r {
            Ok(()) => settled(final(plan).graph@) && ready_ids(final(plan).graph@).len() == 0,
            Err(ExecutionGraphError::SchedulerStalled(d)) => settled(final(plan).graph@)
                && ready_ids(final(plan).graph@).len() > 0 && strs_view(d@) == ready_ids(
                final(plan).graph@,
            ) && forall|m: int|
                0 <= m < d@.len() ==> projected_outcome(*old(plan), *pipeline, #[trigger] d@[m]@)
                    == OutcomeView::Deferred,
            Err(e) => e is ArtifactProducerMismatch || e is DuplicateArtifact,
        },
        projection_ids_free(*old(plan), old(plan).graph@) ==> (r is Ok || (r matches Err(
            ExecutionGraphError::SchedulerStalled(_),
        ))),
        (r is Ok || (r matches Err(ExecutionGraphError::SchedulerStalled(_)))) ==> forall|y: Seq<char>|
            #[trigger] state_of(final(plan).graph@.nodes, y) != state_of(old(plan).graph@.nodes, y) ==> state_of(
                final(plan).graph@.nodes,
                y,
            ) is Skipped && cut_off(final(plan).graph@, y) || view_state(projected_outcome(*old(plan), *pipeline, y)) == Some(
                state_of(final(plan).graph@.nodes, y),
            ),
{
    let ghost p0 = *plan;
    let ghost f = projected_fn(*plan, *pipeline);
    proof {
        reveal_strlit("projection");
        assert("projection"@[0] == 'p');
        assert(!crate::text::blank("projection"@));
    }
    let mut graph = match ExecutionGraph::new("projection") {
        Ok(g) => g,
        Err(_) => {
            proof {
                assert(false);
            }
            return Ok(());
        },
    };
    std::mem::swap(&mut graph, &mut plan.graph);
    let ghost g0 = graph@;
    let ghost hg;
    let schedule = {
        let ids: &MutationExecutionGraphPlan = plan;
        let h = |node: &ExecutionNode| -> (o: NodeExecutionOutcome)
            ensures
                outcome_view(o) == projected_outcome(*ids, *pipeline, node.id@),
            { projected_outcome_for(ids, pipeline, node.id.as_str()) };
        proof {
            hg = h;
            assert(answers_by(h, f));
            if projection_ids_free(p0, g0) {
                lemma_projected_fit(p0, *pipeline, g0);
                lemma_fit_by(h, f, g0);
            }
        }
        graph.run_ready(h)
    };
    std::mem::swap(&mut graph, &mut plan.graph);
    match schedule {
        Ok(report) => {
            proof {
                lemma_changed_by(hg, f, g0, plan.graph@);
                lemma_deferred_by(hg, f, report.deferred_nodes@);
            }
            if report.stalled {
                Err(ExecutionGraphError::SchedulerStalled(report.deferred_nodes))
            } else {
                Ok(())
            }
        },
        Err(e) => Err(e),
    }
}

} // verus!
