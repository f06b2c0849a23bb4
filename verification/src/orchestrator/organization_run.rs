//! The decisions of a read-only organization run: how each employee's
//! report is recorded, what the run concludes, and how the conclusion is
//! written into its execution graph.
use vstd::prelude::*;
use crate::agent_loop::outcome::RunOutcome;
use crate::attention::Report;
use crate::execution_graph::scheduler::executed_state;
use crate::execution_graph::settle::{cut_off, progressed_from};
use crate::execution_graph::spec::{artifacts_view, has_artifact_id, ready_ids, settled, state_of, ExecutionGraphView};
use crate::execution_graph::types::{
    strs_view, ExecutionArtifact, ExecutionArtifactView, ExecutionGraphError, ExecutionNode,
    NodeExecutionOutcome,
};
use crate::execution_graph::ExecutionGraph;
use crate::organization::types::OrganizationExecutionGraphPlan;
use crate::text::{join2, join3, str_eq};
use super::outcomes::{batch_status, outcome_label, outcome_name, report_outcomes};
use super::projection::{
    answers_by, lemma_changed_by, lemma_deferred_by, lemma_fit_by, one_artifact, outcome_view, outcomes_fit, view_artifacts, view_state,
    OutcomeView,
};
use super::types::{OrganizationExecutionStatus, WorkerExecutionStatus};

verus! {

/// How an employee's report is recorded on its work node: a successful
/// report leaves its artifact, an interrupted one cancels the node, any
/// other fails it.
pub open spec fn report_outcome(r: Report, node_id: Seq<char>) -> OutcomeView {
    if r.success {
        one_artifact(
            "artifact-"@ + node_id,
            node_id,
            "worker_report"@,
            r.summary@,
            seq!["report:"@ + r.task_id@],
        )
    } else if r.outcome is Interrupted {
        OutcomeView::Cancelled("worker interrupted by task cancellation"@)
    } else {
        OutcomeView::Failed("worker outcome was "@ + outcome_name(r.outcome))
    }
}

pub fn worker_report_outcome(report: &Report, node_id: &str) -> (o: NodeExecutionOutcome)
    ensures
        outcome_view(o) == report_outcome(*report, node_id@),
{
    if report.success {
        let mut refs: Vec<String> = Vec::new();
        refs.push(join2("report:", report.task_id.as_str()));
        let mut v: Vec<ExecutionArtifact> = Vec::new();
        v.push(
            ExecutionArtifact {
                id: join2("artifact-", node_id),
                producer_node: node_id.to_owned(),
                kind: "worker_report".to_owned(),
                summary: report.summary.clone(),
                evidence_refs: refs,
                uncertainties: Vec::new(),
            },
        );
        proof {
            assert(strs_view(v@[0].evidence_refs@) =~= seq!["report:"@ + report.task_id@]);
            assert(strs_view(v@[0].uncertainties@) =~= Seq::<Seq<char>>::empty());
            assert(artifacts_view(v@) =~= seq![v@[0]@]);
        }
        NodeExecutionOutcome::Succeeded(v)
    } else if report.outcome == RunOutcome::Interrupted {
        NodeExecutionOutcome::Cancelled("worker interrupted by task cancellation".to_owned())
    } else {
        NodeExecutionOutcome::Failed(join2("worker outcome was ", outcome_label(report.outcome)))
    }
}

pub open spec fn cancelled_message() -> Seq<char> {
    "cancelled by user"@
}

/// The run's error after an employee failed: cancellation when the task
/// was cancelled, else the employee and its outcome.
pub fn worker_failure_error(worker: &str, outcome: RunOutcome, cancelled: bool) -> (e: String)
    ensures
        e@ == if cancelled {
            cancelled_message()
        } else {
            "worker '"@ + worker@ + "' failed: "@ + outcome_name(outcome)
        },
{
    if cancelled {
        "cancelled by user".to_owned()
    } else {
        join3("worker '", worker, "' failed: ").concat(outcome_label(outcome))
    }
}

/// The run's status: cancelled by the user, else what the reports show.
pub open spec fn organization_status_of(outcomes: Seq<RunOutcome>, error: Option<Seq<char>>) -> OrganizationExecutionStatus {
    if error == Some(cancelled_message()) {
        OrganizationExecutionStatus::Cancelled
    } else {
        match batch_status(outcomes, error is Some) {
            WorkerExecutionStatus::Completed => OrganizationExecutionStatus::Completed,
            WorkerExecutionStatus::Submitted => OrganizationExecutionStatus::Submitted,
            WorkerExecutionStatus::WorkerFailed => OrganizationExecutionStatus::WorkerFailed,
            _ => OrganizationExecutionStatus::Blocked,
        }
    }
}

pub fn organization_status(reports: &Vec<Report>, execution_error: Option<&str>) -> (s: OrganizationExecutionStatus)
    ensures
        s == organization_status_of(report_outcomes(reports@), match execution_error {
            Some(e) => Some(e@),
            None => None,
        }),
{
    let cancelled = match execution_error {
        Some(e) => str_eq(e, "cancelled by user"),
        None => false,
    };
    if cancelled {
        return OrganizationExecutionStatus::Cancelled;
    }
    match super::outcomes::classify_worker_reports(reports, execution_error) {
        WorkerExecutionStatus::Completed => OrganizationExecutionStatus::Completed,
        WorkerExecutionStatus::Submitted => OrganizationExecutionStatus::Submitted,
        WorkerExecutionStatus::WorkerFailed => OrganizationExecutionStatus::WorkerFailed,
        WorkerExecutionStatus::BlockedBeforeExecution | WorkerExecutionStatus::CompletedWithReviewFindings => {
            OrganizationExecutionStatus::Blocked
        },
    }
}

/// The status word the finished task is announced with.
pub open spec fn terminal_word(s: OrganizationExecutionStatus) -> Seq<char> {
    match s {
        OrganizationExecutionStatus::AwaitingManager => "awaiting_manager"@,
        OrganizationExecutionStatus::Blocked => "blocked"@,
        OrganizationExecutionStatus::Completed => "accepted"@,
        OrganizationExecutionStatus::Submitted => "submitted"@,
        OrganizationExecutionStatus::Cancelled => "cancelled"@,
        OrganizationExecutionStatus::WorkerFailed => "worker_failed"@,
    }
}

pub fn terminal_status_label(s: OrganizationExecutionStatus) -> (w: &'static str)
    ensures
        w@ == terminal_word(s),
{
    match s {
        OrganizationExecutionStatus::AwaitingManager => "awaiting_manager",
        OrganizationExecutionStatus::Blocked => "blocked",
        OrganizationExecutionStatus::Completed => "accepted",
        OrganizationExecutionStatus::Submitted => "submitted",
        OrganizationExecutionStatus::Cancelled => "cancelled",
        OrganizationExecutionStatus::WorkerFailed => "worker_failed",
    }
}

pub open spec fn decision_refs(plan: OrganizationExecutionGraphPlan) -> Seq<Seq<char>> {
    let ws = plan.work_nodes@;
    Seq::new(ws.len(), |i: int| "artifact-"@ + ws[i].1@)
}

/// The decision gate passes a completed or submitted run, citing every
/// work artifact, and rejects any other.
pub open spec fn decision_outcome(plan: OrganizationExecutionGraphPlan, s: OrganizationExecutionStatus) -> OutcomeView {
    if s == OrganizationExecutionStatus::Completed || s == OrganizationExecutionStatus::Submitted {
        one_artifact(
            "artifact-decision-000"@,
            plan.decide_node@,
            "decision"@,
            "all required work artifacts passed the deterministic completion gate"@,
            decision_refs(plan),
        )
    } else {
        OutcomeView::Failed("deterministic completion gate rejected the submitted artifacts"@)
    }
}

/// The recorded outcome for a node at the end of the run: the finalize
/// node's entry replaces the decision's when they share an identifier;
/// any other node is left pending.
pub open spec fn closing_outcome(plan: OrganizationExecutionGraphPlan, s: OrganizationExecutionStatus, id: Seq<char>) -> OutcomeView {
    if id == plan.finalize_node@ {
        OutcomeView::Succeeded(Seq::empty())
    } else if id == plan.decide_node@ {
        decision_outcome(plan, s)
    } else {
        OutcomeView::Deferred
    }
}

/// The closing outcomes as a function of the node identifier.
pub open spec fn closing_fn(plan: OrganizationExecutionGraphPlan, s: OrganizationExecutionStatus) -> spec_fn(Seq<char>) -> OutcomeView {
    |id: Seq<char>| closing_outcome(plan, s, id)
}

/// The closing outcomes fit a graph that holds no decision artifact yet.
proof fn lemma_closing_fit(plan: OrganizationExecutionGraphPlan, s: OrganizationExecutionStatus, g: ExecutionGraphView)
    requires
        !has_artifact_id(g.artifacts, "artifact-decision-000"@),
    ensures
        outcomes_fit(closing_fn(plan, s), g),
{
    let f = closing_fn(plan, s);
    assert forall|x: Seq<char>| #[trigger] view_artifacts(f(x)).len() > 0 implies x == plan.decide_node@
        && view_artifacts(f(x)) == seq![ExecutionArtifactView {
            id: "artifact-decision-000"@,
            producer_node: plan.decide_node@,
            kind: "decision"@,
            summary: "all required work artifacts passed the deterministic completion gate"@,
            evidence_refs: decision_refs(plan),
            uncertainties: Seq::empty(),
        }] by {
    }
    assert forall|x: Seq<char>, j: int| 0 <= j < view_artifacts(f(x)).len() implies (#[trigger] view_artifacts(
        f(x),
    )[j]).producer_node == x && !has_artifact_id(g.artifacts, view_artifacts(f(x))[j].id) by {
        assert(view_artifacts(f(x)).len() > 0);
    }
    assert forall|x: Seq<char>, y: Seq<char>, j: int, l: int|
        #![trigger view_artifacts(f(x))[j], view_artifacts(f(y))[l]]
        x != y && 0 <= j < view_artifacts(f(x)).len() && 0 <= l < view_artifacts(f(y)).len()
            implies view_artifacts(f(x))[j].id != view_artifacts(f(y))[l].id by {
        assert(view_artifacts(f(x)).len() > 0);
        assert(view_artifacts(f(y)).len() > 0);
    }
}

pub fn closing_outcome_for(plan: &OrganizationExecutionGraphPlan, status: OrganizationExecutionStatus, node_id: &str) -> (o: NodeExecutionOutcome)
    ensures
        outcome_view(o) == closing_outcome(*plan, status, node_id@),
{
    if str_eq(node_id, plan.finalize_node.as_str()) {
        let v: Vec<ExecutionArtifact> = Vec::new();
        proof {
            assert(artifacts_view(v@) =~= Seq::<ExecutionArtifactView>::empty());
        }
        return NodeExecutionOutcome::Succeeded(v);
    }
    if !str_eq(node_id, plan.decide_node.as_str()) {
        return NodeExecutionOutcome::Deferred;
    }
    if status == OrganizationExecutionStatus::Completed || status == OrganizationExecutionStatus::Submitted {
        let mut refs: Vec<String> = Vec::new();
        let mut i: usize = 0;
        while i < plan.work_nodes.len()
            invariant
                i <= plan.work_nodes.len(),
                refs@.len() == i,
                forall|q: int| 0 <= q < i ==> (#[trigger] refs@[q])@ == decision_refs(*plan)[q],
            decreases plan.work_nodes.len() - i,
        {
            refs.push(join2("artifact-", plan.work_nodes[i].1.as_str()));
            i += 1;
        }
        proof {
            assert(strs_view(refs@) =~= decision_refs(*plan));
        }
        let mut v: Vec<ExecutionArtifact> = Vec::new();
        v.push(
            ExecutionArtifact {
                id: "artifact-decision-000".to_owned(),
                producer_node: plan.decide_node.clone(),
                kind: "decision".to_owned(),
                summary: "all required work artifacts passed the deterministic completion gate".to_owned(),
                evidence_refs: refs,
                uncertainties: Vec::new(),
            },
        );
        proof {
            assert(strs_view(v@[0].uncertainties@) =~= Seq::<Seq<char>>::empty());
            assert(artifacts_view(v@) =~= seq![v@[0]@]);
        }
        NodeExecutionOutcome::Succeeded(v)
    } else {
        NodeExecutionOutcome::Failed("deterministic completion gate rejected the submitted artifacts".to_owned())
    }
}

/// Runs the decision and finalize nodes with the run's conclusion; nodes
/// with no conclusion stay pending and a remaining ready node is reported
/// as a stall.
pub fn close_organization_graph(
    plan: &mut OrganizationExecutionGraphPlan,
    status: OrganizationExecutionStatus,
) -> (r: Result<(), ExecutionGraphError>)
    requires
        old(plan).graph.wf(),
        old(plan).graph@.next_sequence + 3 * old(plan).graph@.nodes.len() + 1 < u64::MAX,
    ensures
        final(plan).graph.wf(),
        old(plan).graph.faithful() ==> final(plan).graph.faithful(),
        progressed_from(old(plan).graph@, final(plan).graph@),
        final(plan).work_nodes == old(plan).work_nodes,
        final(plan).decide_node == old(plan).decide_node,
        final(plan).finalize_node == old(plan).finalize_node,
        match r {
            Ok(()) => settled(final(plan).graph@) && ready_ids(final(plan).graph@).len() == 0,
            Err(ExecutionGraphError::SchedulerStalled(d)) => settled(final(plan).graph@)
                && ready_ids(final(plan).graph@).len() > 0 && strs_view(d@) == ready_ids(
                final(plan).graph@,
            ) && forall|m: int|
                0 <= m < d@.len() ==> closing_outcome(*old(plan), status, #[trigger] d@[m]@)
                    == OutcomeView::Deferred,
            Err(e) => e is ArtifactProducerMismatch || e is DuplicateArtifact,
        },
        !has_artifact_id(old(plan).graph@.artifacts, "artifact-decision-000"@) ==> (r is Ok || (r matches Err(
            ExecutionGraphError::SchedulerStalled(_),
        ))),
        (r is Ok || (r matches Err(ExecutionGraphError::SchedulerStalled(_)))) ==> forall|y: Seq<char>|
            #[trigger] state_of(final(plan).graph@.nodes, y) != state_of(old(plan).graph@.nodes, y) ==> state_of(
                final(plan).graph@.nodes,
                y,
            ) is Skipped && cut_off(final(plan).graph@, y) || view_state(closing_outcome(*old(plan), status, y)) == Some(
                state_of(final(plan).graph@.nodes, y),
            ),
{
    let ghost p0 = *plan;
    let ghost f = closing_fn(*plan, status);
    proof {
        reveal_strlit("closing");
        assert("closing"@[0] == 'c');
        assert(!crate::text::blank("closing"@));
    }
    let mut graph = match ExecutionGraph::new("closing") {
        Ok(g) => g,
        Err(_) => {
            proof {
                assert(false);
            }
            return Ok(());
        },
    };
    std::mem::swap(&mut graph, &mut plan.graph);
    let ghost g0 = graph@;
    let ghost hg;
    let schedule = {
        let ids: &OrganizationExecutionGraphPlan = plan;
        let h = |node: &ExecutionNode| -> (o: NodeExecutionOutcome)
            ensures
                outcome_view(o) == closing_outcome(*ids, status, node.id@),
            { closing_outcome_for(ids, status, node.id.as_str()) };
        proof {
            hg = h;
            assert(answers_by(h, f));
            if !has_artifact_id(g0.artifacts, "artifact-decision-000"@) {
                lemma_closing_fit(p0, status, g0);
                lemma_fit_by(h, f, g0);
            }
        }
        graph.run_ready(h)
    };
    std::mem::swap(&mut graph, &mut plan.graph);
    match schedule {
        Ok(report) => {
            proof {
                lemma_changed_by(hg, f, g0, plan.graph@);
                lemma_deferred_by(hg, f, report.deferred_nodes@);
            }
            if report.stalled {
                Err(ExecutionGraphError::SchedulerStalled(report.deferred_nodes))
            } else {
                Ok(())
            }
        },
        Err(e) => Err(e),
    }
}

proof fn lemma_decide_started(g: crate::execution_graph::spec::ExecutionGraphView, id: Seq<char>)
    requires
        crate::execution_graph::spec::graph_wf(g),
        crate::execution_graph::spec::is_ready_id(g, id),
        g.next_sequence < u64::MAX,
    ensures
        ({
            let a = crate::execution_graph::spec::after_set(
                g,
                crate::execution_graph::spec::idx_of(g.nodes, id),
                crate::execution_graph::types::ExecutionNodeState::Running,
                None,
            );
            crate::execution_graph::spec::has_id(a.nodes, id) && crate::execution_graph::spec::state_of(a.nodes, id) is Running
        }),
{
    let i = choose|i: int| 0 <= i < g.nodes.len() && (#[trigger] g.nodes[i]).id == id
        && crate::execution_graph::spec::node_ready(g, g.nodes[i]);
    crate::execution_graph::lifecycle::lemma_idx_of(g.nodes, i);
    crate::execution_graph::lifecycle::lemma_after_set_wf(
        g,
        i,
        crate::execution_graph::types::ExecutionNodeState::Running,
        None,
    );
    assert(crate::execution_graph::spec::has_id(g.nodes, id));
}

/// A staffing decision that cannot run fails the decision node and skips
/// everything behind it.
pub fn block_organization_staffing(plan: &mut OrganizationExecutionGraphPlan) -> (r: Result<(), ExecutionGraphError>)
    requires
        old(plan).graph.wf(),
        old(plan).graph@.next_sequence + old(plan).graph@.nodes.len() + 2 < u64::MAX,
    ensures
        final(plan).graph.wf(),
        old(plan).graph.faithful() ==> final(plan).graph.faithful(),
        final(plan).work_nodes == old(plan).work_nodes,
        final(plan).decide_node == old(plan).decide_node,
        final(plan).finalize_node == old(plan).finalize_node,
        r is Ok <==> crate::execution_graph::spec::is_ready_id(old(plan).graph@, old(plan).decide_node@),
        r is Ok ==> settled(final(plan).graph@) && crate::execution_graph::spec::state_of(
            final(plan).graph@.nodes,
            old(plan).decide_node@,
        ) is Failed,
        r is Err ==> final(plan).graph@ == old(plan).graph@,
{
    let ghost g0 = plan.graph@;
    let ghost id = plan.decide_node@;
    match plan.graph.start_node(plan.decide_node.as_str()) {
        Ok(()) => {},
        Err(e) => {
            return Err(e);
        },
    }
    proof {
        lemma_decide_started(g0, id);
    }
    let ghost g1 = plan.graph@;
    match plan.graph.fail_node(plan.decide_node.as_str(), "staffing contract blocked execution") {
        Ok(()) => {},
        Err(e) => {
            proof {
                assert(false);
            }
            return Err(e);
        },
    }
    let ghost g2 = plan.graph@;
    proof {
        let i = crate::execution_graph::spec::idx_of(g1.nodes, id);
        assert(0 <= i < g1.nodes.len() && g1.nodes[i].id == id);
        crate::execution_graph::lemmas::lemma_state_of_index(g1.nodes, i);
        crate::execution_graph::lifecycle::lemma_after_set_wf(
            g1,
            i,
            crate::execution_graph::types::ExecutionNodeState::Failed,
            Some("staffing contract blocked execution"@),
        );
    }
    proof {
        crate::execution_graph::lemmas::lemma_pending_count_bound(plan.graph@.nodes);
    }
    match plan.graph.settle_unreachable() {
        Ok(_) => {},
        Err(e) => {
            proof {
                assert(false);
            }
            return Err(e);
        },
    }
    proof {
        crate::execution_graph::settle::lemma_progress_keeps(g2, plan.graph@, id);
    }
    Ok(())
}

pub open spec fn work_ids(plan: OrganizationExecutionGraphPlan) -> Seq<Seq<char>> {
    plan.work_nodes@.map_values(|w: (String, String)| w.1@)
}

/// Every work node can be cancelled in turn: each is listed once, exists,
/// and has not yet finished.
pub open spec fn work_cancellable(g: crate::execution_graph::spec::ExecutionGraphView, ids: Seq<Seq<char>>) -> bool {
    &&& forall|a: int, b: int| 0 <= a < b < ids.len() ==> ids[a] != ids[b]
    &&& forall|q: int|
        0 <= q < ids.len() ==> crate::execution_graph::spec::has_id(g.nodes, #[trigger] ids[q]) && (
        crate::execution_graph::spec::state_of(g.nodes, ids[q]) is Pending
            || crate::execution_graph::spec::state_of(g.nodes, ids[q]) is Running)
}

pub open spec fn cancelled_before(ids: Seq<Seq<char>>, i: int, x: Seq<char>) -> bool {
    exists|q: int| 0 <= q < i && ids[q] == x
}

/// A worker whose tools break the read-only boundary cancels every work
/// node, and everything behind them is skipped. Cancelling stops at the
/// first work node that cannot be cancelled.
pub fn cancel_organization_work(plan: &mut OrganizationExecutionGraphPlan, reason: &str) -> (r: Result<(), ExecutionGraphError>)
    requires
        old(plan).graph.wf(),
        old(plan).graph@.next_sequence + old(plan).graph@.nodes.len() + old(plan).work_nodes@.len() + 1 < u64::MAX,
    ensures
        final(plan).graph.wf(),
        old(plan).graph.faithful() ==> final(plan).graph.faithful(),
        final(plan).work_nodes == old(plan).work_nodes,
        final(plan).decide_node == old(plan).decide_node,
        final(plan).finalize_node == old(plan).finalize_node,
        final(plan).graph@.nodes.len() == old(plan).graph@.nodes.len(),
        r is Ok <==> work_cancellable(old(plan).graph@, work_ids(*old(plan))),
        r is Ok ==> settled(final(plan).graph@) && forall|q: int|
            0 <= q < work_ids(*old(plan)).len() ==> crate::execution_graph::spec::state_of(
                final(plan).graph@.nodes,
                #[trigger] work_ids(*old(plan))[q],
            ) is Cancelled,
{
    let ghost ids = work_ids(*plan);
    let ghost n0 = plan.graph@.nodes.len();
    let ghost s0 = plan.graph@.next_sequence;
    let ghost faithful0 = plan.graph.faithful();
    let ghost g0 = plan.graph@;
    let mut i: usize = 0;
    while i < plan.work_nodes.len()
        invariant
            i <= plan.work_nodes@.len(),
            plan.graph.wf(),
            g0 == old(plan).graph@,
            crate::execution_graph::spec::graph_wf(g0),
            faithful0 ==> plan.graph.faithful(),
            faithful0 == old(plan).graph.faithful(),
            n0 == old(plan).graph@.nodes.len(),
            ids == work_ids(*plan),
            ids == work_ids(*old(plan)),
            plan.graph@.nodes.len() == n0,
            plan.graph@.next_sequence <= s0 + i,
            s0 + n0 + plan.work_nodes@.len() + 1 < u64::MAX,
            plan.work_nodes == old(plan).work_nodes,
            plan.decide_node == old(plan).decide_node,
            plan.finalize_node == old(plan).finalize_node,
            forall|q: int| 0 <= q < i ==> crate::execution_graph::spec::state_of(plan.graph@.nodes, #[trigger] ids[q]) is Cancelled,
            forall|a: int, b: int| 0 <= a < b < i ==> ids[a] != ids[b],
            forall|q: int|
                0 <= q < i ==> crate::execution_graph::spec::has_id(g0.nodes, #[trigger] ids[q]) && (
                crate::execution_graph::spec::state_of(g0.nodes, ids[q]) is Pending
                    || crate::execution_graph::spec::state_of(g0.nodes, ids[q]) is Running),
            forall|k: int| 0 <= k < n0 ==> (#[trigger] plan.graph@.nodes[k]).id == g0.nodes[k].id,
            forall|k: int|
                0 <= k < n0 && !cancelled_before(ids, i as int, g0.nodes[k].id) ==> (#[trigger] plan.graph@.nodes[k]).state
                    == g0.nodes[k].state,
        decreases plan.work_nodes@.len() - i,
    {
        let ghost g1 = plan.graph@;
        let ghost id = ids[i as int];
        proof {
            assert(plan.work_nodes@[i as int].1@ == id);
            crate::execution_graph::lemmas::lemma_state_of_lookup(g1.nodes, id);
            crate::execution_graph::lemmas::lemma_state_of_lookup(g0.nodes, id);
        }
        match plan.graph.cancel_node(plan.work_nodes[i].1.as_str(), reason) {
            Ok(()) => {},
            Err(e) => {
                proof {
                    if cancelled_before(ids, i as int, id) {
                        let q = choose|q: int| 0 <= q < i && ids[q] == id;
                        assert(ids[q] == ids[i as int]);
                    } else {
                        if crate::execution_graph::spec::has_id(g0.nodes, id) {
                            let m = choose|m: int| 0 <= m < g0.nodes.len() && (#[trigger] g0.nodes[m]).id == id;
                            assert(g1.nodes[m].id == id);
                            assert(g1.nodes[m].state == g0.nodes[m].state);
                        } else {
                            assert(!crate::execution_graph::spec::has_id(g1.nodes, id)) by {
                                if crate::execution_graph::spec::has_id(g1.nodes, id) {
                                    let m = choose|m: int| 0 <= m < g1.nodes.len() && (#[trigger] g1.nodes[m]).id == id;
                                    assert(g0.nodes[m].id == id);
                                }
                            }
                        }
                        assert(!(crate::execution_graph::spec::has_id(g0.nodes, ids[i as int]) && (
                        crate::execution_graph::spec::state_of(g0.nodes, ids[i as int]) is Pending
                            || crate::execution_graph::spec::state_of(g0.nodes, ids[i as int]) is Running)));
                    }
                }
                return Err(e);
            },
        }
        proof {
            let k = crate::execution_graph::spec::idx_of(g1.nodes, id);
            assert(0 <= k < g1.nodes.len() && g1.nodes[k].id == id);
            let g2 = plan.graph@;
            crate::execution_graph::lemmas::lemma_state_of_lookup(g2.nodes, id);
            assert(g2.nodes[k].id == id);
            assert(g0.nodes[k].id == id);
            assert(!cancelled_before(ids, i as int, id)) by {
                if cancelled_before(ids, i as int, id) {
                    let q = choose|q: int| 0 <= q < i && ids[q] == id;
                    assert(crate::execution_graph::spec::state_of(g1.nodes, ids[q]) is Cancelled);
                }
            }
            assert(g1.nodes[k].state == g0.nodes[k].state);
            assert forall|a: int, b: int| 0 <= a < b < i + 1 implies ids[a] != ids[b] by {
                if b == i {
                    assert(!(ids[a] == id && 0 <= a < i));
                }
            }
            assert forall|m: int| 0 <= m < n0 && !cancelled_before(ids, i + 1, g0.nodes[m].id) implies (#[trigger] g2.nodes[m]).state
                == g0.nodes[m].state by {
                if m == k {
                    assert(ids[i as int] == g0.nodes[m].id);
                } else {
                    assert(g2.nodes[m] == g1.nodes[m]);
                    assert(!cancelled_before(ids, i as int, g0.nodes[m].id)) by {
                        if cancelled_before(ids, i as int, g0.nodes[m].id) {
                            let q = choose|q: int| 0 <= q < i && ids[q] == g0.nodes[m].id;
                            assert(0 <= q < i + 1 && ids[q] == g0.nodes[m].id);
                        }
                    }
                }
            }
            assert forall|m: int| 0 <= m < n0 implies (#[trigger] g2.nodes[m]).id == g0.nodes[m].id by {
                if m != k {
                    assert(g2.nodes[m] == g1.nodes[m]);
                }
            }
            assert forall|q: int| 0 <= q < i + 1 implies crate::execution_graph::spec::state_of(g2.nodes, #[trigger] ids[q]) is Cancelled by {
                if q < i {
                    let x = ids[q];
                    crate::execution_graph::lemmas::lemma_state_of_lookup(g1.nodes, x);
                    crate::execution_graph::lemmas::lemma_state_of_lookup(g2.nodes, x);
                    if crate::execution_graph::spec::has_id(g1.nodes, x) {
                        let m = choose|m: int| 0 <= m < g1.nodes.len() && (#[trigger] g1.nodes[m]).id == x;
                        if m == k {
                        } else {
                            assert(g2.nodes[m] == g1.nodes[m]);
                        }
                    }
                }
            }
        }
        i += 1;
    }
    let ghost g3 = plan.graph@;
    proof {
        crate::execution_graph::lemmas::lemma_pending_count_bound(plan.graph@.nodes);
    }
    match plan.graph.settle_unreachable() {
        Ok(_) => {},
        Err(e) => {
            proof {
                assert(false);
            }
            return Err(e);
        },
    }
    proof {
        assert forall|q: int| 0 <= q < ids.len() implies crate::execution_graph::spec::state_of(plan.graph@.nodes, #[trigger] ids[q]) is Cancelled by {
            crate::execution_graph::settle::lemma_progress_keeps(g3, plan.graph@, ids[q]);
        }
    }
    Ok(())
}

} // verus!
