//! The mathematical model of an execution graph: its view, readiness, the
//! replay of its transition history, reachability and well-formedness.
use vstd::prelude::*;
use crate::text::{blank, seq_lt};
use super::types::{
    state_is_terminal, ExecutionArtifact, ExecutionArtifactView, ExecutionEdge,
    ExecutionEdgeView, ExecutionEffectExpectationView, ExecutionEffectIntent,
    ExecutionEffectIntentView, ExecutionNode, ExecutionNodeState, ExecutionNodeView,
    ExecutionReconciliation, ExecutionReconciliationDecision, ExecutionReconciliationView,
    ExecutionTransition, ExecutionTransitionView,
};

verus! {

#[verifier::ext_equal]
pub struct ExecutionGraphView {
    pub task_id: Seq<char>,
    pub nodes: Seq<ExecutionNodeView>,
    pub edges: Seq<ExecutionEdgeView>,
    pub artifacts: Seq<ExecutionArtifactView>,
    pub transitions: Seq<ExecutionTransitionView>,
    pub reconciliations: Seq<ExecutionReconciliationView>,
    pub effect_intents: Seq<ExecutionEffectIntentView>,
    pub next_sequence: nat,
}

pub open spec fn nodes_view(v: Seq<ExecutionNode>) -> Seq<ExecutionNodeView> {
    v.map_values(|n: ExecutionNode| n@)
}

pub open spec fn edges_view(v: Seq<ExecutionEdge>) -> Seq<ExecutionEdgeView> {
    v.map_values(|e: ExecutionEdge| e@)
}

pub open spec fn artifacts_view(v: Seq<ExecutionArtifact>) -> Seq<ExecutionArtifactView> {
    v.map_values(|a: ExecutionArtifact| a@)
}

pub open spec fn transitions_view(v: Seq<ExecutionTransition>) -> Seq<ExecutionTransitionView> {
    v.map_values(|t: ExecutionTransition| t@)
}

pub open spec fn reconciliations_view(v: Seq<ExecutionReconciliation>) -> Seq<
    ExecutionReconciliationView,
> {
    v.map_values(|r: ExecutionReconciliation| r@)
}

pub open spec fn intents_view(v: Seq<ExecutionEffectIntent>) -> Seq<ExecutionEffectIntentView> {
    v.map_values(|i: ExecutionEffectIntent| i@)
}

// ---- nodes -------------------------------------------------------------

/// Some node carries the identifier.
pub open spec fn has_id(nodes: Seq<ExecutionNodeView>, id: Seq<char>) -> bool {
    exists|i: int| 0 <= i < nodes.len() && (#[trigger] nodes[i]).id == id
}

/// Keys in strictly increasing order (so unique).
pub open spec fn keys_sorted(ks: Seq<Seq<char>>) -> bool {
    forall|i: int, j: int| 0 <= i < j < ks.len() ==> seq_lt(#[trigger] ks[i], #[trigger] ks[j])
}

pub open spec fn node_keys(nodes: Seq<ExecutionNodeView>) -> Seq<Seq<char>> {
    nodes.map_values(|n: ExecutionNodeView| n.id)
}

pub open spec fn artifact_keys(a: Seq<ExecutionArtifactView>) -> Seq<Seq<char>> {
    a.map_values(|x: ExecutionArtifactView| x.id)
}

pub open spec fn intent_keys(a: Seq<ExecutionEffectIntentView>) -> Seq<Seq<char>> {
    a.map_values(|x: ExecutionEffectIntentView| x.id)
}

/// The node identifiers are strictly increasing (so unique): the order in
/// which the graph lists, reports and schedules nodes.
pub open spec fn ids_sorted(nodes: Seq<ExecutionNodeView>) -> bool {
    keys_sorted(node_keys(nodes))
}

/// The state of the node with the identifier (`Pending` when absent).
pub open spec fn state_of(nodes: Seq<ExecutionNodeView>, id: Seq<char>) -> ExecutionNodeState
    decreases nodes.len(),
{
    if nodes.len() == 0 {
        ExecutionNodeState::Pending
    } else if nodes.last().id == id {
        nodes.last().state
    } else {
        state_of(nodes.drop_last(), id)
    }
}

/// Number of pending nodes.
pub open spec fn pending_count(nodes: Seq<ExecutionNodeView>) -> nat
    decreases nodes.len(),
{
    if nodes.len() == 0 {
        0
    } else {
        pending_count(nodes.drop_last()) + if nodes.last().state is Pending {
            1nat
        } else {
            0nat
        }
    }
}

/// Some node is an Apply node.
pub open spec fn has_apply(nodes: Seq<ExecutionNodeView>) -> bool {
    exists|i: int| 0 <= i < nodes.len() && (#[trigger] nodes[i]).kind is Apply
}

/// The graph a fresh task starts with.
pub open spec fn empty_graph(task_id: Seq<char>) -> ExecutionGraphView {
    ExecutionGraphView {
        task_id,
        nodes: Seq::empty(),
        edges: Seq::empty(),
        artifacts: Seq::empty(),
        transitions: Seq::empty(),
        reconciliations: Seq::empty(),
        effect_intents: Seq::empty(),
        next_sequence: 1,
    }
}

/// A node is accepted when its identifier is non-blank and fresh, and it
/// would not be a second Apply node.
pub open spec fn node_addable(g: ExecutionGraphView, n: ExecutionNodeView) -> bool {
    !blank(n.id) && !has_id(g.nodes, n.id) && !(n.kind is Apply && has_apply(g.nodes))
}

/// Some edge already joins the same two nodes.
pub open spec fn has_edge_pair(edges: Seq<ExecutionEdgeView>, from: Seq<char>, to: Seq<char>) -> bool {
    exists|k: int| 0 <= k < edges.len() && (#[trigger] edges[k]).from == from && edges[k].to == to
}

/// An edge is accepted when both ends exist, the target has not started,
/// the pair is new and the edge closes no cycle.
pub open spec fn edge_addable(g: ExecutionGraphView, e: ExecutionEdgeView) -> bool {
    &&& has_id(g.nodes, e.from)
    &&& has_id(g.nodes, e.to)
    &&& state_of(g.nodes, e.to) is Pending
    &&& !has_edge_pair(g.edges, e.from, e.to)
    &&& !reachable(g.edges, e.to, e.from)
}

/// Position of the node with the identifier.
pub open spec fn idx_of(nodes: Seq<ExecutionNodeView>, id: Seq<char>) -> int {
    choose|i: int| 0 <= i < nodes.len() && (#[trigger] nodes[i]).id == id
}

/// The graph after a node changes state, with the transition recorded.
pub open spec fn after_set(
    g: ExecutionGraphView,
    i: int,
    to: ExecutionNodeState,
    reason: Option<Seq<char>>,
) -> ExecutionGraphView {
    ExecutionGraphView {
        nodes: g.nodes.update(i, ExecutionNodeView { state: to, ..g.nodes[i] }),
        transitions: g.transitions.push(
            ExecutionTransitionView {
                sequence: g.next_sequence as u64,
                node_id: g.nodes[i].id,
                from: g.nodes[i].state,
                to,
                reason,
            },
        ),
        next_sequence: g.next_sequence + 1,
        ..g
    }
}

// ---- readiness ---------------------------------------------------------

/// An edge's prerequisite is met: its source succeeded, or, for a finally
/// edge, reached any terminal state.
pub open spec fn edge_satisfied(nodes: Seq<ExecutionNodeView>, e: ExecutionEdgeView) -> bool {
    exists|j: int|
        0 <= j < nodes.len() && (#[trigger] nodes[j]).id == e.from && (if e.kind is Finally {
            state_is_terminal(nodes[j].state)
        } else {
            nodes[j].state is Succeeded
        })
}

/// A node is ready: pending, with every incoming edge satisfied.
pub open spec fn node_ready(g: ExecutionGraphView, n: ExecutionNodeView) -> bool {
    &&& n.state is Pending
    &&& forall|k: int|
        0 <= k < g.edges.len() && (#[trigger] g.edges[k]).to == n.id ==> edge_satisfied(
            g.nodes,
            g.edges[k],
        )
}

/// Identifiers of the ready nodes among the first `n` nodes, in node order.
pub open spec fn ready_prefix(g: ExecutionGraphView, n: int) -> Seq<Seq<char>>
    decreases n,
{
    if n <= 0 {
        Seq::empty()
    } else {
        let r = ready_prefix(g, n - 1);
        if node_ready(g, g.nodes[n - 1]) {
            r.push(g.nodes[n - 1].id)
        } else {
            r
        }
    }
}

/// Identifiers of all ready nodes, in node order.
pub open spec fn ready_ids(g: ExecutionGraphView) -> Seq<Seq<char>> {
    ready_prefix(g, g.nodes.len() as int)
}

/// The node with the identifier exists and is ready.
pub open spec fn is_ready_id(g: ExecutionGraphView, id: Seq<char>) -> bool {
    exists|i: int| 0 <= i < g.nodes.len() && (#[trigger] g.nodes[i]).id == id && node_ready(g, g.nodes[i])
}

/// The graph after the listed nodes are started one after another.
pub open spec fn start_all(g: ExecutionGraphView, ids: Seq<Seq<char>>) -> ExecutionGraphView
    decreases ids.len(),
{
    if ids.len() == 0 {
        g
    } else {
        let h = start_all(g, ids.drop_last());
        after_set(h, idx_of(h.nodes, ids.last()), ExecutionNodeState::Running, None)
    }
}

/// Some artifact already carries the identifier.
pub open spec fn has_artifact_id(arts: Seq<ExecutionArtifactView>, id: Seq<char>) -> bool {
    exists|i: int| 0 <= i < arts.len() && (#[trigger] arts[i]).id == id
}

/// An artifact offered for a node is rejected when another node produced it
/// or its identifier is already recorded.
pub open spec fn artifact_rejected(g: ExecutionGraphView, node_id: Seq<char>, a: ExecutionArtifactView) -> bool {
    a.producer_node != node_id || has_artifact_id(g.artifacts, a.id)
}

/// All offered artifacts are acceptable.
pub open spec fn artifacts_acceptable(
    g: ExecutionGraphView,
    node_id: Seq<char>,
    arts: Seq<ExecutionArtifactView>,
) -> bool {
    forall|j: int| 0 <= j < arts.len() ==> !artifact_rejected(g, node_id, #[trigger] arts[j])
}

/// The artifact list after recording new artifacts: each new identifier
/// holds the last artifact offered with it; the others are kept.
pub open spec fn artifacts_merged(
    old_arts: Seq<ExecutionArtifactView>,
    new_arts: Seq<ExecutionArtifactView>,
    result: Seq<ExecutionArtifactView>,
) -> bool {
    &&& keys_sorted(artifact_keys(result))
    &&& forall|a: ExecutionArtifactView|
        #[trigger] result.contains(a) <==> ((old_arts.contains(a) && !has_artifact_id(new_arts, a.id))
            || exists|j: int|
            0 <= j < new_arts.len() && new_arts[j] == a && forall|l: int|
                j < l < new_arts.len() ==> (#[trigger] new_arts[l]).id != a.id)
}

/// A prerequisite that ended without success and without an unknown
/// effect: its non-finally dependants can never run.
pub open spec fn dead_state(s: ExecutionNodeState) -> bool {
    s is Failed || s is Skipped || s is Cancelled
}

/// A pending node with a non-finally prerequisite that is dead.
pub open spec fn node_blocked(g: ExecutionGraphView, n: ExecutionNodeView) -> bool {
    &&& n.state is Pending
    &&& exists|k: int|
        0 <= k < g.edges.len() && (#[trigger] g.edges[k]).to == n.id && !(g.edges[k].kind is Finally)
            && dead_state(state_of(g.nodes, g.edges[k].from))
}

/// No pending node is blocked.
pub open spec fn settled(g: ExecutionGraphView) -> bool {
    forall|i: int| 0 <= i < g.nodes.len() ==> !node_blocked(g, #[trigger] g.nodes[i])
}

// ---- transition history --------------------------------------------------

/// The transitions a node may take, as recorded in a history.
pub open spec fn valid_step(from: ExecutionNodeState, to: ExecutionNodeState) -> bool {
    ||| (from is Pending && to is Running)
    ||| (from is Running && to is Succeeded)
    ||| (from is Running && to is Failed)
    ||| ((from is Pending || from is Running) && to is Cancelled)
    ||| (from is Pending && to is Skipped)
    ||| (from is Running && to is RecoveryRequired)
    ||| (from is RecoveryRequired && (to is Succeeded || to is Failed))
}

/// The state a history leaves a node in.
pub open spec fn replayed_state(ts: Seq<ExecutionTransitionView>, id: Seq<char>) -> ExecutionNodeState
    decreases ts.len(),
{
    if ts.len() == 0 {
        ExecutionNodeState::Pending
    } else if ts.last().node_id == id {
        ts.last().to
    } else {
        replayed_state(ts.drop_last(), id)
    }
}

/// Every recorded transition is numbered by its position, names a node and
/// is an allowed step.
pub open spec fn history_valid(nodes: Seq<ExecutionNodeView>, ts: Seq<ExecutionTransitionView>) -> bool {
    forall|k: int|
        0 <= k < ts.len() ==> {
            &&& (#[trigger] ts[k]).sequence == k + 1
            &&& has_id(nodes, ts[k].node_id)
            &&& valid_step(ts[k].from, ts[k].to)
        }
}

/// Every recorded transition starts from the state the earlier history left.
pub open spec fn history_replays(ts: Seq<ExecutionTransitionView>) -> bool {
    forall|k: int|
        0 <= k < ts.len() ==> (#[trigger] ts[k]).from == replayed_state(ts.take(k), ts[k].node_id)
}

/// Every node's state is the state its history leaves it in.
pub open spec fn states_match_history(g: ExecutionGraphView) -> bool {
    forall|i: int|
        0 <= i < g.nodes.len() ==> (#[trigger] g.nodes[i]).state == replayed_state(
            g.transitions,
            g.nodes[i].id,
        )
}

// ---- reachability --------------------------------------------------------

pub open spec fn edge_between(edges: Seq<ExecutionEdgeView>, a: Seq<char>, b: Seq<char>) -> bool {
    exists|k: int| 0 <= k < edges.len() && (#[trigger] edges[k]).from == a && edges[k].to == b
}

/// A non-empty walk along edges.
pub open spec fn is_walk(edges: Seq<ExecutionEdgeView>, p: Seq<Seq<char>>) -> bool {
    &&& p.len() >= 1
    &&& forall|i: int| 0 <= i < p.len() - 1 ==> edge_between(edges, #[trigger] p[i], p[i + 1])
}

/// `b` can be reached from `a` (every node reaches itself).
pub open spec fn reachable(edges: Seq<ExecutionEdgeView>, a: Seq<char>, b: Seq<char>) -> bool {
    exists|p: Seq<Seq<char>>| #[trigger] is_walk(edges, p) && p[0] == a && p.last() == b
}

/// No edge closes a cycle.
pub open spec fn acyclic(edges: Seq<ExecutionEdgeView>) -> bool {
    forall|k: int| 0 <= k < edges.len() ==> !reachable(edges, (#[trigger] edges[k]).to, edges[k].from)
}

// ---- artifacts, intents, reconciliations ---------------------------------

pub open spec fn expectation_valid(e: ExecutionEffectExpectationView) -> bool {
    match e {
        ExecutionEffectExpectationView::WorkspaceFile { path, before_hash, after_hash, .. } => {
            !blank(path) && !blank(before_hash) && !blank(after_hash)
        },
        ExecutionEffectExpectationView::FileClaim { agent_id, file_path, operation, conv_id, .. } => {
            !blank(agent_id) && !blank(file_path) && !blank(operation) && conv_id > 0
        },
    }
}

pub open spec fn evidence_usable(refs: Seq<Seq<char>>) -> bool {
    refs.len() > 0 && forall|i: int| 0 <= i < refs.len() ==> !blank(#[trigger] refs[i])
}

pub open spec fn decision_target(d: ExecutionReconciliationDecision) -> ExecutionNodeState {
    match d {
        ExecutionReconciliationDecision::ConfirmedSucceeded => ExecutionNodeState::Succeeded,
        ExecutionReconciliationDecision::ConfirmedFailed => ExecutionNodeState::Failed,
    }
}

/// A reconciliation record matches the history: it carries evidence and
/// names the recorded resolution of a recovery-required node.
pub open spec fn reconciliation_matches(
    ts: Seq<ExecutionTransitionView>,
    r: ExecutionReconciliationView,
) -> bool {
    &&& !blank(r.reason)
    &&& evidence_usable(r.evidence_refs)
    &&& 1 <= r.transition_sequence <= ts.len()
    &&& ts[r.transition_sequence - 1].node_id == r.node_id
    &&& ts[r.transition_sequence - 1].from is RecoveryRequired
    &&& ts[r.transition_sequence - 1].to == decision_target(r.decision)
}

pub open spec fn reconciliations_valid(
    ts: Seq<ExecutionTransitionView>,
    rs: Seq<ExecutionReconciliationView>,
) -> bool {
    &&& forall|i: int| 0 <= i < rs.len() ==> reconciliation_matches(ts, #[trigger] rs[i])
    &&& forall|i: int, j: int|
        0 <= i < j < rs.len() ==> (#[trigger] rs[i]).transition_sequence
            != (#[trigger] rs[j]).transition_sequence
    &&& forall|k: int|
        0 <= k < ts.len() && (#[trigger] ts[k]).from is RecoveryRequired ==> exists|i: int|
            0 <= i < rs.len() && (#[trigger] rs[i]).transition_sequence == k + 1
}

// ---- well-formedness -----------------------------------------------------

/// Everything the graph keeps true between operations.
pub open spec fn graph_wf(g: ExecutionGraphView) -> bool {
    wf_core(g) && reconciliations_valid(g.transitions, g.reconciliations)
}

/// The invariant apart from the pairing of recovery resolutions with their
/// reconciliation records.
pub open spec fn wf_core(g: ExecutionGraphView) -> bool {
    &&& !blank(g.task_id)
    &&& ids_sorted(g.nodes)
    &&& forall|i: int| 0 <= i < g.nodes.len() ==> !blank(#[trigger] g.nodes[i].id)
    &&& forall|i: int, j: int|
        0 <= i < g.nodes.len() && 0 <= j < g.nodes.len() && (#[trigger] g.nodes[i]).kind is Apply
            && (#[trigger] g.nodes[j]).kind is Apply ==> i == j
    &&& forall|k: int|
        0 <= k < g.edges.len() ==> has_id(g.nodes, (#[trigger] g.edges[k]).from) && has_id(
            g.nodes,
            g.edges[k].to,
        )
    &&& forall|k: int, l: int|
        0 <= k < l < g.edges.len() ==> !((#[trigger] g.edges[k]).from == (#[trigger] g.edges[l]).from
            && g.edges[k].to == g.edges[l].to)
    &&& acyclic(g.edges)
    &&& g.next_sequence == g.transitions.len() + 1
    &&& history_valid(g.nodes, g.transitions)
    &&& keys_sorted(artifact_keys(g.artifacts))
    &&& forall|i: int|
        0 <= i < g.artifacts.len() ==> has_id(g.nodes, (#[trigger] g.artifacts[i]).producer_node)
            && state_of(g.nodes, g.artifacts[i].producer_node) is Succeeded
    &&& keys_sorted(intent_keys(g.effect_intents))
    &&& forall|i: int|
        0 <= i < g.effect_intents.len() ==> !blank((#[trigger] g.effect_intents[i]).id) && has_id(
            g.nodes,
            g.effect_intents[i].node_id,
        ) && expectation_valid(g.effect_intents[i].expectation)
}

/// The node states are exactly what the recorded history replays to. Every
/// operation keeps this, provided nodes enter the graph pending.
pub open spec fn graph_faithful(g: ExecutionGraphView) -> bool {
    history_replays(g.transitions) && states_match_history(g)
}

} // verus!
