//! Snapshots of the graph and their validation.
use vstd::prelude::*;
use crate::text::{blank, is_blank, seq_lt, str_eq, str_lt};
use super::ExecutionGraph;
use super::types::{
    ExecutionGraphCheckpoint, EXECUTION_GRAPH_CHECKPOINT_VERSION, ExecutionArtifact, ExecutionArtifactView, ExecutionEdge, ExecutionEdgeView,
    ExecutionEffectIntent, ExecutionEffectIntentView, ExecutionGraphSnapshot,
    ExecutionGraphSnapshotView, ExecutionNode, ExecutionNodeState, ExecutionNodeView,
    ExecutionReconciliation, ExecutionReconciliationView, ExecutionTransition,
    ExecutionTransitionView,
};
use super::spec::{
    acyclic, artifacts_view, edges_view, expectation_valid, has_id, history_replays,
    history_valid, intents_view, nodes_view, reconciliations_valid, reconciliations_view,
    replayed_state, transitions_view, ExecutionGraphView,
};

verus! {

// ---- copies ------------------------------------------------------------

pub fn clone_nodes(v: &Vec<ExecutionNode>) -> (r: Vec<ExecutionNode>)
    ensures
        nodes_view(r@) == nodes_view(v@),
{
    let mut r: Vec<ExecutionNode> = Vec::new();
    let mut i: usize = 0;
    while i < v.len()
        invariant
            i <= v@.len(),
            r@.len() == i,
            forall|j: int| 0 <= j < i ==> (#[trigger] r@[j])@ == v@[j]@,
        decreases v.len() - i,
    {
        r.push(v[i].clone());
        i += 1;
    }
    assert(nodes_view(r@) =~= nodes_view(v@));
    r
}

pub fn clone_edges(v: &Vec<ExecutionEdge>) -> (r: Vec<ExecutionEdge>)
    ensures
        edges_view(r@) == edges_view(v@),
{
    let mut r: Vec<ExecutionEdge> = Vec::new();
    let mut i: usize = 0;
    while i < v.len()
        invariant
            i <= v@.len(),
            r@.len() == i,
            forall|j: int| 0 <= j < i ==> (#[trigger] r@[j])@ == v@[j]@,
        decreases v.len() - i,
    {
        r.push(v[i].clone());
        i += 1;
    }
    assert(edges_view(r@) =~= edges_view(v@));
    r
}

pub fn clone_artifacts(v: &Vec<ExecutionArtifact>) -> (r: Vec<ExecutionArtifact>)
    ensures
        artifacts_view(r@) == artifacts_view(v@),
{
    let mut r: Vec<ExecutionArtifact> = Vec::new();
    let mut i: usize = 0;
    while i < v.len()
        invariant
            i <= v@.len(),
            r@.len() == i,
            forall|j: int| 0 <= j < i ==> (#[trigger] r@[j])@ == v@[j]@,
        decreases v.len() - i,
    {
        r.push(v[i].clone());
        i += 1;
    }
    assert(artifacts_view(r@) =~= artifacts_view(v@));
    r
}

pub fn clone_transitions(v: &Vec<ExecutionTransition>) -> (r: Vec<ExecutionTransition>)
    ensures
        transitions_view(r@) == transitions_view(v@),
{
    let mut r: Vec<ExecutionTransition> = Vec::new();
    let mut i: usize = 0;
    while i < v.len()
        invariant
            i <= v@.len(),
            r@.len() == i,
            forall|j: int| 0 <= j < i ==> (#[trigger] r@[j])@ == v@[j]@,
        decreases v.len() - i,
    {
        r.push(v[i].clone());
        i += 1;
    }
    assert(transitions_view(r@) =~= transitions_view(v@));
    r
}

pub fn clone_reconciliations(v: &Vec<ExecutionReconciliation>) -> (r: Vec<ExecutionReconciliation>)
    ensures
        reconciliations_view(r@) == reconciliations_view(v@),
{
    let mut r: Vec<ExecutionReconciliation> = Vec::new();
    let mut i: usize = 0;
    while i < v.len()
        invariant
            i <= v@.len(),
            r@.len() == i,
            forall|j: int| 0 <= j < i ==> (#[trigger] r@[j])@ == v@[j]@,
        decreases v.len() - i,
    {
        r.push(v[i].clone());
        i += 1;
    }
    assert(reconciliations_view(r@) =~= reconciliations_view(v@));
    r
}

pub fn clone_intents(v: &Vec<ExecutionEffectIntent>) -> (r: Vec<ExecutionEffectIntent>)
    ensures
        intents_view(r@) == intents_view(v@),
{
    let mut r: Vec<ExecutionEffectIntent> = Vec::new();
    let mut i: usize = 0;
    while i < v.len()
        invariant
            i <= v@.len(),
            r@.len() == i,
            forall|j: int| 0 <= j < i ==> (#[trigger] r@[j])@ == v@[j]@,
        decreases v.len() - i,
    {
        r.push(v[i].clone());
        i += 1;
    }
    assert(intents_view(r@) =~= intents_view(v@));
    r
}

// ---- the snapshot model ----------------------------------------------------

/// What a snapshot holds of a graph.
pub open spec fn snapshot_of(g: ExecutionGraphView) -> ExecutionGraphSnapshotView {
    ExecutionGraphSnapshotView {
        task_id: g.task_id,
        nodes: g.nodes,
        edges: g.edges,
        artifacts: g.artifacts,
        transitions: g.transitions,
        reconciliations: g.reconciliations,
        effect_intents: g.effect_intents,
    }
}

/// Two lists hold the same elements.
pub open spec fn same_elems<T>(a: Seq<T>, b: Seq<T>) -> bool {
    forall|x: T| #[trigger] a.contains(x) <==> b.contains(x)
}

/// A graph restored from a snapshot: the same history and edges; the same
/// nodes, artifacts and intents, listed in identifier order.
pub open spec fn restores(g: ExecutionGraphView, s: ExecutionGraphSnapshotView) -> bool {
    &&& g.task_id == s.task_id
    &&& g.nodes.len() == s.nodes.len()
    &&& same_elems(g.nodes, s.nodes)
    &&& g.edges == s.edges
    &&& same_elems(g.artifacts, s.artifacts)
    &&& g.transitions == s.transitions
    &&& g.reconciliations == s.reconciliations
    &&& same_elems(g.effect_intents, s.effect_intents)
    &&& g.next_sequence == s.transitions.len() + 1
}

/// The node part of a valid snapshot: named, unique, at most one Apply.
pub open spec fn snapshot_nodes_valid(s: ExecutionGraphSnapshotView) -> bool {
    &&& !blank(s.task_id)
    &&& forall|i: int| 0 <= i < s.nodes.len() ==> !blank(#[trigger] s.nodes[i].id)
    &&& forall|i: int, j: int| 0 <= i < j < s.nodes.len() ==> (#[trigger] s.nodes[i]).id != (#[trigger] s.nodes[j]).id
    &&& forall|i: int, j: int|
        0 <= i < s.nodes.len() && 0 <= j < s.nodes.len() && (#[trigger] s.nodes[i]).kind is Apply
            && (#[trigger] s.nodes[j]).kind is Apply ==> i == j
}

/// The edge part: edges join known nodes, pairs are unique, no cycle.
pub open spec fn snapshot_edges_valid(s: ExecutionGraphSnapshotView) -> bool {
    &&& forall|k: int|
        0 <= k < s.edges.len() ==> has_id(s.nodes, (#[trigger] s.edges[k]).from) && has_id(
            s.nodes,
            s.edges[k].to,
        )
    &&& forall|k: int, l: int|
        0 <= k < l < s.edges.len() ==> !((#[trigger] s.edges[k]).from == (#[trigger] s.edges[l]).from
            && s.edges[k].to == s.edges[l].to)
    &&& acyclic(s.edges)
}

/// The history part: the history replays, node states agree with it, and
/// every recovery resolution is reconciled.
pub open spec fn snapshot_history_valid(s: ExecutionGraphSnapshotView) -> bool {
    &&& history_valid(s.nodes, s.transitions)
    &&& history_replays(s.transitions)
    &&& forall|i: int|
        0 <= i < s.nodes.len() ==> (#[trigger] s.nodes[i]).state == replayed_state(
            s.transitions,
            s.nodes[i].id,
        )
    &&& reconciliations_valid(s.transitions, s.reconciliations)
}

/// The artifact part: producers exist and succeeded; identifiers unique.
pub open spec fn snapshot_artifacts_valid(s: ExecutionGraphSnapshotView) -> bool {
    &&& forall|i: int|
        0 <= i < s.artifacts.len() ==> has_id(s.nodes, (#[trigger] s.artifacts[i]).producer_node)
            && replayed_state(s.transitions, s.artifacts[i].producer_node) is Succeeded
    &&& forall|i: int, j: int|
        0 <= i < j < s.artifacts.len() ==> (#[trigger] s.artifacts[i]).id != (#[trigger] s.artifacts[j]).id
}

/// The intent part: named, for known nodes, with valid expectations, unique.
pub open spec fn snapshot_intents_valid(s: ExecutionGraphSnapshotView) -> bool {
    &&& forall|i: int|
        0 <= i < s.effect_intents.len() ==> !blank((#[trigger] s.effect_intents[i]).id) && has_id(
            s.nodes,
            s.effect_intents[i].node_id,
        ) && expectation_valid(s.effect_intents[i].expectation)
    &&& forall|i: int, j: int|
        0 <= i < j < s.effect_intents.len() ==> (#[trigger] s.effect_intents[i]).id
            != (#[trigger] s.effect_intents[j]).id
}

/// A snapshot that a well-formed graph whose states match its history could
/// have produced.
pub open spec fn snapshot_valid(s: ExecutionGraphSnapshotView) -> bool {
    &&& snapshot_nodes_valid(s)
    &&& snapshot_edges_valid(s)
    &&& snapshot_history_valid(s)
    &&& snapshot_artifacts_valid(s)
    &&& snapshot_intents_valid(s)
}

impl ExecutionGraph {
    /// Everything the graph holds, in its own order.
    pub fn snapshot(&self) -> (r: ExecutionGraphSnapshot)
        ensures
            r@ == snapshot_of(self@),
    {
        ExecutionGraphSnapshot {
            task_id: self.task_id.clone(),
            nodes: clone_nodes(&self.nodes),
            edges: clone_edges(&self.edges),
            artifacts: clone_artifacts(&self.artifacts),
            transitions: clone_transitions(&self.transitions),
            reconciliations: clone_reconciliations(&self.reconciliations),
            effect_intents: clone_intents(&self.effect_intents),
        }
    }

    /// The snapshot under the current checkpoint format version.
    pub fn checkpoint(&self) -> (r: ExecutionGraphCheckpoint)
        ensures
            r.schema_version == EXECUTION_GRAPH_CHECKPOINT_VERSION,
            r.graph@ == snapshot_of(self@),
    {
        ExecutionGraphCheckpoint { schema_version: EXECUTION_GRAPH_CHECKPOINT_VERSION, graph: self.snapshot() }
    }
}

} // verus!
