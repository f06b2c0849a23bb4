//! Append-only execution graph for bounded multi-agent work. Nodes are work
//! units; dependency order, artifacts and terminal state live in this
//! deterministic graph.
pub mod types;
pub mod spec;
pub mod lemmas;
pub mod structure;
pub mod lifecycle;
pub mod artifacts;
pub mod settle;
pub mod reconcile;
pub mod intents;
pub mod snapshot;
pub mod restore;
pub mod recovery;
pub mod laws;
pub mod scheduler;

use vstd::prelude::*;
use self::types::{
    ExecutionArtifact, ExecutionEdge, ExecutionEffectIntent, ExecutionNode,
    ExecutionReconciliation, ExecutionTransition,
};
use self::spec::{
    artifacts_view, edges_view, graph_faithful, graph_wf, intents_view, nodes_view,
    reconciliations_view, transitions_view, ExecutionGraphView,
};

verus! {

/// The graph. Nodes, artifacts and effect intents are kept ordered by
/// identifier; edges, transitions and reconciliations in insertion order.
#[derive(Debug)]
pub struct ExecutionGraph {
    task_id: String,
    nodes: Vec<ExecutionNode>,
    edges: Vec<ExecutionEdge>,
    artifacts: Vec<ExecutionArtifact>,
    transitions: Vec<ExecutionTransition>,
    reconciliations: Vec<ExecutionReconciliation>,
    effect_intents: Vec<ExecutionEffectIntent>,
    next_sequence: u64,
}

impl View for ExecutionGraph {
    type V = ExecutionGraphView;

    closed spec fn view(&self) -> ExecutionGraphView {
        ExecutionGraphView {
            task_id: self.task_id@,
            nodes: nodes_view(self.nodes@),
            edges: edges_view(self.edges@),
            artifacts: artifacts_view(self.artifacts@),
            transitions: transitions_view(self.transitions@),
            reconciliations: reconciliations_view(self.reconciliations@),
            effect_intents: intents_view(self.effect_intents@),
            next_sequence: self.next_sequence as nat,
        }
    }
}

impl ExecutionGraph {
    /// The structural invariant every operation keeps.
    pub open spec fn wf(&self) -> bool {
        graph_wf(self@)
    }

    /// Node states agree with the recorded history.
    pub open spec fn faithful(&self) -> bool {
        graph_faithful(self@)
    }
}

} // verus!
