//! Recovering a graph from a checkpoint after the process ended.
use vstd::prelude::*;
use super::ExecutionGraph;
use super::types::{
    strs_view, ExecutionGraphCheckpoint, ExecutionGraphError, ExecutionNodeState,
    ExecutionRecoveryReport, EXECUTION_GRAPH_CHECKPOINT_VERSION, ExecutionGraphSnapshotView,
};
use super::spec::{
    after_set, graph_faithful, graph_wf, idx_of, nodes_view, ready_ids, settled,
    ExecutionGraphView,
};
use super::lemmas::lemma_state_of_index;
use super::lifecycle::lemma_idx_of;
use super::settle::{skip_all, skipped_in_order};
use super::snapshot::{restores, snapshot_valid};
use super::restore::restore_error;

verus! {

/// The reason recorded when a node left running is marked unknown.
pub open spec fn recovery_reason() -> Seq<char> {
    "process ended while node was running; external effects are unknown"@
}

/// Identifiers of the running nodes among the first `n`, in node order.
pub open spec fn running_prefix(nodes: Seq<super::types::ExecutionNodeView>, n: int) -> Seq<Seq<char>>
    decreases n,
{
    if n <= 0 {
        Seq::empty()
    } else {
        let r = running_prefix(nodes, n - 1);
        if nodes[n - 1].state is Running {
            r.push(nodes[n - 1].id)
        } else {
            r
        }
    }
}

/// The graph after the listed nodes are marked recovery-required one after
/// another.
pub open spec fn mark_all(g: ExecutionGraphView, ids: Seq<Seq<char>>) -> ExecutionGraphView
    decreases ids.len(),
{
    if ids.len() == 0 {
        g
    } else {
        let h = mark_all(g, ids.drop_last());
        after_set(
            h,
            idx_of(h.nodes, ids.last()),
            ExecutionNodeState::RecoveryRequired,
            Some(recovery_reason()),
        )
    }
}

/// `g` is what recovery makes of the snapshot `s`: the restored graph `g0`,
/// its running nodes marked recovery-required, then the nodes that can no
/// longer run skipped.
pub open spec fn recovered_from(
    g0: ExecutionGraphView,
    s: ExecutionGraphSnapshotView,
    running: Seq<Seq<char>>,
    skipped: Seq<Seq<char>>,
    g: ExecutionGraphView,
) -> bool {
    &&& restores(g0, s)
    &&& graph_wf(g0)
    &&& graph_faithful(g0)
    &&& running == running_prefix(g0.nodes, g0.nodes.len() as int)
    &&& skipped_in_order(mark_all(g0, running), skipped)
    &&& g == skip_all(mark_all(g0, running), skipped)
    &&& settled(g)
}

impl ExecutionGraph {
    /// Restores a checkpoint without running anything again. A node left
    /// running is marked recovery-required, since the process cannot know
    /// whether its external operation committed; nodes that can no longer
    /// run are skipped; the nodes ready for an explicit recovery handler are
    /// reported.
    pub fn recover_from_checkpoint(checkpoint: ExecutionGraphCheckpoint) -> (r: Result<
        (ExecutionGraph, ExecutionRecoveryReport),
        ExecutionGraphError,
    >)
        requires
            checkpoint.graph@.transitions.len() + 2 * checkpoint.graph@.nodes.len() + 2 < u64::MAX,
        ensures
            checkpoint.schema_version != EXECUTION_GRAPH_CHECKPOINT_VERSION ==> r == Err::<
                (ExecutionGraph, ExecutionRecoveryReport),
                ExecutionGraphError,
            >(ExecutionGraphError::UnsupportedCheckpointVersion(checkpoint.schema_version)),
            checkpoint.schema_version == EXECUTION_GRAPH_CHECKPOINT_VERSION ==> (r is Ok <==> snapshot_valid(
                checkpoint.graph@,
            )),
            checkpoint.schema_version == EXECUTION_GRAPH_CHECKPOINT_VERSION ==> (r matches Err(e)
                ==> restore_error(checkpoint.graph@, e)),
            r matches Ok((g, report)) ==> {
                &&& g.wf()
                &&& g.faithful()
                &&& forall|i: int| 0 <= i < g@.nodes.len() ==> !((#[trigger] g@.nodes[i]).state is Running)
                &&& strs_view(report.ready_nodes@) == ready_ids(g@)
                &&& exists|g0: ExecutionGraphView|
                    #[trigger] recovered_from(
                        g0,
                        checkpoint.graph@,
                        strs_view(report.recovery_required_nodes@),
                        strs_view(report.skipped_nodes@),
                        g@,
                    )
            },
    {
        if checkpoint.schema_version != EXECUTION_GRAPH_CHECKPOINT_VERSION {
            return Err(ExecutionGraphError::UnsupportedCheckpointVersion(checkpoint.schema_version));
        }
        let mut graph = match ExecutionGraph::validated_snapshot(&checkpoint.graph) {
            Ok(g) => g,
            Err(e) => {
                return Err(e);
            },
        };
        let ghost g0 = graph@;
        let mut running: Vec<String> = Vec::new();
        let mut j: usize = 0;
        proof {
            assert(strs_view(running@) =~= Seq::<Seq<char>>::empty());
        }
        while j < graph.nodes.len()
            invariant
                graph.wf(),
                graph.faithful(),
                graph_wf(g0),
                restores(g0, checkpoint.graph@),
                g0.nodes.len() == checkpoint.graph@.nodes.len(),
                g0.next_sequence == checkpoint.graph@.transitions.len() + 1,
                g0.nodes.len() + checkpoint.graph@.transitions.len() + g0.nodes.len() + 2 < u64::MAX,
                j <= g0.nodes.len(),
                graph@ == mark_all(g0, strs_view(running@)),
                strs_view(running@) == running_prefix(g0.nodes, j as int),
                running@.len() <= j,
                graph@.nodes.len() == g0.nodes.len(),
                graph@.nodes == nodes_view(graph.nodes@),
                graph@.next_sequence == g0.next_sequence + running@.len(),
                forall|q: int| 0 <= q < g0.nodes.len() ==> (#[trigger] graph@.nodes[q]).id == g0.nodes[q].id,
                forall|q: int| j <= q < g0.nodes.len() ==> (#[trigger] graph@.nodes[q]).state == g0.nodes[q].state,
                forall|q: int| 0 <= q < j ==> !((#[trigger] graph@.nodes[q]).state is Running),
            decreases graph.nodes.len() - j,
        {
            if graph.nodes[j].state == ExecutionNodeState::Running {
                let id = graph.nodes[j].id.clone();
                let ghost before = graph@;
                let ghost ids0 = strs_view(running@);
                proof {
                    lemma_state_of_index(before.nodes, j as int);
                    lemma_idx_of(before.nodes, j as int);
                }
                let res = graph.set_state(
                    id.as_str(),
                    ExecutionNodeState::Running,
                    ExecutionNodeState::RecoveryRequired,
                    Some("process ended while node was running; external effects are unknown".to_owned()),
                );
                proof {
                    reveal_strlit("process ended while node was running; external effects are unknown");
                    assert(res is Ok);
                }
                running.push(id);
                proof {
                    let ids1 = strs_view(running@);
                    assert(ids1 =~= ids0.push(before.nodes[j as int].id));
                    assert(ids1.drop_last() =~= ids0);
                    assert(running_prefix(g0.nodes, j + 1) == ids1);
                }
            } else {
                proof {
                    assert(graph@.nodes[j as int].state == graph.nodes@[j as int].state);
                    assert(!(g0.nodes[j as int].state is Running));
                    assert(running_prefix(g0.nodes, j + 1) == running_prefix(g0.nodes, j as int));
                }
            }
            j += 1;
        }
        let ghost g1 = graph@;
        proof {
            crate::execution_graph::lemmas::lemma_pending_count_bound(graph@.nodes);
        }
        let skipped = match graph.settle_unreachable() {
            Ok(v) => v,
            Err(e) => {
                return Err(e);
            },
        };
        let ready = graph.ready_node_ids();
        proof {
            assert forall|q: int| 0 <= q < graph@.nodes.len() implies !((#[trigger] graph@.nodes[q]).state is Running) by {
                assert(!(g1.nodes[q].state is Running));
            }
            assert(recovered_from(g0, checkpoint.graph@, strs_view(running@), strs_view(skipped@), graph@));
        }
        let report = ExecutionRecoveryReport {
            recovery_required_nodes: running,
            skipped_nodes: skipped,
            ready_nodes: ready,
        };
        proof {
            assert(recovered_from(
                g0,
                checkpoint.graph@,
                strs_view(report.recovery_required_nodes@),
                strs_view(report.skipped_nodes@),
                graph@,
            ));
            assert(exists|x: ExecutionGraphView|
                #[trigger] recovered_from(
                    x,
                    checkpoint.graph@,
                    strs_view(report.recovery_required_nodes@),
                    strs_view(report.skipped_nodes@),
                    graph@,
                ));
        }
        let ghost gv = graph@;
        let ghost rv = strs_view(report.recovery_required_nodes@);
        let ghost sv = strs_view(report.skipped_nodes@);
        let result = (graph, report);
        proof {
            assert(result.0@ == gv);
            assert(strs_view(result.1.recovery_required_nodes@) == rv);
            assert(strs_view(result.1.skipped_nodes@) == sv);
            assert(exists|x: ExecutionGraphView|
                #[trigger] recovered_from(
                    x,
                    checkpoint.graph@,
                    strs_view(result.1.recovery_required_nodes@),
                    strs_view(result.1.skipped_nodes@),
                    result.0@,
                ));
        }
        Ok(result)
    }
}

} // verus!
