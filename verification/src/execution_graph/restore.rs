//! Restoring a graph from a snapshot, checking every part of it on the way.
use vstd::prelude::*;
use crate::text::{blank, decimal, decimal_string, is_blank, join3, seq_lt, str_eq, str_lt};
use super::ExecutionGraph;
use super::types::{
    ExecutionGraphSnapshotView, ExecutionTransitionView,
    clone_opt_string, strs_view, ExecutionArtifact, ExecutionArtifactView, ExecutionEffectIntent,
    ExecutionEffectIntentView, ExecutionGraphError, ExecutionGraphSnapshot, ExecutionNode,
    ExecutionNodeState, ExecutionNodeView, ExecutionReconciliationDecision,
};
use super::spec::{
    acyclic, artifact_keys, edges_view, graph_faithful, graph_wf, ids_sorted, node_keys,
    nodes_view, reconciliations_view, transitions_view, states_match_history, wf_core, artifacts_view, decision_target, edge_between, empty_graph,
    expectation_valid, has_apply, has_edge_pair, has_id, history_replays, history_valid,
    intent_keys, intents_view, keys_sorted, reachable, reconciliation_matches,
    reconciliations_valid, replayed_state, state_of, valid_step, ExecutionGraphView,
};
use super::lemmas::{
    lemma_keys_insert, lemma_keys_scan, lemma_reach_mono, lemma_replay_push, lemma_sorted_distinct,
    lemma_state_of_lookup,
};
use super::snapshot::{
    clone_reconciliations, clone_transitions, restores, same_elems, snapshot_artifacts_valid,
    snapshot_edges_valid, snapshot_history_valid, snapshot_intents_valid, snapshot_nodes_valid,
    snapshot_valid,
};
use super::intents::validate_effect_expectation;
use super::reconcile::evidence_is_usable;

verus! {

/// The node as it was before it ran.
pub open spec fn pending_copy(n: ExecutionNodeView) -> ExecutionNodeView {
    ExecutionNodeView { state: ExecutionNodeState::Pending, ..n }
}

/// `t` holds exactly the pending copies of the nodes of `src`.
pub open spec fn copies_of(t: Seq<ExecutionNodeView>, src: Seq<ExecutionNodeView>) -> bool {
    &&& forall|j: int| 0 <= j < src.len() ==> t.contains(pending_copy(#[trigger] src[j]))
    &&& forall|x: ExecutionNodeView|
        #[trigger] t.contains(x) ==> exists|j: int| 0 <= j < src.len() && x == pending_copy(#[trigger] src[j])
}

pub proof fn lemma_insert_contains<A>(s: Seq<A>, p: int, a: A, y: A)
    requires
        0 <= p <= s.len(),
    ensures
        s.insert(p, a).contains(y) <==> (s.contains(y) || y == a),
{
    let t = s.insert(p, a);
    if t.contains(y) {
        let q = choose|q: int| 0 <= q < t.len() && t[q] == y;
        if q < p {
            assert(s[q] == y);
        } else if q > p {
            assert(s[q - 1] == y);
        }
    }
    if s.contains(y) {
        let q = choose|q: int| 0 <= q < s.len() && s[q] == y;
        if q < p {
            assert(t[q] == y);
        } else {
            assert(t[q + 1] == y);
        }
    }
    if y == a {
        assert(t[p] == y);
    }
}

pub proof fn lemma_copies_has_id(t: Seq<ExecutionNodeView>, src: Seq<ExecutionNodeView>, x: Seq<char>)
    requires
        copies_of(t, src),
    ensures
        has_id(t, x) <==> has_id(src, x),
{
    if has_id(t, x) {
        let q = choose|q: int| 0 <= q < t.len() && (#[trigger] t[q]).id == x;
        assert(t.contains(t[q]));
        let j = choose|j: int| 0 <= j < src.len() && t[q] == pending_copy(#[trigger] src[j]);
        assert(src[j].id == x);
    }
    if has_id(src, x) {
        let j = choose|j: int| 0 <= j < src.len() && (#[trigger] src[j]).id == x;
        assert(t.contains(pending_copy(src[j])));
        let q = choose|q: int| 0 <= q < t.len() && t[q] == pending_copy(src[j]);
        assert(t[q].id == x);
    }
}

pub proof fn lemma_copies_has_apply(t: Seq<ExecutionNodeView>, src: Seq<ExecutionNodeView>)
    requires
        copies_of(t, src),
    ensures
        has_apply(t) <==> has_apply(src),
{
    if has_apply(t) {
        let q = choose|q: int| 0 <= q < t.len() && (#[trigger] t[q]).kind is Apply;
        assert(t.contains(t[q]));
        let j = choose|j: int| 0 <= j < src.len() && t[q] == pending_copy(#[trigger] src[j]);
        assert(src[j].kind is Apply);
    }
    if has_apply(src) {
        let j = choose|j: int| 0 <= j < src.len() && (#[trigger] src[j]).kind is Apply;
        assert(t.contains(pending_copy(src[j])));
        let q = choose|q: int| 0 <= q < t.len() && t[q] == pending_copy(src[j]);
        assert(t[q].kind is Apply);
    }
}

pub proof fn lemma_copies_pending(t: Seq<ExecutionNodeView>, src: Seq<ExecutionNodeView>)
    requires
        copies_of(t, src),
    ensures
        forall|q: int| 0 <= q < t.len() ==> (#[trigger] t[q]).state is Pending,
{
    assert forall|q: int| 0 <= q < t.len() implies (#[trigger] t[q]).state is Pending by {
        assert(t.contains(t[q]));
    }
}

impl ExecutionGraph {
    /// The graph of the snapshot's nodes, all pending, and its edges, built
    /// with the checks of `new`, `add_node` and `add_edge`.
    fn restore_topology(s: &ExecutionGraphSnapshot) -> (r: Result<ExecutionGraph, ExecutionGraphError>)
        ensures
            r is Ok <==> snapshot_nodes_valid(s@) && snapshot_edges_valid(s@),
            r matches Ok(t) ==> t.wf() && t.faithful() && copies_of(t@.nodes, s@.nodes) && t@.nodes.len()
                == s@.nodes.len() && t@ == (
            ExecutionGraphView { nodes: t@.nodes, edges: s@.edges, ..empty_graph(s@.task_id) }),
            r matches Err(e) ==> (!snapshot_nodes_valid(s@) ==> (e is EmptyTaskId || e is EmptyNodeId
                || e is DuplicateNode || e is MultipleApplyNodes)),
            r matches Err(e) ==> (snapshot_nodes_valid(s@) ==> (e is MissingNode || e is DuplicateEdge
                || e is Cycle)),
    {
        let mut t = match ExecutionGraph::new(s.task_id.as_str()) {
            Ok(g) => g,
            Err(e) => {
                return Err(e);
            },
        };
        let ghost sn = s@.nodes;
        let mut i: usize = 0;
        proof {
            assert(sn.take(0) =~= Seq::<ExecutionNodeView>::empty());
        }
        while i < s.nodes.len()
            invariant
                t.wf(),
                t.faithful(),
                sn == s@.nodes,
                i <= sn.len(),
                copies_of(t@.nodes, sn.take(i as int)),
                t@.nodes.len() == i,
                t@ == (ExecutionGraphView { nodes: t@.nodes, ..empty_graph(s@.task_id) }),
                !blank(s@.task_id),
                forall|j: int| 0 <= j < i ==> !blank(#[trigger] sn[j].id),
                forall|j: int, l: int| 0 <= j < l < i ==> (#[trigger] sn[j]).id != (#[trigger] sn[l]).id,
                forall|j: int, l: int|
                    0 <= j < i && 0 <= l < i && (#[trigger] sn[j]).kind is Apply && (#[trigger] sn[l]).kind is Apply
                        ==> j == l,
            decreases s.nodes.len() - i,
        {
            let n = &s.nodes[i];
            let copy = ExecutionNode {
                id: n.id.clone(),
                kind: n.kind,
                objective: n.objective.clone(),
                executor: clone_opt_string(&n.executor),
                requirements: n.requirements.clone(),
                state: ExecutionNodeState::Pending,
            };
            let ghost before = t@.nodes;
            let ghost pre = sn.take(i as int);
            let ghost x = sn[i as int];
            proof {
                assert(copy@ == pending_copy(x));
                lemma_copies_has_id(before, pre, x.id);
                lemma_copies_has_apply(before, pre);
            }
            match t.add_node(copy) {
                Ok(()) => {},
                Err(e) => {
                    proof {
                        if !blank(x.id) && has_id(before, x.id) {
                            let j = choose|j: int| 0 <= j < pre.len() && (#[trigger] pre[j]).id == x.id;
                            assert(pre[j] == sn[j]);
                            assert(sn[j].id == sn[i as int].id);
                        } else if !blank(x.id) && x.kind is Apply && has_apply(before) {
                            let j = choose|j: int| 0 <= j < pre.len() && (#[trigger] pre[j]).kind is Apply;
                            assert(pre[j] == sn[j]);
                            assert(sn[j].kind is Apply && sn[i as int].kind is Apply);
                        }
                        assert(!snapshot_nodes_valid(s@));
                    }
                    return Err(e);
                },
            }
            proof {
                let p = choose|p: int|
                    0 <= p <= before.len() && t@.nodes == #[trigger] before.insert(p, pending_copy(x));
                let post = sn.take(i + 1);
                assert forall|y: ExecutionNodeView| t@.nodes.contains(y) <==> (before.contains(y) || y
                    == pending_copy(x)) by {
                    lemma_insert_contains(before, p, pending_copy(x), y);
                }
                assert forall|j: int| 0 <= j < post.len() implies t@.nodes.contains(
                    pending_copy(#[trigger] post[j]),
                ) by {
                    if j < i {
                        assert(post[j] == pre[j]);
                        assert(before.contains(pending_copy(pre[j])));
                    } else {
                        assert(post[j] == x);
                    }
                    lemma_insert_contains(before, p, pending_copy(x), pending_copy(post[j]));
                }
                assert forall|y: ExecutionNodeView| #[trigger] t@.nodes.contains(y) implies exists|j: int|
                    0 <= j < post.len() && y == pending_copy(#[trigger] post[j]) by {
                    lemma_insert_contains(before, p, pending_copy(x), y);
                    if before.contains(y) {
                        let j = choose|j: int| 0 <= j < pre.len() && y == pending_copy(#[trigger] pre[j]);
                        assert(post[j] == pre[j]);
                    } else {
                        assert(post[i as int] == x);
                    }
                }
                assert forall|j: int| 0 <= j < i + 1 implies !blank(#[trigger] sn[j].id) by {}
                assert forall|j: int, l: int| 0 <= j < l < i + 1 implies (#[trigger] sn[j]).id != (
                #[trigger] sn[l]).id by {
                    if l == i {
                        assert(pre[j] == sn[j]);
                        if sn[j].id == x.id {
                            assert(has_id(pre, x.id));
                        }
                    }
                }
                assert forall|j: int, l: int|
                    0 <= j < i + 1 && 0 <= l < i + 1 && (#[trigger] sn[j]).kind is Apply && (
                    #[trigger] sn[l]).kind is Apply implies j == l by {
                    if j < i && l == i {
                        assert(pre[j] == sn[j]);
                        assert(has_apply(pre));
                    }
                    if l < i && j == i {
                        assert(pre[l] == sn[l]);
                        assert(has_apply(pre));
                    }
                }
            }
            i += 1;
        }
        proof {
            assert(sn.take(sn.len() as int) =~= sn);
            assert(snapshot_nodes_valid(s@));
            lemma_copies_pending(t@.nodes, sn);
        }
        let ghost se = s@.edges;
        let mut k: usize = 0;
        proof {
            assert(se.take(0) =~= t@.edges);
        }
        while k < s.edges.len()
            invariant
                t.wf(),
                t.faithful(),
                sn == s@.nodes,
                se == s@.edges,
                snapshot_nodes_valid(s@),
                copies_of(t@.nodes, sn),
                t@.nodes.len() == sn.len(),
                forall|q: int| 0 <= q < t@.nodes.len() ==> (#[trigger] t@.nodes[q]).state is Pending,
                k <= se.len(),
                t@ == (ExecutionGraphView { nodes: t@.nodes, edges: se.take(k as int), ..empty_graph(s@.task_id) }),
            decreases s.edges.len() - k,
        {
            let e = s.edges[k].clone();
            let ghost ev = e@;
            let ghost before = t@;
            proof {
                assert(ev == se[k as int]);
                lemma_state_of_lookup(before.nodes, ev.to);
                lemma_copies_has_id(before.nodes, sn, ev.from);
                lemma_copies_has_id(before.nodes, sn, ev.to);
                if has_id(before.nodes, ev.to) {
                    let q = choose|q: int| 0 <= q < before.nodes.len() && (#[trigger] before.nodes[q]).id == ev.to;
                }
            }
            match t.add_edge(e) {
                Ok(()) => {},
                Err(err) => {
                    proof {
                        if !has_id(before.nodes, ev.from) || !has_id(before.nodes, ev.to) {
                        } else if has_edge_pair(before.edges, ev.from, ev.to) {
                            let q = choose|q: int| 0 <= q < before.edges.len() && (#[trigger] before.edges[q]).from == ev.from
                                && before.edges[q].to == ev.to;
                            assert(se[q] == before.edges[q]);
                        } else {
                            assert(reachable(before.edges, ev.to, ev.from));
                            assert forall|q: int| 0 <= q < before.edges.len() implies edge_between(
                                se,
                                (#[trigger] before.edges[q]).from,
                                before.edges[q].to,
                            ) by {
                                assert(se[q] == before.edges[q]);
                            }
                            lemma_reach_mono(before.edges, se, ev.to, ev.from);
                            assert(!acyclic(se));
                        }
                        assert(!snapshot_edges_valid(s@));
                    }
                    return Err(err);
                },
            }
            proof {
                assert(se.take(k + 1) =~= before.edges.push(ev));
            }
            k += 1;
        }
        proof {
            assert(se.take(se.len() as int) =~= se);
            assert forall|q: int| 0 <= q < se.len() implies has_id(sn, (#[trigger] se[q]).from) && has_id(
                sn,
                se[q].to,
            ) by {
                lemma_copies_has_id(t@.nodes, sn, se[q].from);
                lemma_copies_has_id(t@.nodes, sn, se[q].to);
            }
        }
        Ok(t)
    }
}

/// The transitions a recorded history may contain.
pub fn valid_snapshot_transition(from: ExecutionNodeState, to: ExecutionNodeState) -> (b: bool)
    ensures
        b == valid_step(from, to),
{
    match (from, to) {
        (ExecutionNodeState::Pending, ExecutionNodeState::Running) => true,
        (ExecutionNodeState::Running, ExecutionNodeState::Succeeded) => true,
        (ExecutionNodeState::Running, ExecutionNodeState::Failed) => true,
        (ExecutionNodeState::Pending, ExecutionNodeState::Cancelled) => true,
        (ExecutionNodeState::Running, ExecutionNodeState::Cancelled) => true,
        (ExecutionNodeState::Pending, ExecutionNodeState::Skipped) => true,
        (ExecutionNodeState::Running, ExecutionNodeState::RecoveryRequired) => true,
        (ExecutionNodeState::RecoveryRequired, ExecutionNodeState::Succeeded) => true,
        (ExecutionNodeState::RecoveryRequired, ExecutionNodeState::Failed) => true,
        _ => false,
    }
}

/// The name of a state, as messages print it.
pub open spec fn state_name(s: ExecutionNodeState) -> Seq<char> {
    match s {
        ExecutionNodeState::Pending => "Pending"@,
        ExecutionNodeState::Running => "Running"@,
        ExecutionNodeState::Succeeded => "Succeeded"@,
        ExecutionNodeState::Failed => "Failed"@,
        ExecutionNodeState::Skipped => "Skipped"@,
        ExecutionNodeState::Cancelled => "Cancelled"@,
        ExecutionNodeState::RecoveryRequired => "RecoveryRequired"@,
    }
}

pub fn state_label(s: ExecutionNodeState) -> (r: &'static str)
    ensures
        r@ == state_name(s),
{
    match s {
        ExecutionNodeState::Pending => "Pending",
        ExecutionNodeState::Running => "Running",
        ExecutionNodeState::Succeeded => "Succeeded",
        ExecutionNodeState::Failed => "Failed",
        ExecutionNodeState::Skipped => "Skipped",
        ExecutionNodeState::Cancelled => "Cancelled",
        ExecutionNodeState::RecoveryRequired => "RecoveryRequired",
    }
}

fn invalid(message: String) -> (e: ExecutionGraphError)
    ensures
        e is InvalidSnapshot,
{
    ExecutionGraphError::InvalidSnapshot(message)
}



/// The transition at position `m` starts where the earlier history left its
/// node.
pub open spec fn replays_at(ts: Seq<ExecutionTransitionView>, m: int) -> bool {
    ts[m].from == replayed_state(ts.take(m), ts[m].node_id)
}

/// Where the node with the identifier stands, if anywhere.
fn position_of(nodes: &Vec<ExecutionNode>, id: &str) -> (r: Option<usize>)
    ensures
        match r {
            Some(j) => j < nodes@.len() && nodes_view(nodes@)[j as int].id == id@,
            None => !has_id(nodes_view(nodes@), id@),
        },
{
    let mut j: usize = 0;
    while j < nodes.len()
        invariant
            j <= nodes@.len(),
            forall|q: int| 0 <= q < j ==> (#[trigger] nodes_view(nodes@)[q]).id != id@,
        decreases nodes.len() - j,
    {
        if str_eq(nodes[j].id.as_str(), id) {
            return Some(j);
        }
        j += 1;
    }
    None
}

fn sequence_message(got: u64, expected: u64) -> (m: String)
    ensures
        m@ == "transition sequence "@ + decimal(got as nat) + " is not expected sequence "@ + decimal(
            expected as nat,
        ),
{
    proof {
        reveal_strlit("");
    }
    join3(
        "transition sequence ",
        decimal_string(got).as_str(),
        join3(" is not expected sequence ", decimal_string(expected).as_str(), "").as_str(),
    )
}

fn replay_message(node_id: &str, from: ExecutionNodeState, to: ExecutionNodeState) -> (m: String)
    ensures
        m@ == "invalid transition replay for node '"@ + node_id@ + "' from "@ + state_name(from) + " to "@
            + state_name(to),
{
    proof {
        reveal_strlit("");
    }
    join3(
        "invalid transition replay for node '",
        node_id,
        join3("' from ", state_label(from), join3(" to ", state_label(to), "").as_str()).as_str(),
    )
}

/// One more replayed transition moves exactly its own node.
proof fn lemma_replay_step(
    nodes: Seq<ExecutionNodeView>,
    ts: Seq<super::types::ExecutionTransitionView>,
    k: int,
    j: int,
    before: Seq<ExecutionNodeState>,
    after: Seq<ExecutionNodeState>,
)
    requires
        super::spec::ids_sorted(nodes),
        0 <= k < ts.len(),
        0 <= j < nodes.len(),
        nodes[j].id == ts[k].node_id,
        before.len() == nodes.len(),
        after == before.update(j, ts[k].to),
        forall|q: int| 0 <= q < before.len() ==> #[trigger] before[q] == replayed_state(ts.take(k), nodes[q].id),
    ensures
        forall|q: int| 0 <= q < after.len() ==> #[trigger] after[q] == replayed_state(ts.take(k + 1), nodes[q].id),
{
    let pre = ts.take(k);
    assert(ts.take(k + 1) =~= pre.push(ts[k]));
    assert forall|q: int| 0 <= q < after.len() implies #[trigger] after[q] == replayed_state(
        ts.take(k + 1),
        nodes[q].id,
    ) by {
        lemma_replay_push(pre, ts[k], nodes[q].id);
        if q != j {
            lemma_sorted_distinct(nodes, q, j);
            assert(before[q] == after[q]);
        }
    }
}

/// The artifact list restored from a snapshot.
pub open spec fn artifacts_restored(v: Seq<ExecutionArtifactView>, src: Seq<ExecutionArtifactView>) -> bool {
    keys_sorted(artifact_keys(v)) && same_elems(v, src)
}

/// The intent list restored from a snapshot.
pub open spec fn intents_restored(v: Seq<ExecutionEffectIntentView>, src: Seq<ExecutionEffectIntentView>) -> bool {
    keys_sorted(intent_keys(v)) && same_elems(v, src)
}

impl ExecutionGraph {
    /// Replays the snapshot's history over the restored nodes, giving the
    /// state each node reaches.
    #[verifier::rlimit(50)]
    fn replay_history(t: &ExecutionGraph, s: &ExecutionGraphSnapshot) -> (r: Result<
        Vec<ExecutionNodeState>,
        ExecutionGraphError,
    >)
        requires
            t.wf(),
            copies_of(t@.nodes, s@.nodes),
        ensures
            r is Ok <==> history_valid(s@.nodes, s@.transitions) && history_replays(s@.transitions),
            r matches Ok(st) ==> st@.len() == t@.nodes.len() && forall|j: int|
                0 <= j < st@.len() ==> #[trigger] st@[j] == replayed_state(s@.transitions, t@.nodes[j].id),
            r matches Err(e) ==> e is InvalidSnapshot,
    {
        let ghost ts = s@.transitions;
        let mut states: Vec<ExecutionNodeState> = Vec::new();
        let mut j: usize = 0;
        while j < t.nodes.len()
            invariant
                j <= t@.nodes.len(),
                t@.nodes.len() == t.nodes@.len(),
                states@.len() == j,
                forall|q: int| 0 <= q < j ==> (#[trigger] states@[q]) is Pending,
            decreases t.nodes.len() - j,
        {
            states.push(ExecutionNodeState::Pending);
            j += 1;
        }
        let mut k: usize = 0;
        proof {
            assert(ts.take(0) =~= Seq::empty());
            assert forall|x: Seq<char>| #[trigger] has_id(t@.nodes, x) <==> has_id(s@.nodes, x) by {
                lemma_copies_has_id(t@.nodes, s@.nodes, x);
            }
        }
        let ghost tn = t@.nodes;
        proof {
            assert(ids_sorted(tn));
            assert(tn == nodes_view(t.nodes@));
        }
        while k < s.transitions.len()
            invariant
                tn == t@.nodes,
                tn == nodes_view(t.nodes@),
                ids_sorted(tn),
                forall|x: Seq<char>| #[trigger] has_id(t@.nodes, x) <==> has_id(s@.nodes, x),
                ts == s@.transitions,
                k <= ts.len(),
                states@.len() == t@.nodes.len(),
                forall|q: int|
                    0 <= q < states@.len() ==> #[trigger] states@[q] == replayed_state(ts.take(k as int), t@.nodes[q].id),
                forall|m: int| 0 <= m < k ==> (#[trigger] ts[m]).sequence == m + 1,
                forall|m: int| 0 <= m < k ==> has_id(s@.nodes, (#[trigger] ts[m]).node_id),
                forall|m: int| 0 <= m < k ==> valid_step((#[trigger] ts[m]).from, ts[m].to),
                forall|m: int| 0 <= m < k ==> #[trigger] replays_at(ts, m),
            decreases s.transitions.len() - k,
        {
            let tr = &s.transitions[k];
            proof {
                assert(tr@ == ts[k as int]);
            }
            let expected: u64 = k as u64 + 1;
            if tr.sequence != expected {
                return Err(invalid(sequence_message(tr.sequence, expected)));
            }
            let found = position_of(&t.nodes, tr.node_id.as_str());
            let j = match found {
                Some(j) => j,
                None => {
                    let m = join3("transition references missing node '", tr.node_id.as_str(), "'");
                    return Err(invalid(m));
                },
            };
            if states[j] != tr.from || !valid_snapshot_transition(tr.from, tr.to) {
                return Err(invalid(replay_message(tr.node_id.as_str(), tr.from, tr.to)));
            }
            let ghost old_states = states@;
            states.set(j, tr.to);
            proof {
                lemma_replay_step(t@.nodes, ts, k as int, j as int, old_states, states@);
                assert(has_id(t@.nodes, ts[k as int].node_id));
                assert(replays_at(ts, k as int));
            }
            k += 1;
        }
        proof {
            assert(ts.take(ts.len() as int) =~= ts);
            assert forall|m: int| 0 <= m < ts.len() implies (#[trigger] ts[m]).from == replayed_state(
                ts.take(m),
                ts[m].node_id,
            ) by {
                assert(replays_at(ts, m));
            }
        }
        Ok(states)
    }

    /// Each snapshot node carries the state its history replays to.
    fn check_node_states(t: &ExecutionGraph, s: &ExecutionGraphSnapshot, states: &Vec<ExecutionNodeState>) -> (r: Result<
        (),
        ExecutionGraphError,
    >)
        requires
            t.wf(),
            copies_of(t@.nodes, s@.nodes),
            states@.len() == t@.nodes.len(),
            forall|j: int| 0 <= j < states@.len() ==> #[trigger] states@[j] == replayed_state(s@.transitions, t@.nodes[j].id),
        ensures
            r is Ok <==> forall|i: int|
                0 <= i < s@.nodes.len() ==> (#[trigger] s@.nodes[i]).state == replayed_state(
                    s@.transitions,
                    s@.nodes[i].id,
                ),
            r matches Err(e) ==> e is InvalidSnapshot,
    {
        let ghost sn = s@.nodes;
        let mut i: usize = 0;
        while i < s.nodes.len()
            invariant
                t.wf(),
                copies_of(t@.nodes, sn),
                sn == s@.nodes,
                i <= sn.len(),
                states@.len() == t@.nodes.len(),
                forall|j: int| 0 <= j < states@.len() ==> #[trigger] states@[j] == replayed_state(s@.transitions, t@.nodes[j].id),
                forall|q: int| 0 <= q < i ==> (#[trigger] sn[q]).state == replayed_state(s@.transitions, sn[q].id),
            decreases s.nodes.len() - i,
        {
            let n = &s.nodes[i];
            proof {
                assert(n@ == sn[i as int]);
                assert(has_id(sn, n@.id));
                lemma_copies_has_id(t@.nodes, sn, n@.id);
            }
            let found = t.find_node(n.id.as_str());
            let ok = match found {
                Some(j) => states[j] == n.state,
                None => false,
            };
            if !ok {
                let m = join3("node '", n.id.as_str(), "' state does not match its transition history");
                return Err(invalid(m));
            }
            i += 1;
        }
        Ok(())
    }

    /// Every reconciliation names, with usable evidence, the resolution of a
    /// recovery-required node, at most once; every resolution has one.
    fn check_reconciliations(s: &ExecutionGraphSnapshot) -> (r: Result<(), ExecutionGraphError>)
        requires
            forall|k: int| 0 <= k < s@.transitions.len() ==> (#[trigger] s@.transitions[k]).sequence == k + 1,
        ensures
            r is Ok <==> reconciliations_valid(s@.transitions, s@.reconciliations),
            r matches Err(e) ==> e is InvalidSnapshot,
    {
        let ghost ts = s@.transitions;
        let ghost rs = s@.reconciliations;
        let mut i: usize = 0;
        while i < s.reconciliations.len()
            invariant
                ts == s@.transitions,
                rs == s@.reconciliations,
                forall|k: int| 0 <= k < ts.len() ==> (#[trigger] ts[k]).sequence == k + 1,
                i <= rs.len(),
                forall|q: int| 0 <= q < i ==> reconciliation_matches(ts, #[trigger] rs[q]),
                forall|q: int, w: int| 0 <= q < w < i ==> (#[trigger] rs[q]).transition_sequence != (#[trigger] rs[w]).transition_sequence,
            decreases s.reconciliations.len() - i,
        {
            let rec = &s.reconciliations[i];
            proof {
                assert(rec@ == rs[i as int]);
            }
            if is_blank(rec.reason.as_str()) || !evidence_is_usable(&rec.evidence_refs) {
                let m = join3("reconciliation for node '", rec.node_id.as_str(), "' has no usable evidence");
                return Err(invalid(m));
            }
            let mut q: usize = 0;
            while q < i
                invariant
                    q <= i,
                    i < rs.len(),
                    rs == s@.reconciliations,
                    rec.transition_sequence == rs[i as int].transition_sequence,
                    forall|w: int| 0 <= w < q ==> (#[trigger] rs[w]).transition_sequence != rs[i as int].transition_sequence,
                decreases i - q,
            {
                proof {
                    assert(rs[q as int] == s.reconciliations@[q as int]@);
                }
                if s.reconciliations[q].transition_sequence == rec.transition_sequence {
                    proof {
                        assert(rs[q as int].transition_sequence == rs[i as int].transition_sequence);
                        assert(!reconciliations_valid(ts, rs));
                    }
                    let m = join3(
                        "duplicate reconciliation transition sequence ",
                        decimal_string(rec.transition_sequence).as_str(),
                        "",
                    );
                    return Err(invalid(m));
                }
                q += 1;
            }
            let seq = rec.transition_sequence;
            if seq == 0 || seq > s.transitions.len() as u64 {
                proof {
                    assert forall|k: int| 0 <= k < ts.len() implies (#[trigger] ts[k]).sequence != seq by {}
                }
                let m = join3(
                    "reconciliation for node '",
                    rec.node_id.as_str(),
                    join3("' references missing transition ", decimal_string(seq).as_str(), "").as_str(),
                );
                return Err(invalid(m));
            }
            let tr = &s.transitions[(seq - 1) as usize];
            let expected_to = match rec.decision {
                ExecutionReconciliationDecision::ConfirmedSucceeded => ExecutionNodeState::Succeeded,
                ExecutionReconciliationDecision::ConfirmedFailed => ExecutionNodeState::Failed,
            };
            proof {
                assert(tr@ == ts[seq - 1]);
            }
            if !str_eq(tr.node_id.as_str(), rec.node_id.as_str()) || tr.from != ExecutionNodeState::RecoveryRequired
                || tr.to != expected_to {
                let m = join3(
                    "reconciliation for node '",
                    rec.node_id.as_str(),
                    join3("' does not match transition ", decimal_string(seq).as_str(), "").as_str(),
                );
                return Err(invalid(m));
            }
            i += 1;
        }
        let mut k: usize = 0;
        while k < s.transitions.len()
            invariant
                ts == s@.transitions,
                rs == s@.reconciliations,
                k <= ts.len(),
                forall|q: int| 0 <= q < rs.len() ==> reconciliation_matches(ts, #[trigger] rs[q]),
                forall|q: int, w: int| 0 <= q < w < rs.len() ==> (#[trigger] rs[q]).transition_sequence != (#[trigger] rs[w]).transition_sequence,
                forall|m: int|
                    0 <= m < k && (#[trigger] ts[m]).from is RecoveryRequired ==> exists|q: int|
                        0 <= q < rs.len() && (#[trigger] rs[q]).transition_sequence == m + 1,
            decreases s.transitions.len() - k,
        {
            if s.transitions[k].from == ExecutionNodeState::RecoveryRequired {
                let want: u64 = k as u64 + 1;
                let mut q: usize = 0;
                let mut found = false;
                while q < s.reconciliations.len()
                    invariant
                        q <= rs.len(),
                        rs == s@.reconciliations,
                        want == k + 1,
                        found ==> exists|w: int| 0 <= w < rs.len() && (#[trigger] rs[w]).transition_sequence == k + 1,
                        !found ==> forall|w: int| 0 <= w < q ==> (#[trigger] rs[w]).transition_sequence != k + 1,
                    decreases rs.len() - q,
                {
                    if s.reconciliations[q].transition_sequence == want {
                        proof {
                            assert(rs[q as int].transition_sequence == k + 1);
                        }
                        found = true;
                        q = s.reconciliations.len();
                    } else {
                        q += 1;
                    }
                }
                if !found {
                    proof {
                        assert(ts[k as int].from is RecoveryRequired);
                    }
                    let m = join3(
                        "recovery resolution transition ",
                        decimal_string(want).as_str(),
                        " has no reconciliation evidence",
                    );
                    return Err(invalid(m));
                }
            }
            k += 1;
        }
        Ok(())
    }
}

impl ExecutionGraph {
    /// The snapshot's artifacts in identifier order, each produced by a node
    /// whose history ends in success.
    fn collect_artifacts(t: &ExecutionGraph, s: &ExecutionGraphSnapshot, states: &Vec<ExecutionNodeState>) -> (r: Result<
        Vec<ExecutionArtifact>,
        ExecutionGraphError,
    >)
        requires
            t.wf(),
            copies_of(t@.nodes, s@.nodes),
            states@.len() == t@.nodes.len(),
            forall|j: int| 0 <= j < states@.len() ==> #[trigger] states@[j] == replayed_state(s@.transitions, t@.nodes[j].id),
        ensures
            r is Ok <==> snapshot_artifacts_valid(s@),
            r matches Ok(v) ==> artifacts_restored(artifacts_view(v@), s@.artifacts),
            r matches Err(e) ==> e is InvalidSnapshot || e is DuplicateArtifact,
    {
        let ghost sa = s@.artifacts;
        let mut out: Vec<ExecutionArtifact> = Vec::new();
        let mut i: usize = 0;
        proof {
            assert(artifact_keys(artifacts_view(out@)) =~= Seq::empty());
        }
        while i < s.artifacts.len()
            invariant
                t.wf(),
                copies_of(t@.nodes, s@.nodes),
                states@.len() == t@.nodes.len(),
                forall|j: int| 0 <= j < states@.len() ==> #[trigger] states@[j] == replayed_state(s@.transitions, t@.nodes[j].id),
                sa == s@.artifacts,
                i <= sa.len(),
                keys_sorted(artifact_keys(artifacts_view(out@))),
                forall|x: ExecutionArtifactView| #[trigger] artifacts_view(out@).contains(x) <==> exists|q: int| 0 <= q < i && sa[q] == x,
                forall|q: int|
                    0 <= q < i ==> has_id(s@.nodes, (#[trigger] sa[q]).producer_node)
                        && replayed_state(s@.transitions, sa[q].producer_node) is Succeeded,
                forall|q: int, w: int| 0 <= q < w < i ==> (#[trigger] sa[q]).id != (#[trigger] sa[w]).id,
            decreases s.artifacts.len() - i,
        {
            let a = &s.artifacts[i];
            let ghost av = a@;
            proof {
                assert(av == sa[i as int]);
                lemma_copies_has_id(t@.nodes, s@.nodes, av.producer_node);
            }
            let j = match t.find_node(a.producer_node.as_str()) {
                Some(j) => j,
                None => {
                    let m = join3(
                        "artifact '",
                        a.id.as_str(),
                        join3("' references missing producer '", a.producer_node.as_str(), "'").as_str(),
                    );
                    return Err(invalid(m));
                },
            };
            if states[j] != ExecutionNodeState::Succeeded {
                let m = join3(
                    "artifact '",
                    a.id.as_str(),
                    join3("' producer '", a.producer_node.as_str(), "' did not succeed").as_str(),
                );
                return Err(invalid(m));
            }
            let ghost cur = artifacts_view(out@);
            let ghost ks = artifact_keys(cur);
            let mut p: usize = 0;
            while p < out.len() && str_lt(out[p].id.as_str(), a.id.as_str())
                invariant
                    p <= out@.len(),
                    cur == artifacts_view(out@),
                    ks == artifact_keys(cur),
                    av == a@,
                    forall|q: int| 0 <= q < p ==> seq_lt(#[trigger] ks[q], av.id),
                decreases out.len() - p,
            {
                p += 1;
            }
            proof {
                lemma_keys_scan(ks, p as int, av.id);
            }
            if p < out.len() && str_eq(out[p].id.as_str(), a.id.as_str()) {
                proof {
                    assert(cur.contains(cur[p as int]));
                    let q = choose|q: int| 0 <= q < i && sa[q] == cur[p as int];
                    assert(sa[q].id == sa[i as int].id);
                }
                return Err(ExecutionGraphError::DuplicateArtifact(a.id.clone()));
            }
            out.insert(p, a.clone());
            proof {
                let nw = artifacts_view(out@);
                assert(nw =~= cur.insert(p as int, av));
                assert(artifact_keys(nw) =~= ks.insert(p as int, av.id));
                lemma_keys_insert(ks, p as int, av.id);
                assert forall|x: ExecutionArtifactView| #[trigger] nw.contains(x) <==> exists|q: int|
                    0 <= q < i + 1 && sa[q] == x by {
                    lemma_insert_contains(cur, p as int, av, x);
                    if x == av {
                        assert(sa[i as int] == x);
                    }
                    if exists|q: int| 0 <= q < i + 1 && sa[q] == x {
                        let q = choose|q: int| 0 <= q < i + 1 && sa[q] == x;
                        if q < i {
                            assert(cur.contains(x));
                        }
                    }
                }
                assert forall|q: int, w: int| 0 <= q < w < i + 1 implies (#[trigger] sa[q]).id != (#[trigger] sa[w]).id by {
                    if w == i {
                        assert(cur.contains(sa[q]));
                        let z = choose|z: int| 0 <= z < cur.len() && cur[z] == sa[q];
                        assert(ks[z] == sa[q].id);
                    }
                }
                assert(has_id(t@.nodes, av.producer_node));
                assert(t@.nodes[j as int].id == av.producer_node);
            }
            i += 1;
        }
        proof {
            assert forall|x: ExecutionArtifactView| #[trigger] artifacts_view(out@).contains(x) <==> sa.contains(x) by {
                if sa.contains(x) {
                    let q = choose|q: int| 0 <= q < sa.len() && sa[q] == x;
                }
            }
        }
        Ok(out)
    }

    /// The snapshot's effect intents in identifier order, each named, for a
    /// known node, with a valid expectation.
    fn collect_intents(t: &ExecutionGraph, s: &ExecutionGraphSnapshot) -> (r: Result<
        Vec<ExecutionEffectIntent>,
        ExecutionGraphError,
    >)
        requires
            t.wf(),
            copies_of(t@.nodes, s@.nodes),
        ensures
            r is Ok <==> snapshot_intents_valid(s@),
            r matches Ok(v) ==> intents_restored(intents_view(v@), s@.effect_intents),
            r matches Err(e) ==> e is InvalidSnapshot || e is EmptyEffectIntentId || e is DuplicateEffectIntent,
    {
        let ghost sa = s@.effect_intents;
        let mut out: Vec<ExecutionEffectIntent> = Vec::new();
        let mut i: usize = 0;
        proof {
            assert(intent_keys(intents_view(out@)) =~= Seq::empty());
        }
        while i < s.effect_intents.len()
            invariant
                t.wf(),
                copies_of(t@.nodes, s@.nodes),
                sa == s@.effect_intents,
                i <= sa.len(),
                keys_sorted(intent_keys(intents_view(out@))),
                forall|x: ExecutionEffectIntentView| #[trigger] intents_view(out@).contains(x) <==> exists|q: int| 0 <= q < i && sa[q] == x,
                forall|q: int|
                    0 <= q < i ==> !blank((#[trigger] sa[q]).id) && has_id(s@.nodes, sa[q].node_id)
                        && expectation_valid(sa[q].expectation),
                forall|q: int, w: int| 0 <= q < w < i ==> (#[trigger] sa[q]).id != (#[trigger] sa[w]).id,
            decreases s.effect_intents.len() - i,
        {
            let a = &s.effect_intents[i];
            let ghost av = a@;
            proof {
                assert(av == sa[i as int]);
                lemma_copies_has_id(t@.nodes, s@.nodes, av.node_id);
            }
            if is_blank(a.id.as_str()) {
                return Err(ExecutionGraphError::EmptyEffectIntentId);
            }
            if t.find_node(a.node_id.as_str()).is_none() {
                let m = join3(
                    "effect intent '",
                    a.id.as_str(),
                    join3("' references missing node '", a.node_id.as_str(), "'").as_str(),
                );
                return Err(invalid(m));
            }
            match validate_effect_expectation(&a.expectation) {
                Ok(()) => {},
                Err(e) => {
                    return Err(e);
                },
            }
            let ghost cur = intents_view(out@);
            let ghost ks = intent_keys(cur);
            let mut p: usize = 0;
            while p < out.len() && str_lt(out[p].id.as_str(), a.id.as_str())
                invariant
                    p <= out@.len(),
                    cur == intents_view(out@),
                    ks == intent_keys(cur),
                    av == a@,
                    forall|q: int| 0 <= q < p ==> seq_lt(#[trigger] ks[q], av.id),
                decreases out.len() - p,
            {
                p += 1;
            }
            proof {
                lemma_keys_scan(ks, p as int, av.id);
            }
            if p < out.len() && str_eq(out[p].id.as_str(), a.id.as_str()) {
                proof {
                    assert(cur.contains(cur[p as int]));
                    let q = choose|q: int| 0 <= q < i && sa[q] == cur[p as int];
                    assert(sa[q].id == sa[i as int].id);
                }
                return Err(ExecutionGraphError::DuplicateEffectIntent(a.id.clone()));
            }
            out.insert(p, a.clone());
            proof {
                let nw = intents_view(out@);
                assert(nw =~= cur.insert(p as int, av));
                assert(intent_keys(nw) =~= ks.insert(p as int, av.id));
                lemma_keys_insert(ks, p as int, av.id);
                assert forall|x: ExecutionEffectIntentView| #[trigger] nw.contains(x) <==> exists|q: int|
                    0 <= q < i + 1 && sa[q] == x by {
                    lemma_insert_contains(cur, p as int, av, x);
                    if x == av {
                        assert(sa[i as int] == x);
                    }
                    if exists|q: int| 0 <= q < i + 1 && sa[q] == x {
                        let q = choose|q: int| 0 <= q < i + 1 && sa[q] == x;
                        if q < i {
                            assert(cur.contains(x));
                        }
                    }
                }
                assert forall|q: int, w: int| 0 <= q < w < i + 1 implies (#[trigger] sa[q]).id != (#[trigger] sa[w]).id by {
                    if w == i {
                        assert(cur.contains(sa[q]));
                        let z = choose|z: int| 0 <= z < cur.len() && cur[z] == sa[q];
                        assert(ks[z] == sa[q].id);
                    }
                }
            }
            i += 1;
        }
        proof {
            assert forall|x: ExecutionEffectIntentView| #[trigger] intents_view(out@).contains(x) <==> sa.contains(x) by {
                if sa.contains(x) {
                    let q = choose|q: int| 0 <= q < sa.len() && sa[q] == x;
                }
            }
        }
        Ok(out)
    }
}

/// The nodes with the states a history replayed to.
pub open spec fn with_states(nodes: Seq<ExecutionNodeView>, states: Seq<ExecutionNodeState>) -> Seq<ExecutionNodeView> {
    Seq::new(nodes.len(), |j: int| ExecutionNodeView { state: states[j], ..nodes[j] })
}

/// Which error a snapshot that fails validation is refused with: the first
/// part of the snapshot that is wrong decides.
pub open spec fn restore_error(s: ExecutionGraphSnapshotView, e: ExecutionGraphError) -> bool {
    if !snapshot_nodes_valid(s) {
        e is EmptyTaskId || e is EmptyNodeId || e is DuplicateNode || e is MultipleApplyNodes
    } else if !snapshot_edges_valid(s) {
        e is MissingNode || e is DuplicateEdge || e is Cycle
    } else if !snapshot_history_valid(s) {
        e is InvalidSnapshot
    } else if !snapshot_artifacts_valid(s) {
        e is InvalidSnapshot || e is DuplicateArtifact
    } else {
        e is InvalidSnapshot || e is EmptyEffectIntentId || e is DuplicateEffectIntent
    }
}

proof fn lemma_same_keys_has_id(a: Seq<ExecutionNodeView>, b: Seq<ExecutionNodeView>, x: Seq<char>)
    requires
        node_keys(a) == node_keys(b),
    ensures
        has_id(a, x) <==> has_id(b, x),
{
    assert(node_keys(a).len() == a.len() && node_keys(b).len() == b.len());
    if has_id(a, x) {
        let q = choose|q: int| 0 <= q < a.len() && (#[trigger] a[q]).id == x;
        assert(node_keys(a)[q] == x);
        assert(b[q].id == node_keys(b)[q]);
    }
    if has_id(b, x) {
        let q = choose|q: int| 0 <= q < b.len() && (#[trigger] b[q]).id == x;
        assert(node_keys(b)[q] == x);
        assert(a[q].id == node_keys(a)[q]);
    }
}

/// The graph put together from a checked snapshot keeps every invariant and
/// holds what the snapshot holds.
proof fn lemma_assembled(
    t: ExecutionGraphView,
    s: ExecutionGraphSnapshotView,
    states: Seq<ExecutionNodeState>,
    g: ExecutionGraphView,
)
    requires
        graph_wf(t),
        copies_of(t.nodes, s.nodes),
        t.nodes.len() == s.nodes.len(),
        t.edges == s.edges,
        snapshot_valid(s),
        states.len() == t.nodes.len(),
        forall|j: int| 0 <= j < states.len() ==> #[trigger] states[j] == replayed_state(s.transitions, t.nodes[j].id),
        g.task_id == s.task_id,
        g.nodes == with_states(t.nodes, states),
        g.edges == s.edges,
        artifacts_restored(g.artifacts, s.artifacts),
        g.transitions == s.transitions,
        g.reconciliations == s.reconciliations,
        intents_restored(g.effect_intents, s.effect_intents),
        g.next_sequence == s.transitions.len() + 1,
    ensures
        graph_wf(g),
        graph_faithful(g),
        restores(g, s),
{
    let n = g.nodes;
    assert(node_keys(n) =~= node_keys(t.nodes));
    assert forall|x: Seq<char>| #[trigger] has_id(n, x) <==> has_id(s.nodes, x) by {
        lemma_same_keys_has_id(n, t.nodes, x);
        lemma_copies_has_id(t.nodes, s.nodes, x);
    }
    assert forall|i: int, j: int|
        0 <= i < n.len() && 0 <= j < n.len() && (#[trigger] n[i]).kind is Apply && (#[trigger] n[j]).kind is Apply
            implies i == j by {
        assert(t.nodes[i].kind == n[i].kind && t.nodes[j].kind == n[j].kind);
    }
    assert forall|i: int| 0 <= i < n.len() implies !blank(#[trigger] n[i].id) by {
        assert(t.nodes[i].id == n[i].id);
    }
    assert forall|k: int| 0 <= k < g.edges.len() implies has_id(n, (#[trigger] g.edges[k]).from) && has_id(
        n,
        g.edges[k].to,
    ) by {
        assert(has_id(t.nodes, t.edges[k].from));
        assert(has_id(t.nodes, t.edges[k].to));
        lemma_copies_has_id(t.nodes, s.nodes, t.edges[k].from);
        lemma_copies_has_id(t.nodes, s.nodes, t.edges[k].to);
    }
    assert forall|k: int| 0 <= k < g.transitions.len() implies has_id(n, (#[trigger] g.transitions[k]).node_id) by {
        assert(has_id(s.nodes, s.transitions[k].node_id));
    }
    assert(ids_sorted(n));
    lemma_state_of_ids(n);
    assert forall|i: int| 0 <= i < g.artifacts.len() implies has_id(n, (#[trigger] g.artifacts[i]).producer_node)
        && state_of(n, g.artifacts[i].producer_node) is Succeeded by {
        let a = g.artifacts[i];
        assert(g.artifacts.contains(a));
        let q = choose|q: int| 0 <= q < s.artifacts.len() && s.artifacts[q] == a;
        assert(has_id(s.nodes, s.artifacts[q].producer_node));
        assert(has_id(n, a.producer_node));
        let j = choose|j: int| 0 <= j < n.len() && (#[trigger] n[j]).id == a.producer_node;
        assert(n[j].state == states[j]);
        assert(t.nodes[j].id == a.producer_node);
        assert(state_of(n, n[j].id) == n[j].state);
    }
    assert forall|i: int| 0 <= i < g.effect_intents.len() implies !blank((#[trigger] g.effect_intents[i]).id)
        && has_id(n, g.effect_intents[i].node_id) && expectation_valid(g.effect_intents[i].expectation) by {
        let a = g.effect_intents[i];
        assert(g.effect_intents.contains(a));
        let q = choose|q: int| 0 <= q < s.effect_intents.len() && s.effect_intents[q] == a;
        assert(has_id(s.nodes, s.effect_intents[q].node_id));
        assert(has_id(n, a.node_id));
    }
    assert(wf_core(g));
    assert(states_match_history(g));
    assert forall|x: ExecutionNodeView| #[trigger] n.contains(x) <==> s.nodes.contains(x) by {
        if n.contains(x) {
            let j = choose|j: int| 0 <= j < n.len() && n[j] == x;
            assert(t.nodes.contains(t.nodes[j]));
            let i = choose|i: int| 0 <= i < s.nodes.len() && t.nodes[j] == pending_copy(#[trigger] s.nodes[i]);
            assert(s.nodes[i].state == replayed_state(s.transitions, s.nodes[i].id));
            assert(n[j] == s.nodes[i]);
        }
        if s.nodes.contains(x) {
            let i = choose|i: int| 0 <= i < s.nodes.len() && s.nodes[i] == x;
            assert(t.nodes.contains(pending_copy(s.nodes[i])));
            let j = choose|j: int| 0 <= j < t.nodes.len() && t.nodes[j] == pending_copy(s.nodes[i]);
            assert(s.nodes[i].state == replayed_state(s.transitions, s.nodes[i].id));
            assert(n[j] == x);
        }
    }
}

/// With unique identifiers, `state_of` reads any node's own state.
proof fn lemma_state_of_ids(n: Seq<ExecutionNodeView>)
    requires
        ids_sorted(n),
    ensures
        forall|j: int| 0 <= j < n.len() ==> state_of(n, (#[trigger] n[j]).id) == n[j].state,
{
    assert forall|j: int| 0 <= j < n.len() implies state_of(n, (#[trigger] n[j]).id) == n[j].state by {
        lemma_state_of_lookup(n, n[j].id);
    }
}

impl ExecutionGraph {
    /// Rebuilds a graph from a snapshot, checking that a well-formed graph
    /// whose node states agree with its history could have produced it.
    pub(crate) fn validated_snapshot(s: &ExecutionGraphSnapshot) -> (r: Result<ExecutionGraph, ExecutionGraphError>)
        requires
            s@.transitions.len() < u64::MAX,
        ensures
            r is Ok <==> snapshot_valid(s@),
            r matches Ok(g) ==> g.wf() && g.faithful() && restores(g@, s@),
            r matches Err(e) ==> restore_error(s@, e),
    {
        let t = match ExecutionGraph::restore_topology(s) {
            Ok(t) => t,
            Err(e) => {
                return Err(e);
            },
        };
        let states = match ExecutionGraph::replay_history(&t, s) {
            Ok(v) => v,
            Err(e) => {
                return Err(e);
            },
        };
        match ExecutionGraph::check_node_states(&t, s, &states) {
            Ok(()) => {},
            Err(e) => {
                return Err(e);
            },
        }
        match ExecutionGraph::check_reconciliations(s) {
            Ok(()) => {},
            Err(e) => {
                return Err(e);
            },
        }
        let artifacts = match ExecutionGraph::collect_artifacts(&t, s, &states) {
            Ok(v) => v,
            Err(e) => {
                return Err(e);
            },
        };
        let intents = match ExecutionGraph::collect_intents(&t, s) {
            Ok(v) => v,
            Err(e) => {
                return Err(e);
            },
        };
        let ghost tn = t@.nodes;
        let mut nodes: Vec<ExecutionNode> = Vec::new();
        let mut j: usize = 0;
        while j < t.nodes.len()
            invariant
                tn == t@.nodes,
                tn == nodes_view(t.nodes@),
                states@.len() == tn.len(),
                j <= tn.len(),
                nodes@.len() == j,
                forall|q: int| 0 <= q < j ==> (#[trigger] nodes@[q])@ == with_states(tn, states@)[q],
            decreases t.nodes.len() - j,
        {
            let mut n = t.nodes[j].clone();
            n.state = states[j];
            nodes.push(n);
            j += 1;
        }
        proof {
            assert(nodes_view(nodes@) =~= with_states(tn, states@));
        }
        let g = ExecutionGraph {
            task_id: s.task_id.clone(),
            nodes,
            edges: t.edges,
            artifacts,
            transitions: clone_transitions(&s.transitions),
            reconciliations: clone_reconciliations(&s.reconciliations),
            effect_intents: intents,
            next_sequence: s.transitions.len() as u64 + 1,
        };
        proof {
            lemma_assembled(t@, s@, states@, g@);
        }
        Ok(g)
    }
}

} // verus!
