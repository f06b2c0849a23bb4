//! The ready-set scheduler: runs whatever is ready through a handler until
//! nothing is ready or a whole pass makes no progress.
use vstd::prelude::*;
use crate::text::seq_lt;
use super::ExecutionGraph;
use super::types::{
    strs_view, state_is_terminal, ExecutionArtifactView, ExecutionGraphError, ExecutionNode, ExecutionNodeState,
    ExecutionScheduleReport, ExecutionTransitionView, NodeExecutionOutcome,
};
use super::spec::{
    after_set, artifacts_acceptable, artifacts_merged, artifacts_view, edge_satisfied, has_artifact_id, graph_faithful, graph_wf, ids_sorted, is_ready_id,
    keys_sorted, node_keys, node_ready, pending_count, ready_ids, ready_prefix, settled, state_of,
    valid_step, ExecutionGraphView,
};
use super::lemmas::{lemma_pending_count_bound, lemma_pending_count_update, lemma_state_of_lookup};
use super::spec::idx_of;
use super::artifacts::{first_rejected, rejection_error};
use super::settle::{lemma_skip_all_transitions, lemma_skipped_distinct, cut_off, lemma_cut_progress, lemma_skip_all_cut, lemma_set_others, skipped_in_order, lemma_skip_all_facts, skip_all, lemma_progress_keeps, lemma_progress_trans, lemma_set_progress, progressed_from};

verus! {

/// The ready identifiers among the first `n` nodes are ready, in
/// increasing identifier order.
pub proof fn lemma_ready_prefix(g: ExecutionGraphView, n: int)
    requires
        ids_sorted(g.nodes),
        0 <= n <= g.nodes.len(),
    ensures
        keys_sorted(ready_prefix(g, n)),
        forall|m: int|
            0 <= m < ready_prefix(g, n).len() ==> exists|j: int|
                0 <= j < n && (#[trigger] g.nodes[j]).id == #[trigger] ready_prefix(g, n)[m] && node_ready(g, g.nodes[j]),
    decreases n,
{
    if n > 0 {
        lemma_ready_prefix(g, n - 1);
        let r = ready_prefix(g, n - 1);
        if node_ready(g, g.nodes[n - 1]) {
            let r2 = r.push(g.nodes[n - 1].id);
            assert forall|a: int, b: int| 0 <= a < b < r2.len() implies seq_lt(#[trigger] r2[a], #[trigger] r2[b]) by {
                if b == r.len() {
                    let j = choose|j: int| 0 <= j < n - 1 && (#[trigger] g.nodes[j]).id == r[a] && node_ready(g, g.nodes[j]);
                    assert(node_keys(g.nodes)[j] == g.nodes[j].id);
                    assert(node_keys(g.nodes)[n - 1] == g.nodes[n - 1].id);
                }
            }
            assert forall|m: int| 0 <= m < r2.len() implies exists|j: int|
                0 <= j < n && (#[trigger] g.nodes[j]).id == #[trigger] r2[m] && node_ready(g, g.nodes[j]) by {
                if m < r.len() {
                    let j = choose|j: int| 0 <= j < n - 1 && (#[trigger] g.nodes[j]).id == r[m] && node_ready(g, g.nodes[j]);
                    assert(r2[m] == r[m]);
                } else {
                    assert(r2[m] == g.nodes[n - 1].id);
                }
            }
        }
    }
}

/// A state change of another node keeps a ready node ready.
pub proof fn lemma_ready_kept(
    g: ExecutionGraphView,
    i: int,
    to: ExecutionNodeState,
    reason: Option<Seq<char>>,
    x: Seq<char>,
)
    requires
        ids_sorted(g.nodes),
        0 <= i < g.nodes.len(),
        valid_step(g.nodes[i].state, to),
        g.nodes[i].id != x,
        is_ready_id(g, x),
    ensures
        is_ready_id(after_set(g, i, to, reason), x),
{
    let h = after_set(g, i, to, reason);
    let q = choose|q: int| 0 <= q < g.nodes.len() && (#[trigger] g.nodes[q]).id == x && node_ready(g, g.nodes[q]);
    assert(h.nodes[q] == g.nodes[q]);
    assert forall|k: int| 0 <= k < h.edges.len() && (#[trigger] h.edges[k]).to == x implies edge_satisfied(
        h.nodes,
        h.edges[k],
    ) by {
        let e = h.edges[k];
        assert(edge_satisfied(g.nodes, e));
        let j = choose|j: int|
            0 <= j < g.nodes.len() && (#[trigger] g.nodes[j]).id == e.from && (if e.kind is Finally {
                state_is_terminal(g.nodes[j].state)
            } else {
                g.nodes[j].state is Succeeded
            });
        assert(h.nodes[j].id == e.from);
    }
    assert(node_ready(h, h.nodes[q]));
}

/// The states a node the scheduler ran ends in.
pub open spec fn executed_state(s: ExecutionNodeState) -> bool {
    s is Succeeded || s is Failed || s is Cancelled
}

/// One node handed to the handler ran to an end.
pub open spec fn step_done(a: ExecutionGraphView, b: ExecutionGraphView, x: Seq<char>, n: nat) -> bool {
    &&& progressed_from(a, b)
    &&& executed_state(state_of(b.nodes, x))
    &&& pending_count(b.nodes) + 1 == pending_count(a.nodes)
    &&& b.next_sequence == a.next_sequence + n
    &&& forall|y: Seq<char>| y != x && #[trigger] is_ready_id(a, y) ==> is_ready_id(b, y)
}


/// `p` is the place of the last transition of node `x` in the history.
pub open spec fn last_at(trs: Seq<ExecutionTransitionView>, x: Seq<char>, p: int) -> bool {
    &&& 0 <= p < trs.len()
    &&& trs[p].node_id == x
    &&& forall|k: int| p < k < trs.len() ==> (#[trigger] trs[k]).node_id != x
}

/// The listed nodes appear in the order of their last transitions in the
/// history, at the places `pos`.
pub open spec fn listed_in_order(trs: Seq<ExecutionTransitionView>, l: Seq<String>, pos: Seq<int>) -> bool {
    &&& pos.len() == l.len()
    &&& forall|m: int| 0 <= m < l.len() ==> last_at(trs, (#[trigger] l[m])@, pos[m])
    &&& forall|i: int, j: int| 0 <= i < j < pos.len() ==> #[trigger] pos[i] < #[trigger] pos[j]
}

/// The history `b` is `a` with transitions of node `x` appended.
pub open spec fn appended_for(a: Seq<ExecutionTransitionView>, b: Seq<ExecutionTransitionView>, x: Seq<char>) -> bool {
    &&& a.len() < b.len()
    &&& b.take(a.len() as int) == a
    &&& forall|k: int| a.len() <= k < b.len() ==> (#[trigger] b[k]).node_id == x
}

proof fn lemma_after_set_appends(g: ExecutionGraphView, i: int, to: ExecutionNodeState, reason: Option<Seq<char>>)
    ensures
        appended_for(g.transitions, after_set(g, i, to, reason).transitions, g.nodes[i].id),
{
    let b = after_set(g, i, to, reason).transitions;
    assert(b.take(g.transitions.len() as int) =~= g.transitions);
}

proof fn lemma_appended_trans(
    a: Seq<ExecutionTransitionView>,
    b: Seq<ExecutionTransitionView>,
    c: Seq<ExecutionTransitionView>,
    x: Seq<char>,
)
    requires
        appended_for(a, b, x),
        appended_for(b, c, x),
    ensures
        appended_for(a, c, x),
{
    assert(c.take(a.len() as int) =~= a) by {
        assert forall|k: int| 0 <= k < a.len() implies c[k] == a[k] by {
            assert(c[k] == c.take(b.len() as int)[k]);
            assert(b[k] == b.take(a.len() as int)[k]);
        }
    }
    assert forall|k: int| a.len() <= k < c.len() implies (#[trigger] c[k]).node_id == x by {
        if k < b.len() {
            assert(c[k] == c.take(b.len() as int)[k]);
        }
    }
}

proof fn lemma_order_extend(a: Seq<ExecutionTransitionView>, b: Seq<ExecutionTransitionView>, l: Seq<String>, pos: Seq<int>)
    requires
        listed_in_order(a, l, pos),
        a.len() <= b.len(),
        b.take(a.len() as int) == a,
        forall|k: int, m: int|
            a.len() <= k < b.len() && 0 <= m < l.len() ==> (#[trigger] b[k]).node_id != (#[trigger] l[m])@,
    ensures
        listed_in_order(b, l, pos),
{
    assert forall|m: int| 0 <= m < l.len() implies last_at(b, (#[trigger] l[m])@, pos[m]) by {
        let p = pos[m];
        assert(last_at(a, l[m]@, p));
        assert(b[p] == b.take(a.len() as int)[p]);
        assert forall|k: int| p < k < b.len() implies (#[trigger] b[k]).node_id != l[m]@ by {
            if k < a.len() {
                assert(b[k] == b.take(a.len() as int)[k]);
            }
        }
    }
}

/// The record of which nodes ran and were skipped, in the order of their
/// last transitions.
#[verifier::opaque]
pub open spec fn order_record(
    trs: Seq<ExecutionTransitionView>,
    ex: Seq<String>,
    px: Seq<int>,
    sk: Seq<String>,
    ps: Seq<int>,
) -> bool {
    listed_in_order(trs, ex, px) && listed_in_order(trs, sk, ps)
}

/// Running node `x` appends its transitions: it is listed last among the
/// nodes that ran, and nothing else moves.
proof fn lemma_order_after_run(
    a: Seq<ExecutionTransitionView>,
    b: Seq<ExecutionTransitionView>,
    ex: Seq<String>,
    px: Seq<int>,
    sk: Seq<String>,
    ps: Seq<int>,
    s: String,
)
    requires
        order_record(a, ex, px, sk, ps),
        appended_for(a, b, s@),
        forall|m: int| 0 <= m < ex.len() ==> (#[trigger] ex[m])@ != s@,
        forall|m: int| 0 <= m < sk.len() ==> (#[trigger] sk[m])@ != s@,
    ensures
        order_record(b, ex.push(s), px.push(b.len() - 1), sk, ps),
{
    reveal(order_record);
    lemma_order_extend(a, b, ex, px);
    lemma_order_extend(a, b, sk, ps);
    let ex1 = ex.push(s);
    let px1 = px.push(b.len() - 1);
    assert forall|m: int| 0 <= m < ex1.len() implies last_at(b, (#[trigger] ex1[m])@, px1[m]) by {
        if m < ex.len() {
            assert(ex1[m] == ex[m]);
        }
    }
    assert forall|i: int, j: int| 0 <= i < j < px1.len() implies #[trigger] px1[i] < #[trigger] px1[j] by {
        if j == px.len() {
            assert(px1[i] == px[i]);
            assert(last_at(a, ex[i]@, px[i]));
            assert(px[i] < a.len());
        }
    }
}

/// A settling pass appends one transition per skipped node, in list order:
/// the skipped nodes follow the earlier ones, and nothing else moves.
proof fn lemma_order_after_settle(
    a: Seq<ExecutionTransitionView>,
    b: Seq<ExecutionTransitionView>,
    ex: Seq<String>,
    px: Seq<int>,
    sa0: Seq<String>,
    ps: Seq<int>,
    sa1: Seq<String>,
    skv: Seq<Seq<char>>,
)
    requires
        order_record(a, ex, px, sa0, ps),
        b.len() == a.len() + skv.len(),
        b.take(a.len() as int) == a,
        forall|k: int| 0 <= k < skv.len() ==> (#[trigger] b[a.len() + k]).node_id == skv[k],
        forall|i: int, j: int| 0 <= i < j < skv.len() ==> #[trigger] skv[i] != #[trigger] skv[j],
        forall|m: int, k: int| 0 <= m < ex.len() && 0 <= k < skv.len() ==> (#[trigger] ex[m])@ != #[trigger] skv[k],
        forall|m: int, k: int| 0 <= m < sa0.len() && 0 <= k < skv.len() ==> (#[trigger] sa0[m])@ != #[trigger] skv[k],
        sa1.len() == sa0.len() + skv.len(),
        forall|m: int| 0 <= m < sa0.len() ==> sa1[m] == sa0[m],
        forall|k: int| 0 <= k < skv.len() ==> sa1[sa0.len() + k]@ == skv[k],
    ensures
        order_record(b, ex, px, sa1, ps + Seq::new(skv.len(), |k: int| a.len() + k)),
{
    reveal(order_record);
    let al = a.len() as int;
    assert forall|k: int, m: int| al <= k < b.len() && 0 <= m < ex.len() implies (#[trigger] b[k]).node_id != (
    #[trigger] ex[m])@ by {
        assert(b[al + (k - al)].node_id == skv[k - al]);
    }
    lemma_order_extend(a, b, ex, px);
    assert forall|k: int, m: int| al <= k < b.len() && 0 <= m < sa0.len() implies (#[trigger] b[k]).node_id != (
    #[trigger] sa0[m])@ by {
        assert(b[al + (k - al)].node_id == skv[k - al]);
    }
    lemma_order_extend(a, b, sa0, ps);
    let ps1 = ps + Seq::new(skv.len(), |k: int| al + k);
    assert forall|m: int| 0 <= m < sa1.len() implies last_at(b, (#[trigger] sa1[m])@, ps1[m]) by {
        if m < sa0.len() {
            assert(sa1[m] == sa0[m]);
            assert(ps1[m] == ps[m]);
        } else {
            let j = m - sa0.len();
            assert(sa1[sa0.len() + j]@ == skv[j]);
            assert(ps1[m] == al + j);
            assert(b[al + j].node_id == skv[j]);
            assert forall|k: int| al + j < k < b.len() implies (#[trigger] b[k]).node_id != skv[j] by {
                assert(b[al + (k - al)].node_id == skv[k - al]);
            }
        }
    }
    assert forall|i: int, j: int| 0 <= i < j < ps1.len() implies #[trigger] ps1[i] < #[trigger] ps1[j] by {
        if i < ps.len() {
            assert(ps1[i] == ps[i]);
            assert(last_at(a, sa0[i]@, ps[i]));
            if j < ps.len() {
                assert(ps1[j] == ps[j]);
            }
        }
    }
}

/// No identifier occurs twice in the list.
pub open spec fn no_repeats(s: Seq<String>) -> bool {
    forall|i: int, j: int| 0 <= i < j < s.len() ==> (#[trigger] s[i])@ != (#[trigger] s[j])@
}

/// The error refusing artifacts `av` offered for node `x` is the one for the
/// first artifact the graph `g` rejects.
pub open spec fn refused_with(g: ExecutionGraphView, x: Seq<char>, av: Seq<ExecutionArtifactView>, e: ExecutionGraphError) -> bool {
    &&& !artifacts_acceptable(g, x, av)
    &&& forall|j: int| #[trigger] first_rejected(g, x, av, j) ==> rejection_error(x, av[j], e)
}

/// The state a handler outcome puts its node in; deferring leaves it
/// pending.
pub open spec fn outcome_state(o: NodeExecutionOutcome) -> Option<ExecutionNodeState> {
    match o {
        NodeExecutionOutcome::Succeeded(_) => Some(ExecutionNodeState::Succeeded),
        NodeExecutionOutcome::Failed(_) => Some(ExecutionNodeState::Failed),
        NodeExecutionOutcome::Cancelled(_) => Some(ExecutionNodeState::Cancelled),
        NodeExecutionOutcome::Deferred => None,
    }
}

/// The artifacts an outcome offers.
pub open spec fn offered(o: NodeExecutionOutcome) -> Seq<ExecutionArtifactView> {
    match o {
        NodeExecutionOutcome::Succeeded(a) => artifacts_view(a@),
        _ => Seq::empty(),
    }
}

/// The handler, given the pending node `x`, may answer `o`.
pub open spec fn answered<F: Fn(&ExecutionNode) -> NodeExecutionOutcome>(handler: F, x: Seq<char>, o: NodeExecutionOutcome) -> bool {
    exists|n: ExecutionNode| #[trigger] call_ensures(handler, (&n,), o) && n.id@ == x && n.state is Pending
}

/// Each offered artifact, the last offered with its identifier, is
/// recorded in the graph.
pub open spec fn kept(g: ExecutionGraphView, av: Seq<ExecutionArtifactView>) -> bool {
    forall|j: int|
        0 <= j < av.len() && (forall|l: int| j < l < av.len() ==> av[l].id != av[j].id) ==> g.artifacts.contains(
            #[trigger] av[j],
        )
}

/// Node `x` was run: the handler answered it, the node ends in the state
/// the answer names, and the answer's artifacts are recorded.
pub open spec fn ran_as<F: Fn(&ExecutionNode) -> NodeExecutionOutcome>(handler: F, g: ExecutionGraphView, x: Seq<char>) -> bool {
    exists|o: NodeExecutionOutcome|
        #[trigger] answered(handler, x, o) && outcome_state(o) == Some(state_of(g.nodes, x)) && kept(g, offered(o))
}

/// An artifact recorded by a node this run completed.
pub open spec fn from_run<F: Fn(&ExecutionNode) -> NodeExecutionOutcome>(
    handler: F,
    g: ExecutionGraphView,
    a: ExecutionArtifactView,
) -> bool {
    exists|x: Seq<char>, o: NodeExecutionOutcome|
        #[trigger] answered(handler, x, o) && state_of(g.nodes, x) is Succeeded && offered(o).contains(a)
}

/// Every answer the handler can give fits the graph: artifacts name the
/// node that offers them, none is recorded already, and no two nodes offer
/// the same identifier.
pub open spec fn answers_fit<F: Fn(&ExecutionNode) -> NodeExecutionOutcome>(handler: F, g: ExecutionGraphView) -> bool {
    forall|x: Seq<char>, o: NodeExecutionOutcome|
        #[trigger] answered(handler, x, o) ==> {
            &&& forall|j: int|
                0 <= j < offered(o).len() ==> (#[trigger] offered(o)[j]).producer_node == x && !has_artifact_id(
                    g.artifacts,
                    offered(o)[j].id,
                )
            &&& forall|y: Seq<char>, o2: NodeExecutionOutcome, j: int, l: int|
                #![trigger answered(handler, y, o2), offered(o)[j], offered(o2)[l]]
                answered(handler, y, o2) && y != x && 0 <= j < offered(o).len() && 0 <= l < offered(o2).len()
                    ==> offered(o)[j].id != offered(o2)[l].id
        }
}

proof fn lemma_ran_as_kept<F: Fn(&ExecutionNode) -> NodeExecutionOutcome>(
    handler: F,
    g1: ExecutionGraphView,
    g2: ExecutionGraphView,
    x: Seq<char>,
)
    requires
        ran_as(handler, g1, x),
        state_of(g2.nodes, x) == state_of(g1.nodes, x),
        forall|a: ExecutionArtifactView| #[trigger] g1.artifacts.contains(a) ==> g2.artifacts.contains(a),
    ensures
        ran_as(handler, g2, x),
{
    let o = choose|o: NodeExecutionOutcome|
        #[trigger] answered(handler, x, o) && outcome_state(o) == Some(state_of(g1.nodes, x)) && kept(g1, offered(o));
    assert(kept(g2, offered(o))) by {
        let av = offered(o);
        assert forall|j: int|
            0 <= j < av.len() && (forall|l: int| j < l < av.len() ==> av[l].id != av[j].id) implies g2.artifacts.contains(
            #[trigger] av[j],
        ) by {
            assert(g1.artifacts.contains(av[j]));
        }
    }
}

proof fn lemma_from_run_kept<F: Fn(&ExecutionNode) -> NodeExecutionOutcome>(
    handler: F,
    g1: ExecutionGraphView,
    g2: ExecutionGraphView,
    a: ExecutionArtifactView,
)
    requires
        from_run(handler, g1, a),
        forall|x: Seq<char>| #[trigger] state_of(g1.nodes, x) is Succeeded ==> state_of(g2.nodes, x) is Succeeded,
    ensures
        from_run(handler, g2, a),
{
    let (x, o) = choose|x: Seq<char>, o: NodeExecutionOutcome|
        #[trigger] answered(handler, x, o) && state_of(g1.nodes, x) is Succeeded && offered(o).contains(a);
    assert(state_of(g2.nodes, x) is Succeeded);
}

/// Recording acceptable artifacts keeps every artifact already recorded.
proof fn lemma_merged_keeps(g: ExecutionGraphView, x: Seq<char>, av: Seq<ExecutionArtifactView>, result: Seq<ExecutionArtifactView>, a: ExecutionArtifactView)
    requires
        artifacts_acceptable(g, x, av),
        artifacts_merged(g.artifacts, av, result),
        g.artifacts.contains(a),
    ensures
        result.contains(a),
{
    assert(!has_artifact_id(av, a.id)) by {
        if has_artifact_id(av, a.id) {
            let j = choose|j: int| 0 <= j < av.len() && (#[trigger] av[j]).id == a.id;
            assert(!crate::execution_graph::spec::artifact_rejected(g, x, av[j]));
            let k = choose|k: int| 0 <= k < g.artifacts.len() && g.artifacts[k] == a;
            assert(g.artifacts[k].id == av[j].id);
        }
    }
}

/// What the scheduler's record says of a graph it reached: every node
/// that changed was run as its answer names or skipped behind a failed
/// prerequisite, and a graph whose node states are all unchanged is the
/// starting graph.
proof fn lemma_record_facts<F: Fn(&ExecutionNode) -> NodeExecutionOutcome>(
    handler: F,
    g0: ExecutionGraphView,
    g: ExecutionGraphView,
    ex: Seq<String>,
    sk: Seq<String>,
)
    requires
        forall|m: int| 0 <= m < ex.len() ==> executed_state(state_of(g.nodes, #[trigger] ex[m]@)),
        forall|m: int| 0 <= m < ex.len() ==> ran_as(handler, g, #[trigger] ex[m]@),
        forall|m: int| 0 <= m < ex.len() ==> state_of(g0.nodes, #[trigger] ex[m]@) is Pending,
        skip_record(g0, g, sk),
        forall|y: Seq<char>|
            #[trigger] state_of(g.nodes, y) != state_of(g0.nodes, y) ==> strs_view(ex).contains(y)
                || strs_view(sk).contains(y),
        ex.len() == 0 && sk.len() == 0 ==> g == g0,
    ensures
        forall|m: int| 0 <= m < sk.len() ==> state_of(g.nodes, #[trigger] sk[m]@) is Skipped,
        forall|m: int| 0 <= m < sk.len() ==> state_of(g0.nodes, #[trigger] sk[m]@) is Pending,
        forall|m: int| 0 <= m < sk.len() ==> cut_off(g, #[trigger] sk[m]@),
        no_repeats(sk),
        forall|y: Seq<char>|
            #[trigger] state_of(g.nodes, y) != state_of(g0.nodes, y) ==> ran_as(handler, g, y) || (state_of(
                g.nodes,
                y,
            ) is Skipped && cut_off(g, y)),
        (forall|y: Seq<char>| #[trigger] state_of(g.nodes, y) == state_of(g0.nodes, y)) ==> g == g0,
{
    reveal(skip_record);
    assert forall|y: Seq<char>| #[trigger] state_of(g.nodes, y) != state_of(g0.nodes, y) implies ran_as(handler, g, y)
        || (state_of(g.nodes, y) is Skipped && cut_off(g, y)) by {
        if strs_view(ex).contains(y) {
            let m = choose|m: int| 0 <= m < strs_view(ex).len() && strs_view(ex)[m] == y;
            assert(ex[m]@ == y);
        } else {
            let m = choose|m: int| 0 <= m < strs_view(sk).len() && strs_view(sk)[m] == y;
            assert(sk[m]@ == y);
        }
    }
    if forall|y: Seq<char>| #[trigger] state_of(g.nodes, y) == state_of(g0.nodes, y) {
        if ex.len() > 0 {
            assert(state_of(g.nodes, ex[0]@) == state_of(g0.nodes, ex[0]@));
        }
        if sk.len() > 0 {
            assert(state_of(g.nodes, sk[0]@) == state_of(g0.nodes, sk[0]@));
        }
    }
}

/// Each listed node was pending at the start, is skipped in `g` behind a
/// prerequisite that did not succeed, and is listed once.
#[verifier::opaque]
pub open spec fn skip_record(g0: ExecutionGraphView, g: ExecutionGraphView, sk: Seq<String>) -> bool {
    &&& forall|m: int| 0 <= m < sk.len() ==> state_of(g.nodes, #[trigger] sk[m]@) is Skipped
    &&& forall|m: int| 0 <= m < sk.len() ==> state_of(g0.nodes, #[trigger] sk[m]@) is Pending
    &&& forall|m: int| 0 <= m < sk.len() ==> cut_off(g, #[trigger] sk[m]@)
    &&& no_repeats(sk)
}

proof fn lemma_skip_record_progress(g0: ExecutionGraphView, before: ExecutionGraphView, after: ExecutionGraphView, sk: Seq<String>)
    requires
        skip_record(g0, before, sk),
        progressed_from(before, after),
        ids_sorted(before.nodes),
    ensures
        skip_record(g0, after, sk),
{
    reveal(skip_record);
    assert forall|m: int| 0 <= m < sk.len() implies state_of(after.nodes, #[trigger] sk[m]@) is Skipped && cut_off(
        after,
        sk[m]@,
    ) by {
        lemma_progress_keeps(before, after, sk[m]@);
        lemma_cut_progress(before, after, sk[m]@);
    }
}

/// One settling pass, with the names it skipped appended to the record.
proof fn lemma_settle_step<F: Fn(&ExecutionNode) -> NodeExecutionOutcome>(
    handler: F,
    g0: ExecutionGraphView,
    before: ExecutionGraphView,
    after: ExecutionGraphView,
    ex: Seq<String>,
    sa0: Seq<String>,
    sa1: Seq<String>,
    skv: Seq<Seq<char>>,
    px: Seq<int>,
    ps: Seq<int>,
)
    requires
        order_record(before.transitions, ex, px, sa0, ps),
        graph_wf(before),
        progressed_from(g0, before),
        after == skip_all(before, skv),
        skipped_in_order(before, skv),
        progressed_from(before, after),
        forall|m: int| 0 <= m < ex.len() ==> executed_state(state_of(before.nodes, #[trigger] ex[m]@)),
        forall|m: int| 0 <= m < ex.len() ==> ran_as(handler, before, #[trigger] ex[m]@),
        skip_record(g0, before, sa0),
        forall|a: ExecutionArtifactView|
            #[trigger] before.artifacts.contains(a) ==> g0.artifacts.contains(a) || from_run(handler, before, a),
        forall|y: Seq<char>|
            #[trigger] state_of(before.nodes, y) != state_of(g0.nodes, y) ==> strs_view(ex).contains(y)
                || strs_view(sa0).contains(y),
        strs_view(sa1) == strs_view(sa0) + skv,
        sa1.len() == sa0.len() + skv.len(),
        forall|m: int| 0 <= m < sa0.len() ==> sa1[m] == sa0[m],
        forall|m: int| 0 <= m < skv.len() ==> sa1[sa0.len() + m]@ == skv[m],
    ensures
        progressed_from(g0, after),
        skv.len() == 0 ==> after == before,
        forall|m: int| 0 <= m < ex.len() ==> executed_state(state_of(after.nodes, #[trigger] ex[m]@)),
        forall|m: int| 0 <= m < ex.len() ==> ran_as(handler, after, #[trigger] ex[m]@),
        skip_record(g0, after, sa1),
        order_record(
            after.transitions,
            ex,
            px,
            sa1,
            ps + Seq::new(skv.len(), |k: int| before.transitions.len() + k),
        ),
        forall|a: ExecutionArtifactView|
            #[trigger] after.artifacts.contains(a) ==> g0.artifacts.contains(a) || from_run(handler, after, a),
        forall|y: Seq<char>|
            #[trigger] state_of(after.nodes, y) != state_of(g0.nodes, y) ==> strs_view(ex).contains(y)
                || strs_view(sa1).contains(y),
{
    reveal(skip_record);
    lemma_settle_pass(handler, g0, before, after, ex, sa0, skv);
    lemma_merge_skipped(g0, before, after, ex, sa0, sa1, skv);
    lemma_skip_all_transitions(before, skv);
    assert forall|m: int, k: int| 0 <= m < ex.len() && 0 <= k < skv.len() implies (#[trigger] ex[m])@
        != #[trigger] skv[k] by {
        assert(executed_state(state_of(before.nodes, ex[m]@)));
        assert(state_of(before.nodes, skv[k]) is Pending);
    }
    assert forall|m: int, k: int| 0 <= m < sa0.len() && 0 <= k < skv.len() implies (#[trigger] sa0[m])@
        != #[trigger] skv[k] by {
        assert(state_of(before.nodes, sa0[m]@) is Skipped);
        assert(state_of(before.nodes, skv[k]) is Pending);
    }
    lemma_order_after_settle(before.transitions, after.transitions, ex, px, sa0, ps, sa1, skv);
    if skv.len() == 0 {
        assert(skv =~= Seq::<Seq<char>>::empty());
    }
}

/// The skipped list extended by one settling pass still lists every
/// node that changed.
proof fn lemma_merge_skipped(
    g0: ExecutionGraphView,
    before: ExecutionGraphView,
    after: ExecutionGraphView,
    ex: Seq<String>,
    sa0: Seq<String>,
    sa1: Seq<String>,
    skv: Seq<Seq<char>>,
)
    requires
        strs_view(sa1) == strs_view(sa0) + skv,
        sa1.len() == sa0.len() + skv.len(),
        forall|m: int| 0 <= m < sa0.len() ==> sa1[m] == sa0[m],
        forall|m: int| 0 <= m < skv.len() ==> sa1[sa0.len() + m]@ == skv[m],
        forall|m: int| 0 <= m < sa0.len() ==> state_of(after.nodes, #[trigger] sa0[m]@) is Skipped,
        forall|m: int| 0 <= m < sa0.len() ==> state_of(g0.nodes, #[trigger] sa0[m]@) is Pending,
        forall|m: int| 0 <= m < sa0.len() ==> cut_off(after, #[trigger] sa0[m]@),
        forall|m: int| 0 <= m < skv.len() ==> cut_off(after, #[trigger] skv[m]),
        forall|m: int| 0 <= m < skv.len() ==> state_of(after.nodes, #[trigger] skv[m]) is Skipped,
        forall|m: int| 0 <= m < skv.len() ==> state_of(g0.nodes, #[trigger] skv[m]) is Pending,
        forall|y: Seq<char>| !skv.contains(y) ==> #[trigger] state_of(after.nodes, y) == state_of(before.nodes, y),
        forall|y: Seq<char>|
            #[trigger] state_of(before.nodes, y) != state_of(g0.nodes, y) ==> strs_view(ex).contains(y)
                || strs_view(sa0).contains(y),
        no_repeats(sa0),
        forall|a: int, b: int| 0 <= a < b < skv.len() ==> #[trigger] skv[a] != #[trigger] skv[b],
        forall|m: int| 0 <= m < sa0.len() ==> state_of(before.nodes, #[trigger] sa0[m]@) is Skipped,
        forall|m: int| 0 <= m < skv.len() ==> state_of(before.nodes, #[trigger] skv[m]) is Pending,
    ensures
        no_repeats(sa1),
        forall|m: int| 0 <= m < sa1.len() ==> state_of(after.nodes, #[trigger] sa1[m]@) is Skipped,
        forall|m: int| 0 <= m < sa1.len() ==> state_of(g0.nodes, #[trigger] sa1[m]@) is Pending,
        forall|m: int| 0 <= m < sa1.len() ==> cut_off(after, #[trigger] sa1[m]@),
        forall|y: Seq<char>|
            #[trigger] state_of(after.nodes, y) != state_of(g0.nodes, y) ==> strs_view(ex).contains(y)
                || strs_view(sa1).contains(y),
{
    assert forall|m: int| 0 <= m < sa1.len() implies state_of(after.nodes, #[trigger] sa1[m]@) is Skipped && state_of(
        g0.nodes,
        sa1[m]@,
    ) is Pending && cut_off(after, sa1[m]@) by {
        if m >= sa0.len() {
            assert(sa1[m]@ == skv[m - sa0.len()]);
        } else {
            assert(sa1[m] == sa0[m]);
        }
    }
    assert forall|i: int, j: int| 0 <= i < j < sa1.len() implies (#[trigger] sa1[i])@ != (#[trigger] sa1[j])@ by {
        if j < sa0.len() {
            assert(sa1[i] == sa0[i] && sa1[j] == sa0[j]);
        } else if i < sa0.len() {
            assert(sa1[i] == sa0[i]);
            assert(sa1[j]@ == skv[j - sa0.len()]);
        } else {
            assert(sa1[i]@ == skv[i - sa0.len()]);
            assert(sa1[j]@ == skv[j - sa0.len()]);
        }
    }
    assert forall|y: Seq<char>| #[trigger] state_of(after.nodes, y) != state_of(g0.nodes, y) implies strs_view(
        ex,
    ).contains(y) || strs_view(sa1).contains(y) by {
        if skv.contains(y) {
            let m = choose|m: int| 0 <= m < skv.len() && skv[m] == y;
            assert(strs_view(sa1)[sa0.len() + m] == y);
        } else {
            assert(state_of(before.nodes, y) != state_of(g0.nodes, y));
            if strs_view(sa0).contains(y) {
                let m = choose|m: int| 0 <= m < strs_view(sa0).len() && strs_view(sa0)[m] == y;
                assert(strs_view(sa1)[m] == y);
            }
        }
    }
}

/// What one settling pass keeps of the scheduler's record, and what it
/// adds.
proof fn lemma_settle_pass<F: Fn(&ExecutionNode) -> NodeExecutionOutcome>(
    handler: F,
    g0: ExecutionGraphView,
    before: ExecutionGraphView,
    after: ExecutionGraphView,
    ex: Seq<String>,
    sa0: Seq<String>,
    skv: Seq<Seq<char>>,
)
    requires
        graph_wf(before),
        progressed_from(g0, before),
        after == skip_all(before, skv),
        skipped_in_order(before, skv),
        progressed_from(before, after),
        forall|m: int| 0 <= m < ex.len() ==> executed_state(state_of(before.nodes, #[trigger] ex[m]@)),
        forall|m: int| 0 <= m < ex.len() ==> ran_as(handler, before, #[trigger] ex[m]@),
        forall|m: int| 0 <= m < sa0.len() ==> state_of(before.nodes, #[trigger] sa0[m]@) is Skipped,
        forall|m: int| 0 <= m < sa0.len() ==> cut_off(before, #[trigger] sa0[m]@),
        forall|a: ExecutionArtifactView|
            #[trigger] before.artifacts.contains(a) ==> g0.artifacts.contains(a) || from_run(handler, before, a),
    ensures
        progressed_from(g0, after),
        node_keys(after.nodes) == node_keys(before.nodes),
        after.artifacts == before.artifacts,
        forall|y: Seq<char>| !skv.contains(y) ==> #[trigger] state_of(after.nodes, y) == state_of(before.nodes, y),
        forall|m: int| 0 <= m < ex.len() ==> executed_state(state_of(after.nodes, #[trigger] ex[m]@)),
        forall|m: int| 0 <= m < ex.len() ==> ran_as(handler, after, #[trigger] ex[m]@),
        forall|m: int| 0 <= m < sa0.len() ==> state_of(after.nodes, #[trigger] sa0[m]@) is Skipped,
        forall|m: int| 0 <= m < sa0.len() ==> cut_off(after, #[trigger] sa0[m]@),
        forall|m: int| 0 <= m < skv.len() ==> cut_off(after, #[trigger] skv[m]),
        forall|m: int| 0 <= m < skv.len() ==> state_of(after.nodes, #[trigger] skv[m]) is Skipped,
        forall|m: int| 0 <= m < skv.len() ==> state_of(g0.nodes, #[trigger] skv[m]) is Pending,
        forall|m: int| 0 <= m < skv.len() ==> state_of(before.nodes, #[trigger] skv[m]) is Pending,
        forall|a: int, b: int| 0 <= a < b < skv.len() ==> #[trigger] skv[a] != #[trigger] skv[b],
        forall|a: ExecutionArtifactView|
            #[trigger] after.artifacts.contains(a) ==> g0.artifacts.contains(a) || from_run(handler, after, a),
{
    lemma_skipped_distinct(before, skv);
    assert(ids_sorted(g0.nodes));
    assert forall|m: int| 0 <= m < sa0.len() implies cut_off(after, #[trigger] sa0[m]@) by {
        lemma_cut_progress(before, after, sa0[m]@);
    }
    assert(forall|m: int| 0 <= m < skv.len() ==> cut_off(after, #[trigger] skv[m])) by {
        lemma_skip_all_cut(before, skv);
    }
    lemma_skip_all_facts(before, skv);
    lemma_progress_trans(g0, before, after);
    assert forall|m: int| 0 <= m < ex.len() implies executed_state(state_of(after.nodes, #[trigger] ex[m]@)) by {
        lemma_progress_keeps(before, after, ex[m]@);
    }
    assert forall|m: int| 0 <= m < ex.len() implies ran_as(handler, after, #[trigger] ex[m]@) by {
        lemma_progress_keeps(before, after, ex[m]@);
        lemma_ran_as_kept(handler, before, after, ex[m]@);
    }
    assert forall|m: int| 0 <= m < sa0.len() implies state_of(after.nodes, #[trigger] sa0[m]@) is Skipped by {
        lemma_progress_keeps(before, after, sa0[m]@);
    }
    assert forall|x: Seq<char>| #[trigger] state_of(before.nodes, x) is Succeeded implies state_of(
        after.nodes,
        x,
    ) is Succeeded by {
        lemma_progress_keeps(before, after, x);
    }
    assert forall|a: ExecutionArtifactView| #[trigger] after.artifacts.contains(a) implies g0.artifacts.contains(a)
        || from_run(handler, after, a) by {
        if !g0.artifacts.contains(a) {
            lemma_from_run_kept(handler, before, after, a);
        }
    }
    assert forall|k: int| 0 <= k < skv.len() implies state_of(g0.nodes, #[trigger] skv[k]) is Pending by {
        assert(state_of(before.nodes, skv[k]) is Pending);
        if !(state_of(g0.nodes, skv[k]) is Pending) {
            lemma_progress_keeps(g0, before, skv[k]);
        }
    }
}

/// After one more node ran, every node whose state differs from the start
/// is still listed among those run or skipped.
proof fn lemma_changed_listed(
    g0: ExecutionGraphView,
    before: ExecutionGraphView,
    after: ExecutionGraphView,
    ex0: Seq<String>,
    ex1: Seq<String>,
    sk: Seq<String>,
    x: Seq<char>,
)
    requires
        forall|y: Seq<char>|
            #[trigger] state_of(before.nodes, y) != state_of(g0.nodes, y) ==> strs_view(ex0).contains(y)
                || strs_view(sk).contains(y),
        forall|y: Seq<char>| y != x ==> #[trigger] state_of(after.nodes, y) == state_of(before.nodes, y),
        ex1.len() == ex0.len() + 1,
        forall|m: int| 0 <= m < ex0.len() ==> ex1[m] == ex0[m],
        ex1[ex0.len() as int]@ == x,
    ensures
        forall|y: Seq<char>|
            #[trigger] state_of(after.nodes, y) != state_of(g0.nodes, y) ==> strs_view(ex1).contains(y)
                || strs_view(sk).contains(y),
{
    assert forall|y: Seq<char>| #[trigger] state_of(after.nodes, y) != state_of(g0.nodes, y) implies strs_view(
        ex1,
    ).contains(y) || strs_view(sk).contains(y) by {
        if y == x {
            assert(strs_view(ex1)[ex0.len() as int] == y);
        } else {
            assert(state_of(after.nodes, y) == state_of(before.nodes, y));
            if strs_view(ex0).contains(y) {
                let m = choose|m: int| 0 <= m < strs_view(ex0).len() && strs_view(ex0)[m] == y;
                assert(strs_view(ex1)[m] == y);
            }
        }
    }
}

impl ExecutionGraph {
    /// Starts a ready node and completes it with its artifacts, which are
    /// checked before the node starts.
    fn run_succeeded(&mut self, node_id: &str, artifacts: Vec<super::types::ExecutionArtifact>) -> (r: Result<
        (),
        ExecutionGraphError,
    >)
        requires
            old(self).wf(),
            is_ready_id(old(self)@, node_id@),
            old(self)@.next_sequence + 2 < u64::MAX,
        ensures
            final(self).wf(),
            old(self).faithful() ==> final(self).faithful(),
            r is Ok ==> step_done(old(self)@, final(self)@, node_id@, 2),
            r is Ok <==> artifacts_acceptable(old(self)@, node_id@, artifacts_view(artifacts@)),
            r is Ok ==> forall|y: Seq<char>| y != node_id@ ==> #[trigger] state_of(final(self)@.nodes, y) == state_of(
                old(self)@.nodes,
                y,
            ),
            r is Ok ==> state_of(final(self)@.nodes, node_id@) is Succeeded && artifacts_merged(
                old(self)@.artifacts,
                artifacts_view(artifacts@),
                final(self)@.artifacts,
            ),
            r is Ok ==> appended_for(old(self)@.transitions, final(self)@.transitions, node_id@),
            r matches Err(e) ==> final(self)@ == old(self)@ && (e is ArtifactProducerMismatch
                || e is DuplicateArtifact) && refused_with(old(self)@, node_id@, artifacts_view(artifacts@), e),
    {
        let ghost av = artifacts_view(artifacts@);
        match self.validate_artifacts(node_id, &artifacts) {
            Ok(()) => {},
            Err(e) => {
                return Err(e);
            },
        }
        let ghost a = self@;
        let ghost x = node_id@;
        let ghost i = idx_of(a.nodes, x);
        proof {
            let q = choose|q: int| 0 <= q < a.nodes.len() && (#[trigger] a.nodes[q]).id == x && node_ready(a, a.nodes[q]);
            crate::execution_graph::lifecycle::lemma_idx_of(a.nodes, q);
        }
        let r1 = self.start_node(node_id);
        proof {
            assert(r1 is Ok);
        }
        let ghost m = self@;
        proof {
            assert(m.nodes[i].id == x);
            lemma_state_of_lookup(m.nodes, x);
            crate::execution_graph::lifecycle::lemma_idx_of(m.nodes, i);
        }
        let r2 = self.complete_node(node_id, artifacts);
        proof {
            assert(r2 is Ok);
            let b = self@;
            assert(node_keys(m.nodes) =~= node_keys(a.nodes));
            assert(node_keys(b.nodes) =~= node_keys(m.nodes));
            assert forall|q: int| 0 <= q < a.nodes.len() implies (#[trigger] b.nodes[q]).state == a.nodes[q].state || (
            a.nodes[q].state is Pending && !(b.nodes[q].state is Pending) && !(b.nodes[q].state is Running)) by {
                if q != i {
                    assert(b.nodes[q] == m.nodes[q]);
                    assert(m.nodes[q] == a.nodes[q]);
                }
            }
            lemma_state_of_lookup(b.nodes, x);
            assert(b.nodes[i].id == x);
            assert forall|y: Seq<char>| y != x implies #[trigger] state_of(b.nodes, y) == state_of(a.nodes, y) by {
                lemma_set_others(a, i, ExecutionNodeState::Running, None, y);
                lemma_set_others(m, i, ExecutionNodeState::Succeeded, None, y);
            }
            lemma_after_set_appends(a, i, ExecutionNodeState::Running, None);
            lemma_after_set_appends(m, i, ExecutionNodeState::Succeeded, None);
            lemma_appended_trans(a.transitions, m.transitions, b.transitions, x);
            lemma_pending_count_update(a.nodes, i, m.nodes[i]);
            assert(m.nodes =~= a.nodes.update(i, m.nodes[i]));
            lemma_pending_count_update(m.nodes, i, b.nodes[i]);
            assert(b.nodes =~= m.nodes.update(i, b.nodes[i]));
            assert forall|y: Seq<char>| y != x && #[trigger] is_ready_id(a, y) implies is_ready_id(b, y) by {
                lemma_ready_kept(a, i, ExecutionNodeState::Running, None, y);
                lemma_ready_kept(m, i, ExecutionNodeState::Succeeded, None, y);
                let n = after_set(m, i, ExecutionNodeState::Succeeded, None);
                let q = choose|q: int| 0 <= q < n.nodes.len() && (#[trigger] n.nodes[q]).id == y && node_ready(n, n.nodes[q]);
                assert(b.nodes[q] == n.nodes[q]);
                assert(node_ready(b, b.nodes[q]));
            }
        }
        Ok(())
    }

    /// Starts a ready node and records its failure.
    fn run_failed(&mut self, node_id: &str, reason: &str)
        requires
            old(self).wf(),
            is_ready_id(old(self)@, node_id@),
            old(self)@.next_sequence + 2 < u64::MAX,
        ensures
            final(self).wf(),
            old(self).faithful() ==> final(self).faithful(),
            step_done(old(self)@, final(self)@, node_id@, 2),
            state_of(final(self)@.nodes, node_id@) is Failed,
            final(self)@.artifacts == old(self)@.artifacts,
            appended_for(old(self)@.transitions, final(self)@.transitions, node_id@),
            forall|y: Seq<char>| y != node_id@ ==> #[trigger] state_of(final(self)@.nodes, y) == state_of(
                old(self)@.nodes,
                y,
            ),
    {
        let ghost a = self@;
        let ghost x = node_id@;
        let ghost i = idx_of(a.nodes, x);
        proof {
            let q = choose|q: int| 0 <= q < a.nodes.len() && (#[trigger] a.nodes[q]).id == x && node_ready(a, a.nodes[q]);
            crate::execution_graph::lifecycle::lemma_idx_of(a.nodes, q);
        }
        let r1 = self.start_node(node_id);
        proof {
            assert(r1 is Ok);
        }
        let ghost m = self@;
        proof {
            assert(m.nodes[i].id == x);
            lemma_state_of_lookup(m.nodes, x);
            crate::execution_graph::lifecycle::lemma_idx_of(m.nodes, i);
        }
        let r2 = self.fail_node(node_id, reason);
        proof {
            assert(r2 is Ok);
            let b = self@;
            assert(node_keys(m.nodes) =~= node_keys(a.nodes));
            assert(node_keys(b.nodes) =~= node_keys(m.nodes));
            assert forall|q: int| 0 <= q < a.nodes.len() implies (#[trigger] b.nodes[q]).state == a.nodes[q].state || (
            a.nodes[q].state is Pending && !(b.nodes[q].state is Pending) && !(b.nodes[q].state is Running)) by {
                if q != i {
                    assert(b.nodes[q] == m.nodes[q]);
                    assert(m.nodes[q] == a.nodes[q]);
                }
            }
            lemma_state_of_lookup(b.nodes, x);
            assert(b.nodes[i].id == x);
            assert forall|y: Seq<char>| y != x implies #[trigger] state_of(b.nodes, y) == state_of(a.nodes, y) by {
                lemma_set_others(a, i, ExecutionNodeState::Running, None, y);
                lemma_set_others(m, i, ExecutionNodeState::Failed, Some(reason@), y);
            }
            lemma_after_set_appends(a, i, ExecutionNodeState::Running, None);
            lemma_after_set_appends(m, i, ExecutionNodeState::Failed, Some(reason@));
            lemma_appended_trans(a.transitions, m.transitions, b.transitions, x);
            lemma_pending_count_update(a.nodes, i, m.nodes[i]);
            assert(m.nodes =~= a.nodes.update(i, m.nodes[i]));
            lemma_pending_count_update(m.nodes, i, b.nodes[i]);
            assert(b.nodes =~= m.nodes.update(i, b.nodes[i]));
            assert forall|y: Seq<char>| y != x && #[trigger] is_ready_id(a, y) implies is_ready_id(b, y) by {
                lemma_ready_kept(a, i, ExecutionNodeState::Running, None, y);
                lemma_ready_kept(m, i, ExecutionNodeState::Failed, Some(reason@), y);
            }
        }
    }

    /// Cancels a ready node.
    fn run_cancelled(&mut self, node_id: &str, reason: &str)
        requires
            old(self).wf(),
            is_ready_id(old(self)@, node_id@),
            old(self)@.next_sequence + 1 < u64::MAX,
        ensures
            final(self).wf(),
            old(self).faithful() ==> final(self).faithful(),
            step_done(old(self)@, final(self)@, node_id@, 1),
            state_of(final(self)@.nodes, node_id@) is Cancelled,
            final(self)@.artifacts == old(self)@.artifacts,
            appended_for(old(self)@.transitions, final(self)@.transitions, node_id@),
            forall|y: Seq<char>| y != node_id@ ==> #[trigger] state_of(final(self)@.nodes, y) == state_of(
                old(self)@.nodes,
                y,
            ),
    {
        let ghost a = self@;
        let ghost x = node_id@;
        let ghost i = idx_of(a.nodes, x);
        proof {
            let q = choose|q: int| 0 <= q < a.nodes.len() && (#[trigger] a.nodes[q]).id == x && node_ready(a, a.nodes[q]);
            crate::execution_graph::lifecycle::lemma_idx_of(a.nodes, q);
            lemma_state_of_lookup(a.nodes, x);
        }
        let r1 = self.cancel_node(node_id, reason);
        proof {
            assert(r1 is Ok);
            let b = self@;
            lemma_set_progress(a, i, ExecutionNodeState::Cancelled, Some(reason@));
            lemma_after_set_appends(a, i, ExecutionNodeState::Cancelled, Some(reason@));
            lemma_state_of_lookup(b.nodes, x);
            assert(b.nodes[i].id == x);
            assert forall|y: Seq<char>| y != x implies #[trigger] state_of(b.nodes, y) == state_of(a.nodes, y) by {
                lemma_set_others(a, i, ExecutionNodeState::Cancelled, Some(reason@), y);
            }
            lemma_pending_count_update(a.nodes, i, b.nodes[i]);
            assert(b.nodes =~= a.nodes.update(i, b.nodes[i]));
            assert forall|y: Seq<char>| y != x && #[trigger] is_ready_id(a, y) implies is_ready_id(b, y) by {
                lemma_ready_kept(a, i, ExecutionNodeState::Cancelled, Some(reason@), y);
            }
        }
    }
}

/// Where every answer fits the starting graph, an answer for a pending
/// node also fits the graph reached by recording earlier answers.
proof fn lemma_fit_acceptable<F: Fn(&ExecutionNode) -> NodeExecutionOutcome>(
    handler: F,
    g0: ExecutionGraphView,
    g: ExecutionGraphView,
    x: Seq<char>,
    o: NodeExecutionOutcome,
)
    requires
        answers_fit(handler, g0),
        answered(handler, x, o),
        state_of(g.nodes, x) is Pending,
        forall|a: ExecutionArtifactView|
            #[trigger] g.artifacts.contains(a) ==> g0.artifacts.contains(a) || from_run(handler, g, a),
    ensures
        artifacts_acceptable(g, x, offered(o)),
{
    let av = offered(o);
    assert forall|j: int| 0 <= j < av.len() implies !crate::execution_graph::spec::artifact_rejected(
        g,
        x,
        #[trigger] av[j],
    ) by {
        if has_artifact_id(g.artifacts, av[j].id) {
            let t = choose|t: int| 0 <= t < g.artifacts.len() && (#[trigger] g.artifacts[t]).id == av[j].id;
            let a = g.artifacts[t];
            assert(g.artifacts.contains(a));
            if g0.artifacts.contains(a) {
                let t0 = choose|t0: int| 0 <= t0 < g0.artifacts.len() && g0.artifacts[t0] == a;
                assert(g0.artifacts[t0].id == av[j].id);
            } else {
                let (y, o2) = choose|y: Seq<char>, o2: NodeExecutionOutcome|
                    #[trigger] answered(handler, y, o2) && state_of(g.nodes, y) is Succeeded && offered(o2).contains(a);
                assert(y != x);
                let l = choose|l: int| 0 <= l < offered(o2).len() && offered(o2)[l] == a;
                assert(offered(o)[j].id != offered(o2)[l].id);
            }
        }
    }
}

impl ExecutionGraph {
    /// Records what the handler answered for a ready node: a deferral
    /// changes nothing; any other answer runs the node to the state it
    /// names, refusing unacceptable artifacts before the node starts.
    fn run_outcome(&mut self, node_id: &str, outcome: NodeExecutionOutcome) -> (r: Result<bool, ExecutionGraphError>)
        requires
            old(self).wf(),
            is_ready_id(old(self)@, node_id@),
            old(self)@.next_sequence + 2 < u64::MAX,
        ensures
            final(self).wf(),
            old(self).faithful() ==> final(self).faithful(),
            r is Ok <==> artifacts_acceptable(old(self)@, node_id@, offered(outcome)),
            r matches Ok(false) <==> outcome is Deferred,
            r matches Ok(false) ==> final(self)@ == old(self)@,
            r matches Ok(true) ==> step_done(
                old(self)@,
                final(self)@,
                node_id@,
                if outcome is Cancelled { 1 } else { 2 },
            ),
            r matches Ok(true) ==> outcome_state(outcome) == Some(state_of(final(self)@.nodes, node_id@)),
            r matches Ok(true) ==> appended_for(old(self)@.transitions, final(self)@.transitions, node_id@),
            r matches Ok(true) ==> forall|y: Seq<char>|
                y != node_id@ ==> #[trigger] state_of(final(self)@.nodes, y) == state_of(old(self)@.nodes, y),
            r matches Ok(true) ==> if outcome is Succeeded {
                artifacts_merged(old(self)@.artifacts, offered(outcome), final(self)@.artifacts)
            } else {
                final(self)@.artifacts == old(self)@.artifacts
            },
            r matches Err(e) ==> final(self)@ == old(self)@ && outcome is Succeeded && (e is ArtifactProducerMismatch
                || e is DuplicateArtifact) && refused_with(old(self)@, node_id@, offered(outcome), e),
    {
        match outcome {
            NodeExecutionOutcome::Deferred => Ok(false),
            NodeExecutionOutcome::Succeeded(artifacts) => match self.run_succeeded(node_id, artifacts) {
                Ok(()) => Ok(true),
                Err(e) => Err(e),
            },
            NodeExecutionOutcome::Failed(reason) => {
                self.run_failed(node_id, reason.as_str());
                Ok(true)
            },
            NodeExecutionOutcome::Cancelled(reason) => {
                self.run_cancelled(node_id, reason.as_str());
                Ok(true)
            },
        }
    }
}

impl ExecutionGraph {
    /// Runs the ready set until the graph reaches a state where nothing is
    /// ready, or every ready node defers. The handler is called only for
    /// nodes whose dependencies are satisfied and must give explicit
    /// evidence for success or failure; artifacts are checked before the
    /// node starts, so a malformed result never strands it running.
    #[verifier::rlimit(100)]
    #[verifier::spinoff_prover]
    pub fn run_ready<F>(&mut self, handler: F) -> (r: Result<ExecutionScheduleReport, ExecutionGraphError>) where
        F: Fn(&ExecutionNode) -> NodeExecutionOutcome,

        requires
            old(self).wf(),
            old(self)@.next_sequence + 3 * old(self)@.nodes.len() + 1 < u64::MAX,
            forall|n: &ExecutionNode| #[trigger] handler.requires((n,)),
        ensures
            final(self).wf(),
            old(self).faithful() ==> final(self).faithful(),
            progressed_from(old(self)@, final(self)@),
            answers_fit(handler, old(self)@) ==> r is Ok,
            forall|y: Seq<char>|
                #[trigger] state_of(final(self)@.nodes, y) != state_of(old(self)@.nodes, y) ==> ran_as(
                    handler,
                    final(self)@,
                    y,
                ) || (state_of(final(self)@.nodes, y) is Skipped && cut_off(final(self)@, y)),
            (forall|y: Seq<char>| #[trigger] state_of(final(self)@.nodes, y) == state_of(old(self)@.nodes, y))
                ==> final(self)@ == old(self)@,
            match r {
                Ok(rep) => {
                    &&& settled(final(self)@)
                    &&& rep.stalled <==> ready_ids(final(self)@).len() > 0
                    &&& rep.stalled ==> strs_view(rep.deferred_nodes@) == ready_ids(final(self)@)
                    &&& !rep.stalled ==> rep.deferred_nodes@.len() == 0
                    &&& forall|m: int|
                        0 <= m < rep.deferred_nodes@.len() ==> answered(
                            handler,
                            #[trigger] rep.deferred_nodes@[m]@,
                            NodeExecutionOutcome::Deferred,
                        )
                    &&& forall|m: int|
                        0 <= m < rep.executed_nodes@.len() ==> executed_state(
                            state_of(final(self)@.nodes, #[trigger] rep.executed_nodes@[m]@),
                        )
                    &&& forall|m: int|
                        0 <= m < rep.executed_nodes@.len() ==> ran_as(
                            handler,
                            final(self)@,
                            #[trigger] rep.executed_nodes@[m]@,
                        )
                    &&& forall|m: int|
                        0 <= m < rep.skipped_nodes@.len() ==> state_of(
                            final(self)@.nodes,
                            #[trigger] rep.skipped_nodes@[m]@,
                        ) is Skipped
                    &&& forall|m: int|
                        0 <= m < rep.executed_nodes@.len() ==> state_of(
                            old(self)@.nodes,
                            #[trigger] rep.executed_nodes@[m]@,
                        ) is Pending
                    &&& forall|m: int|
                        0 <= m < rep.skipped_nodes@.len() ==> cut_off(final(self)@, #[trigger] rep.skipped_nodes@[m]@)
                    &&& forall|m: int|
                        0 <= m < rep.skipped_nodes@.len() ==> state_of(
                            old(self)@.nodes,
                            #[trigger] rep.skipped_nodes@[m]@,
                        ) is Pending
                    &&& forall|y: Seq<char>|
                        (#[trigger] state_of(final(self)@.nodes, y) != state_of(old(self)@.nodes, y)) <==> (strs_view(
                            rep.executed_nodes@,
                        ).contains(y) || strs_view(rep.skipped_nodes@).contains(y))
                    &&& rep.executed_nodes@.len() == 0 && rep.skipped_nodes@.len() == 0 ==> final(self)@ == old(self)@
                    &&& no_repeats(rep.executed_nodes@)
                    &&& no_repeats(rep.skipped_nodes@)
                    &&& exists|pos: Seq<int>| listed_in_order(final(self)@.transitions, rep.executed_nodes@, pos)
                    &&& exists|pos: Seq<int>| listed_in_order(final(self)@.transitions, rep.skipped_nodes@, pos)
                },
                Err(e) => {
                    &&& e is ArtifactProducerMismatch || e is DuplicateArtifact
                    &&& exists|x: Seq<char>, o: NodeExecutionOutcome|
                        #[trigger] answered(handler, x, o) && o is Succeeded && is_ready_id(final(self)@, x)
                            && refused_with(final(self)@, x, offered(o), e)
                },
            },
    {
        let ghost g0 = self@;
        proof {
            lemma_pending_count_bound(g0.nodes);
            assert(node_keys(g0.nodes) =~= node_keys(g0.nodes));
            assert(strs_view(Seq::<String>::empty()) =~= Seq::<Seq<char>>::empty());
        }
        let mut executed: Vec<String> = Vec::new();
        let mut skipped_all: Vec<String> = Vec::new();
        let mut deferred_out: Vec<String> = Vec::new();
        let mut stalled = false;
        let ghost mut px: Seq<int> = Seq::empty();
        let ghost mut ps: Seq<int> = Seq::empty();
        proof {
            assert(skip_record(g0, self@, skipped_all@)) by {
                reveal(skip_record);
            }
            assert(order_record(self@.transitions, executed@, px, skipped_all@, ps)) by {
                reveal(order_record);
            }
        }
        loop
            invariant_except_break
                !stalled,
                deferred_out@.len() == 0,
            invariant
                g0 == old(self)@,
                forall|n: &ExecutionNode| #[trigger] handler.requires((n,)),
                self.wf(),
                graph_faithful(g0) ==> self.faithful(),
                self@.next_sequence + 2 * pending_count(self@.nodes) + self@.nodes.len() + 1 < u64::MAX,
                progressed_from(g0, self@),
                forall|m: int|
                    0 <= m < executed@.len() ==> executed_state(state_of(self@.nodes, #[trigger] executed@[m]@)),
                forall|m: int| 0 <= m < executed@.len() ==> ran_as(handler, self@, #[trigger] executed@[m]@),
                forall|m: int| 0 <= m < executed@.len() ==> state_of(g0.nodes, #[trigger] executed@[m]@) is Pending,
                skip_record(g0, self@, skipped_all@),
                order_record(self@.transitions, executed@, px, skipped_all@, ps),
                forall|y: Seq<char>|
                    #[trigger] state_of(self@.nodes, y) != state_of(g0.nodes, y) ==> strs_view(executed@).contains(y)
                        || strs_view(skipped_all@).contains(y),
                executed@.len() == 0 && skipped_all@.len() == 0 ==> self@ == g0,
                no_repeats(executed@),
                forall|a: ExecutionArtifactView|
                    #[trigger] self@.artifacts.contains(a) ==> g0.artifacts.contains(a) || from_run(handler, self@, a),
            ensures
                settled(self@),
                stalled <==> ready_ids(self@).len() > 0,
                stalled ==> strs_view(deferred_out@) == ready_ids(self@),
                !stalled ==> deferred_out@.len() == 0,
                forall|m: int|
                    0 <= m < deferred_out@.len() ==> answered(
                        handler,
                        #[trigger] deferred_out@[m]@,
                        NodeExecutionOutcome::Deferred,
                    ),
            decreases pending_count(self@.nodes),
        {
            let ghost before_settle = self@;
            let ghost sa0 = skipped_all@;
            let sk = match self.settle_unreachable() {
                Ok(v) => v,
                Err(e) => {
                    return Err(e);
                },
            };
            let ghost after_settle = self@;
            let ghost skv = strs_view(sk@);
            let mut q: usize = 0;
            while q < sk.len()
                invariant
                    q <= sk@.len(),
                    skv == strs_view(sk@),
                    skipped_all@ == sa0 + sk@.subrange(0, q as int),
                decreases sk.len() - q,
            {
                let name = sk[q].clone();
                skipped_all.push(name);
                proof {
                    assert(skipped_all@ =~= sa0 + sk@.subrange(0, q + 1));
                }
                q += 1;
            }
            proof {
                assert(sk@.subrange(0, sk@.len() as int) =~= sk@);
                assert(strs_view(skipped_all@) =~= strs_view(sa0) + skv);
                assert forall|m: int| 0 <= m < skv.len() implies skipped_all@[sa0.len() + m]@ == skv[m] by {
                    assert(skipped_all@[sa0.len() + m] == sk@[m]);
                }
                lemma_settle_step(handler, g0, before_settle, self@, executed@, sa0, skipped_all@, skv, px, ps);
                ps = ps + Seq::new(skv.len(), |k: int| before_settle.transitions.len() + k);
            }
            let ready = self.ready_node_ids();
            if ready.len() == 0 {
                break;
            }
            let ghost gp = self@;
            let ghost rids = strs_view(ready@);
            proof {
                lemma_ready_prefix(gp, gp.nodes.len() as int);
                assert forall|m: int| 0 <= m < rids.len() implies is_ready_id(gp, #[trigger] rids[m]) by {
                    let j = choose|j: int|
                        0 <= j < gp.nodes.len() && (#[trigger] gp.nodes[j]).id == ready_prefix(gp, gp.nodes.len() as int)[m]
                            && node_ready(gp, gp.nodes[j]);
                }
            }
            let mut progressed = false;
            let mut deferred: Vec<String> = Vec::new();
            let mut k: usize = 0;
            while k < ready.len()
                invariant
                    g0 == old(self)@,
                    forall|n: &ExecutionNode| #[trigger] handler.requires((n,)),
                    self.wf(),
                    graph_faithful(g0) ==> self.faithful(),
                    self@.next_sequence + 2 * pending_count(self@.nodes) + self@.nodes.len() + 1 < u64::MAX,
                    progressed_from(g0, self@),
                    forall|m: int|
                        0 <= m < executed@.len() ==> executed_state(state_of(self@.nodes, #[trigger] executed@[m]@)),
                    forall|m: int| 0 <= m < executed@.len() ==> ran_as(handler, self@, #[trigger] executed@[m]@),
                    forall|m: int| 0 <= m < executed@.len() ==> state_of(g0.nodes, #[trigger] executed@[m]@) is Pending,
                    skip_record(g0, self@, skipped_all@),
                    order_record(self@.transitions, executed@, px, skipped_all@, ps),
                    forall|y: Seq<char>|
                        #[trigger] state_of(self@.nodes, y) != state_of(g0.nodes, y) ==> strs_view(executed@).contains(y)
                            || strs_view(skipped_all@).contains(y),
                    executed@.len() == 0 && skipped_all@.len() == 0 ==> self@ == g0,
                    no_repeats(executed@),
                    forall|a: ExecutionArtifactView|
                        #[trigger] self@.artifacts.contains(a) ==> g0.artifacts.contains(a) || from_run(handler, self@, a),
                    !stalled,
                    deferred_out@.len() == 0,
                    rids == strs_view(ready@),
                    rids == ready_ids(gp),
                    rids.len() > 0,
                    keys_sorted(rids),
                    settled(gp),
                    k <= rids.len(),
                    forall|m: int| k <= m < rids.len() ==> is_ready_id(self@, #[trigger] rids[m]),
                    progressed ==> pending_count(self@.nodes) < pending_count(gp.nodes),
                    !progressed ==> self@ == gp && strs_view(deferred@) == rids.take(k as int),
                    forall|m: int|
                        0 <= m < deferred@.len() ==> answered(
                            handler,
                            #[trigger] deferred@[m]@,
                            NodeExecutionOutcome::Deferred,
                        ),
                decreases ready.len() - k,
            {
                let node_id = ready[k].clone();
                let ghost x = node_id@;
                let ghost before = self@;
                proof {
                    assert(x == rids[k as int]);
                    assert(is_ready_id(self@, x));
                    assert forall|m: int| k < m < rids.len() implies #[trigger] rids[m] != x by {
                        super::lemmas::lemma_keys_distinct(rids, k as int, m);
                    }
                    lemma_pending_count_bound(self@.nodes);
                }
                let node = match self.node(node_id.as_str()) {
                    Some(n) => n.clone(),
                    None => {
                        proof {
                            let q = choose|q: int| 0 <= q < before.nodes.len() && (#[trigger] before.nodes[q]).id == x
                                && node_ready(before, before.nodes[q]);
                        }
                        return Err(ExecutionGraphError::MissingNode(node_id));
                    },
                };
                proof {
                    lemma_state_of_lookup(before.nodes, x);
                    let q = choose|q: int| 0 <= q < before.nodes.len() && (#[trigger] before.nodes[q]).id == x
                        && node_ready(before, before.nodes[q]);
                    assert(state_of(before.nodes, x) is Pending);
                    if !(state_of(g0.nodes, x) is Pending) {
                        lemma_progress_keeps(g0, before, x);
                    }
                    assert forall|m: int| 0 <= m < executed@.len() implies #[trigger] executed@[m]@ != x by {
                        assert(executed_state(state_of(before.nodes, executed@[m]@)));
                    }
                }
                let outcome = handler(&node);
                let ghost og = outcome;
                let ghost ex0 = executed@;
                proof {
                    assert(call_ensures(handler, (&node,), og) && node.id@ == x && node.state is Pending);
                    assert(answered(handler, x, og));
                    if answers_fit(handler, g0) {
                        lemma_fit_acceptable(handler, g0, before, x, og);
                    }
                }
                let ran = match self.run_outcome(node_id.as_str(), outcome) {
                    Ok(b) => b,
                    Err(e) => {
                        proof {
                            assert(answered(handler, x, og) && og is Succeeded && is_ready_id(self@, x)
                                && refused_with(self@, x, offered(og), e));
                            lemma_record_facts(handler, g0, self@, executed@, skipped_all@);
                        }
                        return Err(e);
                    },
                };
                if ran {
                    executed.push(node_id);
                    proof {
                        let after = self@;
                        assert forall|m: int| 0 <= m < skipped_all@.len() implies (#[trigger] skipped_all@[m])@ != x by {
                            reveal(skip_record);
                            assert(state_of(before.nodes, skipped_all@[m]@) is Skipped);
                            assert(state_of(before.nodes, x) is Pending);
                        }
                        assert(executed@ == ex0.push(executed@.last()));
                        lemma_order_after_run(before.transitions, after.transitions, ex0, px, skipped_all@, ps, executed@.last());
                        px = px.push(after.transitions.len() - 1);
                        assert forall|a: ExecutionArtifactView| #[trigger] before.artifacts.contains(a) implies after.artifacts.contains(a) by {
                            if og is Succeeded {
                                lemma_merged_keeps(before, x, offered(og), after.artifacts, a);
                            }
                        }
                        assert forall|y: Seq<char>| #[trigger] state_of(before.nodes, y) is Succeeded implies state_of(
                            after.nodes,
                            y,
                        ) is Succeeded by {
                            if y != x {
                                assert(state_of(after.nodes, y) == state_of(before.nodes, y));
                            }
                        }
                        assert forall|a: ExecutionArtifactView| #[trigger] after.artifacts.contains(a) implies g0.artifacts.contains(a)
                            || from_run(handler, after, a) by {
                            if !g0.artifacts.contains(a) {
                                if before.artifacts.contains(a) && !has_artifact_id(offered(og), a.id) {
                                    lemma_from_run_kept(handler, before, after, a);
                                } else {
                                    let j = choose|j: int| 0 <= j < offered(og).len() && offered(og)[j] == a && forall|l: int|
                                        j < l < offered(og).len() ==> (#[trigger] offered(og)[l]).id != a.id;
                                    assert(offered(og).contains(a));
                                    assert(answered(handler, x, og) && state_of(after.nodes, x) is Succeeded
                                        && offered(og).contains(a));
                                }
                            }
                        }
                        assert(kept(after, offered(og)));
                        assert(ran_as(handler, after, x));
                        assert forall|m: int| 0 <= m < ex0.len() implies ran_as(handler, after, #[trigger] ex0[m]@) by {
                            assert(ex0[m]@ != x);
                            lemma_ran_as_kept(handler, before, after, ex0[m]@);
                        }
                        lemma_progress_trans(g0, before, after);
                        assert forall|m: int| 0 <= m < executed@.len() implies executed_state(
                            state_of(after.nodes, #[trigger] executed@[m]@),
                        ) by {
                            if m < executed@.len() - 1 {
                                lemma_progress_keeps(before, after, executed@[m]@);
                            }
                        }
                        assert forall|m: int| 0 <= m < executed@.len() implies ran_as(handler, after, #[trigger] executed@[m]@)
                            && state_of(g0.nodes, executed@[m]@) is Pending by {
                            if m == executed@.len() - 1 {
                                assert(executed@[m]@ == x);
                            } else {
                                assert(executed@[m] == ex0[m]);
                            }
                        }
                        lemma_skip_record_progress(g0, before, after, skipped_all@);
                        assert forall|m: int| k + 1 <= m < rids.len() implies is_ready_id(after, #[trigger] rids[m]) by {
                            assert(is_ready_id(before, rids[m]));
                        }
                        lemma_changed_listed(g0, before, after, ex0, executed@, skipped_all@, x);
                        assert forall|i: int, j: int| 0 <= i < j < executed@.len() implies (#[trigger] executed@[i])@
                            != (#[trigger] executed@[j])@ by {
                            assert(executed@[i] == ex0[i]);
                            if j < ex0.len() {
                                assert(executed@[j] == ex0[j]);
                            }
                        }
                    }
                    progressed = true;
                } else {
                    let ghost d0 = deferred@;
                    deferred.push(node_id);
                    proof {
                        assert(og is Deferred);
                        assert forall|m: int| 0 <= m < deferred@.len() implies answered(
                            handler,
                            #[trigger] deferred@[m]@,
                            NodeExecutionOutcome::Deferred,
                        ) by {
                            if m < d0.len() {
                                assert(deferred@[m] == d0[m]);
                            }
                        }
                        if !progressed {
                            assert(strs_view(deferred@) =~= rids.take(k + 1));
                        }
                    }
                }
                k += 1;
            }
            if !progressed {
                proof {
                    assert(rids.take(rids.len() as int) =~= rids);
                }
                deferred_out = deferred;
                stalled = true;
                break;
            }
        }
        proof {
            lemma_record_facts(handler, g0, self@, executed@, skipped_all@);
            reveal(order_record);
            assert(listed_in_order(self@.transitions, executed@, px));
            assert(listed_in_order(self@.transitions, skipped_all@, ps));
            let gf = self@;
            assert forall|y: Seq<char>|
                (#[trigger] state_of(gf.nodes, y) != state_of(g0.nodes, y)) <==> (strs_view(executed@).contains(y)
                    || strs_view(skipped_all@).contains(y)) by {
                if strs_view(executed@).contains(y) {
                    let m = choose|m: int| 0 <= m < strs_view(executed@).len() && strs_view(executed@)[m] == y;
                    assert(executed@[m]@ == y);
                    assert(executed_state(state_of(gf.nodes, executed@[m]@)));
                }
                if strs_view(skipped_all@).contains(y) {
                    let m = choose|m: int| 0 <= m < strs_view(skipped_all@).len() && strs_view(skipped_all@)[m] == y;
                    assert(skipped_all@[m]@ == y);
                }
            }
        }
        Ok(
            ExecutionScheduleReport {
                executed_nodes: executed,
                skipped_nodes: skipped_all,
                deferred_nodes: deferred_out,
                stalled,
            },
        )
    }
}

} // verus!
