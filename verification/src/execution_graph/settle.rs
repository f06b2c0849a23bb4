//! Propagating failure: pending nodes whose prerequisites can never succeed
//! are skipped.
use vstd::prelude::*;
use super::ExecutionGraph;
use super::types::{strs_view, ExecutionEdgeKind, ExecutionGraphError, ExecutionNodeState};
use super::spec::{
    after_set, dead_state, edges_view, graph_faithful, has_id, idx_of, node_blocked, nodes_view,
    pending_count, settled, state_of, ExecutionGraphView, node_keys, ids_sorted,
};
use super::lemmas::{
    lemma_pending_count_bound, lemma_pending_count_update, lemma_sorted_distinct,
    lemma_state_of_lookup,
};
use super::lifecycle::{lemma_after_set_wf, lemma_idx_of};
use crate::text::str_eq;

verus! {

/// The reason recorded when a node is skipped.
pub open spec fn skip_reason() -> Seq<char> {
    "a prerequisite did not succeed"@
}

/// The graph after the listed nodes are skipped one after another.
pub open spec fn skip_all(g: ExecutionGraphView, ids: Seq<Seq<char>>) -> ExecutionGraphView
    decreases ids.len(),
{
    if ids.len() == 0 {
        g
    } else {
        let h = skip_all(g, ids.drop_last());
        after_set(h, idx_of(h.nodes, ids.last()), ExecutionNodeState::Skipped, Some(skip_reason()))
    }
}

/// Setting one node's state leaves every other node's state, and the
/// identifiers, as they were.
pub proof fn lemma_set_others(
    g: ExecutionGraphView,
    i: int,
    to: ExecutionNodeState,
    reason: Option<Seq<char>>,
    y: Seq<char>,
)
    requires
        ids_sorted(g.nodes),
        0 <= i < g.nodes.len(),
        g.nodes[i].id != y,
    ensures
        state_of(after_set(g, i, to, reason).nodes, y) == state_of(g.nodes, y),
        node_keys(after_set(g, i, to, reason).nodes) == node_keys(g.nodes),
        ids_sorted(after_set(g, i, to, reason).nodes),
{
    let h = after_set(g, i, to, reason);
    assert(node_keys(h.nodes) =~= node_keys(g.nodes));
    lemma_state_of_lookup(g.nodes, y);
    lemma_state_of_lookup(h.nodes, y);
    if has_id(g.nodes, y) {
        let m = choose|m: int| 0 <= m < g.nodes.len() && (#[trigger] g.nodes[m]).id == y;
        assert(h.nodes[m] == g.nodes[m]);
    } else {
        assert(!has_id(h.nodes, y)) by {
            if has_id(h.nodes, y) {
                let m = choose|m: int| 0 <= m < h.nodes.len() && (#[trigger] h.nodes[m]).id == y;
                assert(node_keys(h.nodes)[m] == node_keys(g.nodes)[m]);
            }
        }
    }
}

proof fn lemma_skipped_prefix(g: ExecutionGraphView, ids: Seq<Seq<char>>)
    requires
        ids.len() > 0,
        skipped_in_order(g, ids),
    ensures
        skipped_in_order(g, ids.drop_last()),
{
    let d = ids.drop_last();
    assert forall|k: int| 0 <= k < d.len() implies {
        let h = skip_all(g, d.take(k));
        &&& first_blocked(h, idx_of(h.nodes, #[trigger] d[k]))
        &&& h.nodes[idx_of(h.nodes, d[k])].id == d[k]
    } by {
        assert(d.take(k) =~= ids.take(k));
        assert(d[k] == ids[k]);
    }
}

/// Skipping the listed nodes in order: identifiers and artifacts stay,
/// nodes not listed keep their state, and each listed node was pending and
/// ends skipped.
proof fn lemma_skip_one(g: ExecutionGraphView, d: Seq<Seq<char>>, h: ExecutionGraphView, i: int, x: Seq<char>)
    requires
        ids_sorted(g.nodes),
        node_keys(h.nodes) == node_keys(g.nodes),
        0 <= i < h.nodes.len(),
        h.nodes[i].id == x,
        h.nodes[i].state is Pending,
        forall|y: Seq<char>| !d.contains(y) ==> #[trigger] state_of(h.nodes, y) == state_of(g.nodes, y),
        forall|k: int|
            0 <= k < d.len() ==> state_of(h.nodes, #[trigger] d[k]) is Skipped && state_of(g.nodes, d[k]) is Pending,
    ensures
        ({
            let h2 = after_set(h, i, ExecutionNodeState::Skipped, Some(skip_reason()));
            let ids = d.push(x);
            &&& node_keys(h2.nodes) == node_keys(g.nodes)
            &&& forall|y: Seq<char>| !ids.contains(y) ==> #[trigger] state_of(h2.nodes, y) == state_of(g.nodes, y)
            &&& forall|k: int|
                0 <= k < ids.len() ==> state_of(h2.nodes, #[trigger] ids[k]) is Skipped && state_of(g.nodes, ids[k]) is Pending
        }),
{
    let h2 = after_set(h, i, ExecutionNodeState::Skipped, Some(skip_reason()));
    let ids = d.push(x);
    assert(ids_sorted(h.nodes));
    assert(node_keys(h2.nodes) =~= node_keys(h.nodes));
    lemma_state_of_lookup(h.nodes, x);
    lemma_state_of_lookup(h2.nodes, x);
    assert(!d.contains(x)) by {
        if d.contains(x) {
            let q = choose|q: int| 0 <= q < d.len() && d[q] == x;
            assert(state_of(h.nodes, d[q]) is Skipped);
        }
    }
    assert(state_of(h.nodes, x) == state_of(g.nodes, x));
    assert forall|y: Seq<char>| !ids.contains(y) implies #[trigger] state_of(h2.nodes, y) == state_of(g.nodes, y) by {
        assert(!d.contains(y)) by {
            if d.contains(y) {
                let q = choose|q: int| 0 <= q < d.len() && d[q] == y;
                assert(ids[q] == y);
            }
        }
        assert(y != x) by {
            if y == x {
                assert(ids[d.len() as int] == y);
            }
        }
        lemma_set_others(h, i, ExecutionNodeState::Skipped, Some(skip_reason()), y);
    }
    assert forall|q: int| 0 <= q < ids.len() implies state_of(h2.nodes, #[trigger] ids[q]) is Skipped && state_of(
        g.nodes,
        ids[q],
    ) is Pending by {
        if q < d.len() {
            assert(ids[q] == d[q]);
            assert(ids[q] != x);
            lemma_set_others(h, i, ExecutionNodeState::Skipped, Some(skip_reason()), ids[q]);
        } else {
            assert(ids[q] == x);
            assert(h2.nodes[i].id == x);
        }
    }
}

/// Skipping the listed nodes in order: identifiers and artifacts stay,
/// nodes not listed keep their state, and each listed node was pending and
/// ends skipped.
pub proof fn lemma_skip_all_facts(g: ExecutionGraphView, ids: Seq<Seq<char>>)
    requires
        ids_sorted(g.nodes),
        skipped_in_order(g, ids),
    ensures
        node_keys(skip_all(g, ids).nodes) == node_keys(g.nodes),
        skip_all(g, ids).artifacts == g.artifacts,
        forall|y: Seq<char>| !ids.contains(y) ==> #[trigger] state_of(skip_all(g, ids).nodes, y) == state_of(g.nodes, y),
        forall|k: int|
            0 <= k < ids.len() ==> state_of(skip_all(g, ids).nodes, #[trigger] ids[k]) is Skipped && state_of(
                g.nodes,
                ids[k],
            ) is Pending,
    decreases ids.len(),
{
    if ids.len() > 0 {
        let d = ids.drop_last();
        let x = ids.last();
        lemma_skipped_prefix(g, ids);
        lemma_skip_all_facts(g, d);
        let h = skip_all(g, d);
        let k = ids.len() - 1;
        assert(ids.take(k) =~= d);
        let i = idx_of(h.nodes, x);
        assert(first_blocked(h, i) && h.nodes[i].id == x) by {
            assert(ids[k] == x);
        }
        lemma_skip_one(g, d, h, i, x);
        assert(d.push(x) =~= ids);
    }
}

/// Node `i` is the first blocked node in node order.
pub open spec fn first_blocked(g: ExecutionGraphView, i: int) -> bool {
    &&& 0 <= i < g.nodes.len()
    &&& node_blocked(g, g.nodes[i])
    &&& forall|j: int| 0 <= j < i ==> !node_blocked(g, #[trigger] g.nodes[j])
}

/// Each listed node was, when skipped, the first blocked node.
pub open spec fn skipped_in_order(g: ExecutionGraphView, ids: Seq<Seq<char>>) -> bool {
    forall|k: int|
        0 <= k < ids.len() ==> {
            let h = skip_all(g, ids.take(k));
            &&& first_blocked(h, idx_of(h.nodes, #[trigger] ids[k]))
            &&& h.nodes[idx_of(h.nodes, ids[k])].id == ids[k]
        }
}

/// A non-finally prerequisite of `x` ended without success.
pub open spec fn cut_off(g: ExecutionGraphView, x: Seq<char>) -> bool {
    exists|k: int|
        0 <= k < g.edges.len() && (#[trigger] g.edges[k]).to == x && !(g.edges[k].kind is Finally) && dead_state(
            state_of(g.nodes, g.edges[k].from),
        )
}

proof fn lemma_skip_keeps_dead(h: ExecutionGraphView, i: int, x: Seq<char>)
    requires
        ids_sorted(h.nodes),
        0 <= i < h.nodes.len(),
        h.nodes[i].id == x,
    ensures
        forall|y: Seq<char>|
            dead_state(#[trigger] state_of(h.nodes, y)) ==> dead_state(
                state_of(after_set(h, i, ExecutionNodeState::Skipped, Some(skip_reason())).nodes, y),
            ),
        after_set(h, i, ExecutionNodeState::Skipped, Some(skip_reason())).edges == h.edges,
{
    let f = after_set(h, i, ExecutionNodeState::Skipped, Some(skip_reason()));
    assert(x.push('a').len() != x.len());
    lemma_set_others(h, i, ExecutionNodeState::Skipped, Some(skip_reason()), x.push('a'));
    lemma_state_of_lookup(f.nodes, x);
    assert(f.nodes[i].id == x);
    assert forall|y: Seq<char>| dead_state(#[trigger] state_of(h.nodes, y)) implies dead_state(state_of(f.nodes, y)) by {
        if y != x {
            lemma_set_others(h, i, ExecutionNodeState::Skipped, Some(skip_reason()), y);
        }
    }
}

/// Every node skipped in order is cut off from success in the graph
/// that results.
pub proof fn lemma_skip_all_cut(g: ExecutionGraphView, ids: Seq<Seq<char>>)
    requires
        ids_sorted(g.nodes),
        skipped_in_order(g, ids),
    ensures
        skip_all(g, ids).edges == g.edges,
        forall|k: int| 0 <= k < ids.len() ==> #[trigger] cut_off(skip_all(g, ids), ids[k]),
    decreases ids.len(),
{
    if ids.len() > 0 {
        let d = ids.drop_last();
        let x = ids.last();
        let h = skip_all(g, d);
        let n = ids.len() - 1;
        let i = idx_of(h.nodes, x);
        assert(skipped_in_order(g, d) && ids_sorted(h.nodes) && node_blocked(h, h.nodes[i]) && 0 <= i < h.nodes.len()
            && h.nodes[i].id == x) by {
            lemma_skipped_prefix(g, ids);
            lemma_skip_all_facts(g, d);
            assert(ids.take(n) =~= d);
            assert(ids[n] == x);
        }
        lemma_skip_all_cut(g, d);
        let f = after_set(h, i, ExecutionNodeState::Skipped, Some(skip_reason()));
        assert(f == skip_all(g, ids));
        lemma_skip_keeps_dead(h, i, x);
        assert(cut_off(h, x)) by {
            let e = choose|e: int|
                0 <= e < h.edges.len() && (#[trigger] h.edges[e]).to == h.nodes[i].id && !(h.edges[e].kind is Finally)
                    && dead_state(state_of(h.nodes, h.edges[e].from));
        }
        assert forall|k: int| 0 <= k < ids.len() implies #[trigger] cut_off(f, ids[k]) by {
            if k < n {
                assert(ids[k] == d[k]);
            }
            lemma_cut_kept(h, i, x, ids[k]);
        }
    }
}

/// No node is skipped twice in one settling pass.
pub proof fn lemma_skipped_distinct(g: ExecutionGraphView, ids: Seq<Seq<char>>)
    requires
        ids_sorted(g.nodes),
        skipped_in_order(g, ids),
    ensures
        forall|a: int, b: int| 0 <= a < b < ids.len() ==> #[trigger] ids[a] != #[trigger] ids[b],
    decreases ids.len(),
{
    if ids.len() > 0 {
        let d = ids.drop_last();
        let x = ids.last();
        let h = skip_all(g, d);
        let n = ids.len() - 1;
        let i = idx_of(h.nodes, x);
        assert(skipped_in_order(g, d) && ids_sorted(h.nodes) && node_blocked(h, h.nodes[i]) && 0 <= i < h.nodes.len()
            && h.nodes[i].id == x) by {
            lemma_skipped_prefix(g, ids);
            lemma_skip_all_facts(g, d);
            assert(ids.take(n) =~= d);
            assert(ids[n] == x);
        }
        lemma_skipped_distinct(g, d);
        assert(forall|k: int| 0 <= k < d.len() ==> state_of(h.nodes, #[trigger] d[k]) is Skipped) by {
            lemma_skip_all_facts(g, d);
        }
        assert(state_of(h.nodes, x) is Pending) by {
            lemma_state_of_lookup(h.nodes, x);
        }
        assert forall|a: int, b: int| 0 <= a < b < ids.len() implies #[trigger] ids[a] != #[trigger] ids[b] by {
            assert(ids[a] == d[a]);
            if b < n {
                assert(ids[b] == d[b]);
            } else {
                assert(ids[b] == x);
                assert(state_of(h.nodes, d[a]) is Skipped);
            }
        }
    }
}

/// Each node skipped in order adds one transition to the history, in the
/// order of the list.
pub proof fn lemma_skip_all_transitions(g: ExecutionGraphView, ids: Seq<Seq<char>>)
    requires
        ids_sorted(g.nodes),
        skipped_in_order(g, ids),
    ensures
        skip_all(g, ids).transitions.len() == g.transitions.len() + ids.len(),
        skip_all(g, ids).transitions.take(g.transitions.len() as int) == g.transitions,
        forall|k: int|
            0 <= k < ids.len() ==> (#[trigger] skip_all(g, ids).transitions[g.transitions.len() + k]).node_id == ids[k],
    decreases ids.len(),
{
    if ids.len() > 0 {
        let d = ids.drop_last();
        let x = ids.last();
        let h = skip_all(g, d);
        let n = ids.len() - 1;
        let i = idx_of(h.nodes, x);
        assert(skipped_in_order(g, d) && h.nodes[i].id == x) by {
            lemma_skipped_prefix(g, ids);
            assert(ids.take(n) =~= d);
            assert(ids[n] == x);
        }
        lemma_skip_all_transitions(g, d);
        let f = after_set(h, i, ExecutionNodeState::Skipped, Some(skip_reason()));
        assert(f == skip_all(g, ids));
        let gl = g.transitions.len() as int;
        assert(f.transitions == h.transitions.push(f.transitions.last()));
        assert(f.transitions.take(gl) =~= g.transitions) by {
            assert forall|k: int| 0 <= k < gl implies f.transitions[k] == g.transitions[k] by {
                assert(h.transitions[k] == h.transitions.take(gl)[k]);
            }
        }
        assert forall|k: int| 0 <= k < ids.len() implies (#[trigger] f.transitions[gl + k]).node_id == ids[k] by {
            if k < n {
                assert(ids[k] == d[k]);
                assert(f.transitions[gl + k] == h.transitions[gl + k]);
                assert(h.transitions[gl + k].node_id == d[k]);
            }
        }
    }
}

/// Progress keeps a node cut off.
pub proof fn lemma_cut_progress(a: ExecutionGraphView, b: ExecutionGraphView, y: Seq<char>)
    requires
        progressed_from(a, b),
        ids_sorted(a.nodes),
        cut_off(a, y),
    ensures
        cut_off(b, y),
{
    let e = choose|e: int|
        0 <= e < a.edges.len() && (#[trigger] a.edges[e]).to == y && !(a.edges[e].kind is Finally) && dead_state(
            state_of(a.nodes, a.edges[e].from),
        );
    lemma_progress_keeps(a, b, a.edges[e].from);
    assert(b.edges[e] == a.edges[e]);
}

proof fn lemma_cut_kept(h: ExecutionGraphView, i: int, x: Seq<char>, y: Seq<char>)
    requires
        ids_sorted(h.nodes),
        0 <= i < h.nodes.len(),
        h.nodes[i].id == x,
        cut_off(h, y),
    ensures
        cut_off(after_set(h, i, ExecutionNodeState::Skipped, Some(skip_reason())), y),
{
    let f = after_set(h, i, ExecutionNodeState::Skipped, Some(skip_reason()));
    lemma_skip_keeps_dead(h, i, x);
    let e = choose|e: int|
        0 <= e < h.edges.len() && (#[trigger] h.edges[e]).to == y && !(h.edges[e].kind is Finally) && dead_state(
            state_of(h.nodes, h.edges[e].from),
        );
    assert(f.edges[e] == h.edges[e]);
}

/// `b` is `a` with some pending nodes moved on to a state other than
/// running; nothing else changed in nodes or edges.
pub open spec fn progressed_from(a: ExecutionGraphView, b: ExecutionGraphView) -> bool {
    &&& b.nodes.len() == a.nodes.len()
    &&& node_keys(b.nodes) == node_keys(a.nodes)
    &&& b.edges == a.edges
    &&& forall|i: int|
        0 <= i < a.nodes.len() ==> (#[trigger] b.nodes[i]).state == a.nodes[i].state || (
        a.nodes[i].state is Pending && !(b.nodes[i].state is Pending) && !(b.nodes[i].state is Running))
}

pub proof fn lemma_progress_trans(a: ExecutionGraphView, b: ExecutionGraphView, c: ExecutionGraphView)
    requires
        progressed_from(a, b),
        progressed_from(b, c),
    ensures
        progressed_from(a, c),
{
    assert forall|i: int| 0 <= i < a.nodes.len() implies (#[trigger] c.nodes[i]).state == a.nodes[i].state || (
    a.nodes[i].state is Pending && !(c.nodes[i].state is Pending) && !(c.nodes[i].state is Running)) by {
        assert(b.nodes[i].state == a.nodes[i].state || a.nodes[i].state is Pending);
        assert(c.nodes[i].state == b.nodes[i].state || b.nodes[i].state is Pending);
    }
}

/// Progress leaves every node that had left the pending state where it was.
pub proof fn lemma_progress_keeps(a: ExecutionGraphView, b: ExecutionGraphView, e: Seq<char>)
    requires
        progressed_from(a, b),
        ids_sorted(a.nodes),
        !(state_of(a.nodes, e) is Pending),
    ensures
        state_of(b.nodes, e) == state_of(a.nodes, e),
{
    lemma_state_of_lookup(a.nodes, e);
    lemma_state_of_lookup(b.nodes, e);
    let i = choose|i: int| 0 <= i < a.nodes.len() && (#[trigger] a.nodes[i]).id == e;
    assert(node_keys(a.nodes)[i] == e);
    assert(b.nodes[i].id == node_keys(b.nodes)[i]);
}

/// A pending node moved on records progress.
pub proof fn lemma_set_progress(a: ExecutionGraphView, i: int, to: ExecutionNodeState, reason: Option<Seq<char>>)
    requires
        0 <= i < a.nodes.len(),
        a.nodes[i].state is Pending,
        !(to is Pending),
        !(to is Running),
    ensures
        progressed_from(a, after_set(a, i, to, reason)),
{
    let b = after_set(a, i, to, reason);
    assert(node_keys(b.nodes) =~= node_keys(a.nodes));
}

/// Skipping is progress, and every skipped node ends skipped.
impl ExecutionGraph {
    fn node_is_blocked(&self, i: usize) -> (b: bool)
        requires
            self.wf(),
            i < self@.nodes.len(),
        ensures
            b == node_blocked(self@, self@.nodes[i as int]),
    {
        if self.nodes[i].state != ExecutionNodeState::Pending {
            return false;
        }
        let mut k: usize = 0;
        while k < self.edges.len()
            invariant
                self.wf(),
                i < self@.nodes.len(),
                k <= self.edges@.len(),
                self@.edges == edges_view(self.edges@),
                self@.nodes == nodes_view(self.nodes@),
                self@.nodes[i as int].state is Pending,
                forall|q: int|
                    0 <= q < k ==> !((#[trigger] self@.edges[q]).to == self@.nodes[i as int].id && !(
                    self@.edges[q].kind is Finally) && dead_state(
                        state_of(self@.nodes, self@.edges[q].from),
                    )),
            decreases self.edges.len() - k,
        {
            let e = &self.edges[k];
            proof {
                assert(self@.edges[k as int] == e@);
            }
            if e.kind != ExecutionEdgeKind::Finally && str_eq(e.to.as_str(), self.nodes[i].id.as_str()) {
                proof {
                    lemma_state_of_lookup(self@.nodes, e@.from);
                }
                match self.find_node(e.from.as_str()) {
                    None => {},
                    Some(j) => {
                        let st = self.nodes[j].state;
                        match st {
                            ExecutionNodeState::Failed | ExecutionNodeState::Skipped
                            | ExecutionNodeState::Cancelled => {
                                proof {
                                    assert(self@.nodes[j as int].id == e@.from);
                                    assert(self@.nodes[i as int].id == self.nodes@[i as int].id@);
                                    assert(self@.edges[k as int].to == self@.nodes[i as int].id);
                                    assert(dead_state(state_of(self@.nodes, self@.edges[k as int].from)));
                                }
                                return true;
                            },
                            _ => {},
                        }
                    },
                }
            }
            k += 1;
        }
        false
    }

    fn find_blocked(&self) -> (r: Option<usize>)
        requires
            self.wf(),
        ensures
            match r {
                Some(i) => first_blocked(self@, i as int),
                None => settled(self@),
            },
    {
        let mut i: usize = 0;
        while i < self.nodes.len()
            invariant
                self.wf(),
                i <= self@.nodes.len(),
                self@.nodes == nodes_view(self.nodes@),
                forall|j: int| 0 <= j < i ==> !node_blocked(self@, #[trigger] self@.nodes[j]),
            decreases self.nodes.len() - i,
        {
            if self.node_is_blocked(i) {
                return Some(i);
            }
            i += 1;
        }
        None
    }

    /// Skips every pending node whose non-finally prerequisite failed, was
    /// skipped or was cancelled, repeating until none is left; returns the
    /// skipped nodes in the order they were skipped.
    pub fn settle_unreachable(&mut self) -> (r: Result<Vec<String>, ExecutionGraphError>)
        requires
            old(self).wf(),
            old(self)@.next_sequence + pending_count(old(self)@.nodes) < u64::MAX,
        ensures
            final(self).wf(),
            old(self).faithful() ==> final(self).faithful(),
            r matches Ok(skipped) && final(self)@ == skip_all(old(self)@, strs_view(skipped@))
                && skipped_in_order(old(self)@, strs_view(skipped@)) && settled(final(self)@)
                && final(self)@.nodes.len() == old(self)@.nodes.len()
                && progressed_from(old(self)@, final(self)@)
                && (forall|m: int| 0 <= m < skipped@.len() ==> state_of(final(self)@.nodes, #[trigger] skipped@[m]@) is Skipped)
                && final(self)@.next_sequence == old(self)@.next_sequence + skipped@.len()
                && pending_count(final(self)@.nodes) + skipped@.len() == pending_count(old(self)@.nodes),
    {
        let ghost g0 = self@;
        let mut skipped: Vec<String> = Vec::new();
        proof {
            assert(strs_view(skipped@) =~= Seq::<Seq<char>>::empty());
            lemma_pending_count_bound(g0.nodes);
        }
        loop
            invariant
                g0 == old(self)@,
                self.wf(),
                graph_faithful(g0) ==> self.faithful(),
                g0.next_sequence + pending_count(g0.nodes) < u64::MAX,
                pending_count(g0.nodes) <= g0.nodes.len(),
                self@ == skip_all(g0, strs_view(skipped@)),
                skipped_in_order(g0, strs_view(skipped@)),
                self@.nodes.len() == g0.nodes.len(),
                self@.next_sequence == g0.next_sequence + skipped@.len(),
                pending_count(self@.nodes) + skipped@.len() == pending_count(g0.nodes),
                progressed_from(g0, self@),
                forall|m: int| 0 <= m < skipped@.len() ==> state_of(self@.nodes, #[trigger] skipped@[m]@) is Skipped,
            decreases pending_count(self@.nodes),
        {
            match self.find_blocked() {
                None => {
                    return Ok(skipped);
                },
                Some(i) => {
                    let id = self.nodes[i].id.clone();
                    let ghost before = self@;
                    let ghost s0 = strs_view(skipped@);
                    proof {
                        lemma_idx_of(before.nodes, i as int);
                        lemma_state_of_lookup(before.nodes, id@);
                        lemma_after_set_wf(before, i as int, ExecutionNodeState::Skipped, Some(skip_reason()));
                        lemma_pending_count_update(
                            before.nodes,
                            i as int,
                            super::types::ExecutionNodeView { state: ExecutionNodeState::Skipped, ..before.nodes[i as int] },
                        );
                    }
                    let r = self.set_state(
                        id.as_str(),
                        ExecutionNodeState::Pending,
                        ExecutionNodeState::Skipped,
                        Some("a prerequisite did not succeed".to_owned()),
                    );
                    proof {
                        assert(r is Ok);
                    }
                    let ghost sk0 = skipped@;
                    skipped.push(id);
                    proof {
                        let after = self@;
                        lemma_set_progress(before, i as int, ExecutionNodeState::Skipped, Some(skip_reason()));
                        lemma_progress_trans(g0, before, after);
                        assert forall|m: int| 0 <= m < skipped@.len() implies state_of(after.nodes, #[trigger] skipped@[m]@) is Skipped by {
                            if m < sk0.len() {
                                assert(skipped@[m] == sk0[m]);
                                lemma_progress_keeps(before, after, skipped@[m]@);
                            } else {
                                lemma_state_of_lookup(after.nodes, id@);
                                assert(after.nodes[i as int].id == id@);
                            }
                        }
                        let s1 = strs_view(skipped@);
                        assert(s1 =~= s0.push(before.nodes[i as int].id));
                        assert(s1.drop_last() =~= s0);
                        assert(self@ == skip_all(g0, s1));
                        assert forall|k: int| 0 <= k < s1.len() implies ({
                            let h = skip_all(g0, s1.take(k));
                            &&& first_blocked(h, idx_of(h.nodes, #[trigger] s1[k]))
                            &&& h.nodes[idx_of(h.nodes, s1[k])].id == s1[k]
                        }) by {
                            if k < s0.len() {
                                assert(s1.take(k) =~= s0.take(k));
                                assert(s1[k] == s0[k]);
                            } else {
                                assert(s1.take(k) =~= s0);
                            }
                        }
                    }
                },
            }
        }
    }
}

} // verus!
