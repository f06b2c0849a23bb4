//! Lemmas about the graph model: sorted identifiers, node lookup, history
//! replay and reachability.
use vstd::prelude::*;
use crate::text::{
    lemma_seq_lt_irreflexive, lemma_seq_lt_total, lemma_seq_lt_transitive, seq_lt,
};
use super::types::{ExecutionEdgeView, ExecutionNodeView, ExecutionTransitionView};
use super::spec::{
    acyclic, edge_between, has_id, ids_sorted, is_walk, keys_sorted, node_keys, pending_count,
    reachable, replayed_state, state_of,
};

verus! {

pub proof fn lemma_sorted_distinct(nodes: Seq<ExecutionNodeView>, i: int, j: int)
    requires
        ids_sorted(nodes),
        0 <= i < nodes.len(),
        0 <= j < nodes.len(),
        i != j,
    ensures
        nodes[i].id != nodes[j].id,
{
    let ks = node_keys(nodes);
    assert(ks[i] == nodes[i].id && ks[j] == nodes[j].id);
    lemma_keys_distinct(ks, i, j);
}

pub proof fn lemma_keys_distinct(ks: Seq<Seq<char>>, i: int, j: int)
    requires
        keys_sorted(ks),
        0 <= i < ks.len(),
        0 <= j < ks.len(),
        i != j,
    ensures
        ks[i] != ks[j],
{
    if i < j {
        lemma_seq_lt_irreflexive(ks[i]);
        assert(seq_lt(ks[i], ks[j]));
    } else {
        lemma_seq_lt_irreflexive(ks[j]);
        assert(seq_lt(ks[j], ks[i]));
    }
}

/// Inserting a key at the position a scan found keeps the keys sorted.
pub proof fn lemma_keys_insert(ks: Seq<Seq<char>>, p: int, k: Seq<char>)
    requires
        keys_sorted(ks),
        0 <= p <= ks.len(),
        forall|j: int| 0 <= j < p ==> seq_lt(#[trigger] ks[j], k),
        p < ks.len() ==> seq_lt(k, ks[p]),
    ensures
        keys_sorted(ks.insert(p, k)),
        forall|j: int| p <= j < ks.len() ==> seq_lt(k, #[trigger] ks[j]),
{
    assert forall|j: int| p <= j < ks.len() implies seq_lt(k, #[trigger] ks[j]) by {
        if j > p {
            lemma_seq_lt_transitive(k, ks[p], ks[j]);
        }
    }
    let n = ks.insert(p, k);
    assert forall|i: int, j: int| 0 <= i < j < n.len() implies seq_lt(#[trigger] n[i], #[trigger] n[j]) by {
        if j < p {
            assert(n[i] == ks[i] && n[j] == ks[j]);
        } else if j == p {
            assert(n[i] == ks[i]);
        } else if i < p {
            assert(n[i] == ks[i] && n[j] == ks[j - 1]);
            lemma_seq_lt_transitive(ks[i], k, ks[j - 1]);
        } else if i == p {
            assert(n[j] == ks[j - 1]);
        } else {
            assert(n[i] == ks[i - 1] && n[j] == ks[j - 1]);
        }
    }
}

/// Position of a key in a sorted list found by scanning past smaller keys:
/// either the key sits there or it belongs there.
pub proof fn lemma_keys_scan(ks: Seq<Seq<char>>, p: int, k: Seq<char>)
    requires
        keys_sorted(ks),
        0 <= p <= ks.len(),
        forall|j: int| 0 <= j < p ==> seq_lt(#[trigger] ks[j], k),
        p < ks.len() ==> !seq_lt(ks[p], k),
    ensures
        p < ks.len() && ks[p] != k ==> seq_lt(k, ks[p]),
        (p == ks.len() || ks[p] != k) ==> forall|j: int| 0 <= j < ks.len() ==> ks[j] != k,
        p < ks.len() && ks[p] == k ==> forall|j: int| 0 <= j < ks.len() && ks[j] == k ==> j == p,
{
    if p < ks.len() && ks[p] != k {
        lemma_seq_lt_total(ks[p], k);
    }
    assert forall|j: int| 0 <= j < ks.len() && (p == ks.len() || ks[p] != k) implies ks[j] != k by {
        if j < p {
            lemma_seq_lt_irreflexive(k);
        } else {
            if j > p {
                lemma_seq_lt_transitive(k, ks[p], ks[j]);
            }
            lemma_seq_lt_irreflexive(k);
        }
    }
    if p < ks.len() && ks[p] == k {
        assert forall|j: int| 0 <= j < ks.len() && ks[j] == k implies j == p by {
            if j != p {
                lemma_keys_distinct(ks, j, p);
            }
        }
    }
}

/// With unique identifiers, `state_of` finds the node's own state.
pub proof fn lemma_state_of_index(nodes: Seq<ExecutionNodeView>, i: int)
    requires
        ids_sorted(nodes),
        0 <= i < nodes.len(),
    ensures
        state_of(nodes, nodes[i].id) == nodes[i].state,
    decreases nodes.len(),
{
    if i != nodes.len() - 1 {
        lemma_sorted_distinct(nodes, i, nodes.len() - 1);
        let d = nodes.drop_last();
        assert(node_keys(d) =~= node_keys(nodes).drop_last());
        assert(ids_sorted(d));
        assert(d[i] == nodes[i]);
        lemma_state_of_index(d, i);
    }
}

pub proof fn lemma_state_of_absent(nodes: Seq<ExecutionNodeView>, id: Seq<char>)
    requires
        !has_id(nodes, id),
    ensures
        state_of(nodes, id) is Pending,
    decreases nodes.len(),
{
    if nodes.len() > 0 {
        assert(nodes.last() == nodes[nodes.len() - 1]);
        let d = nodes.drop_last();
        assert forall|i: int| 0 <= i < d.len() implies d[i].id != id by {
            assert(d[i] == nodes[i]);
        }
        lemma_state_of_absent(d, id);
    }
}

/// `state_of` reads the state of whichever node carries the identifier.
pub proof fn lemma_state_of_lookup(nodes: Seq<ExecutionNodeView>, id: Seq<char>)
    requires
        ids_sorted(nodes),
    ensures
        forall|i: int| 0 <= i < nodes.len() && (#[trigger] nodes[i]).id == id ==> state_of(nodes, id) == nodes[i].state,
        !has_id(nodes, id) ==> state_of(nodes, id) is Pending,
{
    assert forall|i: int| 0 <= i < nodes.len() && (#[trigger] nodes[i]).id == id implies state_of(nodes, id) == nodes[i].state by {
        lemma_state_of_index(nodes, i);
    }
    if !has_id(nodes, id) {
        lemma_state_of_absent(nodes, id);
    }
}

/// Replaying one more transition changes only the state of its node.
pub proof fn lemma_replay_push(ts: Seq<ExecutionTransitionView>, t: ExecutionTransitionView, id: Seq<char>)
    ensures
        replayed_state(ts.push(t), id) == if t.node_id == id {
            t.to
        } else {
            replayed_state(ts, id)
        },
{
    assert(ts.push(t).drop_last() =~= ts);
}

pub proof fn lemma_pending_count_bound(nodes: Seq<ExecutionNodeView>)
    ensures
        pending_count(nodes) <= nodes.len(),
    decreases nodes.len(),
{
    if nodes.len() > 0 {
        lemma_pending_count_bound(nodes.drop_last());
    }
}

/// Changing one node's state from pending to another state lowers the
/// pending count by one; other updates leave it unchanged.
pub proof fn lemma_pending_count_update(nodes: Seq<ExecutionNodeView>, i: int, n: ExecutionNodeView)
    requires
        0 <= i < nodes.len(),
    ensures
        pending_count(nodes.update(i, n)) + (if nodes[i].state is Pending { 1int } else { 0int })
            == pending_count(nodes) + (if n.state is Pending { 1int } else { 0int }),
    decreases nodes.len(),
{
    let u = nodes.update(i, n);
    if i == nodes.len() - 1 {
        assert(u.drop_last() =~= nodes.drop_last());
    } else {
        assert(u.drop_last() =~= nodes.drop_last().update(i, n));
        lemma_pending_count_update(nodes.drop_last(), i, n);
    }
}

pub proof fn lemma_pending_count_insert(nodes: Seq<ExecutionNodeView>, i: int, n: ExecutionNodeView)
    requires
        0 <= i <= nodes.len(),
    ensures
        pending_count(nodes.insert(i, n)) == pending_count(nodes) + (if n.state is Pending {
            1int
        } else {
            0int
        }),
    decreases nodes.len(),
{
    let u = nodes.insert(i, n);
    if i == nodes.len() {
        assert(u.drop_last() =~= nodes);
    } else {
        assert(u.drop_last() =~= nodes.drop_last().insert(i, n));
        lemma_pending_count_insert(nodes.drop_last(), i, n);
    }
}

// ---- walks -----------------------------------------------------------------

pub proof fn lemma_walk_single(edges: Seq<ExecutionEdgeView>, a: Seq<char>)
    ensures
        is_walk(edges, seq![a]),
        reachable(edges, a, a),
{
    assert(is_walk(edges, seq![a]));
    assert(seq![a][0] == a && seq![a].last() == a);
}

/// A walk extended by one edge.
pub proof fn lemma_walk_extend(edges: Seq<ExecutionEdgeView>, p: Seq<Seq<char>>, b: Seq<char>)
    requires
        is_walk(edges, p),
        edge_between(edges, p.last(), b),
    ensures
        is_walk(edges, p.push(b)),
        p.push(b)[0] == p[0],
        p.push(b).last() == b,
{
    let q = p.push(b);
    assert forall|i: int| 0 <= i < q.len() - 1 implies edge_between(edges, #[trigger] q[i], q[i + 1]) by {
        if i < p.len() - 1 {
            assert(q[i] == p[i] && q[i + 1] == p[i + 1]);
        } else {
            assert(q[i] == p.last());
        }
    }
}

pub proof fn lemma_reach_extend(edges: Seq<ExecutionEdgeView>, a: Seq<char>, b: Seq<char>, c: Seq<char>)
    requires
        reachable(edges, a, b),
        edge_between(edges, b, c),
    ensures
        reachable(edges, a, c),
{
    let p = choose|p: Seq<Seq<char>>| #[trigger] is_walk(edges, p) && p[0] == a && p.last() == b;
    lemma_walk_extend(edges, p, c);
    assert(is_walk(edges, p.push(c)));
}

/// Concatenating walks that meet.
pub proof fn lemma_reach_trans(edges: Seq<ExecutionEdgeView>, a: Seq<char>, b: Seq<char>, c: Seq<char>)
    requires
        reachable(edges, a, b),
        reachable(edges, b, c),
    ensures
        reachable(edges, a, c),
{
    let q = choose|q: Seq<Seq<char>>| #[trigger] is_walk(edges, q) && q[0] == b && q.last() == c;
    lemma_reach_trans_walk(edges, a, q);
}

proof fn lemma_reach_trans_walk(edges: Seq<ExecutionEdgeView>, a: Seq<char>, q: Seq<Seq<char>>)
    requires
        is_walk(edges, q),
        reachable(edges, a, q[0]),
    ensures
        reachable(edges, a, q.last()),
    decreases q.len(),
{
    if q.len() > 1 {
        let r = q.drop_last();
        assert forall|i: int| 0 <= i < r.len() - 1 implies edge_between(edges, #[trigger] r[i], r[i + 1]) by {
            assert(r[i] == q[i] && r[i + 1] == q[i + 1]);
        }
        assert(is_walk(edges, r));
        lemma_reach_trans_walk(edges, a, r);
        assert(edge_between(edges, q[q.len() - 2], q[q.len() - 1]));
        lemma_reach_extend(edges, a, r.last(), q.last());
    }
}

/// Every edge of `small` is an edge of `big`, so walks carry over.
pub proof fn lemma_reach_mono(small: Seq<ExecutionEdgeView>, big: Seq<ExecutionEdgeView>, a: Seq<char>, b: Seq<char>)
    requires
        forall|k: int| 0 <= k < small.len() ==> edge_between(big, (#[trigger] small[k]).from, small[k].to),
        reachable(small, a, b),
    ensures
        reachable(big, a, b),
{
    let p = choose|p: Seq<Seq<char>>| #[trigger] is_walk(small, p) && p[0] == a && p.last() == b;
    assert forall|i: int| 0 <= i < p.len() - 1 implies edge_between(big, #[trigger] p[i], p[i + 1]) by {
        assert(edge_between(small, p[i], p[i + 1]));
        let k = choose|k: int| 0 <= k < small.len() && (#[trigger] small[k]).from == p[i] && small[k].to == p[i + 1];
        assert(edge_between(big, small[k].from, small[k].to));
    }
    assert(is_walk(big, p));
}

/// A walk in the graph with one added edge `(f, t)` either stays in the old
/// graph or passes through the new edge.
pub proof fn lemma_reach_push(edges: Seq<ExecutionEdgeView>, e: ExecutionEdgeView, a: Seq<char>, b: Seq<char>)
    requires
        reachable(edges.push(e), a, b),
    ensures
        reachable(edges, a, b) || (reachable(edges, a, e.from) && reachable(edges, e.to, b)),
{
    let p = choose|p: Seq<Seq<char>>| #[trigger] is_walk(edges.push(e), p) && p[0] == a && p.last() == b;
    lemma_reach_push_walk(edges, e, p);
}

proof fn lemma_reach_push_walk(edges: Seq<ExecutionEdgeView>, e: ExecutionEdgeView, p: Seq<Seq<char>>)
    requires
        is_walk(edges.push(e), p),
    ensures
        reachable(edges, p[0], p.last()) || (reachable(edges, p[0], e.from) && reachable(edges, e.to, p.last())),
    decreases p.len(),
{
    let big = edges.push(e);
    if p.len() == 1 {
        lemma_walk_single(edges, p[0]);
    } else {
        let r = p.drop_last();
        assert forall|i: int| 0 <= i < r.len() - 1 implies edge_between(big, #[trigger] r[i], r[i + 1]) by {
            assert(r[i] == p[i] && r[i + 1] == p[i + 1]);
        }
        lemma_reach_push_walk(edges, e, r);
        let x = r.last();
        let y = p.last();
        assert(x == p[p.len() - 2]);
        assert(edge_between(big, p[p.len() - 2], p[p.len() - 1]));
        let k = choose|k: int| 0 <= k < big.len() && (#[trigger] big[k]).from == x && big[k].to == y;
        if k < edges.len() {
            assert(edges[k] == big[k]);
            assert(edge_between(edges, x, y));
            if reachable(edges, p[0], x) {
                lemma_reach_extend(edges, p[0], x, y);
            } else {
                lemma_reach_extend(edges, e.to, x, y);
            }
        } else {
            assert(big[k] == e);
            lemma_walk_single(edges, y);
            if reachable(edges, p[0], x) {
                assert(x == e.from);
            }
        }
    }
}

/// Adding an edge `(f, t)` with no walk from `t` back to `f` keeps the
/// graph acyclic.
pub proof fn lemma_acyclic_push(edges: Seq<ExecutionEdgeView>, e: ExecutionEdgeView)
    requires
        acyclic(edges),
        !reachable(edges, e.to, e.from),
    ensures
        acyclic(edges.push(e)),
{
    let big = edges.push(e);
    assert forall|k: int| 0 <= k < big.len() implies !reachable(big, (#[trigger] big[k]).to, big[k].from) by {
        if reachable(big, big[k].to, big[k].from) {
            lemma_reach_push(edges, e, big[k].to, big[k].from);
            if k < edges.len() {
                assert(big[k] == edges[k]);
                assert(edge_between(edges, edges[k].from, edges[k].to));
                if reachable(edges, big[k].to, big[k].from) {
                } else {
                    // t ~> from(k) -> to(k) ~> f
                    lemma_reach_extend(edges, e.to, edges[k].from, edges[k].to);
                    lemma_reach_trans(edges, e.to, edges[k].to, e.from);
                }
            } else {
                assert(big[k] == e);
            }
        }
    }
}

} // verus!
