//! Properties of the graph that span several operations.
use vstd::prelude::*;
use crate::text::{lemma_seq_lt_irreflexive, lemma_seq_lt_transitive, seq_lt};
use super::spec::{
    artifact_keys, graph_faithful, graph_wf, intent_keys, keys_sorted, node_keys, state_of,
    ExecutionGraphView,
};
use super::types::{ExecutionArtifactView, ExecutionEffectIntentView, ExecutionNodeView};
use super::lemmas::{lemma_keys_distinct, lemma_sorted_distinct, lemma_state_of_lookup};
use super::snapshot::{restores, same_elems, snapshot_of, snapshot_valid};
use super::settle::{first_blocked, skip_all, skipped_in_order};
use super::spec::{idx_of, node_blocked, settled};
use super::recovery::{mark_all, recovered_from, running_prefix};

verus! {

/// Two lists ordered by strictly increasing keys that hold the same
/// elements are the same list.
pub proof fn lemma_sorted_same<A>(a: Seq<A>, b: Seq<A>, key: spec_fn(A) -> Seq<char>)
    requires
        keys_sorted(a.map_values(key)),
        keys_sorted(b.map_values(key)),
        same_elems(a, b),
    ensures
        a == b,
    decreases a.len(),
{
    let ka = a.map_values(key);
    let kb = b.map_values(key);
    assert(ka.len() == a.len() && kb.len() == b.len());
    if a.len() == 0 {
        if b.len() > 0 {
            assert(b.contains(b[0]));
            assert(a.contains(b[0]));
        }
        assert(a =~= b);
    } else {
        assert(a.contains(a[0]));
        assert(b.contains(a[0]));
        assert(b.len() > 0);
        assert(b.contains(b[0]));
        assert(a.contains(b[0]));
        let j = choose|j: int| 0 <= j < b.len() && b[j] == a[0];
        let i = choose|i: int| 0 <= i < a.len() && a[i] == b[0];
        if i > 0 && j > 0 {
            assert(seq_lt(kb[0], kb[j]));
            assert(seq_lt(ka[0], ka[i]));
            lemma_seq_lt_transitive(kb[0], kb[j], ka[i]);
            lemma_seq_lt_irreflexive(kb[0]);
        }
        assert(a[0] == b[0]);
        let a1 = a.drop_first();
        let b1 = b.drop_first();
        assert(a1.map_values(key) =~= ka.drop_first());
        assert(b1.map_values(key) =~= kb.drop_first());
        assert forall|x: A| #[trigger] a1.contains(x) <==> b1.contains(x) by {
            if a1.contains(x) {
                let q = choose|q: int| 0 <= q < a1.len() && a1[q] == x;
                assert(a.contains(x));
                let w = choose|w: int| 0 <= w < b.len() && b[w] == x;
                if w == 0 {
                    assert(ka[0] == key(a[0]) && ka[q + 1] == key(a[q + 1]));
                    lemma_keys_distinct(ka, 0, q + 1);
                }
                assert(b1[w - 1] == x);
            }
            if b1.contains(x) {
                let q = choose|q: int| 0 <= q < b1.len() && b1[q] == x;
                assert(b.contains(x));
                assert(a.contains(x));
                let w = choose|w: int| 0 <= w < a.len() && a[w] == x;
                if w == 0 {
                    assert(kb[0] == key(b[0]) && kb[q + 1] == key(b[q + 1]));
                    lemma_keys_distinct(kb, 0, q + 1);
                }
                assert(a1[w - 1] == x);
            }
        }
        lemma_sorted_same(a1, b1, key);
        assert(a =~= b1.insert(0, b[0]));
        assert(b =~= b1.insert(0, b[0]));
    }
}

/// A snapshot of any well-formed graph whose states agree with its history
/// passes validation, and any graph restored from it is the graph itself.
pub proof fn law_snapshot_round_trip(g: ExecutionGraphView, h: ExecutionGraphView)
    requires
        graph_wf(g),
        graph_faithful(g),
        graph_wf(h),
        restores(h, snapshot_of(g)),
    ensures
        snapshot_valid(snapshot_of(g)),
        h == g,
{
    let s = snapshot_of(g);
    assert forall|i: int, j: int| 0 <= i < j < g.nodes.len() implies (#[trigger] g.nodes[i]).id != (
    #[trigger] g.nodes[j]).id by {
        lemma_sorted_distinct(g.nodes, i, j);
    }
    assert forall|i: int, j: int| 0 <= i < j < g.artifacts.len() implies (#[trigger] g.artifacts[i]).id != (
    #[trigger] g.artifacts[j]).id by {
        lemma_keys_distinct(artifact_keys(g.artifacts), i, j);
    }
    assert forall|i: int, j: int| 0 <= i < j < g.effect_intents.len() implies (
    #[trigger] g.effect_intents[i]).id != (#[trigger] g.effect_intents[j]).id by {
        lemma_keys_distinct(intent_keys(g.effect_intents), i, j);
    }
    assert forall|i: int| 0 <= i < g.artifacts.len() implies super::spec::replayed_state(
        g.transitions,
        (#[trigger] g.artifacts[i]).producer_node,
    ) is Succeeded by {
        let p = g.artifacts[i].producer_node;
        lemma_state_of_lookup(g.nodes, p);
        let j = choose|j: int| 0 <= j < g.nodes.len() && (#[trigger] g.nodes[j]).id == p;
        assert(state_of(g.nodes, p) == g.nodes[j].state);
    }
    assert(snapshot_valid(s));
    let kn = |n: ExecutionNodeView| n.id;
    assert(h.nodes.map_values(kn) =~= node_keys(h.nodes));
    assert(g.nodes.map_values(kn) =~= node_keys(g.nodes));
    lemma_sorted_same(h.nodes, g.nodes, kn);
    let ka = |a: ExecutionArtifactView| a.id;
    assert(h.artifacts.map_values(ka) =~= artifact_keys(h.artifacts));
    assert(g.artifacts.map_values(ka) =~= artifact_keys(g.artifacts));
    lemma_sorted_same(h.artifacts, g.artifacts, ka);
    let ki = |a: ExecutionEffectIntentView| a.id;
    assert(h.effect_intents.map_values(ki) =~= intent_keys(h.effect_intents));
    assert(g.effect_intents.map_values(ki) =~= intent_keys(g.effect_intents));
    lemma_sorted_same(h.effect_intents, g.effect_intents, ki);
    assert(h =~= g);
}

/// Settling is idempotent: in a settled graph no node can be skipped, so
/// a second settling pass lists nothing and leaves the graph as it is.
pub proof fn law_settle_idempotent(g: ExecutionGraphView, ids: Seq<Seq<char>>)
    requires
        settled(g),
        skipped_in_order(g, ids),
    ensures
        ids.len() == 0,
        skip_all(g, ids) == g,
{
    if ids.len() > 0 {
        assert(ids.take(0) =~= Seq::<Seq<char>>::empty());
        let h = skip_all(g, ids.take(0));
        assert(h == g);
        let i = idx_of(h.nodes, ids[0]);
        assert(first_blocked(h, i));
        assert(node_blocked(g, g.nodes[i]));
    }
}

proof fn lemma_no_running_prefix(nodes: Seq<ExecutionNodeView>, n: int)
    requires
        0 <= n <= nodes.len(),
        forall|i: int| 0 <= i < nodes.len() ==> !((#[trigger] nodes[i]).state is Running),
    ensures
        running_prefix(nodes, n).len() == 0,
    decreases n,
{
    if n > 0 {
        lemma_no_running_prefix(nodes, n - 1);
    }
}

/// Recovery changes nothing that needs no recovery: the checkpoint of a
/// settled graph with no running node recovers as the same graph, with no
/// node marked for recovery and none skipped.
pub proof fn law_recover_settled(
    g: ExecutionGraphView,
    g0: ExecutionGraphView,
    running: Seq<Seq<char>>,
    skipped: Seq<Seq<char>>,
    h: ExecutionGraphView,
)
    requires
        graph_wf(g),
        graph_faithful(g),
        settled(g),
        forall|i: int| 0 <= i < g.nodes.len() ==> !((#[trigger] g.nodes[i]).state is Running),
        recovered_from(g0, snapshot_of(g), running, skipped, h),
    ensures
        h == g,
        running.len() == 0,
        skipped.len() == 0,
{
    law_snapshot_round_trip(g, g0);
    lemma_no_running_prefix(g.nodes, g.nodes.len() as int);
    assert(running =~= Seq::<Seq<char>>::empty());
    assert(mark_all(g, running) == g);
    law_settle_idempotent(g, skipped);
}

} // verus!
