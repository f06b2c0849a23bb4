//! Building the graph: nodes, edges and the reachability check that keeps
//! it acyclic.
use vstd::prelude::*;
use crate::text::{blank, is_blank, seq_lt, str_eq, str_lt};
use super::ExecutionGraph;
use super::types::{ExecutionEdge, ExecutionGraphError, ExecutionNode, ExecutionNodeKind, ExecutionNodeState, strs_view};
use super::spec::{
    edge_addable, edge_between, edges_view, empty_graph, has_apply, has_edge_pair, has_id,
    node_addable, node_keys, nodes_view, reachable, state_of, is_walk, ExecutionGraphView,
    artifact_keys, intent_keys,
};
use super::lemmas::{
    lemma_acyclic_push, lemma_keys_insert, lemma_keys_scan, lemma_reach_extend,
    lemma_state_of_lookup, lemma_walk_single,
};

verus! {

pub open spec fn count_false(v: Seq<bool>) -> nat
    decreases v.len(),
{
    if v.len() == 0 {
        0
    } else {
        count_false(v.drop_last()) + if v.last() {
            0nat
        } else {
            1nat
        }
    }
}

proof fn lemma_count_false_set(v: Seq<bool>, i: int)
    requires
        0 <= i < v.len(),
        !v[i],
    ensures
        count_false(v.update(i, true)) + 1 == count_false(v),
    decreases v.len(),
{
    let u = v.update(i, true);
    if i == v.len() - 1 {
        assert(u.drop_last() =~= v.drop_last());
    } else {
        assert(u.drop_last() =~= v.drop_last().update(i, true));
        lemma_count_false_set(v.drop_last(), i);
    }
}

/// A set of nodes that holds `a`, not `b`, and is closed under edges admits
/// no walk from `a` to `b`.
proof fn lemma_closed_unreachable(
    edges: Seq<ExecutionEdgeView>,
    set: Seq<Seq<char>>,
    a: Seq<char>,
    b: Seq<char>,
)
    requires
        set.contains(a),
        !set.contains(b),
        forall|k: int| 0 <= k < edges.len() && set.contains((#[trigger] edges[k]).from) ==> set.contains(edges[k].to),
    ensures
        !reachable(edges, a, b),
{
    assert forall|p: Seq<Seq<char>>| #[trigger] is_walk(edges, p) && p[0] == a implies p.last() != b by {
        assert forall|i: int| 0 <= i < p.len() implies set.contains(#[trigger] p[i]) by {
            lemma_walk_stays(edges, set, p, i);
        }
        assert(set.contains(p[p.len() - 1]));
    }
}

proof fn lemma_walk_stays(edges: Seq<ExecutionEdgeView>, set: Seq<Seq<char>>, p: Seq<Seq<char>>, i: int)
    requires
        is_walk(edges, p),
        set.contains(p[0]),
        forall|k: int| 0 <= k < edges.len() && set.contains((#[trigger] edges[k]).from) ==> set.contains(edges[k].to),
        0 <= i < p.len(),
    ensures
        set.contains(p[i]),
    decreases i,
{
    if i > 0 {
        lemma_walk_stays(edges, set, p, i - 1);
        assert(edge_between(edges, p[i - 1], p[i]));
        let k = choose|k: int| 0 <= k < edges.len() && (#[trigger] edges[k]).from == p[i - 1] && edges[k].to == p[i];
    }
}

use super::types::{ExecutionEdgeView, ExecutionNodeView};

impl ExecutionGraph {
    pub fn new(task_id: &str) -> (r: Result<Self, ExecutionGraphError>)
        ensures
            match r {
                Ok(g) => !blank(task_id@) && g.wf() && g.faithful() && g@ == empty_graph(task_id@),
                Err(e) => blank(task_id@) && e is EmptyTaskId,
            },
    {
        if is_blank(task_id) {
            return Err(ExecutionGraphError::EmptyTaskId);
        }
        let g = ExecutionGraph {
            task_id: task_id.to_owned(),
            nodes: Vec::new(),
            edges: Vec::new(),
            artifacts: Vec::new(),
            transitions: Vec::new(),
            reconciliations: Vec::new(),
            effect_intents: Vec::new(),
            next_sequence: 1,
        };
        proof {
            assert(g@ =~= empty_graph(task_id@));
            assert(node_keys(g@.nodes) =~= Seq::<Seq<char>>::empty());
            assert(artifact_keys(g@.artifacts) =~= Seq::<Seq<char>>::empty());
            assert(intent_keys(g@.effect_intents) =~= Seq::<Seq<char>>::empty());
        }
        Ok(g)
    }

    /// Index of the node with the identifier.
    pub(crate) fn find_node(&self, node_id: &str) -> (r: Option<usize>)
        requires
            self.wf(),
        ensures
            match r {
                Some(i) => i < self@.nodes.len() && self@.nodes[i as int].id == node_id@,
                None => !has_id(self@.nodes, node_id@),
            },
    {
        let mut i: usize = 0;
        while i < self.nodes.len()
            invariant
                i <= self.nodes@.len(),
                self@.nodes == nodes_view(self.nodes@),
                forall|j: int| 0 <= j < i ==> self@.nodes[j].id != node_id@,
            decreases self.nodes.len() - i,
        {
            if str_eq(self.nodes[i].id.as_str(), node_id) {
                return Some(i);
            }
            i += 1;
        }
        None
    }

    /// Where a node with the identifier sits or belongs in the sorted list.
    fn node_position(&self, node_id: &str) -> (r: (usize, bool))
        requires
            self.wf(),
        ensures
            r.0 <= self@.nodes.len(),
            forall|j: int| 0 <= j < r.0 ==> seq_lt(#[trigger] node_keys(self@.nodes)[j], node_id@),
            r.0 < self@.nodes.len() ==> !seq_lt(node_keys(self@.nodes)[r.0 as int], node_id@),
            r.1 == (r.0 < self@.nodes.len() && self@.nodes[r.0 as int].id == node_id@),
    {
        let ghost ks = node_keys(self@.nodes);
        let mut i: usize = 0;
        while i < self.nodes.len() && str_lt(self.nodes[i].id.as_str(), node_id)
            invariant
                i <= self.nodes@.len(),
                self@.nodes == nodes_view(self.nodes@),
                ks == node_keys(self@.nodes),
                forall|j: int| 0 <= j < i ==> seq_lt(#[trigger] ks[j], node_id@),
            decreases self.nodes.len() - i,
        {
            i += 1;
        }
        let dup = i < self.nodes.len() && str_eq(self.nodes[i].id.as_str(), node_id);
        (i, dup)
    }

    /// Adds a pending work unit.
    pub fn add_node(&mut self, node: ExecutionNode) -> (r: Result<(), ExecutionGraphError>)
        requires
            old(self).wf(),
        ensures
            final(self).wf(),
            old(self).faithful() && node@.state is Pending ==> final(self).faithful(),
            r is Ok <==> node_addable(old(self)@, node@),
            r is Ok ==> exists|p: int|
                0 <= p <= old(self)@.nodes.len() && final(self)@.nodes == #[trigger] old(
                    self,
                )@.nodes.insert(p, node@),
            r is Ok ==> final(self)@ == (ExecutionGraphView { nodes: final(self)@.nodes, ..old(self)@ }),
            r is Err ==> final(self)@ == old(self)@,
            blank(node@.id) ==> r == Err::<(), ExecutionGraphError>(ExecutionGraphError::EmptyNodeId),
            !blank(node@.id) && has_id(old(self)@.nodes, node@.id) ==> (r matches Err(
                ExecutionGraphError::DuplicateNode(s),
            ) && s@ == node@.id),
            !blank(node@.id) && !has_id(old(self)@.nodes, node@.id) && node@.kind is Apply
                && has_apply(old(self)@.nodes) ==> r == Err::<(), ExecutionGraphError>(
                ExecutionGraphError::MultipleApplyNodes,
            ),
    {
        if is_blank(node.id.as_str()) {
            return Err(ExecutionGraphError::EmptyNodeId);
        }
        let (p, dup) = self.node_position(node.id.as_str());
        let ghost ks = node_keys(self@.nodes);
        proof {
            lemma_keys_scan(ks, p as int, node@.id);
        }
        if dup {
            proof {
                assert(ks[p as int] == self@.nodes[p as int].id);
            }
            return Err(ExecutionGraphError::DuplicateNode(node.id));
        }
        proof {
            assert forall|j: int| 0 <= j < self@.nodes.len() implies self@.nodes[j].id != node@.id by {
                assert(ks[j] == self@.nodes[j].id);
            }
        }
        if node.kind == ExecutionNodeKind::Apply {
            let mut j: usize = 0;
            while j < self.nodes.len()
                invariant
                    j <= self.nodes@.len(),
                    self.wf(),
                    self@ == old(self)@,
                    self@.nodes == nodes_view(self.nodes@),
                    !blank(node@.id),
                    !has_id(self@.nodes, node@.id),
                    node@.kind is Apply,
                    forall|q: int| 0 <= q < j ==> !(self@.nodes[q].kind is Apply),
                decreases self.nodes.len() - j,
            {
                if self.nodes[j].kind == ExecutionNodeKind::Apply {
                    proof {
                        assert(self@.nodes[j as int].kind is Apply);
                    }
                    return Err(ExecutionGraphError::MultipleApplyNodes);
                }
                j += 1;
            }
        }
        let ghost old_g = self@;
        let ghost nv = node@;
        self.nodes.insert(p, node);
        proof {
            let g = self@;
            assert(g.nodes =~= old_g.nodes.insert(p as int, nv));
            assert(g =~= ExecutionGraphView { nodes: old_g.nodes.insert(p as int, nv), ..old_g });
            assert(node_keys(g.nodes) =~= ks.insert(p as int, nv.id));
            if (p as int) < ks.len() {
                assert(seq_lt(nv.id, ks[p as int]));
            }
            lemma_keys_insert(ks, p as int, nv.id);
            self.lemma_insert_keeps_wf(old_g, p as int, nv);
        }
        Ok(())
    }

    proof fn lemma_insert_keeps_wf(&self, old_g: ExecutionGraphView, p: int, nv: ExecutionNodeView)
        requires
            super::spec::graph_wf(old_g),
            0 <= p <= old_g.nodes.len(),
            self@ == (ExecutionGraphView { nodes: old_g.nodes.insert(p, nv), ..old_g }),
            super::spec::keys_sorted(node_keys(self@.nodes)),
            !blank(nv.id),
            !has_id(old_g.nodes, nv.id),
            nv.kind is Apply ==> !has_apply(old_g.nodes),
        ensures
            self.wf(),
            super::spec::graph_faithful(old_g) && nv.state is Pending ==> self.faithful(),
    {
        let g = self@;
        // every old node is still present
        assert forall|i: int| 0 <= i < old_g.nodes.len() implies has_id(g.nodes, #[trigger] old_g.nodes[i].id) by {
            if i < p {
                assert(g.nodes[i] == old_g.nodes[i]);
            } else {
                assert(g.nodes[i + 1] == old_g.nodes[i]);
            }
        }
        assert forall|id: Seq<char>| has_id(old_g.nodes, id) implies has_id(g.nodes, id) by {
            let i = choose|i: int| 0 <= i < old_g.nodes.len() && (#[trigger] old_g.nodes[i]).id == id;
            assert(has_id(g.nodes, old_g.nodes[i].id));
        }
        assert forall|i: int| 0 <= i < g.nodes.len() implies !blank(#[trigger] g.nodes[i].id) by {
            if i < p {
                assert(g.nodes[i] == old_g.nodes[i]);
            } else if i > p {
                assert(g.nodes[i] == old_g.nodes[i - 1]);
            }
        }
        assert forall|i: int, j: int|
            0 <= i < g.nodes.len() && 0 <= j < g.nodes.len() && (#[trigger] g.nodes[i]).kind is Apply
                && (#[trigger] g.nodes[j]).kind is Apply implies i == j by {
            if i != p && j != p {
                let oi = if i < p { i } else { i - 1 };
                let oj = if j < p { j } else { j - 1 };
                assert(g.nodes[i] == old_g.nodes[oi]);
                assert(g.nodes[j] == old_g.nodes[oj]);
            } else if i == p && j != p {
                let oj = if j < p { j } else { j - 1 };
                assert(g.nodes[j] == old_g.nodes[oj]);
            } else if i != p && j == p {
                let oi = if i < p { i } else { i - 1 };
                assert(g.nodes[i] == old_g.nodes[oi]);
            }
        }
        // states of old identifiers are unchanged
        lemma_state_of_lookup(old_g.nodes, nv.id);
        assert(super::spec::ids_sorted(old_g.nodes));
        assert forall|id: Seq<char>| id != nv.id implies state_of(g.nodes, id) == state_of(old_g.nodes, id) by {
            lemma_state_of_lookup(g.nodes, id);
            lemma_state_of_lookup(old_g.nodes, id);
            if has_id(old_g.nodes, id) {
                let i = choose|i: int| 0 <= i < old_g.nodes.len() && (#[trigger] old_g.nodes[i]).id == id;
                if i < p {
                    assert(g.nodes[i] == old_g.nodes[i]);
                } else {
                    assert(g.nodes[i + 1] == old_g.nodes[i]);
                }
            } else if has_id(g.nodes, id) {
                let i = choose|i: int| 0 <= i < g.nodes.len() && (#[trigger] g.nodes[i]).id == id;
                if i < p {
                    assert(g.nodes[i] == old_g.nodes[i]);
                } else if i > p {
                    assert(g.nodes[i] == old_g.nodes[i - 1]);
                }
            }
        }
        assert forall|i: int| 0 <= i < g.artifacts.len() implies has_id(g.nodes, (#[trigger] g.artifacts[i]).producer_node)
            && state_of(g.nodes, g.artifacts[i].producer_node) is Succeeded by {
            if g.artifacts[i].producer_node == nv.id {
                assert(has_id(old_g.nodes, g.artifacts[i].producer_node));
            }
        }
        if super::spec::graph_faithful(old_g) && nv.state is Pending {
            assert forall|i: int| 0 <= i < g.nodes.len() implies (#[trigger] g.nodes[i]).state
                == super::spec::replayed_state(g.transitions, g.nodes[i].id) by {
                if i < p {
                    assert(g.nodes[i] == old_g.nodes[i]);
                } else if i > p {
                    assert(g.nodes[i] == old_g.nodes[i - 1]);
                } else {
                    self.lemma_replay_unmentioned(old_g, nv.id);
                }
            }
        }
    }

    proof fn lemma_replay_unmentioned(&self, old_g: ExecutionGraphView, id: Seq<char>)
        requires
            super::spec::history_valid(old_g.nodes, old_g.transitions),
            !has_id(old_g.nodes, id),
        ensures
            super::spec::replayed_state(old_g.transitions, id) is Pending,
    {
        lemma_replay_unmentioned_seq(old_g.nodes, old_g.transitions, id);
    }
}

/// Whether the list holds the text.
pub fn contains_text(list: &Vec<String>, x: &str) -> (b: bool)
    ensures
        b == strs_view(list@).contains(x@),
{
    let mut i: usize = 0;
    while i < list.len()
        invariant
            i <= list@.len(),
            forall|j: int| 0 <= j < i ==> list@[j]@ != x@,
        decreases list.len() - i,
    {
        if str_eq(list[i].as_str(), x) {
            proof {
                assert(strs_view(list@)[i as int] == x@);
            }
            return true;
        }
        i += 1;
    }
    proof {
        assert forall|j: int| 0 <= j < strs_view(list@).len() implies strs_view(list@)[j] != x@ by {}
    }
    false
}

impl ExecutionGraph {
    /// Whether `to` can be reached from `from` along edges (every node
    /// reaches itself).
    pub(crate) fn has_path(&self, from: &str, to: &str) -> (r: bool)
        ensures
            r == reachable(self@.edges, from@, to@),
    {
        let ghost edges = self@.edges;
        if str_eq(from, to) {
            proof {
                lemma_walk_single(edges, from@);
            }
            return true;
        }
        let n = self.edges.len();
        let mut reach: Vec<String> = Vec::new();
        reach.push(from.to_owned());
        proof {
            assert(strs_view(reach@) =~= seq![from@]);
            assert(strs_view(reach@)[0] == from@);
            lemma_walk_single(edges, from@);
        }
        let mut used: Vec<bool> = Vec::new();
        let mut k: usize = 0;
        while k < n
            invariant
                k <= n,
                used@.len() == k,
                forall|q: int| 0 <= q < k ==> !used@[q],
            decreases n - k,
        {
            used.push(false);
            k += 1;
        }
        loop
            invariant
                edges == self@.edges,
                edges == edges_view(self.edges@),
                self.edges@.len() == n,
                used@.len() == n,
                strs_view(reach@).contains(from@),
                forall|x: Seq<char>| strs_view(reach@).contains(x) ==> reachable(edges, from@, x),
                !strs_view(reach@).contains(to@),
                forall|q: int|
                    0 <= q < n && #[trigger] used@[q] ==> strs_view(reach@).contains(edges[q].from)
                        && strs_view(reach@).contains(edges[q].to),
            decreases count_false(used@),
        {
            let mut q: usize = 0;
            let mut hit: Option<usize> = None;
            while q < n && hit.is_none()
                invariant
                    q <= n,
                    edges == edges_view(self.edges@),
                    self.edges@.len() == n,
                    used@.len() == n,
                    hit is None ==> forall|j: int|
                        0 <= j < q && !(#[trigger] used@[j]) ==> !strs_view(reach@).contains(edges[j].from),
                    hit matches Some(h) ==> h < n && !used@[h as int] && strs_view(reach@).contains(
                        edges[h as int].from,
                    ),
                decreases n - q,
            {
                if !used[q] && contains_text(&reach, self.edges[q].from.as_str()) {
                    hit = Some(q);
                }
                q += 1;
            }
            match hit {
                None => {
                    proof {
                        assert forall|j: int|
                            0 <= j < edges.len() && strs_view(reach@).contains(
                                (#[trigger] edges[j]).from,
                            ) implies strs_view(reach@).contains(edges[j].to) by {
                            assert(used@[j]);
                        }
                        lemma_closed_unreachable(edges, strs_view(reach@), from@, to@);
                    }
                    return false;
                },
                Some(h) => {
                    proof {
                        lemma_count_false_set(used@, h as int);
                        assert(edge_between(edges, edges[h as int].from, edges[h as int].to));
                        lemma_reach_extend(edges, from@, edges[h as int].from, edges[h as int].to);
                    }
                    used.set(h, true);
                    if str_eq(self.edges[h].to.as_str(), to) {
                        return true;
                    }
                    if !contains_text(&reach, self.edges[h].to.as_str()) {
                        let ghost before = strs_view(reach@);
                        reach.push(self.edges[h].to.clone());
                        proof {
                            assert(strs_view(reach@) =~= before.push(edges[h as int].to));
                            assert forall|x: Seq<char>| strs_view(reach@).contains(x) implies reachable(
                                edges,
                                from@,
                                x,
                            ) by {
                                if x != edges[h as int].to {
                                    let i = choose|i: int| 0 <= i < strs_view(reach@).len() && strs_view(reach@)[i] == x;
                                    assert(before[i] == x);
                                }
                            }
                            assert forall|j: int|
                                0 <= j < n && #[trigger] used@[j] implies strs_view(reach@).contains(edges[j].from)
                                    && strs_view(reach@).contains(edges[j].to) by {
                                let a = edges[j].from;
                                let b = edges[j].to;
                                if j != h {
                                    let i1 = choose|i: int| 0 <= i < before.len() && before[i] == a;
                                    let i2 = choose|i: int| 0 <= i < before.len() && before[i] == b;
                                    assert(strs_view(reach@)[i1] == a);
                                    assert(strs_view(reach@)[i2] == b);
                                } else {
                                    let i1 = choose|i: int| 0 <= i < before.len() && before[i] == a;
                                    assert(strs_view(reach@)[i1] == a);
                                    assert(strs_view(reach@)[before.len() as int] == b);
                                }
                            }
                            let i0 = choose|i: int| 0 <= i < before.len() && before[i] == from@;
                            assert(strs_view(reach@)[i0] == from@);
                        }
                    }
                },
            }
        }
    }

    /// Adds a dependency edge.
    pub fn add_edge(&mut self, edge: ExecutionEdge) -> (r: Result<(), ExecutionGraphError>)
        requires
            old(self).wf(),
        ensures
            final(self).wf(),
            old(self).faithful() ==> final(self).faithful(),
            r is Ok <==> edge_addable(old(self)@, edge@),
            r is Ok ==> final(self)@ == (ExecutionGraphView {
                edges: old(self)@.edges.push(edge@),
                ..old(self)@
            }),
            r is Err ==> final(self)@ == old(self)@,
            !has_id(old(self)@.nodes, edge@.from) ==> (r matches Err(ExecutionGraphError::MissingNode(s))
                && s@ == edge@.from),
            has_id(old(self)@.nodes, edge@.from) && !has_id(old(self)@.nodes, edge@.to) ==> (r matches Err(
                ExecutionGraphError::MissingNode(s),
            ) && s@ == edge@.to),
            has_id(old(self)@.nodes, edge@.from) && has_id(old(self)@.nodes, edge@.to) && !(state_of(
                old(self)@.nodes,
                edge@.to,
            ) is Pending) ==> (r matches Err(ExecutionGraphError::TargetAlreadyStarted(s)) && s@
                == edge@.to),
            has_id(old(self)@.nodes, edge@.from) && has_id(old(self)@.nodes, edge@.to) && state_of(
                old(self)@.nodes,
                edge@.to,
            ) is Pending && has_edge_pair(old(self)@.edges, edge@.from, edge@.to) ==> (r matches Err(
                ExecutionGraphError::DuplicateEdge { from, to },
            ) && from@ == edge@.from && to@ == edge@.to),
            has_id(old(self)@.nodes, edge@.from) && has_id(old(self)@.nodes, edge@.to) && state_of(
                old(self)@.nodes,
                edge@.to,
            ) is Pending && !has_edge_pair(old(self)@.edges, edge@.from, edge@.to) && reachable(
                old(self)@.edges,
                edge@.to,
                edge@.from,
            ) ==> (r matches Err(ExecutionGraphError::Cycle { from, to }) && from@ == edge@.from && to@
                == edge@.to),
    {
        let from_idx = self.find_node(edge.from.as_str());
        if from_idx.is_none() {
            return Err(ExecutionGraphError::MissingNode(edge.from));
        }
        proof {
            let f = from_idx->0;
            assert(self@.nodes[f as int].id == edge@.from);
        }
        let to_idx = self.find_node(edge.to.as_str());
        match to_idx {
            None => {
                return Err(ExecutionGraphError::MissingNode(edge.to));
            },
            Some(t) => {
                proof {
                    lemma_state_of_lookup(self@.nodes, edge@.to);
                    assert(self@.nodes[t as int].id == edge@.to);
                }
                if self.nodes[t].state != ExecutionNodeState::Pending {
                    return Err(ExecutionGraphError::TargetAlreadyStarted(edge.to));
                }
            },
        }
        let mut k: usize = 0;
        while k < self.edges.len()
            invariant
                k <= self.edges@.len(),
                self@ == old(self)@,
                self.wf(),
                has_id(self@.nodes, edge@.from),
                has_id(self@.nodes, edge@.to),
                state_of(self@.nodes, edge@.to) is Pending,
                self@.edges == edges_view(self.edges@),
                forall|j: int| 0 <= j < k ==> !((#[trigger] self@.edges[j]).from == edge@.from && self@.edges[j].to == edge@.to),
            decreases self.edges.len() - k,
        {
            if str_eq(self.edges[k].from.as_str(), edge.from.as_str()) && str_eq(
                self.edges[k].to.as_str(),
                edge.to.as_str(),
            ) {
                proof {
                    assert(self@.edges[k as int].from == edge@.from);
                }
                return Err(ExecutionGraphError::DuplicateEdge { from: edge.from, to: edge.to });
            }
            k += 1;
        }
        if self.has_path(edge.to.as_str(), edge.from.as_str()) {
            return Err(ExecutionGraphError::Cycle { from: edge.from, to: edge.to });
        }
        let ghost old_g = self@;
        let ghost ev = edge@;
        self.edges.push(edge);
        proof {
            let g = self@;
            assert(g.edges =~= old_g.edges.push(ev));
            assert(g =~= ExecutionGraphView { edges: old_g.edges.push(ev), ..old_g });
            lemma_acyclic_push(old_g.edges, ev);
            assert forall|k: int| 0 <= k < g.edges.len() implies has_id(g.nodes, (#[trigger] g.edges[k]).from)
                && has_id(g.nodes, g.edges[k].to) by {
                if k < old_g.edges.len() {
                    assert(g.edges[k] == old_g.edges[k]);
                }
            }
            assert forall|k: int, l: int| 0 <= k < l < g.edges.len() implies !((#[trigger] g.edges[k]).from
                == (#[trigger] g.edges[l]).from && g.edges[k].to == g.edges[l].to) by {
                assert(g.edges[k] == old_g.edges[k]);
                if l < old_g.edges.len() {
                    assert(g.edges[l] == old_g.edges[l]);
                }
            }
        }
        Ok(())
    }
}

proof fn lemma_replay_unmentioned_seq(
    nodes: Seq<super::types::ExecutionNodeView>,
    ts: Seq<super::types::ExecutionTransitionView>,
    id: Seq<char>,
)
    requires
        forall|k: int| 0 <= k < ts.len() ==> has_id(nodes, (#[trigger] ts[k]).node_id),
        !has_id(nodes, id),
    ensures
        super::spec::replayed_state(ts, id) is Pending,
    decreases ts.len(),
{
    if ts.len() > 0 {
        assert(has_id(nodes, ts[ts.len() - 1].node_id));
        let d = ts.drop_last();
        assert forall|k: int| 0 <= k < d.len() implies has_id(nodes, (#[trigger] d[k]).node_id) by {
            assert(d[k] == ts[k]);
        }
        lemma_replay_unmentioned_seq(nodes, d, id);
    }
}

} // verus!
