//! Node lifecycle: recorded state changes, readiness, admission and
//! completion.
use vstd::prelude::*;
use crate::text::{blank, str_eq};
use super::ExecutionGraph;
use super::types::{
    opt_view, strs_view, ExecutionEdgeKind, ExecutionGraphError, ExecutionNode, ExecutionNodeState,
    ExecutionTransition,
};
use super::spec::{
    after_set, edge_satisfied, edges_view, graph_faithful, graph_wf, has_id, idx_of, is_ready_id,
    node_keys, node_ready, nodes_view, ready_ids, ready_prefix, replayed_state, state_of,
    start_all, transitions_view, valid_step, ExecutionGraphView,
};
use super::lemmas::{lemma_replay_push, lemma_sorted_distinct, lemma_state_of_lookup};

verus! {

/// The index found for an identifier present in a sorted node list.
pub proof fn lemma_idx_of(nodes: Seq<super::types::ExecutionNodeView>, i: int)
    requires
        super::spec::ids_sorted(nodes),
        0 <= i < nodes.len(),
    ensures
        idx_of(nodes, nodes[i].id) == i,
{
    let id = nodes[i].id;
    let j = idx_of(nodes, id);
    assert(0 <= j < nodes.len() && nodes[j].id == id);
    if j != i {
        lemma_sorted_distinct(nodes, i, j);
    }
}

/// Recording a state change that does not resolve a recovery keeps the
/// structure well formed.
pub proof fn lemma_after_set_wf(
    g: ExecutionGraphView,
    i: int,
    to: ExecutionNodeState,
    reason: Option<Seq<char>>,
)
    requires
        graph_wf(g),
        0 <= i < g.nodes.len(),
        valid_step(g.nodes[i].state, to),
        g.next_sequence < u64::MAX,
    ensures
        super::spec::wf_core(after_set(g, i, to, reason)),
        !(g.nodes[i].state is RecoveryRequired) ==> graph_wf(after_set(g, i, to, reason)),
        graph_faithful(g) ==> graph_faithful(after_set(g, i, to, reason)),
        forall|id: Seq<char>| #[trigger] has_id(after_set(g, i, to, reason).nodes, id) == has_id(g.nodes, id),
        forall|id: Seq<char>| id != g.nodes[i].id ==> #[trigger] state_of(after_set(g, i, to, reason).nodes, id) == state_of(g.nodes, id),
        state_of(after_set(g, i, to, reason).nodes, g.nodes[i].id) == to,
{
    let a = after_set(g, i, to, reason);
    let id = g.nodes[i].id;
    assert(node_keys(a.nodes) =~= node_keys(g.nodes));
    assert forall|x: Seq<char>| #[trigger] has_id(a.nodes, x) == has_id(g.nodes, x) by {
        if has_id(g.nodes, x) {
            let j = choose|j: int| 0 <= j < g.nodes.len() && (#[trigger] g.nodes[j]).id == x;
            assert(a.nodes[j].id == x);
        }
        if has_id(a.nodes, x) {
            let j = choose|j: int| 0 <= j < a.nodes.len() && (#[trigger] a.nodes[j]).id == x;
            assert(g.nodes[j].id == x);
        }
    }
    assert forall|x: Seq<char>| x != id implies #[trigger] state_of(a.nodes, x) == state_of(g.nodes, x) by {
        lemma_state_of_lookup(a.nodes, x);
        lemma_state_of_lookup(g.nodes, x);
        if has_id(g.nodes, x) {
            let j = choose|j: int| 0 <= j < g.nodes.len() && (#[trigger] g.nodes[j]).id == x;
            assert(a.nodes[j].id == x);
        }
    }
    lemma_state_of_lookup(a.nodes, id);
    assert(a.nodes[i].id == id);
    let t = a.transitions.last();
    assert(t == a.transitions[g.transitions.len() as int]);
    {
        assert forall|j: int| 0 <= j < a.nodes.len() implies !blank(#[trigger] a.nodes[j].id) by {
            assert(a.nodes[j].id == g.nodes[j].id);
        }
        assert forall|j: int, k: int|
            0 <= j < a.nodes.len() && 0 <= k < a.nodes.len() && (#[trigger] a.nodes[j]).kind is Apply
                && (#[trigger] a.nodes[k]).kind is Apply implies j == k by {
            assert(a.nodes[j].kind == g.nodes[j].kind);
            assert(a.nodes[k].kind == g.nodes[k].kind);
        }
        assert forall|k: int| 0 <= k < a.transitions.len() implies {
            &&& (#[trigger] a.transitions[k]).sequence == k + 1
            &&& has_id(a.nodes, a.transitions[k].node_id)
            &&& valid_step(a.transitions[k].from, a.transitions[k].to)
        } by {
            if k < g.transitions.len() {
                assert(a.transitions[k] == g.transitions[k]);
            } else {
                assert(has_id(g.nodes, id));
            }
        }
        lemma_state_of_lookup(g.nodes, id);
        assert forall|j: int| 0 <= j < a.artifacts.len() implies has_id(a.nodes, (#[trigger] a.artifacts[j]).producer_node)
            && state_of(a.nodes, a.artifacts[j].producer_node) is Succeeded by {
            assert(state_of(g.nodes, g.artifacts[j].producer_node) is Succeeded);
            if g.artifacts[j].producer_node == id {
                assert(state_of(g.nodes, id) == g.nodes[i].state);
            }
        }
        assert forall|j: int| 0 <= j < a.effect_intents.len() implies !blank((#[trigger] a.effect_intents[j]).id) && has_id(
            a.nodes,
            a.effect_intents[j].node_id,
        ) && super::spec::expectation_valid(a.effect_intents[j].expectation) by {
            assert(has_id(g.nodes, g.effect_intents[j].node_id));
        }
        assert forall|k: int| 0 <= k < a.edges.len() implies has_id(a.nodes, (#[trigger] a.edges[k]).from) && has_id(
            a.nodes,
            a.edges[k].to,
        ) by {
            assert(has_id(g.nodes, g.edges[k].from));
            assert(has_id(g.nodes, g.edges[k].to));
        }
    }
    if !(g.nodes[i].state is RecoveryRequired) {
        assert forall|j: int| 0 <= j < a.reconciliations.len() implies super::spec::reconciliation_matches(
            a.transitions,
            #[trigger] a.reconciliations[j],
        ) by {
            let r = a.reconciliations[j];
            assert(super::spec::reconciliation_matches(g.transitions, g.reconciliations[j]));
            assert(a.transitions[r.transition_sequence - 1] == g.transitions[r.transition_sequence - 1]);
        }
        assert forall|k: int|
            0 <= k < a.transitions.len() && (#[trigger] a.transitions[k]).from is RecoveryRequired implies exists|j: int|
                0 <= j < a.reconciliations.len() && (#[trigger] a.reconciliations[j]).transition_sequence == k + 1 by {
            if k < g.transitions.len() {
                assert(a.transitions[k] == g.transitions[k]);
            }
        }
    }
    if graph_faithful(g) {
        assert forall|k: int| 0 <= k < a.transitions.len() implies (#[trigger] a.transitions[k]).from
            == replayed_state(a.transitions.take(k), a.transitions[k].node_id) by {
            if k < g.transitions.len() {
                assert(a.transitions.take(k) =~= g.transitions.take(k));
                assert(a.transitions[k] == g.transitions[k]);
            } else {
                assert(a.transitions.take(k) =~= g.transitions);
            }
        }
        assert forall|j: int| 0 <= j < a.nodes.len() implies (#[trigger] a.nodes[j]).state
            == replayed_state(a.transitions, a.nodes[j].id) by {
            lemma_replay_push(g.transitions, t, a.nodes[j].id);
            assert(a.transitions =~= g.transitions.push(t));
            if j != i {
                lemma_sorted_distinct(g.nodes, i, j);
            }
        }
    }
}

impl ExecutionGraph {
    /// Records a state change of one node from an expected state.
    pub(crate) fn set_state(
        &mut self,
        node_id: &str,
        from: ExecutionNodeState,
        to: ExecutionNodeState,
        reason: Option<String>,
    ) -> (r: Result<(), ExecutionGraphError>)
        requires
            old(self).wf(),
            valid_step(from, to),
            old(self)@.next_sequence < u64::MAX,
        ensures
            r is Ok <==> has_id(old(self)@.nodes, node_id@) && state_of(old(self)@.nodes, node_id@) == from,
            r is Ok ==> final(self)@ == after_set(
                old(self)@,
                idx_of(old(self)@.nodes, node_id@),
                to,
                opt_view(reason),
            ),
            r is Ok ==> old(self)@.nodes[idx_of(old(self)@.nodes, node_id@)].id == node_id@,
            r is Ok && !(from is RecoveryRequired) ==> final(self).wf(),
            r is Ok && old(self).faithful() ==> final(self).faithful(),
            r is Err ==> final(self)@ == old(self)@,
            !has_id(old(self)@.nodes, node_id@) ==> (r matches Err(ExecutionGraphError::MissingNode(s))
                && s@ == node_id@),
            has_id(old(self)@.nodes, node_id@) && state_of(old(self)@.nodes, node_id@) != from ==> (r matches Err(
                ExecutionGraphError::InvalidTransition { node_id: n, from: f, to: t },
            ) && n@ == node_id@ && f == state_of(old(self)@.nodes, node_id@) && t == to),
    {
        let found = self.find_node(node_id);
        proof {
            lemma_state_of_lookup(self@.nodes, node_id@);
        }
        let i = match found {
            None => {
                return Err(ExecutionGraphError::MissingNode(node_id.to_owned()));
            },
            Some(i) => i,
        };
        let current = self.nodes[i].state;
        if current != from {
            return Err(
                ExecutionGraphError::InvalidTransition { node_id: node_id.to_owned(), from: current, to },
            );
        }
        let ghost old_g = self@;
        let ghost rv = opt_view(reason);
        proof {
            lemma_idx_of(old_g.nodes, i as int);
            lemma_after_set_wf(old_g, i as int, to, rv);
        }
        let mut node = self.nodes[i].clone();
        node.state = to;
        self.nodes.set(i, node);
        let t = ExecutionTransition {
            sequence: self.next_sequence,
            node_id: node_id.to_owned(),
            from,
            to,
            reason,
        };
        self.transitions.push(t);
        self.next_sequence = self.next_sequence + 1;
        proof {
            let a = after_set(old_g, i as int, to, rv);
            assert(self@.nodes =~= a.nodes);
            assert(self@.transitions =~= a.transitions);
            assert(self@ =~= a);
        }
        Ok(())
    }
}


impl ExecutionGraph {
    /// Whether the prerequisite of edge `k` is met.
    pub(crate) fn edge_is_satisfied(&self, k: usize) -> (b: bool)
        requires
            self.wf(),
            k < self@.edges.len(),
        ensures
            b == edge_satisfied(self@.nodes, self@.edges[k as int]),
    {
        let e = &self.edges[k];
        proof {
            assert(self@.edges[k as int] == e@);
        }
        match self.find_node(e.from.as_str()) {
            None => false,
            Some(j) => {
                let st = self.nodes[j].state;
                proof {
                    assert forall|q: int| 0 <= q < self@.nodes.len() && (#[trigger] self@.nodes[q]).id == e@.from implies q == j by {
                        if q != j {
                            lemma_sorted_distinct(self@.nodes, q, j as int);
                        }
                    }
                }
                if e.kind == ExecutionEdgeKind::Finally {
                    st.is_terminal()
                } else {
                    st.is_success()
                }
            },
        }
    }

    /// Whether node `i` is ready.
    pub(crate) fn node_is_ready(&self, i: usize) -> (b: bool)
        requires
            self.wf(),
            i < self@.nodes.len(),
        ensures
            b == node_ready(self@, self@.nodes[i as int]),
    {
        if self.nodes[i].state != ExecutionNodeState::Pending {
            return false;
        }
        let mut k: usize = 0;
        while k < self.edges.len()
            invariant
                self.wf(),
                i < self@.nodes.len(),
                k <= self.edges@.len(),
                self@.edges == edges_view(self.edges@),
                forall|q: int|
                    0 <= q < k && (#[trigger] self@.edges[q]).to == self@.nodes[i as int].id ==> edge_satisfied(
                        self@.nodes,
                        self@.edges[q],
                    ),
            decreases self.edges.len() - k,
        {
            if str_eq(self.edges[k].to.as_str(), self.nodes[i].id.as_str()) {
                if !self.edge_is_satisfied(k) {
                    return false;
                }
            }
            k += 1;
        }
        true
    }

    /// Identifiers of the nodes that may start now, in identifier order.
    pub fn ready_node_ids(&self) -> (r: Vec<String>)
        requires
            self.wf(),
        ensures
            strs_view(r@) == ready_ids(self@),
    {
        let mut out: Vec<String> = Vec::new();
        let mut i: usize = 0;
        while i < self.nodes.len()
            invariant
                self.wf(),
                i <= self.nodes@.len(),
                self@.nodes == nodes_view(self.nodes@),
                strs_view(out@) == ready_prefix(self@, i as int),
            decreases self.nodes.len() - i,
        {
            let ghost before = strs_view(out@);
            if self.node_is_ready(i) {
                out.push(self.nodes[i].id.clone());
                proof {
                    assert(strs_view(out@) =~= before.push(self@.nodes[i as int].id));
                }
            }
            i += 1;
        }
        out
    }

    /// Moves a node between lifecycle states the scheduler drives:
    /// pending to running, running to succeeded or failed.
    pub(crate) fn transition(&mut self, node_id: &str, to: ExecutionNodeState, reason: Option<String>) -> (r: Result<
        (),
        ExecutionGraphError,
    >)
        requires
            old(self).wf(),
            old(self)@.next_sequence < u64::MAX,
        ensures
            final(self).wf(),
            old(self).faithful() ==> final(self).faithful(),
            r is Ok <==> has_id(old(self)@.nodes, node_id@) && scheduler_step(
                state_of(old(self)@.nodes, node_id@),
                to,
            ),
            r is Ok ==> final(self)@ == after_set(
                old(self)@,
                idx_of(old(self)@.nodes, node_id@),
                to,
                opt_view(reason),
            ),
            r is Ok ==> old(self)@.nodes[idx_of(old(self)@.nodes, node_id@)].id == node_id@,
            r is Err ==> final(self)@ == old(self)@,
            !has_id(old(self)@.nodes, node_id@) ==> (r matches Err(ExecutionGraphError::MissingNode(s))
                && s@ == node_id@),
            has_id(old(self)@.nodes, node_id@) && !scheduler_step(state_of(old(self)@.nodes, node_id@), to)
                ==> (r matches Err(ExecutionGraphError::InvalidTransition { node_id: n, from: f, to: t })
                && n@ == node_id@ && f == state_of(old(self)@.nodes, node_id@) && t == to),
    {
        let found = self.find_node(node_id);
        proof {
            lemma_state_of_lookup(self@.nodes, node_id@);
        }
        let i = match found {
            None => {
                return Err(ExecutionGraphError::MissingNode(node_id.to_owned()));
            },
            Some(i) => i,
        };
        let from = self.nodes[i].state;
        let valid = match (from, to) {
            (ExecutionNodeState::Pending, ExecutionNodeState::Running) => true,
            (ExecutionNodeState::Running, ExecutionNodeState::Succeeded) => true,
            (ExecutionNodeState::Running, ExecutionNodeState::Failed) => true,
            _ => false,
        };
        if !valid {
            return Err(ExecutionGraphError::InvalidTransition { node_id: node_id.to_owned(), from, to });
        }
        self.set_state(node_id, from, to, reason)
    }

    /// Starts one ready node.
    pub fn start_node(&mut self, node_id: &str) -> (r: Result<(), ExecutionGraphError>)
        requires
            old(self).wf(),
            old(self)@.next_sequence < u64::MAX,
        ensures
            final(self).wf(),
            old(self).faithful() ==> final(self).faithful(),
            r is Ok <==> is_ready_id(old(self)@, node_id@),
            r is Ok ==> final(self)@ == after_set(
                old(self)@,
                idx_of(old(self)@.nodes, node_id@),
                ExecutionNodeState::Running,
                None,
            ),
            r is Err ==> final(self)@ == old(self)@ && (r matches Err(ExecutionGraphError::NodeNotReady(s))
                && s@ == node_id@),
    {
        match self.find_node(node_id) {
            None => {
                return Err(ExecutionGraphError::NodeNotReady(node_id.to_owned()));
            },
            Some(i) => {
                if !self.node_is_ready(i) {
                    proof {
                        assert forall|q: int| 0 <= q < self@.nodes.len() && (#[trigger] self@.nodes[q]).id == node_id@ implies !node_ready(self@, self@.nodes[q]) by {
                            if q != i {
                                lemma_sorted_distinct(self@.nodes, q, i as int);
                            }
                        }
                    }
                    return Err(ExecutionGraphError::NodeNotReady(node_id.to_owned()));
                }
                proof {
                    lemma_state_of_lookup(self@.nodes, node_id@);
                    assert(self@.nodes[i as int].id == node_id@);
                }
            },
        }
        let r = self.transition(node_id, ExecutionNodeState::Running, None);
        proof {
            assert(r is Ok);
        }
        r
    }

    /// Fails a running node.
    pub fn fail_node(&mut self, node_id: &str, reason: &str) -> (r: Result<(), ExecutionGraphError>)
        requires
            old(self).wf(),
            old(self)@.next_sequence < u64::MAX,
        ensures
            final(self).wf(),
            old(self).faithful() ==> final(self).faithful(),
            r is Ok <==> has_id(old(self)@.nodes, node_id@) && state_of(old(self)@.nodes, node_id@) is Running,
            r is Ok ==> final(self)@ == after_set(
                old(self)@,
                idx_of(old(self)@.nodes, node_id@),
                ExecutionNodeState::Failed,
                Some(reason@),
            ),
            r is Err ==> final(self)@ == old(self)@,
            !has_id(old(self)@.nodes, node_id@) ==> (r matches Err(ExecutionGraphError::MissingNode(s))
                && s@ == node_id@),
            has_id(old(self)@.nodes, node_id@) && !(state_of(old(self)@.nodes, node_id@) is Running) ==> (r matches Err(
                ExecutionGraphError::InvalidTransition { node_id: n, from: f, to: t },
            ) && n@ == node_id@ && f == state_of(old(self)@.nodes, node_id@) && t is Failed),
    {
        self.transition(node_id, ExecutionNodeState::Failed, Some(reason.to_owned()))
    }

    /// Cancels a pending or running node.
    pub fn cancel_node(&mut self, node_id: &str, reason: &str) -> (r: Result<(), ExecutionGraphError>)
        requires
            old(self).wf(),
            old(self)@.next_sequence < u64::MAX,
        ensures
            final(self).wf(),
            old(self).faithful() ==> final(self).faithful(),
            r is Ok <==> has_id(old(self)@.nodes, node_id@) && (state_of(old(self)@.nodes, node_id@) is Pending
                || state_of(old(self)@.nodes, node_id@) is Running),
            r is Ok ==> final(self)@ == after_set(
                old(self)@,
                idx_of(old(self)@.nodes, node_id@),
                ExecutionNodeState::Cancelled,
                Some(reason@),
            ),
            r is Err ==> final(self)@ == old(self)@,
            !has_id(old(self)@.nodes, node_id@) ==> (r matches Err(ExecutionGraphError::MissingNode(s))
                && s@ == node_id@),
            has_id(old(self)@.nodes, node_id@) && !(state_of(old(self)@.nodes, node_id@) is Pending
                || state_of(old(self)@.nodes, node_id@) is Running) ==> (r matches Err(
                ExecutionGraphError::InvalidTransition { node_id: n, from: f, to: t },
            ) && n@ == node_id@ && f == state_of(old(self)@.nodes, node_id@) && t is Cancelled),
    {
        let found = self.find_node(node_id);
        proof {
            lemma_state_of_lookup(self@.nodes, node_id@);
        }
        let i = match found {
            None => {
                return Err(ExecutionGraphError::MissingNode(node_id.to_owned()));
            },
            Some(i) => i,
        };
        let state = self.nodes[i].state;
        match state {
            ExecutionNodeState::Pending | ExecutionNodeState::Running => {},
            _ => {
                return Err(
                    ExecutionGraphError::InvalidTransition {
                        node_id: node_id.to_owned(),
                        from: state,
                        to: ExecutionNodeState::Cancelled,
                    },
                );
            },
        }
        self.set_state(node_id, state, ExecutionNodeState::Cancelled, Some(reason.to_owned()))
    }

    /// The node with the identifier.
    pub fn node(&self, node_id: &str) -> (r: Option<&ExecutionNode>)
        requires
            self.wf(),
        ensures
            match r {
                Some(n) => has_id(self@.nodes, node_id@) && n@ == self@.nodes[idx_of(self@.nodes, node_id@)]
                    && n@.id == node_id@,
                None => !has_id(self@.nodes, node_id@),
            },
    {
        match self.find_node(node_id) {
            None => None,
            Some(i) => {
                proof {
                    lemma_idx_of(self@.nodes, i as int);
                }
                Some(&self.nodes[i])
            },
        }
    }
}

/// The steps the scheduler drives directly.
pub open spec fn scheduler_step(from: ExecutionNodeState, to: ExecutionNodeState) -> bool {
    ||| (from is Pending && to is Running)
    ||| (from is Running && to is Succeeded)
    ||| (from is Running && to is Failed)
}


/// Member `j` of a batch names a node, is not repeated earlier in the batch,
/// and is ready.
pub open spec fn batch_member_ok(g: ExecutionGraphView, ids: Seq<Seq<char>>, j: int) -> bool {
    &&& has_id(g.nodes, ids[j])
    &&& forall|l: int| 0 <= l < j ==> ids[l] != ids[j]
    &&& is_ready_id(g, ids[j])
}

pub open spec fn batch_ok(g: ExecutionGraphView, ids: Seq<Seq<char>>) -> bool {
    forall|j: int| 0 <= j < ids.len() ==> batch_member_ok(g, ids, j)
}

/// `j` is the first member of the batch that fails.
pub open spec fn batch_first_bad(g: ExecutionGraphView, ids: Seq<Seq<char>>, j: int) -> bool {
    &&& 0 <= j < ids.len()
    &&& !batch_member_ok(g, ids, j)
    &&& forall|l: int| 0 <= l < j ==> batch_member_ok(g, ids, l)
}

proof fn lemma_start_all_step(g: ExecutionGraphView, ids: Seq<Seq<char>>, k: int)
    requires
        0 <= k < ids.len(),
    ensures
        start_all(g, ids.take(k + 1)) == ({
            let h = start_all(g, ids.take(k));
            after_set(h, idx_of(h.nodes, ids[k]), ExecutionNodeState::Running, None)
        }),
{
    assert(ids.take(k + 1).drop_last() =~= ids.take(k));
    assert(ids.take(k + 1).last() == ids[k]);
}

impl ExecutionGraph {
    /// Admits a set of ready nodes from one ready-set snapshot. Validation
    /// completes before any transition is recorded, so a bad member leaves
    /// the graph untouched.
    pub fn start_ready_batch(&mut self, node_ids: &[String]) -> (r: Result<(), ExecutionGraphError>)
        requires
            old(self).wf(),
            old(self)@.next_sequence + node_ids@.len() < u64::MAX,
        ensures
            final(self).wf(),
            old(self).faithful() ==> final(self).faithful(),
            r is Ok <==> batch_ok(old(self)@, strs_view(node_ids@)),
            r is Ok ==> final(self)@ == start_all(old(self)@, strs_view(node_ids@)),
            r is Err ==> final(self)@ == old(self)@,
            forall|j: int| #[trigger]
                batch_first_bad(old(self)@, strs_view(node_ids@), j) ==> {
                    let id = strs_view(node_ids@)[j];
                    if !has_id(old(self)@.nodes, id) {
                        r matches Err(ExecutionGraphError::MissingNode(s)) && s@ == id
                    } else if exists|l: int| 0 <= l < j && strs_view(node_ids@)[l] == id {
                        r matches Err(ExecutionGraphError::DuplicateBatchNode(s)) && s@ == id
                    } else {
                        r matches Err(ExecutionGraphError::NodeNotReady(s)) && s@ == id
                    }
                },
    {
        let ghost ids = strs_view(node_ids@);
        let ghost g0 = self@;
        let mut j: usize = 0;
        while j < node_ids.len()
            invariant
                self.wf(),
                self@ == g0,
                ids == strs_view(node_ids@),
                j <= node_ids@.len(),
                forall|l: int| 0 <= l < j ==> batch_member_ok(g0, ids, l),
            decreases node_ids.len() - j,
        {
            let id = node_ids[j].as_str();
            proof {
                assert(ids[j as int] == id@);
            }
            let found = self.find_node(id);
            proof {
                if let Some(f) = found {
                    assert(self@.nodes[f as int].id == id@);
                }
            }
            if found.is_none() {
                proof {
                    assert(batch_first_bad(g0, ids, j as int));
                    assert forall|q: int| #[trigger] batch_first_bad(g0, ids, q) implies q == j by {
                        if q < j {
                        } else if q > j {
                            assert(!batch_member_ok(g0, ids, j as int));
                        }
                    }
                }
                return Err(ExecutionGraphError::MissingNode(node_ids[j].clone()));
            }
            let mut l: usize = 0;
            while l < j
                invariant
                    ids == strs_view(node_ids@),
                    self.wf(),
                    self@ == g0,
                    l <= j,
                    j < node_ids@.len(),
                    ids[j as int] == id@,
                    !has_id(g0.nodes, ids[j as int]) == found.is_none(),
                    found.is_some(),
                    forall|q: int| 0 <= q < j ==> batch_member_ok(g0, ids, q),
                    forall|q: int| 0 <= q < l ==> ids[q] != ids[j as int],
                decreases j - l,
            {
                if str_eq(node_ids[l].as_str(), id) {
                    proof {
                        assert(ids[l as int] == node_ids@[l as int]@);
                        assert(ids[l as int] == ids[j as int]);
                        assert(exists|q: int| 0 <= q < j && strs_view(node_ids@)[q] == ids[j as int]);
                        assert(has_id(g0.nodes, ids[j as int]));
                        assert(batch_first_bad(g0, ids, j as int));
                        assert forall|q: int| #[trigger] batch_first_bad(g0, ids, q) implies q == j by {
                            if q > j {
                                assert(!batch_member_ok(g0, ids, j as int));
                            }
                        }
                    }
                    return Err(ExecutionGraphError::DuplicateBatchNode(node_ids[j].clone()));
                }
                l += 1;
            }
            let i = found.unwrap();
            if !self.node_is_ready(i) {
                proof {
                    assert forall|q: int| 0 <= q < self@.nodes.len() && (#[trigger] self@.nodes[q]).id == ids[j as int] implies !node_ready(self@, self@.nodes[q]) by {
                        if q != i {
                            lemma_sorted_distinct(self@.nodes, q, i as int);
                        }
                    }
                    assert(batch_first_bad(g0, ids, j as int));
                    assert forall|q: int| #[trigger] batch_first_bad(g0, ids, q) implies q == j by {
                        if q > j {
                            assert(!batch_member_ok(g0, ids, j as int));
                        }
                    }
                }
                return Err(ExecutionGraphError::NodeNotReady(node_ids[j].clone()));
            }
            proof {
                assert(self@.nodes[i as int].id == ids[j as int]);
                assert(batch_member_ok(g0, ids, j as int));
            }
            j += 1;
        }
        proof {
            assert forall|q: int| !#[trigger] batch_first_bad(g0, ids, q) by {}
            assert(ids.take(0) =~= Seq::<Seq<char>>::empty());
            assert forall|l: int| 0 <= l < ids.len() implies has_id(self@.nodes, ids[l]) && state_of(self@.nodes, #[trigger] ids[l]) is Pending by {
                assert(batch_member_ok(g0, ids, l));
                let i = choose|i: int| 0 <= i < g0.nodes.len() && (#[trigger] g0.nodes[i]).id == ids[l] && node_ready(g0, g0.nodes[i]);
                lemma_state_of_lookup(g0.nodes, ids[l]);
            }
        }
        let mut k: usize = 0;
        while k < node_ids.len()
            invariant
                self.wf(),
                g0.next_sequence + node_ids@.len() < u64::MAX,
                graph_faithful(g0) ==> self.faithful(),
                ids == strs_view(node_ids@),
                batch_ok(g0, ids),
                k <= node_ids@.len(),
                self@ == start_all(g0, ids.take(k as int)),
                self@.next_sequence == g0.next_sequence + k,
                forall|l: int| k <= l < ids.len() ==> has_id(self@.nodes, ids[l]) && state_of(self@.nodes, #[trigger] ids[l]) is Pending,
            decreases node_ids.len() - k,
        {
            let ghost before = self@;
            proof {
                assert(batch_member_ok(g0, ids, k as int));
                assert(ids[k as int] == node_ids@[k as int]@);
            }
            let r = self.transition(node_ids[k].as_str(), ExecutionNodeState::Running, None);
            proof {
                assert(r is Ok);
                lemma_start_all_step(g0, ids, k as int);
                let i = idx_of(before.nodes, ids[k as int]);
                assert(has_id(before.nodes, ids[k as int]));
                assert(before.nodes[i].id == ids[k as int]);
                lemma_state_of_lookup(before.nodes, ids[k as int]);
                lemma_after_set_wf(before, i, ExecutionNodeState::Running, None);
                assert forall|l: int| k + 1 <= l < ids.len() implies has_id(self@.nodes, ids[l]) && state_of(self@.nodes, #[trigger] ids[l]) is Pending by {
                    assert(batch_member_ok(g0, ids, l));
                    assert(ids[l] != ids[k as int]);
                }
            }
            k += 1;
        }
        proof {
            assert(ids.take(ids.len() as int) =~= ids);
        }
        Ok(())
    }
}

} // verus!
