//! Compiling a staffed request into an execution graph.
use vstd::prelude::*;
use crate::text::{blank, is_ws, lemma_padded3_injective, padded3, padded3_string, join3};
use crate::execution_graph::ExecutionGraph;
use crate::execution_graph::types::{
    strs_view, ExecutionEdge, ExecutionEdgeKind, ExecutionEdgeView, ExecutionGraphError, ExecutionNode,
    ExecutionNodeKind, ExecutionNodeState, ExecutionNodeView, NodeRequirements, NodeRequirementsView,
};
use crate::execution_graph::spec::{
    edge_between, empty_graph, graph_faithful, has_apply, has_edge_pair, has_id, is_walk, node_addable,
    reachable, state_of, ExecutionGraphView,
};
use crate::execution_graph::lemmas::lemma_state_of_lookup;
use crate::execution_graph::restore::lemma_insert_contains;
use crate::execution_graph::snapshot::same_elems;
use crate::profile::{caps_view, EmployeeCapability};
use super::types::{
    assignments_view, AssignmentAuthority, AssignmentView, CollaborationMode, MutationExecutionGraphPlan,
    OrganizationExecutionGraphPlan, OrganizationTaskRequest, StaffingDecision,
};

verus! {

/// No edge leaves `a`.
pub open spec fn out_free(edges: Seq<ExecutionEdgeView>, a: Seq<char>) -> bool {
    forall|k: int| 0 <= k < edges.len() ==> (#[trigger] edges[k]).from != a
}

/// Every node is pending.
pub open spec fn all_pending(nodes: Seq<ExecutionNodeView>) -> bool {
    forall|q: int| 0 <= q < nodes.len() ==> (#[trigger] nodes[q]).state is Pending
}

pub proof fn lemma_no_out_unreachable(edges: Seq<ExecutionEdgeView>, a: Seq<char>, b: Seq<char>)
    requires
        out_free(edges, a),
        a != b,
    ensures
        !reachable(edges, a, b),
{
    if reachable(edges, a, b) {
        let p = choose|p: Seq<Seq<char>>| #[trigger] is_walk(edges, p) && p[0] == a && p.last() == b;
        if p.len() > 1 {
            assert(edge_between(edges, p[0], p[1]));
            let k = choose|k: int| 0 <= k < edges.len() && (#[trigger] edges[k]).from == p[0] && edges[k].to == p[1];
        }
    }
}

pub proof fn lemma_contains_has_id(nodes: Seq<ExecutionNodeView>, y: Seq<char>)
    ensures
        has_id(nodes, y) <==> exists|x: ExecutionNodeView| #[trigger] nodes.contains(x) && x.id == y,
{
    if has_id(nodes, y) {
        let q = choose|q: int| 0 <= q < nodes.len() && (#[trigger] nodes[q]).id == y;
        assert(nodes.contains(nodes[q]));
    }
    if exists|x: ExecutionNodeView| #[trigger] nodes.contains(x) && x.id == y {
        let x = choose|x: ExecutionNodeView| #[trigger] nodes.contains(x) && x.id == y;
        let q = choose|q: int| 0 <= q < nodes.len() && nodes[q] == x;
        assert(nodes[q].id == y);
    }
}

/// A text whose first character is not whitespace is not blank.
pub proof fn lemma_not_blank(s: Seq<char>)
    requires
        s.len() > 0,
        !is_ws(s[0]),
    ensures
        !blank(s),
{
}

impl ExecutionGraph {
    /// Adds a node that the graph accepts.
    fn add_fresh_node(&mut self, node: ExecutionNode)
        requires
            old(self).wf(),
            node_addable(old(self)@, node@),
            node@.state is Pending,
        ensures
            final(self).wf(),
            old(self).faithful() ==> final(self).faithful(),
            final(self)@ == (ExecutionGraphView { nodes: final(self)@.nodes, ..old(self)@ }),
            final(self)@.nodes.len() == old(self)@.nodes.len() + 1,
            forall|x: ExecutionNodeView| #[trigger] final(self)@.nodes.contains(x) <==> (old(self)@.nodes.contains(x)
                || x == node@),
    {
        let ghost nv = node@;
        let ghost before = self@.nodes;
        let r = self.add_node(node);
        proof {
            assert(r is Ok);
            let p = choose|p: int| 0 <= p <= before.len() && self@.nodes == #[trigger] before.insert(p, nv);
            assert forall|x: ExecutionNodeView| #[trigger] self@.nodes.contains(x) <==> (before.contains(x) || x == nv) by {
                lemma_insert_contains(before, p, nv, x);
            }
        }
    }

    /// Adds an edge into a node that nothing leaves yet, so it closes no
    /// cycle.
    fn add_fresh_edge(&mut self, from: &str, to: &str, kind: ExecutionEdgeKind)
        requires
            old(self).wf(),
            has_id(old(self)@.nodes, from@),
            has_id(old(self)@.nodes, to@),
            all_pending(old(self)@.nodes),
            out_free(old(self)@.edges, to@),
            from@ != to@,
            !has_edge_pair(old(self)@.edges, from@, to@),
        ensures
            final(self).wf(),
            old(self).faithful() ==> final(self).faithful(),
            final(self)@ == (ExecutionGraphView {
                edges: old(self)@.edges.push(ExecutionEdgeView { from: from@, to: to@, kind }),
                ..old(self)@
            }),
    {
        proof {
            lemma_state_of_lookup(self@.nodes, to@);
            lemma_no_out_unreachable(self@.edges, to@, from@);
        }
        let r = self.add_edge(ExecutionEdge { from: from.to_owned(), to: to.to_owned(), kind });
        proof {
            assert(r is Ok);
        }
    }
}

// ---- the plain organization graph ------------------------------------------

pub open spec fn work_id(i: int) -> Seq<char> {
    "work-"@ + padded3(i as nat)
}

pub open spec fn decide_id() -> Seq<char> {
    "decide-000"@
}

pub open spec fn finalize_id() -> Seq<char> {
    "finalize-000"@
}

/// The node of a staffed assignment.
pub open spec fn assignment_node(
    id: Seq<char>,
    kind: ExecutionNodeKind,
    a: AssignmentView,
    read_only: bool,
) -> ExecutionNodeView {
    ExecutionNodeView {
        id,
        kind,
        objective: a.responsibility,
        executor: Some(a.employee),
        requirements: NodeRequirementsView { capabilities: a.matched_capabilities, read_only },
        state: ExecutionNodeState::Pending,
    }
}

/// A node with no executor and no requirement.
pub open spec fn plain_node(id: Seq<char>, kind: ExecutionNodeKind, objective: Seq<char>) -> ExecutionNodeView {
    ExecutionNodeView {
        id,
        kind,
        objective,
        executor: None,
        requirements: NodeRequirementsView { capabilities: Seq::empty(), read_only: false },
        state: ExecutionNodeState::Pending,
    }
}

pub open spec fn decide_executor(by: AssignmentAuthority) -> Seq<char> {
    match by {
        AssignmentAuthority::Manager { manager } => manager@,
        AssignmentAuthority::User => "user"@,
    }
}

pub open spec fn decide_node_view(by: AssignmentAuthority) -> ExecutionNodeView {
    ExecutionNodeView {
        executor: Some(decide_executor(by)),
        ..plain_node(
            decide_id(),
            ExecutionNodeKind::Decide,
            "resolve the submitted evidence against the original objective"@,
        )
    }
}

pub open spec fn finalize_node_view() -> ExecutionNodeView {
    plain_node(finalize_id(), ExecutionNodeKind::Finalize, "publish the terminal result"@)
}

pub open spec fn edge(from: Seq<char>, to: Seq<char>, kind: ExecutionEdgeKind) -> ExecutionEdgeView {
    ExecutionEdgeView { from, to, kind }
}

/// Work node `i` hands off to work node `i + 1` when collaboration is
/// sequential.
pub open spec fn handoff_edges(n: int, mode: CollaborationMode) -> Seq<ExecutionEdgeView> {
    if mode is SequentialHandoff && n > 1 {
        Seq::new((n - 1) as nat, |k: int| edge(work_id(k), work_id(k + 1), ExecutionEdgeKind::Consumes))
    } else {
        Seq::empty()
    }
}

/// The nodes of the organization graph.
pub open spec fn org_nodes(a: Seq<AssignmentView>, by: AssignmentAuthority) -> Seq<ExecutionNodeView> {
    Seq::new(a.len(), |i: int| assignment_node(work_id(i), ExecutionNodeKind::Work, a[i], true)).push(
        decide_node_view(by),
    ).push(finalize_node_view())
}

/// The edges of the organization graph, in the order they are added.
pub open spec fn org_edges(n: int, mode: CollaborationMode) -> Seq<ExecutionEdgeView> {
    handoff_edges(n, mode) + Seq::new(n as nat, |k: int| edge(work_id(k), decide_id(), ExecutionEdgeKind::Consumes))
        + seq![edge(decide_id(), finalize_id(), ExecutionEdgeKind::Requires)]
}

/// Each assignment's employee with the node it leases, the node named by
/// the prefix and the padded position.
pub open spec fn node_pairs(a: Seq<AssignmentView>, prefix: Seq<char>) -> Seq<(Seq<char>, Seq<char>)> {
    Seq::new(a.len(), |i: int| (a[i].employee, prefix + padded3(i as nat)))
}

pub open spec fn pairs_view(v: Seq<(String, String)>) -> Seq<(Seq<char>, Seq<char>)> {
    v.map_values(|p: (String, String)| (p.0@, p.1@))
}

pub proof fn lemma_work_ids(i: int, j: int)
    requires
        0 <= i,
        0 <= j,
        i != j,
    ensures
        work_id(i) != work_id(j),
        work_id(i) != decide_id(),
        work_id(i) != finalize_id(),
        work_id(i)[0] == 'w',
{
    reveal_strlit("work-");
    reveal_strlit("decide-000");
    reveal_strlit("finalize-000");
    lemma_padded3_injective(i as nat, j as nat);
    if work_id(i) == work_id(j) {
        assert(work_id(i).skip(5) =~= padded3(i as nat));
        assert(work_id(j).skip(5) =~= padded3(j as nat));
    }
    assert(work_id(i)[0] == 'w');
    assert(decide_id()[0] == 'd');
    assert(finalize_id()[0] == 'f');
}

/// The capability names of an assignment, as a node records them.
fn capability_names(caps: &Vec<EmployeeCapability>) -> (v: Vec<String>)
    ensures
        strs_view(v@) == caps_view(caps@),
{
    let mut v: Vec<String> = Vec::new();
    let mut i: usize = 0;
    while i < caps.len()
        invariant
            i <= caps@.len(),
            v@.len() == i,
            forall|k: int| 0 <= k < i ==> (#[trigger] v@[k])@ == caps@[k]@,
        decreases caps.len() - i,
    {
        v.push(caps[i].as_str().to_owned());
        i += 1;
    }
    assert(strs_view(v@) =~= caps_view(caps@));
    v
}

impl OrganizationTaskRequest {
    /// Compiles the request into a graph of work units: one work node per
    /// assignment (handing off in order when collaboration is sequential),
    /// all feeding one decision, followed by finalization.
    pub fn compile_execution_graph(&self, decision: &StaffingDecision) -> (r: Result<
        OrganizationExecutionGraphPlan,
        ExecutionGraphError,
    >)
        ensures
            r is Ok <==> !blank(self.task_id@),
            r matches Err(e) ==> e is EmptyTaskId,
            r matches Ok(plan) ==> {
                let a = decision@.assignments;
                &&& plan.graph.wf()
                &&& plan.graph.faithful()
                &&& plan.graph@ == (ExecutionGraphView {
                    nodes: plan.graph@.nodes,
                    edges: org_edges(a.len() as int, self.collaboration),
                    ..empty_graph(self.task_id@)
                })
                &&& plan.graph@.nodes.len() == a.len() + 2
                &&& same_elems(plan.graph@.nodes, org_nodes(a, self.assigned_by))
                &&& pairs_view(plan.work_nodes@) == node_pairs(a, "work-"@)
                &&& plan.decide_node@ == decide_id()
                &&& plan.finalize_node@ == finalize_id()
            },
    {
        let mut graph = match ExecutionGraph::new(self.task_id.as_str()) {
            Ok(g) => g,
            Err(e) => {
                return Err(e);
            },
        };
        let ghost a = decision@.assignments;
        let ghost mode = self.collaboration;
        let ghost expected = org_nodes(a, self.assigned_by);
        let mut work_nodes: Vec<(String, String)> = Vec::new();
        let mut i: usize = 0;
        proof {
            reveal_strlit("work-");
            assert(pairs_view(work_nodes@) =~= Seq::<(Seq<char>, Seq<char>)>::empty());
            assert(handoff_edges(0, mode) =~= Seq::<ExecutionEdgeView>::empty());
        }
        while i < decision.assignments.len()
            invariant
                graph.wf(),
                graph.faithful(),
                a == decision@.assignments,
                mode == self.collaboration,
                i <= a.len(),
                graph@ == (ExecutionGraphView {
                    nodes: graph@.nodes,
                    edges: handoff_edges(i as int, mode),
                    ..empty_graph(self.task_id@)
                }),
                graph@.nodes.len() == i,
                forall|x: ExecutionNodeView| #[trigger] graph@.nodes.contains(x) <==> exists|j: int|
                    0 <= j < i && x == assignment_node(work_id(j), ExecutionNodeKind::Work, a[j], true),
                pairs_view(work_nodes@) == node_pairs(a.take(i as int), "work-"@),
            decreases decision.assignments.len() - i,
        {
            let asg = &decision.assignments[i];
            let node_id = join3("work-", padded3_string(i as u64).as_str(), "");
            let ghost before = graph@;
            proof {
                reveal_strlit("");
                assert(node_id@ =~= work_id(i as int));
                assert(asg@ == a[i as int]);
                assert forall|j: int| 0 <= j < i implies work_id(j) != work_id(i as int) by {
                    lemma_work_ids(j, i as int);
                }
                lemma_work_ids(i as int, i + 1);
                lemma_not_blank(work_id(i as int));
                lemma_contains_has_id(before.nodes, work_id(i as int));
                if has_apply(before.nodes) {
                    let q = choose|q: int| 0 <= q < before.nodes.len() && (#[trigger] before.nodes[q]).kind is Apply;
                    assert(before.nodes.contains(before.nodes[q]));
                }
                assert forall|q: int| 0 <= q < before.nodes.len() implies (#[trigger] before.nodes[q]).state is Pending by {
                    assert(before.nodes.contains(before.nodes[q]));
                }
            }
            let node = ExecutionNode::pending(node_id.as_str(), ExecutionNodeKind::Work, asg.responsibility.as_str())
                .with_executor(asg.employee.as_str())
                .with_requirements(NodeRequirements { capabilities: capability_names(&asg.matched_capabilities), read_only: true });
            proof {
                assert(node@ == assignment_node(work_id(i as int), ExecutionNodeKind::Work, a[i as int], true));
            }
            graph.add_fresh_node(node);
            if self.collaboration == CollaborationMode::SequentialHandoff && i > 0 {
                let prev = join3("work-", padded3_string((i - 1) as u64).as_str(), "");
                let ghost mid = graph@;
                proof {
                    assert(prev@ =~= work_id(i - 1));
                    lemma_work_ids(i - 1, i as int);
                    assert(mid.nodes.contains(assignment_node(work_id(i - 1), ExecutionNodeKind::Work, a[i - 1], true)));
                    assert(mid.nodes.contains(assignment_node(work_id(i as int), ExecutionNodeKind::Work, a[i as int], true)));
                    lemma_contains_has_id(mid.nodes, work_id(i - 1));
                    lemma_contains_has_id(mid.nodes, work_id(i as int));
                    assert forall|q: int| 0 <= q < mid.nodes.len() implies (#[trigger] mid.nodes[q]).state is Pending by {
                        assert(mid.nodes.contains(mid.nodes[q]));
                    }
                    assert forall|k: int| 0 <= k < mid.edges.len() implies (#[trigger] mid.edges[k]).from != work_id(i as int) by {
                        lemma_work_ids(k, i as int);
                    }
                    if has_edge_pair(mid.edges, work_id(i - 1), work_id(i as int)) {
                        let k = choose|k: int| 0 <= k < mid.edges.len() && (#[trigger] mid.edges[k]).from == work_id(i - 1) && mid.edges[k].to == work_id(i as int);
                        lemma_work_ids(k + 1, i as int);
                    }
                }
                graph.add_fresh_edge(prev.as_str(), node_id.as_str(), ExecutionEdgeKind::Consumes);
                proof {
                    assert(handoff_edges(i + 1, mode) =~= handoff_edges(i as int, mode).push(
                        edge(work_id(i - 1), work_id(i as int), ExecutionEdgeKind::Consumes),
                    ));
                }
            } else {
                proof {
                    assert(handoff_edges(i + 1, mode) =~= handoff_edges(i as int, mode));
                }
            }
            let ghost old_pairs = pairs_view(work_nodes@);
            let ghost old_vec = work_nodes@;
            work_nodes.push((asg.employee.clone(), node_id));
            proof {
                let pv = pairs_view(work_nodes@);
                let np = node_pairs(a.take(i + 1), "work-"@);
                assert(old_pairs.len() == i);
                assert forall|k: int| 0 <= k < i + 1 implies pv[k] == np[k] by {
                    if k < i {
                        assert(old_pairs[k] == node_pairs(a.take(i as int), "work-"@)[k]);
                        assert(work_nodes@[k] == old_vec[k]);
                        assert(pv[k] == old_pairs[k]);
                    } else {
                        assert(work_id(i as int) == "work-"@ + padded3(i as nat));
                    }
                }
                assert(pv =~= np);
                assert forall|x: ExecutionNodeView| #[trigger] graph@.nodes.contains(x) <==> exists|j: int|
                    0 <= j < i + 1 && x == assignment_node(work_id(j), ExecutionNodeKind::Work, a[j], true) by {
                    if x == assignment_node(work_id(i as int), ExecutionNodeKind::Work, a[i as int], true) {
                        assert(exists|j: int| 0 <= j < i + 1 && x == assignment_node(work_id(j), ExecutionNodeKind::Work, a[j], true));
                    }
                }
            }
            i += 1;
        }
        proof {
            assert(a.take(a.len() as int) =~= a);
        }
        OrganizationTaskRequest::finish_org_graph(graph, work_nodes, &self.assigned_by, Ghost(a), Ghost(mode), Ghost(self.task_id@))
    }
}

impl OrganizationTaskRequest {
    /// Adds the decision and finalization nodes and their edges after the
    /// work nodes.
    fn finish_org_graph(
        graph: ExecutionGraph,
        work_nodes: Vec<(String, String)>,
        by: &AssignmentAuthority,
        Ghost(a): Ghost<Seq<AssignmentView>>,
        Ghost(mode): Ghost<CollaborationMode>,
        Ghost(task): Ghost<Seq<char>>,
    ) -> (r: Result<OrganizationExecutionGraphPlan, ExecutionGraphError>)
        requires
            graph.wf(),
            graph.faithful(),
            graph@ == (ExecutionGraphView { nodes: graph@.nodes, edges: handoff_edges(a.len() as int, mode), ..empty_graph(task) }),
            graph@.nodes.len() == a.len(),
            forall|x: ExecutionNodeView| #[trigger] graph@.nodes.contains(x) <==> exists|j: int|
                0 <= j < a.len() && x == assignment_node(work_id(j), ExecutionNodeKind::Work, a[j], true),
            pairs_view(work_nodes@) == node_pairs(a, "work-"@),
        ensures
            r matches Ok(plan) && {
                &&& plan.graph.wf()
                &&& plan.graph.faithful()
                &&& plan.graph@ == (ExecutionGraphView {
                    nodes: plan.graph@.nodes,
                    edges: org_edges(a.len() as int, mode),
                    ..empty_graph(task)
                })
                &&& plan.graph@.nodes.len() == a.len() + 2
                &&& same_elems(plan.graph@.nodes, org_nodes(a, *by))
                &&& pairs_view(plan.work_nodes@) == node_pairs(a, "work-"@)
                &&& plan.decide_node@ == decide_id()
                &&& plan.finalize_node@ == finalize_id()
            },
    {
        let mut graph = graph;
        let n = work_nodes.len();
        proof {
            reveal_strlit("decide-000");
            reveal_strlit("finalize-000");
            reveal_strlit("user");
            assert(pairs_view(work_nodes@).len() == a.len());
        }
        let decide_node = "decide-000".to_owned();
        let mut decide = ExecutionNode::pending(
            decide_node.as_str(),
            ExecutionNodeKind::Decide,
            "resolve the submitted evidence against the original objective",
        );
        let executor: String = match by {
            AssignmentAuthority::Manager { manager } => manager.clone(),
            AssignmentAuthority::User => "user".to_owned(),
        };
        proof {
            assert(executor@ == decide_executor(*by));
        }
        decide.executor = Some(executor);
        let ghost g1 = graph@;
        proof {
            assert(decide@.requirements.capabilities =~= Seq::<Seq<char>>::empty());
            assert(decide@ == decide_node_view(*by));
            lemma_not_blank(decide_id());
            lemma_contains_has_id(g1.nodes, decide_id());
            if has_id(g1.nodes, decide_id()) {
                let x = choose|x: ExecutionNodeView| #[trigger] g1.nodes.contains(x) && x.id == decide_id();
                let j = choose|j: int| 0 <= j < a.len() && x == assignment_node(work_id(j), ExecutionNodeKind::Work, a[j], true);
                lemma_work_ids(j, j + 1);
            }
        }
        graph.add_fresh_node(decide);
        let mut j: usize = 0;
        proof {
            assert(org_edges(a.len() as int, mode).take(handoff_edges(a.len() as int, mode).len() as int)
                =~= handoff_edges(a.len() as int, mode));
        }
        while j < n
            invariant
                graph.wf(),
                graph.faithful(),
                n == a.len(),
                decide_node@ == decide_id(),
                work_nodes@.len() == n,
                j <= n,
                pairs_view(work_nodes@) == node_pairs(a, "work-"@),
                graph@ == (ExecutionGraphView {
                    nodes: graph@.nodes,
                    edges: handoff_edges(a.len() as int, mode) + Seq::new(j as nat, |k: int| edge(work_id(k), decide_id(), ExecutionEdgeKind::Consumes)),
                    ..empty_graph(task)
                }),
                graph@.nodes.len() == a.len() + 1,
                forall|x: ExecutionNodeView| #[trigger] graph@.nodes.contains(x) <==> (x == decide_node_view(*by) || exists|q: int|
                    0 <= q < a.len() && x == assignment_node(work_id(q), ExecutionNodeKind::Work, a[q], true)),
            decreases n - j,
        {
            let ghost g = graph@;
            proof {
                assert(pairs_view(work_nodes@)[j as int] == node_pairs(a, "work-"@)[j as int]);
                assert(work_nodes@[j as int].1@ == work_id(j as int));
                assert(g.nodes.contains(assignment_node(work_id(j as int), ExecutionNodeKind::Work, a[j as int], true)));
                assert(g.nodes.contains(decide_node_view(*by)));
                lemma_contains_has_id(g.nodes, work_id(j as int));
                lemma_contains_has_id(g.nodes, decide_id());
                lemma_work_ids(j as int, j + 1);
                assert forall|q: int| 0 <= q < g.nodes.len() implies (#[trigger] g.nodes[q]).state is Pending by {
                    assert(g.nodes.contains(g.nodes[q]));
                }
                assert forall|k: int| 0 <= k < g.edges.len() implies (#[trigger] g.edges[k]).from != decide_id() by {
                    let h = handoff_edges(a.len() as int, mode);
                    if k < h.len() {
                        lemma_work_ids(k, k + 1);
                    } else {
                        lemma_work_ids(k - h.len(), k - h.len() + 1);
                    }
                }
                if has_edge_pair(g.edges, work_id(j as int), decide_id()) {
                    let k = choose|k: int| 0 <= k < g.edges.len() && (#[trigger] g.edges[k]).from == work_id(j as int) && g.edges[k].to == decide_id();
                    let h = handoff_edges(a.len() as int, mode);
                    if k < h.len() {
                        lemma_work_ids(k + 1, k + 2);
                    } else {
                        lemma_work_ids(k - h.len(), j as int);
                    }
                }
            }
            graph.add_fresh_edge(work_nodes[j].1.as_str(), decide_node.as_str(), ExecutionEdgeKind::Consumes);
            proof {
                let h = handoff_edges(a.len() as int, mode);
                assert(h + Seq::new((j + 1) as nat, |k: int| edge(work_id(k), decide_id(), ExecutionEdgeKind::Consumes))
                    =~= (h + Seq::new(j as nat, |k: int| edge(work_id(k), decide_id(), ExecutionEdgeKind::Consumes))).push(
                    edge(work_id(j as int), decide_id(), ExecutionEdgeKind::Consumes),
                ));
            }
            j += 1;
        }
        let finalize_node = "finalize-000".to_owned();
        let ghost g2 = graph@;
        proof {
            assert(finalize_node_view().id == finalize_id());
            lemma_not_blank(finalize_id());
            lemma_contains_has_id(g2.nodes, finalize_id());
            if has_id(g2.nodes, finalize_id()) {
                let x = choose|x: ExecutionNodeView| #[trigger] g2.nodes.contains(x) && x.id == finalize_id();
                if x != decide_node_view(*by) {
                    let q = choose|q: int| 0 <= q < a.len() && x == assignment_node(work_id(q), ExecutionNodeKind::Work, a[q], true);
                    lemma_work_ids(q, q + 1);
                }
            }
            if has_apply(g2.nodes) {
                let q = choose|q: int| 0 <= q < g2.nodes.len() && (#[trigger] g2.nodes[q]).kind is Apply;
                assert(g2.nodes.contains(g2.nodes[q]));
            }
        }
        let fin = ExecutionNode::pending(finalize_node.as_str(), ExecutionNodeKind::Finalize, "publish the terminal result");
        proof {
            assert(fin@.requirements.capabilities =~= Seq::<Seq<char>>::empty());
            assert(fin@ == finalize_node_view());
        }
        graph.add_fresh_node(fin);
        let ghost g3 = graph@;
        proof {
            assert(g3.nodes.contains(finalize_node_view()));
            assert(g3.nodes.contains(decide_node_view(*by)));
            lemma_contains_has_id(g3.nodes, finalize_id());
            lemma_contains_has_id(g3.nodes, decide_id());
            assert forall|q: int| 0 <= q < g3.nodes.len() implies (#[trigger] g3.nodes[q]).state is Pending by {
                assert(g3.nodes.contains(g3.nodes[q]));
            }
            assert forall|k: int| 0 <= k < g3.edges.len() implies (#[trigger] g3.edges[k]).from != finalize_id() by {
                let h = handoff_edges(a.len() as int, mode);
                if k < h.len() {
                    lemma_work_ids(k, k + 1);
                } else {
                    lemma_work_ids(k - h.len(), k - h.len() + 1);
                }
            }
            if has_edge_pair(g3.edges, decide_id(), finalize_id()) {
                let k = choose|k: int| 0 <= k < g3.edges.len() && (#[trigger] g3.edges[k]).from == decide_id() && g3.edges[k].to == finalize_id();
                let h = handoff_edges(a.len() as int, mode);
                if k < h.len() {
                    lemma_work_ids(k, k + 1);
                } else {
                    lemma_work_ids(k - h.len(), k - h.len() + 1);
                }
            }
            assert(decide_id() != finalize_id()) by {
                assert(decide_id()[0] != finalize_id()[0]);
            }
        }
        graph.add_fresh_edge(decide_node.as_str(), finalize_node.as_str(), ExecutionEdgeKind::Requires);
        proof {
            assert(graph@.edges =~= org_edges(a.len() as int, mode));
            let e = org_nodes(a, *by);
            assert forall|x: ExecutionNodeView| #[trigger] graph@.nodes.contains(x) <==> e.contains(x) by {
                if graph@.nodes.contains(x) {
                    if x == decide_node_view(*by) {
                        assert(e[a.len() as int] == x);
                    } else if x == finalize_node_view() {
                        assert(e[a.len() + 1int] == x);
                    } else {
                        let q = choose|q: int| 0 <= q < a.len() && x == assignment_node(work_id(q), ExecutionNodeKind::Work, a[q], true);
                        assert(e[q] == x);
                    }
                }
                if e.contains(x) {
                    let q = choose|q: int| 0 <= q < e.len() && e[q] == x;
                    if q < a.len() {
                        assert(x == assignment_node(work_id(q), ExecutionNodeKind::Work, a[q], true));
                    }
                }
            }
        }
        Ok(OrganizationExecutionGraphPlan { graph, work_nodes, decide_node, finalize_node })
    }
}

// ---- the mutation graph ------------------------------------------------------

pub open spec fn propose_id(i: int) -> Seq<char> {
    "propose-"@ + padded3(i as nat)
}

pub open spec fn contract_id() -> Seq<char> {
    "contract-000"@
}

pub open spec fn claim_id() -> Seq<char> {
    "claim-000"@
}

pub open spec fn review_id() -> Seq<char> {
    "review-000"@
}

pub open spec fn apply_id() -> Seq<char> {
    "apply-000"@
}

pub open spec fn release_id() -> Seq<char> {
    "release-000"@
}

/// The nodes of the mutation graph, in the order they are added.
pub open spec fn mutation_nodes(a: Seq<AssignmentView>) -> Seq<ExecutionNodeView> {
    seq![
        plain_node(contract_id(), ExecutionNodeKind::Contract, "validate staffing, ownership, and proposal contracts"@),
        plain_node(claim_id(), ExecutionNodeKind::Claim, "acquire all file claims before worker execution"@),
    ] + Seq::new(a.len(), |i: int| assignment_node(propose_id(i), ExecutionNodeKind::Propose, a[i], false)) + seq![
        plain_node(
            review_id(),
            ExecutionNodeKind::Review,
            "verify worker evidence, ownership, conflicts, and structured proposals"@,
        ),
        plain_node(apply_id(), ExecutionNodeKind::Apply, "apply the approved patch through the parent PatchEngine"@),
        plain_node(release_id(), ExecutionNodeKind::Release, "release all acquired file claims"@),
        plain_node(finalize_id(), ExecutionNodeKind::Finalize, "publish only after apply and claim release both succeed"@),
    ]
}

/// The edge into proposal `i`: from the claim node, or from the previous
/// proposal when collaboration is sequential.
pub open spec fn proposal_edge(i: int, mode: CollaborationMode) -> ExecutionEdgeView {
    if mode is SequentialHandoff && i > 0 {
        edge(propose_id(i - 1), propose_id(i), ExecutionEdgeKind::Consumes)
    } else {
        edge(claim_id(), propose_id(i), ExecutionEdgeKind::Consumes)
    }
}

/// The edges of the mutation graph, in the order they are added.
pub open spec fn mutation_edges(n: int, mode: CollaborationMode) -> Seq<ExecutionEdgeView> {
    seq![edge(contract_id(), claim_id(), ExecutionEdgeKind::Requires)] + Seq::new(
        n as nat,
        |i: int| proposal_edge(i, mode),
    ) + Seq::new(n as nat, |i: int| edge(propose_id(i), review_id(), ExecutionEdgeKind::Validates)) + seq![
        edge(review_id(), apply_id(), ExecutionEdgeKind::Requires),
        edge(contract_id(), release_id(), ExecutionEdgeKind::Requires),
        edge(review_id(), release_id(), ExecutionEdgeKind::Finally),
        edge(apply_id(), release_id(), ExecutionEdgeKind::Finally),
        edge(apply_id(), finalize_id(), ExecutionEdgeKind::Requires),
        edge(release_id(), finalize_id(), ExecutionEdgeKind::Requires),
    ]
}

/// A rank for each node of the mutation graph; every edge goes up in rank.
pub open spec fn mutation_rank(id: Seq<char>, n: int) -> int {
    if id == contract_id() {
        0
    } else if id == claim_id() {
        1
    } else if id == review_id() {
        n + 2
    } else if id == apply_id() {
        n + 3
    } else if id == release_id() {
        n + 4
    } else if id == finalize_id() {
        n + 5
    } else {
        2 + choose|i: int| 0 <= i < n && propose_id(i) == id
    }
}

pub proof fn lemma_mutation_ids(i: int, j: int)
    requires
        0 <= i,
        0 <= j,
    ensures
        i != j ==> propose_id(i) != propose_id(j),
        propose_id(i) != contract_id(),
        propose_id(i) != claim_id(),
        propose_id(i) != review_id(),
        propose_id(i) != apply_id(),
        propose_id(i) != release_id(),
        propose_id(i) != finalize_id(),
        contract_id() != claim_id(),
        contract_id() != review_id(),
        contract_id() != apply_id(),
        contract_id() != release_id(),
        contract_id() != finalize_id(),
        claim_id() != review_id(),
        claim_id() != apply_id(),
        claim_id() != release_id(),
        claim_id() != finalize_id(),
        review_id() != apply_id(),
        review_id() != release_id(),
        review_id() != finalize_id(),
        apply_id() != release_id(),
        apply_id() != finalize_id(),
        release_id() != finalize_id(),
{
    reveal_strlit("propose-");
    reveal_strlit("contract-000");
    reveal_strlit("claim-000");
    reveal_strlit("review-000");
    reveal_strlit("apply-000");
    reveal_strlit("release-000");
    reveal_strlit("finalize-000");
    if i != j {
        lemma_padded3_injective(i as nat, j as nat);
        if propose_id(i) == propose_id(j) {
            assert(propose_id(i).skip(8) =~= padded3(i as nat));
            assert(propose_id(j).skip(8) =~= padded3(j as nat));
        }
    }
    assert(propose_id(i)[0] == 'p');
    assert(contract_id()[1] != claim_id()[1]);
    assert(review_id()[2] != release_id()[2]);
    assert(contract_id()[0] == 'c' && claim_id()[0] == 'c' && review_id()[0] == 'r' && apply_id()[0] == 'a'
        && release_id()[0] == 'r' && finalize_id()[0] == 'f');
}

/// The `k`-th edge of the mutation graph, described.
pub proof fn lemma_mutation_edge(n: int, mode: CollaborationMode, k: int)
    requires
        0 <= n,
        0 <= k < 2 * n + 7,
    ensures
        mutation_edges(n, mode).len() == 2 * n + 7,
        k == 0 ==> mutation_edges(n, mode)[k] == edge(contract_id(), claim_id(), ExecutionEdgeKind::Requires),
        1 <= k <= n ==> mutation_edges(n, mode)[k] == proposal_edge(k - 1, mode),
        n + 1 <= k <= 2 * n ==> mutation_edges(n, mode)[k] == edge(propose_id(k - n - 1), review_id(), ExecutionEdgeKind::Validates),
        k == 2 * n + 1 ==> mutation_edges(n, mode)[k] == edge(review_id(), apply_id(), ExecutionEdgeKind::Requires),
        k == 2 * n + 2 ==> mutation_edges(n, mode)[k] == edge(contract_id(), release_id(), ExecutionEdgeKind::Requires),
        k == 2 * n + 3 ==> mutation_edges(n, mode)[k] == edge(review_id(), release_id(), ExecutionEdgeKind::Finally),
        k == 2 * n + 4 ==> mutation_edges(n, mode)[k] == edge(apply_id(), release_id(), ExecutionEdgeKind::Finally),
        k == 2 * n + 5 ==> mutation_edges(n, mode)[k] == edge(apply_id(), finalize_id(), ExecutionEdgeKind::Requires),
        k == 2 * n + 6 ==> mutation_edges(n, mode)[k] == edge(release_id(), finalize_id(), ExecutionEdgeKind::Requires),
{
}

/// In the mutation edge list, no edge leaves the target of a later edge,
/// no pair repeats, and no edge is a loop.
pub proof fn lemma_mutation_edges_fresh(n: int, mode: CollaborationMode, k: int, l: int)
    requires
        0 <= n,
        0 <= k < l < 2 * n + 7,
    ensures
        mutation_edges(n, mode)[k].from != mutation_edges(n, mode)[l].to,
        !(mutation_edges(n, mode)[k].from == mutation_edges(n, mode)[l].from && mutation_edges(n, mode)[k].to
            == mutation_edges(n, mode)[l].to),
        mutation_edges(n, mode)[l].from != mutation_edges(n, mode)[l].to,
        mutation_edges(n, mode)[k].from != mutation_edges(n, mode)[k].to,
{
    lemma_mutation_edge(n, mode, k);
    lemma_mutation_edge(n, mode, l);
    lemma_mutation_ids(0, 1);
    if 1 <= k <= n {
        lemma_mutation_ids(k - 1, 0);
        if k >= 2 {
            lemma_mutation_ids(k - 2, k - 1);
        }
    }
    if 1 <= l <= n {
        lemma_mutation_ids(l - 1, 0);
        if l >= 2 {
            lemma_mutation_ids(l - 2, l - 1);
        }
        if 1 <= k <= n {
            lemma_mutation_ids(k - 1, l - 1);
            if k >= 2 {
                lemma_mutation_ids(k - 2, l - 1);
            }
        }
    }
    if n + 1 <= k <= 2 * n {
        lemma_mutation_ids(k - n - 1, 0);
        if 1 <= l <= n {
            lemma_mutation_ids(k - n - 1, l - 1);
        }
    }
    if n + 1 <= l <= 2 * n {
        lemma_mutation_ids(l - n - 1, 0);
        if n + 1 <= k <= 2 * n {
            lemma_mutation_ids(k - n - 1, l - n - 1);
        }
    }
}

/// In the mutation node list, identifiers are unique and only one node is
/// an Apply node.
pub proof fn lemma_mutation_nodes(a: Seq<AssignmentView>, p: int, q: int)
    requires
        0 <= p < q < a.len() + 6,
    ensures
        mutation_nodes(a).len() == a.len() + 6,
        mutation_nodes(a)[p].id != mutation_nodes(a)[q].id,
        mutation_nodes(a)[p].kind is Apply <==> p == a.len() + 3,
        mutation_nodes(a)[q].kind is Apply <==> q == a.len() + 3,
        mutation_nodes(a)[p].state is Pending,
        mutation_nodes(a)[q].state is Pending,
        !is_ws(mutation_nodes(a)[q].id[0]) && mutation_nodes(a)[q].id.len() > 0,
        !is_ws(mutation_nodes(a)[p].id[0]) && mutation_nodes(a)[p].id.len() > 0,
{
    let m = mutation_nodes(a);
    let n = a.len() as int;
    reveal_strlit("propose-");
    reveal_strlit("contract-000");
    reveal_strlit("claim-000");
    reveal_strlit("review-000");
    reveal_strlit("apply-000");
    reveal_strlit("release-000");
    reveal_strlit("finalize-000");
    lemma_mutation_ids(0, 1);
    if 2 <= p < n + 2 {
        assert(m[p].id == propose_id(p - 2));
        lemma_mutation_ids(p - 2, 0);
    }
    if 2 <= q < n + 2 {
        assert(m[q].id == propose_id(q - 2));
        lemma_mutation_ids(q - 2, 0);
        assert(propose_id(q - 2)[0] == 'p');
        if 2 <= p {
            lemma_mutation_ids(p - 2, q - 2);
        }
    }
}

impl OrganizationTaskRequest {
    /// Compiles the request for mutation into a single-writer graph:
    /// proposals may run independently, but every path converges on one
    /// review and exactly one Apply node; release follows both success and
    /// failure through finally edges, and finalization needs both apply and
    /// release.
    pub fn compile_mutation_execution_graph(&self, decision: &StaffingDecision) -> (r: Result<
        MutationExecutionGraphPlan,
        ExecutionGraphError,
    >)
        ensures
            r is Ok <==> !blank(self.task_id@),
            r matches Err(e) ==> e is EmptyTaskId,
            r matches Ok(plan) ==> {
                let a = decision@.assignments;
                &&& plan.graph.wf()
                &&& plan.graph.faithful()
                &&& plan.graph@ == (ExecutionGraphView {
                    nodes: plan.graph@.nodes,
                    edges: mutation_edges(a.len() as int, self.collaboration),
                    ..empty_graph(self.task_id@)
                })
                &&& plan.graph@.nodes.len() == a.len() + 6
                &&& same_elems(plan.graph@.nodes, mutation_nodes(a))
                &&& pairs_view(plan.work_nodes@) == node_pairs(a, "propose-"@)
                &&& plan.contract_node@ == contract_id()
                &&& plan.claim_node@ == claim_id()
                &&& plan.review_node@ == review_id()
                &&& plan.apply_node@ == apply_id()
                &&& plan.release_node@ == release_id()
                &&& plan.finalize_node@ == finalize_id()
            },
    {
        let mut graph = match ExecutionGraph::new(self.task_id.as_str()) {
            Ok(g) => g,
            Err(e) => {
                return Err(e);
            },
        };
        let ghost a = decision@.assignments;
        let ghost n = a.len() as int;
        let ghost mode = self.collaboration;
        let ghost nodes_all = mutation_nodes(a);
        let ghost edges_all = mutation_edges(n, mode);
        proof {
            lemma_mutation_nodes(a, 0, 1);
            lemma_mutation_edge(n, mode, 0);
        }
        let contract_node = "contract-000".to_owned();
        let claim_node = "claim-000".to_owned();
        let contract = ExecutionNode::pending(contract_node.as_str(), ExecutionNodeKind::Contract, "validate staffing, ownership, and proposal contracts");
        proof {
            assert(contract@.requirements.capabilities =~= Seq::<Seq<char>>::empty());
            assert(contract@ == nodes_all[0]);
            assert(mutation_nodes(a).take(0) =~= Seq::<ExecutionNodeView>::empty());
        }
        graph.add_next_node(contract, Ghost(a), Ghost(0));
        let claim = ExecutionNode::pending(claim_node.as_str(), ExecutionNodeKind::Claim, "acquire all file claims before worker execution");
        proof {
            assert(claim@.requirements.capabilities =~= Seq::<Seq<char>>::empty());
            assert(claim@ == nodes_all[1]);
        }
        graph.add_next_node(claim, Ghost(a), Ghost(1));
        proof {
            assert(mutation_edges(n, mode).take(0) =~= Seq::<ExecutionEdgeView>::empty());
        }
        graph.add_next_edge(contract_node.as_str(), claim_node.as_str(), ExecutionEdgeKind::Requires, Ghost(a), Ghost(mode), Ghost(2), Ghost(0), Ghost(0), Ghost(1));
        let mut work_nodes: Vec<(String, String)> = Vec::new();
        let mut i: usize = 0;
        proof {
            assert(pairs_view(work_nodes@) =~= node_pairs(a.take(0), "propose-"@));
        }
        while i < decision.assignments.len()
            invariant
                graph.wf(),
                graph.faithful(),
                a == decision@.assignments,
                n == a.len(),
                mode == self.collaboration,
                i <= n,
                claim_node@ == claim_id(),
                graph@ == (ExecutionGraphView {
                    nodes: graph@.nodes,
                    edges: mutation_edges(n, mode).take(i + 1),
                    ..empty_graph(self.task_id@)
                }),
                graph@.nodes.len() == i + 2,
                forall|x: ExecutionNodeView| #[trigger] graph@.nodes.contains(x) <==> mutation_nodes(a).take(i + 2).contains(x),
                pairs_view(work_nodes@) == node_pairs(a.take(i as int), "propose-"@),
            decreases decision.assignments.len() - i,
        {
            let asg = &decision.assignments[i];
            let node_id = join3("propose-", padded3_string(i as u64).as_str(), "");
            proof {
                reveal_strlit("");
                assert(node_id@ =~= propose_id(i as int));
                assert(asg@ == a[i as int]);
            }
            let node = ExecutionNode::pending(node_id.as_str(), ExecutionNodeKind::Propose, asg.responsibility.as_str())
                .with_executor(asg.employee.as_str())
                .with_requirements(NodeRequirements { capabilities: capability_names(&asg.matched_capabilities), read_only: false });
            proof {
                assert(mutation_nodes(a)[i + 2] == assignment_node(propose_id(i as int), ExecutionNodeKind::Propose, a[i as int], false));
            }
            graph.add_next_node(node, Ghost(a), Ghost(i + 2));
            let sequential = self.collaboration == CollaborationMode::SequentialHandoff && i > 0;
            let prereq = if sequential {
                join3("propose-", padded3_string((i - 1) as u64).as_str(), "")
            } else {
                claim_node.clone()
            };
            proof {
                lemma_mutation_edge(n, mode, i + 1);
                if sequential {
                    assert(prereq@ =~= propose_id(i - 1));
                }
                assert(prereq@ == mutation_edges(n, mode)[i + 1].from);
            }
            graph.add_next_edge(prereq.as_str(), node_id.as_str(), ExecutionEdgeKind::Consumes, Ghost(a), Ghost(mode), Ghost(i + 3), Ghost(i + 1), Ghost(if sequential { i + 1 } else { 1 }), Ghost(i + 2));
            let ghost old_pairs = pairs_view(work_nodes@);
            let ghost old_vec = work_nodes@;
            work_nodes.push((asg.employee.clone(), node_id));
            proof {
                let pv = pairs_view(work_nodes@);
                let np = node_pairs(a.take(i + 1), "propose-"@);
                assert(old_pairs.len() == i);
                assert forall|k: int| 0 <= k < i + 1 implies pv[k] == np[k] by {
                    if k < i {
                        assert(old_pairs[k] == node_pairs(a.take(i as int), "propose-"@)[k]);
                        assert(work_nodes@[k] == old_vec[k]);
                    }
                }
                assert(pv =~= np);
            }
            i += 1;
        }
        proof {
            assert(a.take(n) =~= a);
        }
        OrganizationTaskRequest::finish_mutation_graph(
            graph,
            work_nodes,
            contract_node,
            claim_node,
            Ghost(a),
            Ghost(mode),
            Ghost(self.task_id@),
        )
    }

    /// Adds review, apply, release and finalization with their edges after
    /// the proposal nodes.
    fn finish_mutation_graph(
        graph: ExecutionGraph,
        work_nodes: Vec<(String, String)>,
        contract_node: String,
        claim_node: String,
        Ghost(a): Ghost<Seq<AssignmentView>>,
        Ghost(mode): Ghost<CollaborationMode>,
        Ghost(task): Ghost<Seq<char>>,
    ) -> (r: Result<MutationExecutionGraphPlan, ExecutionGraphError>)
        requires
            graph.wf(),
            graph.faithful(),
            contract_node@ == contract_id(),
            claim_node@ == claim_id(),
            graph@ == (ExecutionGraphView {
                nodes: graph@.nodes,
                edges: mutation_edges(a.len() as int, mode).take(a.len() + 1int),
                ..empty_graph(task)
            }),
            graph@.nodes.len() == a.len() + 2,
            forall|x: ExecutionNodeView| #[trigger] graph@.nodes.contains(x) <==> mutation_nodes(a).take(a.len() + 2int).contains(x),
            pairs_view(work_nodes@) == node_pairs(a, "propose-"@),
        ensures
            r matches Ok(plan) && {
                &&& plan.graph.wf()
                &&& plan.graph.faithful()
                &&& plan.graph@ == (ExecutionGraphView {
                    nodes: plan.graph@.nodes,
                    edges: mutation_edges(a.len() as int, mode),
                    ..empty_graph(task)
                })
                &&& plan.graph@.nodes.len() == a.len() + 6
                &&& same_elems(plan.graph@.nodes, mutation_nodes(a))
                &&& pairs_view(plan.work_nodes@) == node_pairs(a, "propose-"@)
                &&& plan.contract_node@ == contract_id()
                &&& plan.claim_node@ == claim_id()
                &&& plan.review_node@ == review_id()
                &&& plan.apply_node@ == apply_id()
                &&& plan.release_node@ == release_id()
                &&& plan.finalize_node@ == finalize_id()
            },
    {
        let mut graph = graph;
        let ghost n = a.len() as int;
        proof {
            reveal_strlit("review-000");
            reveal_strlit("apply-000");
            reveal_strlit("release-000");
            reveal_strlit("finalize-000");
            assert(pairs_view(work_nodes@).len() == n);
        }
        let review_node = "review-000".to_owned();
        let apply_node = "apply-000".to_owned();
        let release_node = "release-000".to_owned();
        let finalize_node = "finalize-000".to_owned();
        let ghost w = pairs_view(work_nodes@);
        proof {
            lemma_mutation_nodes(a, 0, n + 2);
        }
        let node_review = ExecutionNode::pending(review_node.as_str(), ExecutionNodeKind::Review, "verify worker evidence, ownership, conflicts, and structured proposals");
        proof {
            assert(node_review@.requirements.capabilities =~= Seq::<Seq<char>>::empty());
            assert(node_review@ == mutation_nodes(a)[n + 2]);
        }
        graph.add_next_node(node_review, Ghost(a), Ghost(n + 2));
        let mut j: usize = 0;
        while j < work_nodes.len()
            invariant
                graph.wf(),
                graph.faithful(),
                n == a.len(),
                work_nodes@.len() == n,
                pairs_view(work_nodes@) == node_pairs(a, "propose-"@),
                review_node@ == review_id(),
                j <= n,
                graph@ == (ExecutionGraphView {
                    nodes: graph@.nodes,
                    edges: mutation_edges(n, mode).take(n + 1 + j),
                    ..empty_graph(task)
                }),
                graph@.nodes.len() == n + 3,
                forall|x: ExecutionNodeView| #[trigger] graph@.nodes.contains(x) <==> mutation_nodes(a).take(n + 3).contains(x),
            decreases work_nodes.len() - j,
        {
            proof {
                assert(pairs_view(work_nodes@)[j as int] == node_pairs(a, "propose-"@)[j as int]);
                assert(work_nodes@[j as int].1@ == propose_id(j as int));
                lemma_mutation_edge(n, mode, n + 1 + j);
            }
            graph.add_next_edge(work_nodes[j].1.as_str(), review_node.as_str(), ExecutionEdgeKind::Validates, Ghost(a), Ghost(mode), Ghost(n + 3), Ghost(n + 1 + j), Ghost(j + 2), Ghost(n + 2));
            j += 1;
        }
        proof {
            lemma_mutation_nodes(a, 0, n + 3);
            lemma_mutation_edge(n, mode, 2 * n + 1);
        }
        let node_apply = ExecutionNode::pending(apply_node.as_str(), ExecutionNodeKind::Apply, "apply the approved patch through the parent PatchEngine");
        proof {
            assert(node_apply@.requirements.capabilities =~= Seq::<Seq<char>>::empty());
            assert(node_apply@ == mutation_nodes(a)[n + 3]);
        }
        graph.add_next_node(node_apply, Ghost(a), Ghost(n + 3));
        graph.add_next_edge(review_node.as_str(), apply_node.as_str(), ExecutionEdgeKind::Requires, Ghost(a), Ghost(mode), Ghost(n + 4), Ghost(2 * n + 1), Ghost(n + 2), Ghost(n + 3));
        proof {
            lemma_mutation_nodes(a, 0, n + 4);
            lemma_mutation_edge(n, mode, 2 * n + 2);
            lemma_mutation_edge(n, mode, 2 * n + 3);
            lemma_mutation_edge(n, mode, 2 * n + 4);
        }
        let node_release = ExecutionNode::pending(release_node.as_str(), ExecutionNodeKind::Release, "release all acquired file claims");
        proof {
            assert(node_release@.requirements.capabilities =~= Seq::<Seq<char>>::empty());
            assert(node_release@ == mutation_nodes(a)[n + 4]);
        }
        graph.add_next_node(node_release, Ghost(a), Ghost(n + 4));
        graph.add_next_edge(contract_node.as_str(), release_node.as_str(), ExecutionEdgeKind::Requires, Ghost(a), Ghost(mode), Ghost(n + 5), Ghost(2 * n + 2), Ghost(0), Ghost(n + 4));
        graph.add_next_edge(review_node.as_str(), release_node.as_str(), ExecutionEdgeKind::Finally, Ghost(a), Ghost(mode), Ghost(n + 5), Ghost(2 * n + 3), Ghost(n + 2), Ghost(n + 4));
        graph.add_next_edge(apply_node.as_str(), release_node.as_str(), ExecutionEdgeKind::Finally, Ghost(a), Ghost(mode), Ghost(n + 5), Ghost(2 * n + 4), Ghost(n + 3), Ghost(n + 4));
        proof {
            lemma_mutation_nodes(a, 0, n + 5);
            lemma_mutation_edge(n, mode, 2 * n + 5);
            lemma_mutation_edge(n, mode, 2 * n + 6);
        }
        let node_finalize = ExecutionNode::pending(finalize_node.as_str(), ExecutionNodeKind::Finalize, "publish only after apply and claim release both succeed");
        proof {
            assert(node_finalize@.requirements.capabilities =~= Seq::<Seq<char>>::empty());
            assert(node_finalize@ == mutation_nodes(a)[n + 5]);
        }
        graph.add_next_node(node_finalize, Ghost(a), Ghost(n + 5));
        graph.add_next_edge(apply_node.as_str(), finalize_node.as_str(), ExecutionEdgeKind::Requires, Ghost(a), Ghost(mode), Ghost(n + 6), Ghost(2 * n + 5), Ghost(n + 3), Ghost(n + 5));
        graph.add_next_edge(release_node.as_str(), finalize_node.as_str(), ExecutionEdgeKind::Requires, Ghost(a), Ghost(mode), Ghost(n + 6), Ghost(2 * n + 6), Ghost(n + 4), Ghost(n + 5));
        proof {
            assert(mutation_edges(n, mode).take(2 * n + 7) =~= mutation_edges(n, mode));
            assert(mutation_nodes(a).take(n + 6) =~= mutation_nodes(a));
        }
        proof {
            let e = mutation_nodes(a);
            assert forall|x: ExecutionNodeView| #[trigger] graph@.nodes.contains(x) <==> e.contains(x) by {}
        }
        Ok(
            MutationExecutionGraphPlan {
                graph,
                work_nodes,
                contract_node,
                claim_node,
                review_node,
                apply_node,
                release_node,
                finalize_node,
            },
        )
    }
}

impl ExecutionGraph {
    /// Adds node `m` of the mutation graph after nodes `0..m`.
    fn add_next_node(&mut self, node: ExecutionNode, Ghost(a): Ghost<Seq<AssignmentView>>, Ghost(m): Ghost<int>)
        requires
            old(self).wf(),
            0 <= m < a.len() + 6,
            node@ == mutation_nodes(a)[m],
            old(self)@.nodes.len() == m,
            forall|x: ExecutionNodeView| #[trigger] old(self)@.nodes.contains(x) <==> mutation_nodes(a).take(m).contains(x),
        ensures
            final(self).wf(),
            old(self).faithful() ==> final(self).faithful(),
            final(self)@ == (ExecutionGraphView { nodes: final(self)@.nodes, ..old(self)@ }),
            final(self)@.nodes.len() == m + 1,
            forall|x: ExecutionNodeView| #[trigger] final(self)@.nodes.contains(x) <==> mutation_nodes(a).take(m + 1).contains(x),
    {
        let ghost g = self@;
        let ghost all = mutation_nodes(a);
        proof {
            if m > 0 {
                lemma_mutation_nodes(a, 0, m);
            } else {
                lemma_mutation_nodes(a, 0, 1);
            }
            lemma_not_blank(all[m].id);
            lemma_contains_has_id(g.nodes, all[m].id);
            if has_id(g.nodes, all[m].id) {
                let x = choose|x: ExecutionNodeView| #[trigger] g.nodes.contains(x) && x.id == all[m].id;
                assert(all.take(m).contains(x));
                let p = choose|p: int| 0 <= p < m && #[trigger] all.take(m)[p] == x;
                lemma_mutation_nodes(a, p, m);
            }
            if all[m].kind is Apply && has_apply(g.nodes) {
                let q = choose|q: int| 0 <= q < g.nodes.len() && (#[trigger] g.nodes[q]).kind is Apply;
                assert(g.nodes.contains(g.nodes[q]));
                assert(all.take(m).contains(g.nodes[q]));
                let p = choose|p: int| 0 <= p < m && #[trigger] all.take(m)[p] == g.nodes[q];
                lemma_mutation_nodes(a, p, m);
            }
        }
        self.add_fresh_node(node);
        proof {
            assert forall|x: ExecutionNodeView| #[trigger] self@.nodes.contains(x) <==> all.take(m + 1).contains(x) by {
                if all.take(m + 1).contains(x) {
                    let p = choose|p: int| 0 <= p < m + 1 && #[trigger] all.take(m + 1)[p] == x;
                    if p < m {
                        assert(all.take(m)[p] == x);
                    }
                }
                if all.take(m).contains(x) {
                    let p = choose|p: int| 0 <= p < m && #[trigger] all.take(m)[p] == x;
                    assert(all.take(m + 1)[p] == x);
                }
                if x == all[m] {
                    assert(all.take(m + 1)[m] == x);
                }
            }
        }
    }

    /// Adds edge `k` of the mutation graph after edges `0..k`, once nodes
    /// `0..m` are present; its ends are nodes `f` and `t`.
    fn add_next_edge(
        &mut self,
        from: &str,
        to: &str,
        kind: ExecutionEdgeKind,
        Ghost(a): Ghost<Seq<AssignmentView>>,
        Ghost(mode): Ghost<CollaborationMode>,
        Ghost(m): Ghost<int>,
        Ghost(k): Ghost<int>,
        Ghost(f): Ghost<int>,
        Ghost(t): Ghost<int>,
    )
        requires
            old(self).wf(),
            0 <= f < m,
            0 <= t < m,
            m <= a.len() + 6,
            0 <= k < 2 * a.len() + 7,
            from@ == mutation_nodes(a)[f].id,
            to@ == mutation_nodes(a)[t].id,
            mutation_edges(a.len() as int, mode)[k] == (ExecutionEdgeView { from: from@, to: to@, kind }),
            old(self)@.edges == mutation_edges(a.len() as int, mode).take(k),
            forall|x: ExecutionNodeView| #[trigger] old(self)@.nodes.contains(x) <==> mutation_nodes(a).take(m).contains(x),
        ensures
            final(self).wf(),
            old(self).faithful() ==> final(self).faithful(),
            final(self)@ == (ExecutionGraphView { edges: mutation_edges(a.len() as int, mode).take(k + 1), ..old(self)@ }),
    {
        let ghost g = self@;
        let ghost all = mutation_nodes(a);
        let ghost es = mutation_edges(a.len() as int, mode);
        proof {
            assert(all.take(m)[f] == all[f]);
            assert(all.take(m)[t] == all[t]);
            assert(g.nodes.contains(all[f]));
            assert(g.nodes.contains(all[t]));
            lemma_contains_has_id(g.nodes, from@);
            lemma_contains_has_id(g.nodes, to@);
            assert forall|q: int| 0 <= q < g.nodes.len() implies (#[trigger] g.nodes[q]).state is Pending by {
                assert(g.nodes.contains(g.nodes[q]));
                let p = choose|p: int| 0 <= p < m && #[trigger] all.take(m)[p] == g.nodes[q];
                if p < a.len() + 5int {
                    lemma_mutation_nodes(a, p, a.len() + 5int);
                } else {
                    lemma_mutation_nodes(a, 0, p);
                }
            }
            assert forall|q: int| 0 <= q < g.edges.len() implies (#[trigger] g.edges[q]).from != to@ by {
                assert(g.edges[q] == es[q]);
                lemma_mutation_edges_fresh(a.len() as int, mode, q, k);
            }
            if has_edge_pair(g.edges, from@, to@) {
                let q = choose|q: int| 0 <= q < g.edges.len() && (#[trigger] g.edges[q]).from == from@ && g.edges[q].to == to@;
                assert(g.edges[q] == es[q]);
                lemma_mutation_edges_fresh(a.len() as int, mode, q, k);
            }
            if k > 0 {
                lemma_mutation_edges_fresh(a.len() as int, mode, 0, k);
            } else {
                lemma_mutation_edges_fresh(a.len() as int, mode, 0, 1);
            }
        }
        self.add_fresh_edge(from, to, kind);
        proof {
            assert(es.take(k + 1) =~= es.take(k).push(es[k]));
        }
    }
}

/// Sequential handoff chains the proposals: in a mutation graph compiled
/// with `SequentialHandoff`, each proposal after the first consumes the one
/// before it, so it is never ready before that proposal succeeded.
pub proof fn law_sequential_mutation_chains_proposals(g: ExecutionGraphView, n: int, i: int)
    requires
        g.edges == mutation_edges(n, CollaborationMode::SequentialHandoff),
        crate::execution_graph::spec::ids_sorted(g.nodes),
        0 < i < n,
    ensures
        g.edges.contains(
            ExecutionEdgeView { from: "propose-"@ + padded3((i - 1) as nat), to: "propose-"@ + padded3(i as nat), kind: ExecutionEdgeKind::Consumes },
        ),
        crate::execution_graph::spec::is_ready_id(g, "propose-"@ + padded3(i as nat)) ==> state_of(
            g.nodes,
            "propose-"@ + padded3((i - 1) as nat),
        ) is Succeeded,
{
    let e = g.edges[1 + i];
    assert(e == edge(propose_id(i - 1), propose_id(i), ExecutionEdgeKind::Consumes));
    if crate::execution_graph::spec::is_ready_id(g, propose_id(i)) {
        let q = choose|q: int|
            0 <= q < g.nodes.len() && (#[trigger] g.nodes[q]).id == propose_id(i)
                && crate::execution_graph::spec::node_ready(g, g.nodes[q]);
        assert(crate::execution_graph::spec::edge_satisfied(g.nodes, g.edges[1 + i]));
        let j = choose|j: int|
            0 <= j < g.nodes.len() && (#[trigger] g.nodes[j]).id == e.from && g.nodes[j].state is Succeeded;
        lemma_state_of_lookup(g.nodes, e.from);
    }
}

/// Sequential handoff chains the work nodes of an organization graph the
/// same way: each work node after the first consumes the one before it.
pub proof fn law_sequential_work_chain(n: int, i: int)
    requires
        0 < i < n,
    ensures
        org_edges(n, CollaborationMode::SequentialHandoff).contains(
            ExecutionEdgeView { from: "work-"@ + padded3((i - 1) as nat), to: "work-"@ + padded3(i as nat), kind: ExecutionEdgeKind::Consumes },
        ),
        !org_edges(n, CollaborationMode::Independent).contains(
            ExecutionEdgeView { from: "work-"@ + padded3((i - 1) as nat), to: "work-"@ + padded3(i as nat), kind: ExecutionEdgeKind::Consumes },
        ),
{
    let es = org_edges(n, CollaborationMode::SequentialHandoff);
    assert(es[i - 1] == edge(work_id(i - 1), work_id(i), ExecutionEdgeKind::Consumes));
    let ind = org_edges(n, CollaborationMode::Independent);
    let want = edge(work_id(i - 1), work_id(i), ExecutionEdgeKind::Consumes);
    if ind.contains(want) {
        let k = choose|k: int| 0 <= k < ind.len() && ind[k] == want;
        assert(handoff_edges(n, CollaborationMode::Independent) =~= Seq::<ExecutionEdgeView>::empty());
        if k < n {
            assert(ind[k] == edge(work_id(k), decide_id(), ExecutionEdgeKind::Consumes));
            lemma_work_ids(i, i + 1);
        } else {
            assert(ind[k] == edge(decide_id(), finalize_id(), ExecutionEdgeKind::Requires));
        }
    }
}

/// Independent proposals all hang off the claim node: each is ready as
/// soon as the claims are taken, and none consumes another.
pub proof fn law_independent_proposals_follow_claims(n: int, i: int)
    requires
        0 <= i < n,
    ensures
        mutation_edges(n, CollaborationMode::Independent).contains(
            ExecutionEdgeView { from: "claim-000"@, to: "propose-"@ + padded3(i as nat), kind: ExecutionEdgeKind::Consumes },
        ),
        mutation_edges(n, CollaborationMode::SequentialHandoff).contains(
            ExecutionEdgeView { from: "claim-000"@, to: "propose-"@ + padded3(0), kind: ExecutionEdgeKind::Consumes },
        ),
{
    assert(mutation_edges(n, CollaborationMode::Independent)[1 + i] == edge(
        claim_id(),
        propose_id(i),
        ExecutionEdgeKind::Consumes,
    ));
    assert(mutation_edges(n, CollaborationMode::SequentialHandoff)[1] == edge(
        claim_id(),
        propose_id(0),
        ExecutionEdgeKind::Consumes,
    ));
}

} // verus!
