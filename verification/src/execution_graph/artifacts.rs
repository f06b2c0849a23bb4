//! Artifacts: validation before a node completes and recording after.
use vstd::prelude::*;
use crate::text::{seq_lt, str_eq, str_lt};
use super::ExecutionGraph;
use super::types::{ExecutionArtifact, ExecutionArtifactView, ExecutionGraphError, ExecutionNodeState};
use super::spec::{
    after_set, artifact_keys, artifact_rejected, artifacts_acceptable, artifacts_merged,
    artifacts_view, has_artifact_id, has_id, idx_of, state_of, ExecutionGraphView,
};
use super::lemmas::{lemma_keys_insert, lemma_keys_scan, lemma_keys_distinct, lemma_state_of_lookup};
use super::lifecycle::{lemma_after_set_wf, scheduler_step};

verus! {

/// `j` is the first offered artifact that is rejected.
pub open spec fn first_rejected(
    g: ExecutionGraphView,
    node_id: Seq<char>,
    arts: Seq<ExecutionArtifactView>,
    j: int,
) -> bool {
    &&& 0 <= j < arts.len()
    &&& artifact_rejected(g, node_id, arts[j])
    &&& forall|l: int| 0 <= l < j ==> !artifact_rejected(g, node_id, #[trigger] arts[l])
}

/// The error reported for the first rejected artifact.
pub open spec fn rejection_error(
    node_id: Seq<char>,
    a: ExecutionArtifactView,
    e: ExecutionGraphError,
) -> bool {
    if a.producer_node != node_id {
        e matches ExecutionGraphError::ArtifactProducerMismatch { artifact_id, expected, actual }
            && artifact_id@ == a.id && expected@ == node_id && actual@ == a.producer_node
    } else {
        e matches ExecutionGraphError::DuplicateArtifact(s) && s@ == a.id
    }
}

impl ExecutionGraph {
    fn has_artifact(&self, id: &str) -> (b: bool)
        requires
            self.wf(),
        ensures
            b == has_artifact_id(self@.artifacts, id@),
    {
        let mut i: usize = 0;
        while i < self.artifacts.len()
            invariant
                i <= self.artifacts@.len(),
                self@.artifacts == artifacts_view(self.artifacts@),
                forall|j: int| 0 <= j < i ==> self@.artifacts[j].id != id@,
            decreases self.artifacts.len() - i,
        {
            if str_eq(self.artifacts[i].id.as_str(), id) {
                proof {
                    assert(self@.artifacts[i as int].id == id@);
                }
                return true;
            }
            i += 1;
        }
        false
    }

    /// Checks artifacts offered for a node: each must be produced by it and
    /// carry an identifier not yet recorded.
    pub(crate) fn validate_artifacts(&self, node_id: &str, artifacts: &Vec<ExecutionArtifact>) -> (r: Result<
        (),
        ExecutionGraphError,
    >)
        requires
            self.wf(),
        ensures
            r is Ok <==> artifacts_acceptable(self@, node_id@, artifacts_view(artifacts@)),
            r matches Err(e) ==> e is ArtifactProducerMismatch || e is DuplicateArtifact,
            forall|j: int| #[trigger]
                first_rejected(self@, node_id@, artifacts_view(artifacts@), j) ==> (r matches Err(e)
                    && rejection_error(node_id@, artifacts_view(artifacts@)[j], e)),
    {
        let ghost arts = artifacts_view(artifacts@);
        let mut i: usize = 0;
        while i < artifacts.len()
            invariant
                self.wf(),
                i <= artifacts@.len(),
                arts == artifacts_view(artifacts@),
                forall|l: int| 0 <= l < i ==> !artifact_rejected(self@, node_id@, #[trigger] arts[l]),
            decreases artifacts.len() - i,
        {
            let a = &artifacts[i];
            proof {
                assert(arts[i as int] == a@);
            }
            if !str_eq(a.producer_node.as_str(), node_id) {
                proof {
                    assert(first_rejected(self@, node_id@, arts, i as int));
                    assert forall|q: int| #[trigger] first_rejected(self@, node_id@, arts, q) implies q == i by {
                        if q > i {
                            assert(artifact_rejected(self@, node_id@, arts[i as int]));
                        }
                    }
                }
                return Err(
                    ExecutionGraphError::ArtifactProducerMismatch {
                        artifact_id: a.id.clone(),
                        expected: node_id.to_owned(),
                        actual: a.producer_node.clone(),
                    },
                );
            }
            if self.has_artifact(a.id.as_str()) {
                proof {
                    assert(first_rejected(self@, node_id@, arts, i as int));
                    assert forall|q: int| #[trigger] first_rejected(self@, node_id@, arts, q) implies q == i by {
                        if q > i {
                            assert(artifact_rejected(self@, node_id@, arts[i as int]));
                        }
                    }
                }
                return Err(ExecutionGraphError::DuplicateArtifact(a.id.clone()));
            }
            i += 1;
        }
        proof {
            assert forall|q: int| !#[trigger] first_rejected(self@, node_id@, arts, q) by {}
        }
        Ok(())
    }

    /// Records artifacts whose producers succeeded; a later artifact with an
    /// identifier replaces an earlier one.
    pub(crate) fn record_artifacts(&mut self, artifacts: Vec<ExecutionArtifact>)
        requires
            old(self).wf(),
            forall|j: int|
                0 <= j < artifacts@.len() ==> has_id(old(self)@.nodes, (#[trigger] artifacts@[j])@.producer_node)
                    && state_of(old(self)@.nodes, artifacts@[j]@.producer_node) is Succeeded,
        ensures
            final(self).wf(),
            old(self).faithful() ==> final(self).faithful(),
            final(self)@ == (ExecutionGraphView { artifacts: final(self)@.artifacts, ..old(self)@ }),
            artifacts_merged(old(self)@.artifacts, artifacts_view(artifacts@), final(self)@.artifacts),
    {
        let ghost old_g = self@;
        let ghost news = artifacts_view(artifacts@);
        let mut i: usize = 0;
        proof {
            assert(news.take(0) =~= Seq::<ExecutionArtifactView>::empty());
            assert forall|a: ExecutionArtifactView| #[trigger] self@.artifacts.contains(a) implies !has_artifact_id(
                news.take(0),
                a.id,
            ) by {}
        }
        while i < artifacts.len()
            invariant
                self.wf(),
                super::spec::graph_faithful(old_g) ==> self.faithful(),
                i <= artifacts@.len(),
                news == artifacts_view(artifacts@),
                self@ == (ExecutionGraphView { artifacts: self@.artifacts, ..old_g }),
                forall|j: int|
                    0 <= j < artifacts@.len() ==> has_id(old_g.nodes, (#[trigger] artifacts@[j])@.producer_node)
                        && state_of(old_g.nodes, artifacts@[j]@.producer_node) is Succeeded,
                artifacts_merged(old_g.artifacts, news.take(i as int), self@.artifacts),
            decreases artifacts.len() - i,
        {
            let a = artifacts[i].clone();
            let ghost av = a@;
            proof {
                assert(news[i as int] == av);
                assert(news.take(i + 1) =~= news.take(i as int).push(av));
            }
            let ghost cur = self@.artifacts;
            let ghost ks = artifact_keys(cur);
            proof {
                assert(forall|q: int|
                    0 <= q < cur.len() ==> has_id(self@.nodes, (#[trigger] cur[q]).producer_node)
                        && state_of(self@.nodes, cur[q].producer_node) is Succeeded);
            }
            let mut p: usize = 0;
            while p < self.artifacts.len() && str_lt(self.artifacts[p].id.as_str(), a.id.as_str())
                invariant
                    p <= self.artifacts@.len(),
                    self@.artifacts == artifacts_view(self.artifacts@),
                    cur == self@.artifacts,
                    ks == artifact_keys(cur),
                    av == a@,
                    forall|j: int| 0 <= j < p ==> seq_lt(#[trigger] ks[j], av.id),
                decreases self.artifacts.len() - p,
            {
                p += 1;
            }
            proof {
                lemma_keys_scan(ks, p as int, av.id);
            }
            let replace = p < self.artifacts.len() && str_eq(self.artifacts[p].id.as_str(), a.id.as_str());
            if replace {
                self.artifacts.set(p, a);
                proof {
                    assert(self@.artifacts =~= cur.update(p as int, av));
                    assert(artifact_keys(self@.artifacts) =~= ks);
                }
            } else {
                self.artifacts.insert(p, a);
                proof {
                    assert(self@.artifacts =~= cur.insert(p as int, av));
                    assert(artifact_keys(self@.artifacts) =~= ks.insert(p as int, av.id));
                    lemma_keys_insert(ks, p as int, av.id);
                }
            }
            proof {
                let nw = self@.artifacts;
                // membership after the update
                assert forall|x: ExecutionArtifactView| nw.contains(x) <==> (x == av || (cur.contains(x) && x.id != av.id)) by {
                    if replace {
                        if nw.contains(x) && x != av {
                            let q = choose|q: int| 0 <= q < nw.len() && nw[q] == x;
                            assert(q != p);
                            assert(cur[q] == x);
                            assert(ks[q] == x.id);
                            lemma_keys_distinct(ks, q, p as int);
                        }
                        if cur.contains(x) && x.id != av.id {
                            let q = choose|q: int| 0 <= q < cur.len() && cur[q] == x;
                            assert(ks[q] == x.id);
                            assert(q != p);
                            assert(nw[q] == x);
                        }
                        if x == av {
                            assert(nw[p as int] == av);
                        }
                    } else {
                        if nw.contains(x) && x != av {
                            let q = choose|q: int| 0 <= q < nw.len() && nw[q] == x;
                            if q < p {
                                assert(cur[q] == x);
                                assert(ks[q] == x.id);
                            } else {
                                assert(q > p);
                                assert(cur[q - 1] == x);
                                assert(ks[q - 1] == x.id);
                            }
                        }
                        if cur.contains(x) && x.id != av.id {
                            let q = choose|q: int| 0 <= q < cur.len() && cur[q] == x;
                            if q < p {
                                assert(nw[q] == x);
                            } else {
                                assert(nw[q + 1] == x);
                            }
                        }
                        if x == av {
                            assert(nw[p as int] == av);
                        }
                    }
                }
                let n0 = news.take(i as int);
                let n1 = news.take(i + 1);
                assert forall|x: ExecutionArtifactView| #[trigger] nw.contains(x) <==> ((old_g.artifacts.contains(x)
                    && !has_artifact_id(n1, x.id)) || exists|j: int|
                    0 <= j < n1.len() && n1[j] == x && forall|l: int|
                        j < l < n1.len() ==> (#[trigger] n1[l]).id != x.id) by {
                    assert(n1[i as int] == av);
                    if x.id == av.id && x != av {
                        assert(has_artifact_id(n1, x.id));
                        if exists|j: int| 0 <= j < n1.len() && n1[j] == x && forall|l: int|
                            j < l < n1.len() ==> (#[trigger] n1[l]).id != x.id {
                            let j = choose|j: int| 0 <= j < n1.len() && n1[j] == x && forall|l: int|
                                j < l < n1.len() ==> (#[trigger] n1[l]).id != x.id;
                            assert(j != i);
                            assert(n1[i as int].id == x.id);
                        }
                    } else if x.id != av.id {
                        assert(has_artifact_id(n1, x.id) == has_artifact_id(n0, x.id)) by {
                            if has_artifact_id(n1, x.id) {
                                let q = choose|q: int| 0 <= q < n1.len() && (#[trigger] n1[q]).id == x.id;
                                assert(q != i);
                                assert(n0[q] == n1[q]);
                            }
                            if has_artifact_id(n0, x.id) {
                                let q = choose|q: int| 0 <= q < n0.len() && (#[trigger] n0[q]).id == x.id;
                                assert(n1[q] == n0[q]);
                            }
                        }
                        let e1 = exists|j: int| 0 <= j < n1.len() && n1[j] == x && forall|l: int|
                            j < l < n1.len() ==> (#[trigger] n1[l]).id != x.id;
                        let e0 = exists|j: int| 0 <= j < n0.len() && n0[j] == x && forall|l: int|
                            j < l < n0.len() ==> (#[trigger] n0[l]).id != x.id;
                        if e1 {
                            let j = choose|j: int| 0 <= j < n1.len() && n1[j] == x && forall|l: int|
                                j < l < n1.len() ==> (#[trigger] n1[l]).id != x.id;
                            assert(j != i);
                            assert(n0[j] == x);
                            assert forall|l: int| j < l < n0.len() implies (#[trigger] n0[l]).id != x.id by {
                                assert(n1[l] == n0[l]);
                            }
                        }
                        if e0 {
                            let j = choose|j: int| 0 <= j < n0.len() && n0[j] == x && forall|l: int|
                                j < l < n0.len() ==> (#[trigger] n0[l]).id != x.id;
                            assert(n1[j] == x);
                            assert forall|l: int| j < l < n1.len() implies (#[trigger] n1[l]).id != x.id by {
                                if l < i {
                                    assert(n1[l] == n0[l]);
                                }
                            }
                        }
                    } else {
                        assert(x == av);
                        assert(forall|l: int| i < l < n1.len() ==> (#[trigger] n1[l]).id != x.id);
                    }
                }
                // well-formedness of the new artifact list
                assert forall|j: int| 0 <= j < nw.len() implies has_id(self@.nodes, (#[trigger] nw[j]).producer_node)
                    && state_of(self@.nodes, nw[j].producer_node) is Succeeded by {
                    let x = nw[j];
                    assert(nw.contains(x));
                    if x == av {
                        assert(artifacts@[i as int]@ == av);
                    } else {
                        let q = choose|q: int| 0 <= q < cur.len() && cur[q] == x;
                    }
                }
            }
            i += 1;
        }
        proof {
            assert(news.take(artifacts@.len() as int) =~= news);
        }
    }
}


impl ExecutionGraph {
    /// Completes a running node and records the artifacts it produced.
    pub fn complete_node(&mut self, node_id: &str, artifacts: Vec<ExecutionArtifact>) -> (r: Result<
        (),
        ExecutionGraphError,
    >)
        requires
            old(self).wf(),
            old(self)@.next_sequence < u64::MAX,
        ensures
            final(self).wf(),
            old(self).faithful() ==> final(self).faithful(),
            r is Ok <==> artifacts_acceptable(old(self)@, node_id@, artifacts_view(artifacts@)) && has_id(
                old(self)@.nodes,
                node_id@,
            ) && state_of(old(self)@.nodes, node_id@) is Running,
            r is Ok ==> final(self)@ == (ExecutionGraphView {
                artifacts: final(self)@.artifacts,
                ..after_set(
                    old(self)@,
                    idx_of(old(self)@.nodes, node_id@),
                    ExecutionNodeState::Succeeded,
                    None,
                )
            }),
            r is Ok ==> artifacts_merged(
                old(self)@.artifacts,
                artifacts_view(artifacts@),
                final(self)@.artifacts,
            ),
            r is Err ==> final(self)@ == old(self)@,
            forall|j: int| #[trigger]
                first_rejected(old(self)@, node_id@, artifacts_view(artifacts@), j) ==> (r matches Err(e)
                    && rejection_error(node_id@, artifacts_view(artifacts@)[j], e)),
            artifacts_acceptable(old(self)@, node_id@, artifacts_view(artifacts@)) && !has_id(
                old(self)@.nodes,
                node_id@,
            ) ==> (r matches Err(ExecutionGraphError::MissingNode(s)) && s@ == node_id@),
            artifacts_acceptable(old(self)@, node_id@, artifacts_view(artifacts@)) && has_id(
                old(self)@.nodes,
                node_id@,
            ) && !(state_of(old(self)@.nodes, node_id@) is Running) ==> (r matches Err(
                ExecutionGraphError::InvalidTransition { node_id: n, from: f, to: t },
            ) && n@ == node_id@ && f == state_of(old(self)@.nodes, node_id@) && t is Succeeded),
    {
        let v = self.validate_artifacts(node_id, &artifacts);
        if v.is_err() {
            return v;
        }
        let ghost g0 = self@;
        let t = self.transition(node_id, ExecutionNodeState::Succeeded, None);
        if t.is_err() {
            return t;
        }
        proof {
            let i = idx_of(g0.nodes, node_id@);
            lemma_state_of_lookup(g0.nodes, node_id@);
            assert(g0.nodes[i].id == node_id@);
            lemma_after_set_wf(g0, i, ExecutionNodeState::Succeeded, None);
            assert forall|j: int|
                0 <= j < artifacts@.len() implies has_id(self@.nodes, (#[trigger] artifacts@[j])@.producer_node)
                    && state_of(self@.nodes, artifacts@[j]@.producer_node) is Succeeded by {
                assert(artifacts_view(artifacts@)[j] == artifacts@[j]@);
                assert(!artifact_rejected(g0, node_id@, artifacts_view(artifacts@)[j]));
            }
        }
        self.record_artifacts(artifacts);
        Ok(())
    }
}

} // verus!
