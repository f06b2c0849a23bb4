//! Resolving a node whose effects became unknown, from external evidence.
use vstd::prelude::*;
use crate::text::{blank, is_blank};
use super::ExecutionGraph;
use super::types::{
    strs_view, ExecutionArtifact, ExecutionGraphError, ExecutionNodeState,
    ExecutionReconciliation, ExecutionReconciliationDecision, ExecutionReconciliationView,
};
use super::spec::{
    after_set, artifact_rejected, artifacts_acceptable, artifacts_merged, artifacts_view,
    decision_target, evidence_usable, graph_faithful, has_id, idx_of, reconciliation_matches,
    reconciliations_view, state_of, ExecutionGraphView,
};
use super::lemmas::lemma_state_of_lookup;
use super::lifecycle::lemma_after_set_wf;
use super::artifacts::{first_rejected, rejection_error};

verus! {

/// Every condition under which a reconciliation is accepted.
pub open spec fn reconcile_ok(
    g: ExecutionGraphView,
    node_id: Seq<char>,
    decision: ExecutionReconciliationDecision,
    reason: Seq<char>,
    evidence: Seq<Seq<char>>,
    arts: Seq<super::types::ExecutionArtifactView>,
) -> bool {
    &&& !blank(reason)
    &&& evidence_usable(evidence)
    &&& has_id(g.nodes, node_id)
    &&& state_of(g.nodes, node_id) is RecoveryRequired
    &&& decision is ConfirmedFailed ==> arts.len() == 0
    &&& decision is ConfirmedSucceeded ==> artifacts_acceptable(g, node_id, arts)
}

pub(crate) fn evidence_is_usable(evidence_refs: &Vec<String>) -> (b: bool)
    ensures
        b == evidence_usable(strs_view(evidence_refs@)),
{
    if evidence_refs.len() == 0 {
        return false;
    }
    let mut i: usize = 0;
    while i < evidence_refs.len()
        invariant
            i <= evidence_refs@.len(),
            evidence_refs@.len() > 0,
            forall|j: int| 0 <= j < i ==> !blank(#[trigger] strs_view(evidence_refs@)[j]),
        decreases evidence_refs.len() - i,
    {
        if is_blank(evidence_refs[i].as_str()) {
            proof {
                assert(strs_view(evidence_refs@)[i as int] == evidence_refs@[i as int]@);
            }
            return false;
        }
        i += 1;
    }
    true
}

impl ExecutionGraph {
    /// Resolves a recovery-required node from external evidence, without
    /// running it again, and records the reconciliation.
    pub fn reconcile_node(
        &mut self,
        node_id: &str,
        decision: ExecutionReconciliationDecision,
        reason: &str,
        evidence_refs: Vec<String>,
        artifacts: Vec<ExecutionArtifact>,
    ) -> (r: Result<(), ExecutionGraphError>)
        requires
            old(self).wf(),
            old(self)@.next_sequence < u64::MAX,
        ensures
            final(self).wf(),
            old(self).faithful() ==> final(self).faithful(),
            r is Ok <==> reconcile_ok(
                old(self)@,
                node_id@,
                decision,
                reason@,
                strs_view(evidence_refs@),
                artifacts_view(artifacts@),
            ),
            r is Ok ==> final(self)@ == (ExecutionGraphView {
                artifacts: final(self)@.artifacts,
                reconciliations: old(self)@.reconciliations.push(
                    ExecutionReconciliationView {
                        node_id: node_id@,
                        decision,
                        reason: reason@,
                        evidence_refs: strs_view(evidence_refs@),
                        transition_sequence: old(self)@.next_sequence as u64,
                    },
                ),
                ..after_set(
                    old(self)@,
                    idx_of(old(self)@.nodes, node_id@),
                    decision_target(decision),
                    Some(reason@),
                )
            }),
            r is Ok ==> artifacts_merged(
                old(self)@.artifacts,
                artifacts_view(artifacts@),
                final(self)@.artifacts,
            ),
            r is Err ==> final(self)@ == old(self)@,
            blank(reason@) ==> r == Err::<(), ExecutionGraphError>(
                ExecutionGraphError::EmptyReconciliationReason,
            ),
            !blank(reason@) && !evidence_usable(strs_view(evidence_refs@)) ==> r == Err::<
                (),
                ExecutionGraphError,
            >(ExecutionGraphError::MissingReconciliationEvidence),
            !blank(reason@) && evidence_usable(strs_view(evidence_refs@)) && !has_id(
                old(self)@.nodes,
                node_id@,
            ) ==> (r matches Err(ExecutionGraphError::MissingNode(s)) && s@ == node_id@),
            !blank(reason@) && evidence_usable(strs_view(evidence_refs@)) && has_id(
                old(self)@.nodes,
                node_id@,
            ) && !(state_of(old(self)@.nodes, node_id@) is RecoveryRequired) ==> (r matches Err(
                ExecutionGraphError::NodeNotRecoveryRequired(s),
            ) && s@ == node_id@),
            !blank(reason@) && evidence_usable(strs_view(evidence_refs@)) && has_id(
                old(self)@.nodes,
                node_id@,
            ) && state_of(old(self)@.nodes, node_id@) is RecoveryRequired && decision is ConfirmedFailed
                && artifacts@.len() > 0 ==> r == Err::<(), ExecutionGraphError>(
                ExecutionGraphError::FailedReconciliationHasArtifacts,
            ),
            forall|j: int|
                !blank(reason@) && evidence_usable(strs_view(evidence_refs@)) && has_id(
                    old(self)@.nodes,
                    node_id@,
                ) && state_of(old(self)@.nodes, node_id@) is RecoveryRequired
                    && decision is ConfirmedSucceeded && #[trigger] first_rejected(
                    old(self)@,
                    node_id@,
                    artifacts_view(artifacts@),
                    j,
                ) ==> (r matches Err(e) && rejection_error(node_id@, artifacts_view(artifacts@)[j], e)),
    {
        if is_blank(reason) {
            return Err(ExecutionGraphError::EmptyReconciliationReason);
        }
        if !evidence_is_usable(&evidence_refs) {
            return Err(ExecutionGraphError::MissingReconciliationEvidence);
        }
        let found = self.find_node(node_id);
        proof {
            lemma_state_of_lookup(self@.nodes, node_id@);
        }
        let i = match found {
            None => {
                return Err(ExecutionGraphError::MissingNode(node_id.to_owned()));
            },
            Some(i) => i,
        };
        if self.nodes[i].state != ExecutionNodeState::RecoveryRequired {
            return Err(ExecutionGraphError::NodeNotRecoveryRequired(node_id.to_owned()));
        }
        let failed = match decision {
            ExecutionReconciliationDecision::ConfirmedFailed => true,
            ExecutionReconciliationDecision::ConfirmedSucceeded => false,
        };
        if failed && artifacts.len() > 0 {
            return Err(ExecutionGraphError::FailedReconciliationHasArtifacts);
        }
        if !failed {
            let v = self.validate_artifacts(node_id, &artifacts);
            if v.is_err() {
                return v;
            }
        }
        let to = if failed {
            ExecutionNodeState::Failed
        } else {
            ExecutionNodeState::Succeeded
        };
        let ghost g0 = self@;
        let ghost ev = strs_view(evidence_refs@);
        let transition_sequence = self.next_sequence;
        proof {
            assert(g0.nodes[i as int].id == node_id@);
            super::lifecycle::lemma_idx_of(g0.nodes, i as int);
            lemma_after_set_wf(g0, i as int, to, Some(reason@));
        }
        let r = self.set_state(
            node_id,
            ExecutionNodeState::RecoveryRequired,
            to,
            Some(reason.to_owned()),
        );
        proof {
            assert(r is Ok);
        }
        let rec = ExecutionReconciliation {
            node_id: node_id.to_owned(),
            decision,
            reason: reason.to_owned(),
            evidence_refs,
            transition_sequence,
        };
        let ghost rv = rec@;
        let ghost g1 = self@;
        self.reconciliations.push(rec);
        proof {
            let g2 = self@;
            assert(g2.reconciliations =~= g1.reconciliations.push(rv));
            assert(g2 =~= ExecutionGraphView { reconciliations: g1.reconciliations.push(rv), ..g1 });
            let ts = g2.transitions;
            let n = g0.transitions.len();
            assert(ts[n as int] == g1.transitions.last());
            assert(reconciliation_matches(ts, rv));
            assert forall|a: int| 0 <= a < g2.reconciliations.len() implies reconciliation_matches(
                ts,
                #[trigger] g2.reconciliations[a],
            ) by {
                if a < g1.reconciliations.len() {
                    let x = g1.reconciliations[a];
                    assert(g2.reconciliations[a] == x);
                    assert(reconciliation_matches(g0.transitions, x));
                    assert(ts[x.transition_sequence - 1] == g0.transitions[x.transition_sequence - 1]);
                }
            }
            assert forall|a: int, b: int| 0 <= a < b < g2.reconciliations.len() implies (#[trigger] g2.reconciliations[a]).transition_sequence
                != (#[trigger] g2.reconciliations[b]).transition_sequence by {
                assert(g2.reconciliations[a] == g0.reconciliations[a]);
                assert(reconciliation_matches(g0.transitions, g0.reconciliations[a]));
                if b < g1.reconciliations.len() {
                    assert(g2.reconciliations[b] == g0.reconciliations[b]);
                }
            }
            assert forall|k: int| 0 <= k < ts.len() && (#[trigger] ts[k]).from is RecoveryRequired implies exists|a: int|
                0 <= a < g2.reconciliations.len() && (#[trigger] g2.reconciliations[a]).transition_sequence == k + 1 by {
                if k < n {
                    assert(ts[k] == g0.transitions[k]);
                    let a = choose|a: int|
                        0 <= a < g0.reconciliations.len() && (#[trigger] g0.reconciliations[a]).transition_sequence == k + 1;
                    assert(g2.reconciliations[a] == g0.reconciliations[a]);
                } else {
                    assert(g2.reconciliations[g0.reconciliations.len() as int] == rv);
                }
            }
            assert(super::spec::graph_wf(g2));
            if !failed {
                assert forall|j: int|
                    0 <= j < artifacts@.len() implies has_id(g2.nodes, (#[trigger] artifacts@[j])@.producer_node)
                        && state_of(g2.nodes, artifacts@[j]@.producer_node) is Succeeded by {
                    assert(artifacts_view(artifacts@)[j] == artifacts@[j]@);
                    assert(!artifact_rejected(g0, node_id@, artifacts_view(artifacts@)[j]));
                }
            }
        }
        self.record_artifacts(artifacts);
        Ok(())
    }
}

} // verus!
