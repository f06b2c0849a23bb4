//! Effect intents: side-effect expectations fixed before a node is admitted.
use vstd::prelude::*;
use crate::text::{blank, is_blank, seq_lt, str_eq, str_lt};
use super::ExecutionGraph;
use super::types::{
    ExecutionEffectExpectation, ExecutionEffectIntent, ExecutionEffectIntentView,
    ExecutionGraphError, ExecutionNodeState,
};
use super::spec::{
    expectation_valid, has_id, intent_keys, intents_view, state_of, ExecutionGraphView,
};
use super::lemmas::{lemma_keys_insert, lemma_keys_scan, lemma_state_of_lookup};

verus! {

pub open spec fn invalid_expectation_message() -> Seq<char> {
    "effect intent contains an invalid expectation"@
}

/// Checks that an expectation names what it expects.
pub fn validate_effect_expectation(expectation: &ExecutionEffectExpectation) -> (r: Result<
    (),
    ExecutionGraphError,
>)
    ensures
        r is Ok <==> expectation_valid(expectation@),
        r is Err ==> (r matches Err(ExecutionGraphError::InvalidSnapshot(s)) && s@
            == invalid_expectation_message()),
{
    let invalid = match expectation {
        ExecutionEffectExpectation::WorkspaceFile { path, before_hash, after_hash, .. } => {
            is_blank(path.as_str()) || is_blank(before_hash.as_str()) || is_blank(after_hash.as_str())
        },
        ExecutionEffectExpectation::FileClaim { agent_id, file_path, operation, conv_id, .. } => {
            is_blank(agent_id.as_str()) || is_blank(file_path.as_str()) || is_blank(operation.as_str())
                || *conv_id <= 0
        },
    };
    if invalid {
        return Err(
            ExecutionGraphError::InvalidSnapshot(
                "effect intent contains an invalid expectation".to_owned(),
            ),
        );
    }
    Ok(())
}

pub open spec fn has_intent_id(xs: Seq<ExecutionEffectIntentView>, id: Seq<char>) -> bool {
    exists|i: int| 0 <= i < xs.len() && (#[trigger] xs[i]).id == id
}

/// Intent `j` of a batch for `node_id` is acceptable.
pub open spec fn intent_ok(
    g: ExecutionGraphView,
    node_id: Seq<char>,
    ins: Seq<ExecutionEffectIntentView>,
    j: int,
) -> bool {
    &&& !blank(ins[j].id)
    &&& ins[j].node_id == node_id
    &&& !(exists|l: int| 0 <= l < j && (#[trigger] ins[l]).id == ins[j].id)
    &&& !has_intent_id(g.effect_intents, ins[j].id)
    &&& expectation_valid(ins[j].expectation)
}

pub open spec fn intents_acceptable(
    g: ExecutionGraphView,
    node_id: Seq<char>,
    ins: Seq<ExecutionEffectIntentView>,
) -> bool {
    &&& has_id(g.nodes, node_id)
    &&& state_of(g.nodes, node_id) is Pending
    &&& forall|j: int| 0 <= j < ins.len() ==> intent_ok(g, node_id, ins, j)
}

/// The error reported for the first unacceptable intent.
pub open spec fn intent_error(
    g: ExecutionGraphView,
    node_id: Seq<char>,
    ins: Seq<ExecutionEffectIntentView>,
    j: int,
    e: ExecutionGraphError,
) -> bool {
    if blank(ins[j].id) {
        e is EmptyEffectIntentId
    } else if ins[j].node_id != node_id {
        e matches ExecutionGraphError::InvalidSnapshot(s) && s@ == "effect intent '"@ + ins[j].id
            + "' belongs to node '"@ + ins[j].node_id + "' instead of '"@ + node_id + "'"@
    } else if (exists|l: int| 0 <= l < j && (#[trigger] ins[l]).id == ins[j].id) || has_intent_id(
        g.effect_intents,
        ins[j].id,
    ) {
        e matches ExecutionGraphError::DuplicateEffectIntent(s) && s@ == ins[j].id
    } else {
        e matches ExecutionGraphError::InvalidSnapshot(s) && s@ == invalid_expectation_message()
    }
}

/// Identifiers of the intents, among the first `n`, that belong to a node.
pub open spec fn intents_for_prefix(
    xs: Seq<ExecutionEffectIntentView>,
    node_id: Seq<char>,
    n: int,
) -> Seq<ExecutionEffectIntentView>
    decreases n,
{
    if n <= 0 {
        Seq::empty()
    } else {
        let r = intents_for_prefix(xs, node_id, n - 1);
        if xs[n - 1].node_id == node_id {
            r.push(xs[n - 1])
        } else {
            r
        }
    }
}

proof fn lemma_first_bad_intent(
    g: ExecutionGraphView,
    node_id: Seq<char>,
    ins: Seq<ExecutionEffectIntentView>,
    c: int,
)
    requires
        0 <= c < ins.len(),
        !intent_ok(g, node_id, ins, c),
        forall|l: int| 0 <= l < c ==> #[trigger] intent_ok(g, node_id, ins, l),
    ensures
        forall|j: int|
            0 <= j < ins.len() && !intent_ok(g, node_id, ins, j) && (forall|l: int|
                0 <= l < j ==> #[trigger] intent_ok(g, node_id, ins, l)) ==> j == c,
{
    assert forall|j: int|
        0 <= j < ins.len() && !intent_ok(g, node_id, ins, j) && (forall|l: int|
            0 <= l < j ==> #[trigger] intent_ok(g, node_id, ins, l)) implies j == c by {
        if j > c {
            assert(intent_ok(g, node_id, ins, c));
        }
    }
}

impl ExecutionGraph {
    fn has_intent(&self, id: &str) -> (b: bool)
        requires
            self.wf(),
        ensures
            b == has_intent_id(self@.effect_intents, id@),
    {
        let mut i: usize = 0;
        while i < self.effect_intents.len()
            invariant
                i <= self.effect_intents@.len(),
                self@.effect_intents == intents_view(self.effect_intents@),
                forall|j: int| 0 <= j < i ==> self@.effect_intents[j].id != id@,
            decreases self.effect_intents.len() - i,
        {
            if str_eq(self.effect_intents[i].id.as_str(), id) {
                proof {
                    assert(self@.effect_intents[i as int].id == id@);
                }
                return true;
            }
            i += 1;
        }
        false
    }

    /// Persists the side-effect expectations of a node before it starts.
    pub fn record_effect_intents(&mut self, node_id: &str, intents: Vec<ExecutionEffectIntent>) -> (r:
        Result<(), ExecutionGraphError>)
        requires
            old(self).wf(),
        ensures
            final(self).wf(),
            old(self).faithful() ==> final(self).faithful(),
            r is Ok <==> intents_acceptable(old(self)@, node_id@, intents_view(intents@)),
            r is Ok ==> final(self)@ == (ExecutionGraphView {
                effect_intents: final(self)@.effect_intents,
                ..old(self)@
            }),
            r is Ok ==> forall|x: ExecutionEffectIntentView| #[trigger]
                final(self)@.effect_intents.contains(x) <==> old(self)@.effect_intents.contains(x)
                    || intents_view(intents@).contains(x),
            r is Err ==> final(self)@ == old(self)@,
            !has_id(old(self)@.nodes, node_id@) ==> (r matches Err(ExecutionGraphError::MissingNode(s))
                && s@ == node_id@),
            has_id(old(self)@.nodes, node_id@) && !(state_of(old(self)@.nodes, node_id@) is Pending) ==> (r matches Err(
                ExecutionGraphError::EffectIntentNodeAlreadyStarted(s),
            ) && s@ == node_id@),
            forall|j: int|
                has_id(old(self)@.nodes, node_id@) && state_of(old(self)@.nodes, node_id@) is Pending && 0 <= j
                    < intents@.len() && !intent_ok(old(self)@, node_id@, intents_view(intents@), j) && (forall|l: int|
                    0 <= l < j ==> #[trigger] intent_ok(old(self)@, node_id@, intents_view(intents@), l)) ==> (r matches Err(e)
                    && intent_error(old(self)@, node_id@, intents_view(intents@), j, e)),
    {
        let ghost ins = intents_view(intents@);
        let ghost g0 = self@;
        let found = self.find_node(node_id);
        proof {
            lemma_state_of_lookup(self@.nodes, node_id@);
        }
        let i = match found {
            None => {
                return Err(ExecutionGraphError::MissingNode(node_id.to_owned()));
            },
            Some(i) => i,
        };
        if self.nodes[i].state != ExecutionNodeState::Pending {
            return Err(ExecutionGraphError::EffectIntentNodeAlreadyStarted(node_id.to_owned()));
        }
        let mut j: usize = 0;
        while j < intents.len()
            invariant
                self.wf(),
                self@ == g0,
                g0 == old(self)@,
                ins == intents_view(intents@),
                has_id(g0.nodes, node_id@),
                state_of(g0.nodes, node_id@) is Pending,
                j <= intents@.len(),
                forall|l: int| 0 <= l < j ==> #[trigger] intent_ok(g0, node_id@, ins, l),
            decreases intents.len() - j,
        {
            let it = &intents[j];
            proof {
                assert(ins[j as int] == it@);
            }
            if is_blank(it.id.as_str()) {
                proof {
                    lemma_first_bad_intent(g0, node_id@, ins, j as int);
                }
                return Err(ExecutionGraphError::EmptyEffectIntentId);
            }
            if !str_eq(it.node_id.as_str(), node_id) {
                let mut m = "effect intent '".to_owned();
                m.append(it.id.as_str());
                m.append("' belongs to node '");
                m.append(it.node_id.as_str());
                m.append("' instead of '");
                m.append(node_id);
                m.append("'");
                proof {
                    lemma_first_bad_intent(g0, node_id@, ins, j as int);
                }
                return Err(ExecutionGraphError::InvalidSnapshot(m));
            }
            let mut dup = false;
            let mut l: usize = 0;
            while l < j
                invariant
                    ins == intents_view(intents@),
                    l <= j,
                    j < intents@.len(),
                    !dup ==> forall|q: int| 0 <= q < l ==> (#[trigger] ins[q]).id != ins[j as int].id,
                    dup ==> exists|q: int| 0 <= q < j && (#[trigger] ins[q]).id == ins[j as int].id,
                decreases j - l,
            {
                if str_eq(intents[l].id.as_str(), intents[j].id.as_str()) {
                    proof {
                        assert(ins[l as int].id == ins[j as int].id);
                    }
                    dup = true;
                }
                l += 1;
            }
            if dup || self.has_intent(it.id.as_str()) {
                proof {
                    lemma_first_bad_intent(g0, node_id@, ins, j as int);
                }
                return Err(ExecutionGraphError::DuplicateEffectIntent(it.id.clone()));
            }
            let v = validate_effect_expectation(&it.expectation);
            if v.is_err() {
                proof {
                    lemma_first_bad_intent(g0, node_id@, ins, j as int);
                }
                return v;
            }
            proof {
                assert(intent_ok(g0, node_id@, ins, j as int));
            }
            j += 1;
        }
        let mut k: usize = 0;
        while k < intents.len()
            invariant
                self.wf(),
                super::spec::graph_faithful(g0) ==> self.faithful(),
                ins == intents_view(intents@),
                intents_acceptable(g0, node_id@, ins),
                k <= intents@.len(),
                self@ == (ExecutionGraphView { effect_intents: self@.effect_intents, ..g0 }),
                forall|x: ExecutionEffectIntentView| #[trigger]
                    self@.effect_intents.contains(x) <==> g0.effect_intents.contains(x) || ins.take(
                        k as int,
                    ).contains(x),
            decreases intents.len() - k,
        {
            let it = intents[k].clone();
            let ghost iv = it@;
            let ghost cur = self@.effect_intents;
            let ghost ks = intent_keys(cur);
            proof {
                assert(ins[k as int] == iv);
                assert(intent_ok(g0, node_id@, ins, k as int));
            }
            let mut p: usize = 0;
            while p < self.effect_intents.len() && str_lt(self.effect_intents[p].id.as_str(), it.id.as_str())
                invariant
                    p <= self.effect_intents@.len(),
                    self@.effect_intents == intents_view(self.effect_intents@),
                    cur == self@.effect_intents,
                    ks == intent_keys(cur),
                    iv == it@,
                    forall|q: int| 0 <= q < p ==> seq_lt(#[trigger] ks[q], iv.id),
                decreases self.effect_intents.len() - p,
            {
                p += 1;
            }
            proof {
                lemma_keys_scan(ks, p as int, iv.id);
                // the identifier is fresh in the current list
                assert forall|q: int| 0 <= q < cur.len() implies cur[q].id != iv.id by {
                    let x = cur[q];
                    assert(cur.contains(x));
                    if g0.effect_intents.contains(x) {
                        let a = choose|a: int| 0 <= a < g0.effect_intents.len() && g0.effect_intents[a] == x;
                        assert(!has_intent_id(g0.effect_intents, iv.id));
                    } else {
                        let t0 = ins.take(k as int);
                        let a = choose|a: int| 0 <= a < t0.len() && #[trigger] t0[a] == x;
                        assert(ins[a] == x);
                    }
                    assert(ks[q] == cur[q].id);
                }
                if (p as int) < ks.len() {
                    assert(ks[p as int] == cur[p as int].id);
                }
            }
            self.effect_intents.insert(p, it);
            proof {
                let nw = self@.effect_intents;
                assert(nw =~= cur.insert(p as int, iv));
                assert(intent_keys(nw) =~= ks.insert(p as int, iv.id));
                lemma_keys_insert(ks, p as int, iv.id);
                assert(ins.take(k + 1) =~= ins.take(k as int).push(iv));
                assert forall|x: ExecutionEffectIntentView| #[trigger] nw.contains(x) <==> g0.effect_intents.contains(x)
                    || ins.take(k + 1).contains(x) by {
                    if nw.contains(x) {
                        let q = choose|q: int| 0 <= q < nw.len() && nw[q] == x;
                        if q < p {
                            assert(cur[q] == x);
                        } else if q > p {
                            assert(cur[q - 1] == x);
                        } else {
                            assert(ins.take(k + 1)[k as int] == x);
                        }
                    }
                    if cur.contains(x) {
                        let q = choose|q: int| 0 <= q < cur.len() && cur[q] == x;
                        if q < p {
                            assert(nw[q] == x);
                        } else {
                            assert(nw[q + 1] == x);
                        }
                    }
                    if ins.take(k + 1).contains(x) {
                        let t1 = ins.take(k + 1);
                        let q = choose|q: int| 0 <= q < t1.len() && #[trigger] t1[q] == x;
                        if q == k {
                            assert(nw[p as int] == x);
                        } else {
                            assert(ins.take(k as int)[q] == x);
                            assert(cur.contains(x));
                        }
                    }
                    if g0.effect_intents.contains(x) {
                        assert(cur.contains(x));
                    }
                }
                assert forall|q: int| 0 <= q < nw.len() implies !blank((#[trigger] nw[q]).id) && has_id(
                    self@.nodes,
                    nw[q].node_id,
                ) && expectation_valid(nw[q].expectation) by {
                    if q < p {
                        assert(nw[q] == cur[q]);
                    } else if q > p {
                        assert(nw[q] == cur[q - 1]);
                    }
                }
            }
            k += 1;
        }
        proof {
            assert(ins.take(intents@.len() as int) =~= ins);
        }
        Ok(())
    }

    /// The effect intents of one node, in identifier order.
    pub fn effect_intents_for(&self, node_id: &str) -> (r: Vec<ExecutionEffectIntent>)
        requires
            self.wf(),
        ensures
            intents_view(r@) == intents_for_prefix(
                self@.effect_intents,
                node_id@,
                self@.effect_intents.len() as int,
            ),
    {
        let mut out: Vec<ExecutionEffectIntent> = Vec::new();
        let mut i: usize = 0;
        while i < self.effect_intents.len()
            invariant
                i <= self.effect_intents@.len(),
                self@.effect_intents == intents_view(self.effect_intents@),
                intents_view(out@) == intents_for_prefix(self@.effect_intents, node_id@, i as int),
            decreases self.effect_intents.len() - i,
        {
            let ghost before = intents_view(out@);
            if str_eq(self.effect_intents[i].node_id.as_str(), node_id) {
                out.push(self.effect_intents[i].clone());
                proof {
                    assert(intents_view(out@) =~= before.push(self@.effect_intents[i as int]));
                }
            }
            i += 1;
        }
        out
    }
}

} // verus!
