//! Collecting worker patch proposals: one well-formed proposal per worker,
//! kept in worker-name order; every refusal is recorded.
use vstd::prelude::*;
use crate::execution_graph::types::strs_view;
use crate::patch::PatchOperation;
use crate::text::{blank, is_blank, join2, join3, seq_lt, str_eq, str_lt, lemma_seq_lt_transitive,
    lemma_seq_lt_asymmetric, lemma_seq_lt_total};
use super::types::{PatchProposalSubmission, WorkerPatchProposal};

verus! {

pub open spec fn proposal_workers(ps: Seq<WorkerPatchProposal>) -> Seq<Seq<char>> {
    ps.map_values(|p: WorkerPatchProposal| p.worker@)
}

pub open spec fn names_sorted(ns: Seq<Seq<char>>) -> bool {
    forall|i: int, j: int| 0 <= i < j < ns.len() ==> seq_lt(#[trigger] ns[i], #[trigger] ns[j])
}

/// Why a submission is malformed, if it is: the first failing check.
pub open spec fn submission_problem(s: PatchProposalSubmission) -> Option<Seq<char>> {
    if blank(s.summary@) {
        Some("summary must not be empty"@)
    } else if s.files@.len() == 0 || exists|i: int| 0 <= i < s.files@.len() && (#[trigger] s.files@[i])@.len() == 0 {
        Some("files must contain at least one non-empty path"@)
    } else if s.operations@.len() == 0 || exists|i: int|
        0 <= i < s.operations@.len() && (#[trigger] s.operations@[i]).path_view().len() == 0 {
        Some("operations must contain at least one operation with a non-empty path"@)
    } else if exists|i: int| 0 <= i < s.verification_commands@.len() && blank(#[trigger] s.verification_commands@[i]@) {
        Some("verification_commands must not contain empty commands"@)
    } else {
        None
    }
}

/// The proposals received so far, one per worker in name order, and the
/// refusals.
#[derive(Debug)]
pub struct PatchProposalCollector {
    proposals: Vec<WorkerPatchProposal>,
    errors: Vec<String>,
}

impl PatchProposalCollector {
    pub closed spec fn proposals(&self) -> Seq<WorkerPatchProposal> {
        self.proposals@
    }

    pub closed spec fn errors(&self) -> Seq<Seq<char>> {
        strs_view(self.errors@)
    }

    pub open spec fn wf(&self) -> bool {
        names_sorted(proposal_workers(self.proposals()))
    }

    pub fn new() -> (c: Self)
        ensures
            c.wf(),
            c.proposals().len() == 0,
            c.errors().len() == 0,
    {
        let c = PatchProposalCollector { proposals: Vec::new(), errors: Vec::new() };
        proof {
            assert(strs_view(c.errors@) =~= Seq::<Seq<char>>::empty());
        }
        c
    }

    /// The proposals, in worker-name order.
    pub fn proposals_list(&self) -> (r: &Vec<WorkerPatchProposal>)
        ensures
            r@ == self.proposals(),
    {
        &self.proposals
    }

    pub fn error_list(&self) -> (r: &Vec<String>)
        ensures
            strs_view(r@) == self.errors(),
    {
        &self.errors
    }

    fn has_empty_file(files: &Vec<String>) -> (b: bool)
        ensures
            b == exists|i: int| 0 <= i < files@.len() && (#[trigger] files@[i])@.len() == 0,
    {
        let mut i: usize = 0;
        while i < files.len()
            invariant
                i <= files.len(),
                forall|q: int| 0 <= q < i ==> (#[trigger] files@[q])@.len() != 0,
            decreases files.len() - i,
        {
            if files[i].as_str().is_empty() {
                return true;
            }
            i += 1;
        }
        false
    }

    fn has_empty_operation(ops: &Vec<PatchOperation>) -> (b: bool)
        ensures
            b == exists|i: int| 0 <= i < ops@.len() && (#[trigger] ops@[i]).path_view().len() == 0,
    {
        let mut i: usize = 0;
        while i < ops.len()
            invariant
                i <= ops.len(),
                forall|q: int| 0 <= q < i ==> (#[trigger] ops@[q]).path_view().len() != 0,
            decreases ops.len() - i,
        {
            if ops[i].path().is_empty() {
                return true;
            }
            i += 1;
        }
        false
    }

    fn has_blank_command(cmds: &Vec<String>) -> (b: bool)
        ensures
            b == exists|i: int| 0 <= i < cmds@.len() && blank(#[trigger] cmds@[i]@),
    {
        let mut i: usize = 0;
        while i < cmds.len()
            invariant
                i <= cmds.len(),
                forall|q: int| 0 <= q < i ==> !blank(#[trigger] cmds@[q]@),
            decreases cmds.len() - i,
        {
            if is_blank(cmds[i].as_str()) {
                return true;
            }
            i += 1;
        }
        false
    }

    fn problem(s: &PatchProposalSubmission) -> (r: Option<&'static str>)
        ensures
            match r {
                Some(m) => submission_problem(*s) == Some(m@),
                None => submission_problem(*s) is None,
            },
    {
        if is_blank(s.summary.as_str()) {
            Some("summary must not be empty")
        } else if s.files.len() == 0 || Self::has_empty_file(&s.files) {
            Some("files must contain at least one non-empty path")
        } else if s.operations.len() == 0 || Self::has_empty_operation(&s.operations) {
            Some("operations must contain at least one operation with a non-empty path")
        } else if Self::has_blank_command(&s.verification_commands) {
            Some("verification_commands must not contain empty commands")
        } else {
            None
        }
    }

    /// Records a submission that did not match the tool's schema: the
    /// collector keeps the error against the worker, and the tool answers
    /// with the schema error.
    pub fn record_invalid_schema(&mut self, worker: &str, error: &str) -> (answer: String)
        requires
            old(self).wf(),
        ensures
            final(self).wf(),
            final(self).proposals() == old(self).proposals(),
            final(self).errors() == old(self).errors().push(
                "employee '"@ + worker@ + "' submitted invalid patch proposal: "@ + error@,
            ),
            answer@ == "invalid patch proposal schema: "@ + error@,
    {
        let head = join3("employee '", worker, "' submitted invalid patch proposal: ");
        let e = join2(head.as_str(), error);
        let ghost prev = self.errors@;
        self.errors.push(e);
        proof {
            assert(strs_view(self.errors@) =~= strs_view(prev).push(e@));
        }
        join2("invalid patch proposal schema: ", error)
    }

    /// Records a worker's submission. A malformed submission, or a second
    /// one from the same worker, is refused with a reason that is also kept.
    pub fn record(&mut self, worker: &str, submission: PatchProposalSubmission) -> (r: Result<(), String>)
        requires
            old(self).wf(),
        ensures
            final(self).wf(),
            match submission_problem(submission) {
                Some(reason) => r matches Err(e) && e@ == "employee '"@ + worker@
                    + "' submitted invalid patch proposal: "@ + reason && final(self).errors() == old(
                    self,
                ).errors().push(e@) && final(self).proposals() == old(self).proposals(),
                None => if proposal_workers(old(self).proposals()).contains(worker@) {
                    r matches Err(e) && e@ == "employee '"@ + worker@
                        + "' submitted more than one patch proposal"@ && final(self).errors() == old(
                        self,
                    ).errors().push(e@) && final(self).proposals() == old(self).proposals()
                } else {
                    &&& r is Ok
                    &&& final(self).errors() == old(self).errors()
                    &&& exists|p: int|
                        0 <= p <= old(self).proposals().len() && #[trigger] final(self).proposals().remove(p)
                            == old(self).proposals() && final(self).proposals()[p].worker@ == worker@
                            && final(self).proposals()[p].files == submission.files
                            && final(self).proposals()[p].summary == submission.summary
                            && final(self).proposals()[p].verification_commands
                            == submission.verification_commands
                            && final(self).proposals()[p].operations == submission.operations
                },
            },
    {
        match Self::problem(&submission) {
            Some(reason) => {
                let head = join3("employee '", worker, "' submitted invalid patch proposal: ");
                let e = join2(head.as_str(), reason);
                let ghost prev = self.errors@;
                self.errors.push(e.clone());
                proof {
                    assert(strs_view(self.errors@) =~= strs_view(prev).push(e@));
                }
                return Err(e);
            },
            None => {},
        }
        let ghost ws = proposal_workers(self.proposals@);
        let ghost p0 = self.proposals@;
        proof {
            assert(submission_problem(submission) is None);
        }
        let mut i: usize = 0;
        while i < self.proposals.len() && str_lt(self.proposals[i].worker.as_str(), worker)
            invariant
                i <= self.proposals@.len(),
                ws == proposal_workers(self.proposals@),
                forall|q: int| 0 <= q < i ==> seq_lt(#[trigger] ws[q], worker@),
            decreases self.proposals.len() - i,
        {
            proof {
                assert(ws[i as int] == self.proposals@[i as int].worker@);
            }
            i += 1;
        }
        if i < self.proposals.len() && str_eq(self.proposals[i].worker.as_str(), worker) {
            proof {
                assert(ws[i as int] == worker@);
            }
            let e = join3("employee '", worker, "' submitted more than one patch proposal");
            let ghost prev = self.errors@;
            self.errors.push(e.clone());
            proof {
                assert(strs_view(self.errors@) =~= strs_view(prev).push(e@));
            }
            return Err(e);
        }
        proof {
            if i < ws.len() {
                assert(ws[i as int] == self.proposals@[i as int].worker@);
                lemma_seq_lt_total(ws[i as int], worker@);
            }
            assert forall|q: int| 0 <= q < ws.len() implies ws[q] != worker@ by {
                if q < i {
                    crate::text::lemma_seq_lt_irreflexive(worker@);
                } else if q > i {
                    assert(seq_lt(ws[i as int], ws[q]));
                    lemma_seq_lt_transitive(worker@, ws[i as int], ws[q]);
                    crate::text::lemma_seq_lt_irreflexive(worker@);
                } else {
                }
            }
        }
        let proposal = WorkerPatchProposal {
            worker: worker.to_owned(),
            files: submission.files,
            summary: submission.summary,
            verification_commands: submission.verification_commands,
            operations: submission.operations,
        };
        let ghost prev = self.proposals@;
        let ghost pv = proposal;
        self.proposals.insert(i, proposal);
        proof {
            assert(self.proposals@ == prev.insert(i as int, pv));
            assert(self.proposals@[i as int] == pv);
            let nw = proposal_workers(self.proposals@);
            assert(nw =~= ws.insert(i as int, worker@));
            assert forall|a: int, b: int| 0 <= a < b < nw.len() implies seq_lt(#[trigger] nw[a], #[trigger] nw[b]) by {
                if b < i {
                    assert(nw[a] == ws[a] && nw[b] == ws[b]);
                } else if b == i {
                    assert(nw[a] == ws[a]);
                } else if a < i {
                    assert(nw[a] == ws[a] && nw[b] == ws[b - 1]);
                    if b - 1 > i {
                        lemma_seq_lt_transitive(worker@, ws[i as int], ws[b - 1]);
                    }
                    lemma_seq_lt_transitive(ws[a], worker@, ws[b - 1]);
                } else if a == i {
                    assert(nw[b] == ws[b - 1]);
                    if b - 1 > i {
                        lemma_seq_lt_transitive(worker@, ws[i as int], ws[b - 1]);
                    }
                } else {
                    assert(nw[a] == ws[a - 1] && nw[b] == ws[b - 1]);
                }
            }
            assert(proposal_workers(self.proposals@)[i as int] == worker@);
            assert(self.proposals@.remove(i as int) =~= prev);
            assert(!ws.contains(worker@));
            assert(self.proposals()[i as int].worker@ == worker@);
            assert(self.proposals().remove(i as int) == prev);
        }
        Ok(())
    }
}

} // verus!
