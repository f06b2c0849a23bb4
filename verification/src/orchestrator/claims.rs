//! Claiming the files workers own before they start. The claim service is
//! asked about one file at a time; these steps decide what to ask next, when
//! to stop, and what to release.
use vstd::prelude::*;
use crate::execution_graph::types::{opt_view, strs_view};
use crate::text::{blank, decimal, decimal_string, is_blank, join2, join3};
use super::ownership::{detect_assignment_file_overlaps, overlaps_reported};
use super::scopes::{normalize_owned_files, normalized_files};
use super::types::{
    WorkerAssignment, WorkerFileClaim, WorkerFileClaimConflict, WorkerFileClaimReleaseFailure,
    WorkerFileClaimReport,
};

verus! {

/// What the claim service answered for one file.
#[derive(Debug)]
pub enum ClaimAnswer {
    /// The file is now held for the worker.
    Claimed,
    /// Another agent holds the file.
    Conflict { holder: Option<String>, message: String },
    /// The call itself failed, with the error's text.
    Failed(String),
}

/// What the claim service answered when one claim was given back.
#[derive(Debug)]
pub enum ReleaseAnswer {
    Released,
    /// The service had no such claim, with its message.
    Missing(String),
    /// The call itself failed, with the error's text.
    Failed(String),
}

pub type ClaimView = (Seq<char>, Seq<char>, Seq<char>, i64);

pub open spec fn claim_view(c: WorkerFileClaim) -> ClaimView {
    (c.worker@, c.file@, c.operation@, c.conv_id)
}

pub open spec fn claims_view(cs: Seq<WorkerFileClaim>) -> Seq<ClaimView> {
    cs.map_values(|c: WorkerFileClaim| claim_view(c))
}

pub open spec fn failure_view(f: WorkerFileClaimReleaseFailure) -> (Seq<char>, Seq<char>, Seq<char>) {
    (f.worker@, f.file@, f.message@)
}

pub open spec fn failures_view(fs: Seq<WorkerFileClaimReleaseFailure>) -> Seq<(Seq<char>, Seq<char>, Seq<char>)> {
    fs.map_values(|f: WorkerFileClaimReleaseFailure| failure_view(f))
}

/// Each worker with each file it owns, normalised, in assignment order.
pub open spec fn targets_of(assignments: Seq<WorkerAssignment>) -> Seq<(Seq<char>, Seq<char>)>
    decreases assignments.len(),
{
    if assignments.len() == 0 {
        Seq::empty()
    } else {
        let a = assignments.last();
        targets_of(assignments.drop_last()) + normalized_files(strs_view(a.owned_files@)).map_values(
            |f: Seq<char>| (a.worker_name@, f),
        )
    }
}

pub open spec fn target_claim(t: (Seq<char>, Seq<char>), operation: Seq<char>, conv_id: i64) -> ClaimView {
    (t.0, t.1, operation, conv_id)
}

/// The claims that answers to releases leave unresolved: every claim the
/// service did not release, with its message.
pub open spec fn release_failures_of(claims: Seq<ClaimView>, answers: Seq<ReleaseAnswer>) -> Seq<(Seq<char>, Seq<char>, Seq<char>)>
    decreases answers.len(),
{
    if answers.len() == 0 || claims.len() == 0 {
        Seq::empty()
    } else {
        let n = answers.len() - 1;
        let rest = release_failures_of(claims.subrange(0, claims.len() - 1), answers.drop_last());
        match answers.last() {
            ReleaseAnswer::Released => rest,
            ReleaseAnswer::Missing(m) => rest.push((claims.last().0, claims.last().1, m@)),
            ReleaseAnswer::Failed(m) => rest.push((claims.last().0, claims.last().1, m@)),
        }
    }
}

/// The failures among the answers to releasing `claims`, in claim order.
pub fn release_failures(claims: &Vec<WorkerFileClaim>, answers: &Vec<ReleaseAnswer>) -> (r: Vec<WorkerFileClaimReleaseFailure>)
    requires
        claims@.len() == answers@.len(),
    ensures
        failures_view(r@) == release_failures_of(claims_view(claims@), answers@),
{
    let mut out: Vec<WorkerFileClaimReleaseFailure> = Vec::new();
    let mut i: usize = 0;
    while i < answers.len()
        invariant
            i <= answers.len(),
            claims@.len() == answers@.len(),
            failures_view(out@) == release_failures_of(
                claims_view(claims@).subrange(0, i as int),
                answers@.subrange(0, i as int),
            ),
        decreases answers.len() - i,
    {
        proof {
            let cs = claims_view(claims@).subrange(0, i + 1);
            let an = answers@.subrange(0, i + 1);
            assert(cs.subrange(0, cs.len() - 1) =~= claims_view(claims@).subrange(0, i as int));
            assert(an.drop_last() =~= answers@.subrange(0, i as int));
        }
        match &answers[i] {
            ReleaseAnswer::Released => {},
            ReleaseAnswer::Missing(m) => {
                out.push(
                    WorkerFileClaimReleaseFailure {
                        worker: claims[i].worker.clone(),
                        file: claims[i].file.clone(),
                        message: m.clone(),
                    },
                );
            },
            ReleaseAnswer::Failed(m) => {
                out.push(
                    WorkerFileClaimReleaseFailure {
                        worker: claims[i].worker.clone(),
                        file: claims[i].file.clone(),
                        message: m.clone(),
                    },
                );
            },
        }
        proof {
            assert(failures_view(out@) =~= release_failures_of(
                claims_view(claims@).subrange(0, i + 1),
                answers@.subrange(0, i + 1),
            ));
        }
        i += 1;
    }
    proof {
        assert(claims_view(claims@).subrange(0, answers@.len() as int) =~= claims_view(claims@));
        assert(answers@.subrange(0, answers@.len() as int) =~= answers@);
    }
    out
}

/// The error after a failed claim call, saying whether the claims already
/// held could be given back.
pub open spec fn claim_failure_text(file: Seq<char>, worker: Seq<char>, error: Seq<char>, unreleased: nat) -> Seq<char> {
    "failed to claim '"@ + file + "' for worker '"@ + worker + "': "@ + error + "; "@ + if unreleased == 0 {
        "previously acquired claims were released"@
    } else {
        decimal(unreleased) + " previously acquired claim(s) could not be released"@
    }
}

pub fn claim_failure_message(file: &str, worker: &str, error: &str, unreleased: usize) -> (s: String)
    ensures
        s@ == claim_failure_text(file@, worker@, error@, unreleased as nat),
{
    let head = join3("failed to claim '", file, "' for worker '");
    let head = join3(head.as_str(), worker, "': ");
    let head = join3(head.as_str(), error, "; ");
    if unreleased == 0 {
        join2(head.as_str(), "previously acquired claims were released")
    } else {
        let n = decimal_string(unreleased as u64);
        join3(head.as_str(), n.as_str(), " previously acquired claim(s) could not be released")
    }
}

/// The report after a conflict: nothing stays claimed, the conflict and
/// any claims that could not be given back are recorded.
pub fn conflict_report(conflict: WorkerFileClaimConflict, failures: Vec<WorkerFileClaimReleaseFailure>) -> (r: WorkerFileClaimReport)
    ensures
        r.active_claims@.len() == 0,
        r.local_overlaps@.len() == 0,
        r.conflicts@ == seq![conflict],
        r.release_failures@ == failures@,
{
    let mut conflicts: Vec<WorkerFileClaimConflict> = Vec::new();
    conflicts.push(conflict);
    WorkerFileClaimReport {
        active_claims: Vec::new(),
        local_overlaps: Vec::new(),
        conflicts,
        release_failures: failures,
    }
}

/// What to do next while claiming.
#[derive(Debug)]
pub enum ClaimStep {
    /// Ask the service to claim this file for this worker.
    Claim { worker: String, file: String },
    /// Every owned file is held; the report lists the claims.
    Claimed(WorkerFileClaimReport),
    /// Another agent holds a file: give back these claims, then report the
    /// conflict with `conflict_report`.
    ReleaseAfterConflict { claims: Vec<WorkerFileClaim>, conflict: WorkerFileClaimConflict },
    /// A claim call failed: give back these claims, then fail with
    /// `claim_failure_message`.
    ReleaseAfterError { claims: Vec<WorkerFileClaim>, worker: String, file: String, error: String },
}

/// How claiming can begin.
#[derive(Debug)]
pub enum ClaimStart {
    /// Owned files overlap between assignments; nothing is claimed.
    Overlapping(WorkerFileClaimReport),
    /// Claiming proceeds file by file.
    Run(ClaimRun),
}

/// The claims made so far against the files still to claim.
#[derive(Debug)]
pub struct ClaimRun {
    targets: Vec<(String, String)>,
    operation: String,
    conv_id: i64,
    active: Vec<WorkerFileClaim>,
}

pub struct ClaimRunView {
    pub targets: Seq<(Seq<char>, Seq<char>)>,
    pub operation: Seq<char>,
    pub conv_id: i64,
    pub active: Seq<ClaimView>,
}

pub open spec fn pairs_view(ts: Seq<(String, String)>) -> Seq<(Seq<char>, Seq<char>)> {
    ts.map_values(|t: (String, String)| (t.0@, t.1@))
}

impl View for ClaimRun {
    type V = ClaimRunView;

    closed spec fn view(&self) -> ClaimRunView {
        ClaimRunView {
            targets: pairs_view(self.targets@),
            operation: self.operation@,
            conv_id: self.conv_id,
            active: claims_view(self.active@),
        }
    }
}

/// The claims held are the first targets, in order.
pub open spec fn run_wf(v: ClaimRunView) -> bool {
    &&& v.active.len() <= v.targets.len()
    &&& forall|i: int| 0 <= i < v.active.len() ==> #[trigger] v.active[i] == target_claim(v.targets[i], v.operation, v.conv_id)
}

/// The step a run in state `v` takes next.
pub open spec fn step_matches(v: ClaimRunView, s: ClaimStep) -> bool {
    if v.active.len() < v.targets.len() {
        s matches ClaimStep::Claim { worker, file } && worker@ == v.targets[v.active.len() as int].0
            && file@ == v.targets[v.active.len() as int].1
    } else {
        s matches ClaimStep::Claimed(rep) && claims_view(rep.active_claims@) == v.active
            && rep.local_overlaps@.len() == 0 && rep.conflicts@.len() == 0 && rep.release_failures@.len() == 0
    }
}

fn copy_claim(c: &WorkerFileClaim) -> (r: WorkerFileClaim)
    ensures
        claim_view(r) == claim_view(*c),
{
    WorkerFileClaim {
        worker: c.worker.clone(),
        file: c.file.clone(),
        operation: c.operation.clone(),
        conv_id: c.conv_id,
    }
}

fn pairs_of(assignments: &Vec<WorkerAssignment>) -> (r: Vec<(String, String)>)
    ensures
        pairs_view(r@) == targets_of(assignments@),
{
    let mut out: Vec<(String, String)> = Vec::new();
    let mut i: usize = 0;
    while i < assignments.len()
        invariant
            i <= assignments.len(),
            pairs_view(out@) == targets_of(assignments@.subrange(0, i as int)),
        decreases assignments.len() - i,
    {
        let files = normalize_owned_files(&assignments[i].owned_files);
        let ghost before = pairs_view(out@);
        let mut j: usize = 0;
        while j < files.len()
            invariant
                i < assignments.len(),
                j <= files.len(),
                pairs_view(out@) == before + strs_view(files@).subrange(0, j as int).map_values(
                    |f: Seq<char>| (assignments@[i as int].worker_name@, f),
                ),
            decreases files.len() - j,
        {
            let w = assignments[i].worker_name.clone();
            let f = files[j].clone();
            let ghost prev = out@;
            out.push((w, f));
            proof {
                assert(out@ =~= prev.push((w, f)));
                assert(pairs_view(out@) =~= pairs_view(prev).push((w@, f@)));
                assert(pairs_view(out@) =~= before + strs_view(files@).subrange(0, j + 1).map_values(
                    |f: Seq<char>| (assignments@[i as int].worker_name@, f),
                ));
            }
            j += 1;
        }
        proof {
            let pre = assignments@.subrange(0, i + 1);
            assert(pre.drop_last() =~= assignments@.subrange(0, i as int));
            assert(strs_view(files@).subrange(0, files@.len() as int) =~= strs_view(files@));
        }
        i += 1;
    }
    proof {
        assert(assignments@.subrange(0, assignments@.len() as int) =~= assignments@);
    }
    out
}

impl ClaimRun {
    pub closed spec fn wf(&self) -> bool {
        run_wf(self@)
    }

    /// Checks the request, then the owned files: a non-positive
    /// conversation or a blank operation is an error; overlapping owned
    /// files end claiming before any call; otherwise claiming starts with
    /// nothing held.
    pub fn start(assignments: &Vec<WorkerAssignment>, operation: &str, conv_id: i64) -> (r: Result<
        ClaimStart,
        String,
    >)
        ensures
            match r {
                Err(e) => (conv_id <= 0 && e@ == "conv_id must be positive"@) || (conv_id > 0 && blank(
                    operation@,
                ) && e@ == "operation must not be empty"@),
                Ok(ClaimStart::Overlapping(rep)) => conv_id > 0 && !blank(operation@) && rep.local_overlaps@.len() > 0
                    && overlaps_reported(assignments@, rep.local_overlaps@) && rep.active_claims@.len() == 0
                    && rep.conflicts@.len() == 0 && rep.release_failures@.len() == 0,
                Ok(ClaimStart::Run(run)) => conv_id > 0 && !blank(operation@) && overlaps_reported(
                    assignments@,
                    Seq::empty(),
                ) && run.wf() && run@.targets == targets_of(assignments@) && run@.operation == operation@
                    && run@.conv_id == conv_id && run@.active.len() == 0,
            },
    {
        if conv_id <= 0 {
            return Err("conv_id must be positive".to_owned());
        }
        if is_blank(operation) {
            return Err("operation must not be empty".to_owned());
        }
        let overlaps = detect_assignment_file_overlaps(assignments);
        if overlaps.len() > 0 {
            let mut rep = WorkerFileClaimReport::new();
            rep.local_overlaps = overlaps;
            return Ok(ClaimStart::Overlapping(rep));
        }
        proof {
            assert(overlaps@ =~= Seq::<super::types::AssignmentFileOverlap>::empty());
        }
        let targets = pairs_of(assignments);
        let run = ClaimRun { targets, operation: operation.to_owned(), conv_id, active: Vec::new() };
        proof {
            assert(claims_view(run.active@) =~= Seq::<ClaimView>::empty());
        }
        Ok(ClaimStart::Run(run))
    }

    /// The next file to claim, or the report once every file is held.
    pub fn next_step(&self) -> (s: ClaimStep)
        requires
            self.wf(),
        ensures
            step_matches(self@, s),
    {
        let n = self.active.len();
        if n < self.targets.len() {
            ClaimStep::Claim { worker: self.targets[n].0.clone(), file: self.targets[n].1.clone() }
        } else {
            let mut held: Vec<WorkerFileClaim> = Vec::new();
            let mut i: usize = 0;
            while i < n
                invariant
                    i <= n,
                    n == self.active@.len(),
                    claims_view(held@) == claims_view(self.active@).subrange(0, i as int),
                decreases n - i,
            {
                let c = copy_claim(&self.active[i]);
                let ghost prev = held@;
                held.push(c);
                proof {
                    assert(held@ =~= prev.push(c));
                    assert(claims_view(held@) =~= claims_view(prev).push(claim_view(c)));
                    assert(claims_view(held@) =~= claims_view(self.active@).subrange(0, i + 1));
                }
                i += 1;
            }
            proof {
                assert(claims_view(self.active@).subrange(0, n as int) =~= claims_view(self.active@));
            }
            let mut rep = WorkerFileClaimReport::new();
            rep.active_claims = held;
            ClaimStep::Claimed(rep)
        }
    }

    /// Records the service's answer for the pending file: a claim is held
    /// and claiming goes on; a conflict or a failed call gives back every
    /// claim held so far.
    pub fn record(&mut self, answer: ClaimAnswer) -> (s: ClaimStep)
        requires
            old(self).wf(),
            old(self)@.active.len() < old(self)@.targets.len(),
        ensures
            final(self).wf(),
            final(self)@.targets == old(self)@.targets,
            final(self)@.operation == old(self)@.operation,
            final(self)@.conv_id == old(self)@.conv_id,
            ({
                let v = old(self)@;
                let t = v.targets[v.active.len() as int];
                match answer {
                    ClaimAnswer::Claimed => final(self)@.active == v.active.push(
                        target_claim(t, v.operation, v.conv_id),
                    ) && step_matches(final(self)@, s),
                    ClaimAnswer::Conflict { holder, message } => {
                        &&& final(self)@.active.len() == 0
                        &&& s matches ClaimStep::ReleaseAfterConflict { claims, conflict }
                        &&& claims_view(claims@) == v.active
                        &&& conflict.worker@ == t.0
                        &&& conflict.file@ == t.1
                        &&& opt_view(conflict.holder) == opt_view(holder)
                        &&& conflict.message@ == message@
                    },
                    ClaimAnswer::Failed(e) => {
                        &&& final(self)@.active.len() == 0
                        &&& s matches ClaimStep::ReleaseAfterError { claims, worker, file, error }
                        &&& claims_view(claims@) == v.active
                        &&& worker@ == t.0
                        &&& file@ == t.1
                        &&& error@ == e@
                    },
                }
            }),
    {
        let n = self.active.len();
        let worker = self.targets[n].0.clone();
        let file = self.targets[n].1.clone();
        match answer {
            ClaimAnswer::Claimed => {
                let claim = WorkerFileClaim {
                    worker,
                    file,
                    operation: self.operation.clone(),
                    conv_id: self.conv_id,
                };
                self.active.push(claim);
                proof {
                    assert(claims_view(self.active@) =~= old(self)@.active.push(
                        target_claim(old(self)@.targets[n as int], old(self)@.operation, old(self)@.conv_id),
                    ));
                }
                self.next_step()
            },
            ClaimAnswer::Conflict { holder, message } => {
                let mut claims: Vec<WorkerFileClaim> = Vec::new();
                std::mem::swap(&mut claims, &mut self.active);
                proof {
                    assert(claims_view(self.active@) =~= Seq::<ClaimView>::empty());
                }
                ClaimStep::ReleaseAfterConflict {
                    claims,
                    conflict: WorkerFileClaimConflict { worker, file, holder, message },
                }
            },
            ClaimAnswer::Failed(error) => {
                let mut claims: Vec<WorkerFileClaim> = Vec::new();
                std::mem::swap(&mut claims, &mut self.active);
                proof {
                    assert(claims_view(self.active@) =~= Seq::<ClaimView>::empty());
                }
                ClaimStep::ReleaseAfterError { claims, worker, file, error }
            },
        }
    }
}

} // verus!
