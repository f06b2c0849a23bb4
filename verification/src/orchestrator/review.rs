//! The parent's review of worker patch proposals before anything is applied.
use vstd::prelude::*;
use crate::execution_graph::types::strs_view;
use crate::text::{blank, is_blank, join2, join3, str_eq};
use super::paths::{key_owns, owns, path_key, path_key_of, render, render_key};
use super::proposals::{covered, find_last_assignment, is_covered, last_named, op_paths};
use super::scopes::{names_of, opt_msg, owned_keys, owned_keys_of};
use super::sorting::keys_view;
use super::types::{
    WorkerAssignment, WorkerExecutionReport, WorkerExecutionStatus, WorkerMergeReview,
    WorkerMergeStatus, WorkerPatchDecision, WorkerPatchProposal,
};

verus! {

/// Parts joined by ", ".
pub open spec fn comma_joined(parts: Seq<Seq<char>>) -> Seq<char>
    decreases parts.len(),
{
    if parts.len() == 0 {
        Seq::empty()
    } else if parts.len() == 1 {
        parts[0]
    } else {
        comma_joined(parts.drop_last()) + ", "@ + parts.last()
    }
}

fn join_comma(parts: &Vec<String>) -> (s: String)
    ensures
        s@ == comma_joined(strs_view(parts@)),
{
    let ghost ps = strs_view(parts@);
    let mut s = String::new();
    let mut i: usize = 0;
    while i < parts.len()
        invariant
            i <= parts.len(),
            ps == strs_view(parts@),
            s@ == comma_joined(ps.take(i as int)),
        decreases parts.len() - i,
    {
        let ghost before = ps.take(i as int);
        if i > 0 {
            s.append(", ");
        }
        s.append(parts[i].as_str());
        proof {
            let after = ps.take(i + 1);
            assert(after.drop_last() =~= before);
            assert(after.last() == ps[i as int]);
            if i == 0 {
                assert(after.len() == 1);
                assert(s@ =~= after[0]);
            }
        }
        i += 1;
    }
    proof {
        assert(ps.take(parts.len() as int) =~= ps);
    }
    s
}

/// Why a worker batch cannot be merged as it stands, in a fixed order:
/// unverified results, the execution error, local overlaps, remote claim
/// conflicts, edit conflicts, ownership violations, release failures.
pub open spec fn blockers_of(x: WorkerExecutionReport) -> Seq<Seq<char>> {
    let overlaps = x.claim_report.local_overlaps@;
    let claims = x.claim_report.conflicts@;
    let edits = x.conflicts@;
    let viol = x.ownership_violations@;
    let rel = x.release_failures@;
    opt_msg(x.status == WorkerExecutionStatus::Submitted, "worker results were submitted without fresh verification"@)
        + (match x.execution_error {
        Some(e) => seq![e@],
        None => Seq::empty(),
    }) + Seq::new(
        overlaps.len(),
        |i: int| "assignment overlap on "@ + overlaps[i].file@ + " between "@ + comma_joined(strs_view(overlaps[i].workers@)),
    ) + Seq::new(
        claims.len(),
        |i: int| "file claim conflict on "@ + claims[i].file@ + " held by "@ + (match claims[i].holder {
            Some(h) => h@,
            None => "unknown"@,
        }) + ": "@ + claims[i].message@,
    ) + Seq::new(
        edits.len(),
        |i: int| "worker edit conflict on "@ + edits[i].file@ + " between "@ + comma_joined(strs_view(edits[i].workers@)),
    ) + Seq::new(
        viol.len(),
        |i: int| "worker "@ + viol[i].worker@ + " edited "@ + viol[i].file@ + " outside ownership: "@ + viol[i].reason@,
    ) + Seq::new(
        rel.len(),
        |i: int| "failed to release claim for "@ + rel[i].worker@ + " on "@ + rel[i].file@ + ": "@ + rel[i].message@,
    )
}

fn push_lines(out: &mut Vec<String>, lines: Vec<String>)
    ensures
        strs_view(final(out)@) == strs_view(old(out)@) + strs_view(lines@),
{
    let ghost start = strs_view(out@);
    let mut i: usize = 0;
    while i < lines.len()
        invariant
            i <= lines.len(),
            strs_view(out@) == start + strs_view(lines@).take(i as int),
        decreases lines.len() - i,
    {
        let ghost prev = out@;
        out.push(lines[i].clone());
        proof {
            assert(out@ == prev.push(lines@[i as int]));
            assert(strs_view(out@) =~= strs_view(prev).push(lines@[i as int]@));
            assert(strs_view(lines@).take(i + 1) =~= strs_view(lines@).take(i as int).push(lines@[i as int]@));
            assert(strs_view(out@) =~= start + strs_view(lines@).take(i + 1));
        }
        i += 1;
    }
    proof {
        assert(strs_view(lines@).take(lines.len() as int) =~= strs_view(lines@));
    }
}

pub fn execution_blockers(execution: &WorkerExecutionReport) -> (b: Vec<String>)
    ensures
        strs_view(b@) == blockers_of(*execution),
{
    let x = execution;
    let mut out: Vec<String> = Vec::new();
    if x.status == WorkerExecutionStatus::Submitted {
        out.push("worker results were submitted without fresh verification".to_owned());
    }
    match &x.execution_error {
        Some(e) => out.push(e.clone()),
        None => {},
    }
    proof {
        assert(strs_view(out@) =~= opt_msg(
            x.status == WorkerExecutionStatus::Submitted,
            "worker results were submitted without fresh verification"@,
        ) + (match x.execution_error {
            Some(e) => seq![e@],
            None => Seq::empty(),
        }));
    }
    let overlaps = &x.claim_report.local_overlaps;
    let mut a: Vec<String> = Vec::new();
    let mut i: usize = 0;
    while i < overlaps.len()
        invariant
            i <= overlaps.len(),
            a@.len() == i,
            forall|q: int|
                0 <= q < i ==> (#[trigger] a@[q])@ == "assignment overlap on "@ + overlaps@[q].file@ + " between "@
                    + comma_joined(strs_view(overlaps@[q].workers@)),
        decreases overlaps.len() - i,
    {
        let w = join_comma(&overlaps[i].workers);
        let head = join3("assignment overlap on ", overlaps[i].file.as_str(), " between ");
        a.push(join2(head.as_str(), w.as_str()));
        i += 1;
    }
    let claims = &x.claim_report.conflicts;
    let mut b: Vec<String> = Vec::new();
    let mut i: usize = 0;
    while i < claims.len()
        invariant
            i <= claims.len(),
            b@.len() == i,
            forall|q: int|
                0 <= q < i ==> (#[trigger] b@[q])@ == "file claim conflict on "@ + claims@[q].file@ + " held by "@
                    + (match claims@[q].holder {
                    Some(h) => h@,
                    None => "unknown"@,
                }) + ": "@ + claims@[q].message@,
        decreases claims.len() - i,
    {
        let holder: &str = match &claims[i].holder {
            Some(h) => h.as_str(),
            None => "unknown",
        };
        let head = join3("file claim conflict on ", claims[i].file.as_str(), " held by ");
        let mid = join3(head.as_str(), holder, ": ");
        b.push(join2(mid.as_str(), claims[i].message.as_str()));
        i += 1;
    }
    let edits = &x.conflicts;
    let mut c: Vec<String> = Vec::new();
    let mut i: usize = 0;
    while i < edits.len()
        invariant
            i <= edits.len(),
            c@.len() == i,
            forall|q: int|
                0 <= q < i ==> (#[trigger] c@[q])@ == "worker edit conflict on "@ + edits@[q].file@ + " between "@
                    + comma_joined(strs_view(edits@[q].workers@)),
        decreases edits.len() - i,
    {
        let w = join_comma(&edits[i].workers);
        let head = join3("worker edit conflict on ", edits[i].file.as_str(), " between ");
        c.push(join2(head.as_str(), w.as_str()));
        i += 1;
    }
    let viol = &x.ownership_violations;
    let mut d: Vec<String> = Vec::new();
    let mut i: usize = 0;
    while i < viol.len()
        invariant
            i <= viol.len(),
            d@.len() == i,
            forall|q: int|
                0 <= q < i ==> (#[trigger] d@[q])@ == "worker "@ + viol@[q].worker@ + " edited "@ + viol@[q].file@
                    + " outside ownership: "@ + viol@[q].reason@,
        decreases viol.len() - i,
    {
        let head = join3("worker ", viol[i].worker.as_str(), " edited ");
        let mid = join3(head.as_str(), viol[i].file.as_str(), " outside ownership: ");
        d.push(join2(mid.as_str(), viol[i].reason.as_str()));
        i += 1;
    }
    let rel = &x.release_failures;
    let mut e: Vec<String> = Vec::new();
    let mut i: usize = 0;
    while i < rel.len()
        invariant
            i <= rel.len(),
            e@.len() == i,
            forall|q: int|
                0 <= q < i ==> (#[trigger] e@[q])@ == "failed to release claim for "@ + rel@[q].worker@ + " on "@
                    + rel@[q].file@ + ": "@ + rel@[q].message@,
        decreases rel.len() - i,
    {
        let head = join3("failed to release claim for ", rel[i].worker.as_str(), " on ");
        let mid = join3(head.as_str(), rel[i].file.as_str(), ": ");
        e.push(join2(mid.as_str(), rel[i].message.as_str()));
        i += 1;
    }
    let ghost first = strs_view(out@);
    proof {
        let ov = x.claim_report.local_overlaps@;
        assert(strs_view(a@) =~= Seq::new(
            ov.len(),
            |i: int| "assignment overlap on "@ + ov[i].file@ + " between "@ + comma_joined(strs_view(ov[i].workers@)),
        ));
        let cl = x.claim_report.conflicts@;
        assert(strs_view(b@) =~= Seq::new(
            cl.len(),
            |i: int| "file claim conflict on "@ + cl[i].file@ + " held by "@ + (match cl[i].holder {
                Some(h) => h@,
                None => "unknown"@,
            }) + ": "@ + cl[i].message@,
        ));
        let ed = x.conflicts@;
        assert(strs_view(c@) =~= Seq::new(
            ed.len(),
            |i: int| "worker edit conflict on "@ + ed[i].file@ + " between "@ + comma_joined(strs_view(ed[i].workers@)),
        ));
        let vi = x.ownership_violations@;
        assert(strs_view(d@) =~= Seq::new(
            vi.len(),
            |i: int| "worker "@ + vi[i].worker@ + " edited "@ + vi[i].file@ + " outside ownership: "@ + vi[i].reason@,
        ));
        let re = x.release_failures@;
        assert(strs_view(e@) =~= Seq::new(
            re.len(),
            |i: int| "failed to release claim for "@ + re[i].worker@ + " on "@ + re[i].file@ + ": "@ + re[i].message@,
        ));
    }
    let ghost sa = strs_view(a@);
    let ghost sb = strs_view(b@);
    let ghost sc = strs_view(c@);
    let ghost sd = strs_view(d@);
    let ghost se = strs_view(e@);
    push_lines(&mut out, a);
    push_lines(&mut out, b);
    push_lines(&mut out, c);
    push_lines(&mut out, d);
    push_lines(&mut out, e);
    proof {
        assert(strs_view(out@) =~= first + sa + sb + sc + sd + se);
    }
    out
}

// ----- proposal review -----

pub open spec fn unlisted_operations(files: Seq<Seq<Seq<char>>>, paths: Seq<Seq<char>>, n: int) -> Seq<Seq<char>>
    decreases n,
{
    if n <= 0 {
        Seq::empty()
    } else {
        let k = path_key(paths[n - 1]);
        unlisted_operations(files, paths, n - 1) + opt_msg(
            !covered(k, files),
            "operation path "@ + render(k) + " is not listed in proposal files"@,
        )
    }
}

pub open spec fn unowned_files(owned: Seq<Seq<Seq<char>>>, files: Seq<Seq<Seq<char>>>, n: int) -> Seq<Seq<char>>
    decreases n,
{
    if n <= 0 {
        Seq::empty()
    } else {
        unowned_files(owned, files, n - 1) + opt_msg(
            !covered(files[n - 1], owned),
            "file "@ + render(files[n - 1]) + " is outside worker ownership"@,
        )
    }
}

/// Why one proposal needs the parent's review; none means it is approved.
pub open spec fn review_reasons(assignments: Seq<WorkerAssignment>, p: WorkerPatchProposal) -> Seq<Seq<char>> {
    let files = owned_keys(strs_view(p.files@));
    let paths = op_paths(p.operations@);
    let w = p.worker@;
    opt_msg(blank(p.summary@), "proposal summary is empty"@) + opt_msg(
        files.len() == 0,
        "proposal does not name any files"@,
    ) + opt_msg(p.operations@.len() == 0, "proposal does not include patch operations"@)
        + unlisted_operations(files, paths, paths.len() as int) + if names_of(assignments).contains(w) {
        let owned = owned_keys(
            strs_view(assignments[last_named(assignments, w, assignments.len() as int)].owned_files@),
        );
        if owned.len() == 0 {
            seq!["worker has unscoped ownership; parent review required"@]
        } else {
            unowned_files(owned, files, files.len() as int)
        }
    } else {
        seq!["worker has no assignment"@]
    }
}

/// The decision on one proposal: its files normalised, approved exactly
/// when nothing needs review.
pub open spec fn decided(assignments: Seq<WorkerAssignment>, p: WorkerPatchProposal, d: WorkerPatchDecision) -> bool {
    &&& d.proposal.worker == p.worker
    &&& d.proposal.summary == p.summary
    &&& d.proposal.verification_commands == p.verification_commands
    &&& d.proposal.operations == p.operations
    &&& strs_view(d.proposal.files@) == owned_keys(strs_view(p.files@)).map_values(
        |k: Seq<Seq<char>>| render(k),
    )
    &&& strs_view(d.reasons@) == review_reasons(assignments, p)
    &&& d.approved == (review_reasons(assignments, p).len() == 0)
}

/// The merge is blocked by a failed or blocked batch or by any conflict; it
/// needs the parent when something blocks or a proposal was not approved.
pub open spec fn merge_status(x: WorkerExecutionReport, blockers: Seq<Seq<char>>, decisions: Seq<WorkerPatchDecision>) -> WorkerMergeStatus {
    if x.status == WorkerExecutionStatus::WorkerFailed || x.status == WorkerExecutionStatus::BlockedBeforeExecution
        || x.conflicts@.len() > 0 || x.claim_report.local_overlaps@.len() > 0
        || x.claim_report.conflicts@.len() > 0 {
        WorkerMergeStatus::Blocked
    } else if blockers.len() > 0 || exists|i: int| 0 <= i < decisions.len() && !(#[trigger] decisions[i]).approved {
        WorkerMergeStatus::RequiresParentReview
    } else {
        WorkerMergeStatus::Approved
    }
}

fn review_one(assignments: &Vec<WorkerAssignment>, p: WorkerPatchProposal) -> (d: WorkerPatchDecision)
    ensures
        decided(assignments@, p, d),
{
    let ghost pv = p;
    let files = owned_keys_of(&p.files);
    let ghost fv = keys_view(files@);
    let ghost paths = op_paths(p.operations@);
    let mut reasons: Vec<String> = Vec::new();
    if is_blank(p.summary.as_str()) {
        reasons.push("proposal summary is empty".to_owned());
    }
    if files.len() == 0 {
        reasons.push("proposal does not name any files".to_owned());
    }
    if p.operations.len() == 0 {
        reasons.push("proposal does not include patch operations".to_owned());
    }
    let ghost head = strs_view(reasons@);
    proof {
        assert(head =~= opt_msg(blank(p.summary@), "proposal summary is empty"@) + opt_msg(
            fv.len() == 0,
            "proposal does not name any files"@,
        ) + opt_msg(p.operations@.len() == 0, "proposal does not include patch operations"@));
    }
    let mut j: usize = 0;
    while j < p.operations.len()
        invariant
            j <= p.operations.len(),
            fv == keys_view(files@),
            paths == op_paths(p.operations@),
            strs_view(reasons@) == head + unlisted_operations(fv, paths, j as int),
        decreases p.operations.len() - j,
    {
        let ghost before = strs_view(reasons@);
        let (k, _, _) = path_key_of(p.operations[j].path());
        proof {
            assert(paths[j as int] == p.operations@[j as int].path_view());
        }
        if !is_covered(&k, &files) {
            let shown = render_key(&k);
            reasons.push(join3("operation path ", shown.as_str(), " is not listed in proposal files"));
        }
        proof {
            let kv = path_key(paths[j as int]);
            assert(strs_view(reasons@) =~= before + opt_msg(
                !covered(kv, fv),
                "operation path "@ + render(kv) + " is not listed in proposal files"@,
            ));
        }
        j += 1;
    }
    let ghost mid = strs_view(reasons@);
    match find_last_assignment(assignments, p.worker.as_str()) {
        Some(a) => {
            let owned = owned_keys_of(&assignments[a].owned_files);
            if owned.len() == 0 {
                reasons.push("worker has unscoped ownership; parent review required".to_owned());
            } else {
                let ghost ov = keys_view(owned@);
                let mut i: usize = 0;
                while i < files.len()
                    invariant
                        i <= files.len(),
                        fv == keys_view(files@),
                        ov == keys_view(owned@),
                        strs_view(reasons@) == mid + unowned_files(ov, fv, i as int),
                    decreases files.len() - i,
                {
                    let ghost before = strs_view(reasons@);
                    if !is_covered(&files[i], &owned) {
                        let shown = render_key(&files[i]);
                        reasons.push(join3("file ", shown.as_str(), " is outside worker ownership"));
                    }
                    proof {
                        assert(fv[i as int] == strs_view(files@[i as int]@));
                        assert(strs_view(reasons@) =~= before + opt_msg(
                            !covered(fv[i as int], ov),
                            "file "@ + render(fv[i as int]) + " is outside worker ownership"@,
                        ));
                    }
                    i += 1;
                }
            }
        },
        None => {
            reasons.push("worker has no assignment".to_owned());
        },
    }
    proof {
        assert(strs_view(reasons@) =~= review_reasons(assignments@, pv));
    }
    let rendered = render_all(&files);
    let approved = reasons.len() == 0;
    WorkerPatchDecision { proposal: WorkerPatchProposal { files: rendered, ..p }, approved, reasons }
}

pub(crate) fn render_all(keys: &Vec<Vec<String>>) -> (r: Vec<String>)
    ensures
        strs_view(r@) == keys_view(keys@).map_values(|k: Seq<Seq<char>>| render(k)),
{
    let mut out: Vec<String> = Vec::new();
    let mut i: usize = 0;
    while i < keys.len()
        invariant
            i <= keys.len(),
            out@.len() == i,
            forall|q: int| 0 <= q < i ==> (#[trigger] out@[q])@ == render(strs_view(keys@[q]@)),
        decreases keys.len() - i,
    {
        out.push(render_key(&keys[i]));
        i += 1;
    }
    proof {
        assert(strs_view(out@) =~= keys_view(keys@).map_values(|k: Seq<Seq<char>>| render(k)));
    }
    out
}

/// Reviews worker proposals before the parent applies anything. Workers
/// propose; only the parent applies, and only an approved review.
pub fn review_worker_patch_proposals(
    assignments: &Vec<WorkerAssignment>,
    execution: &WorkerExecutionReport,
    proposals: Vec<WorkerPatchProposal>,
) -> (r: WorkerMergeReview)
    ensures
        r.decisions@.len() == proposals@.len(),
        forall|i: int| 0 <= i < proposals@.len() ==> decided(assignments@, proposals@[i], #[trigger] r.decisions@[i]),
        strs_view(r.blockers@) == blockers_of(*execution) + opt_msg(
            proposals@.len() == 0,
            "no worker patch proposals submitted"@,
        ),
        r.status == merge_status(*execution, strs_view(r.blockers@), r.decisions@),
{
    let mut blockers = execution_blockers(execution);
    let ghost ps = proposals@;
    let mut decisions: Vec<WorkerPatchDecision> = Vec::new();
    let mut rest = proposals;
    let mut all_approved = true;
    let n = rest.len();
    let mut reversed: Vec<WorkerPatchDecision> = Vec::new();
    while rest.len() > 0
        invariant
            rest@.len() + reversed@.len() == n,
            n == ps.len(),
            rest@ == ps.take(rest@.len() as int),
            forall|q: int|
                0 <= q < reversed@.len() ==> decided(assignments@, ps[n - 1 - q], #[trigger] reversed@[q]),
        decreases rest.len(),
    {
        let p = rest.pop().unwrap();
        proof {
            assert(p == ps[rest@.len() as int]);
        }
        let d = review_one(assignments, p);
        reversed.push(d);
        proof {
            assert(rest@ =~= ps.take(rest@.len() as int));
        }
    }
    while reversed.len() > 0
        invariant
            reversed@.len() + decisions@.len() == n,
            n == ps.len(),
            forall|q: int|
                0 <= q < reversed@.len() ==> decided(assignments@, ps[n - 1 - q], #[trigger] reversed@[q]),
            forall|q: int| 0 <= q < decisions@.len() ==> decided(assignments@, ps[q], #[trigger] decisions@[q]),
            all_approved == forall|q: int| 0 <= q < decisions@.len() ==> (#[trigger] decisions@[q]).approved,
        decreases reversed.len(),
    {
        let d = reversed.pop().unwrap();
        proof {
            assert(decided(assignments@, ps[decisions@.len() as int], d));
        }
        let ghost prev = decisions@;
        all_approved = all_approved && d.approved;
        decisions.push(d);
        proof {
            assert(decisions@ == prev.push(d));
            if all_approved {
                assert forall|q: int| 0 <= q < decisions@.len() implies (#[trigger] decisions@[q]).approved by {
                    if q < prev.len() {
                        assert(decisions@[q] == prev[q]);
                    }
                }
            } else {
                if !d.approved {
                    assert(!decisions@[prev.len() as int].approved);
                } else {
                    let q = choose|q: int| 0 <= q < prev.len() && !(#[trigger] prev[q]).approved;
                    assert(decisions@[q] == prev[q]);
                }
            }
        }
    }
    if decisions.len() == 0 {
        blockers.push("no worker patch proposals submitted".to_owned());
    }
    let x = execution;
    let status = if x.status == WorkerExecutionStatus::WorkerFailed || x.status
        == WorkerExecutionStatus::BlockedBeforeExecution || x.conflicts.len() > 0
        || x.claim_report.local_overlaps.len() > 0 || x.claim_report.conflicts.len() > 0 {
        WorkerMergeStatus::Blocked
    } else if blockers.len() > 0 || !all_approved {
        WorkerMergeStatus::RequiresParentReview
    } else {
        WorkerMergeStatus::Approved
    };
    let r = WorkerMergeReview { status, decisions, blockers };
    proof {
        if !all_approved {
            let q = choose|q: int| 0 <= q < r.decisions@.len() && !(#[trigger] r.decisions@[q]).approved;
        }
        assert(strs_view(r.blockers@) =~= blockers_of(*execution) + opt_msg(
            ps.len() == 0,
            "no worker patch proposals submitted"@,
        ));
    }
    r
}

} // verus!
