//! Checking what workers wrote against the files they own.
use vstd::prelude::*;
use crate::execution_graph::types::strs_view;
use super::paths::{path_key, path_key_of, render, render_key};
use super::proposals::{covered, find_last_assignment, is_covered, last_named};
use super::review::render_all;
use super::scopes::{names_of, owned_keys, owned_keys_of};
use super::sorting::keys_view;
use super::paths::{copy_key, key_owns, owns};
use super::sorting::{sorted_distinct, sorted_keys};
use super::types::{AssignmentFileOverlap, FileEdit, OwnershipViolation, WorkerAssignment};

verus! {

pub open spec fn violation_view(v: OwnershipViolation) -> (Seq<char>, Seq<char>, Seq<Seq<char>>, Seq<char>) {
    (v.worker@, v.file@, strs_view(v.owned_files@), v.reason@)
}

pub open spec fn violations_view(vs: Seq<OwnershipViolation>) -> Seq<(Seq<char>, Seq<char>, Seq<Seq<char>>, Seq<char>)> {
    vs.map_values(|v: OwnershipViolation| violation_view(v))
}

/// The violations among the first `n` edits, in order. A worker with no
/// owned files is not checked; a worker with no assignment always violates.
pub open spec fn violations_of(
    assignments: Seq<WorkerAssignment>,
    edits: Seq<FileEdit>,
    n: int,
) -> Seq<(Seq<char>, Seq<char>, Seq<Seq<char>>, Seq<char>)>
    decreases n,
{
    if n <= 0 {
        Seq::empty()
    } else {
        let e = edits[n - 1];
        let k = path_key(e.path@);
        let before = violations_of(assignments, edits, n - 1);
        if !names_of(assignments).contains(e.worker@) {
            before.push((e.worker@, render(k), Seq::empty(), "worker has no assignment"@))
        } else {
            let owned = owned_keys(
                strs_view(assignments[last_named(assignments, e.worker@, assignments.len() as int)].owned_files@),
            );
            if owned.len() == 0 || covered(k, owned) {
                before
            } else {
                before.push(
                    (
                        e.worker@,
                        render(k),
                        owned.map_values(|o: Seq<Seq<char>>| render(o)),
                        "file is outside worker ownership"@,
                    ),
                )
            }
        }
    }
}

/// The writes outside each worker's owned files. Empty ownership means the
/// worker is not restricted.
pub fn detect_ownership_violations(
    assignments: &Vec<WorkerAssignment>,
    edits: &Vec<FileEdit>,
) -> (r: Vec<OwnershipViolation>)
    ensures
        violations_view(r@) == violations_of(assignments@, edits@, edits@.len() as int),
{
    let mut out: Vec<OwnershipViolation> = Vec::new();
    let mut i: usize = 0;
    while i < edits.len()
        invariant
            i <= edits.len(),
            violations_view(out@) == violations_of(assignments@, edits@, i as int),
        decreases edits.len() - i,
    {
        let e = &edits[i];
        let (k, _, _) = path_key_of(e.path.as_str());
        let ghost prev = out@;
        match find_last_assignment(assignments, e.worker.as_str()) {
            None => {
                let file = render_key(&k);
                let v = OwnershipViolation {
                    worker: e.worker.clone(),
                    file,
                    owned_files: Vec::new(),
                    reason: "worker has no assignment".to_owned(),
                };
                out.push(v);
                proof {
                    assert(strs_view(out@[prev.len() as int].owned_files@) =~= Seq::<Seq<char>>::empty());
                    assert(violations_view(out@) =~= violations_view(prev).push(violation_view(out@[prev.len() as int])));
                }
            },
            Some(a) => {
                let owned = owned_keys_of(&assignments[a].owned_files);
                if owned.len() == 0 || is_covered(&k, &owned) {
                } else {
                    let v = OwnershipViolation {
                        worker: e.worker.clone(),
                        file: render_key(&k),
                        owned_files: render_all(&owned),
                        reason: "file is outside worker ownership".to_owned(),
                    };
                    out.push(v);
                    proof {
                        assert(violations_view(out@) =~= violations_view(prev).push(
                            violation_view(out@[prev.len() as int]),
                        ));
                    }
                }
            },
        }
        i += 1;
    }
    out
}

// ----- overlapping ownership -----

pub type Hit = (Seq<Seq<char>>, Seq<char>);

/// One path lies under the other.
pub open spec fn paths_overlap(a: Seq<Seq<char>>, b: Seq<Seq<char>>) -> bool {
    owns(a, b) || owns(b, a)
}

/// The overlap is reported under the path with fewer components.
pub open spec fn overlap_key(a: Seq<Seq<char>>, b: Seq<Seq<char>>) -> Seq<Seq<char>> {
    if a.len() <= b.len() {
        a
    } else {
        b
    }
}

/// The overlaps of one file against the first `ny` files of the other
/// assignment, each naming both workers.
pub open spec fn row_hits(lf: Seq<Seq<char>>, rs: Seq<Seq<Seq<char>>>, ln: Seq<char>, rn: Seq<char>, ny: int) -> Seq<Hit>
    decreases ny,
{
    if ny <= 0 {
        Seq::empty()
    } else {
        row_hits(lf, rs, ln, rn, ny - 1) + if paths_overlap(lf, rs[ny - 1]) {
            seq![(overlap_key(lf, rs[ny - 1]), ln), (overlap_key(lf, rs[ny - 1]), rn)]
        } else {
            Seq::empty()
        }
    }
}

pub open spec fn cross_hits(ls: Seq<Seq<Seq<char>>>, rs: Seq<Seq<Seq<char>>>, ln: Seq<char>, rn: Seq<char>, nx: int) -> Seq<Hit>
    decreases nx,
{
    if nx <= 0 {
        Seq::empty()
    } else {
        cross_hits(ls, rs, ln, rn, nx - 1) + row_hits(ls[nx - 1], rs, ln, rn, rs.len() as int)
    }
}

pub open spec fn assigned_keys(a: WorkerAssignment) -> Seq<Seq<Seq<char>>> {
    owned_keys(strs_view(a.owned_files@))
}

/// The overlaps of assignment `l` with the assignments after it, up to `nr`.
pub open spec fn right_hits(assignments: Seq<WorkerAssignment>, l: int, nr: int) -> Seq<Hit>
    decreases nr - l,
{
    if nr <= l + 1 {
        Seq::empty()
    } else {
        let ls = assigned_keys(assignments[l]);
        let rs = assigned_keys(assignments[nr - 1]);
        right_hits(assignments, l, nr - 1) + if ls.len() == 0 || rs.len() == 0 {
            Seq::empty()
        } else {
            cross_hits(
                ls,
                rs,
                assignments[l].worker_name@,
                assignments[nr - 1].worker_name@,
                ls.len() as int,
            )
        }
    }
}

/// Every overlap between two different assignments, in discovery order.
pub open spec fn all_hits(assignments: Seq<WorkerAssignment>, nl: int) -> Seq<Hit>
    decreases nl,
{
    if nl <= 0 {
        Seq::empty()
    } else {
        all_hits(assignments, nl - 1) + right_hits(assignments, nl - 1, assignments.len() as int)
    }
}

pub open spec fn hit_keys(hits: Seq<Hit>) -> Seq<Seq<Seq<char>>> {
    hits.map_values(|h: Hit| h.0)
}

/// The workers named under a key, as one-name keys.
pub open spec fn names_under(hits: Seq<Hit>, k: Seq<Seq<char>>, n: int) -> Seq<Seq<Seq<char>>>
    decreases n,
{
    if n <= 0 {
        Seq::empty()
    } else if hits[n - 1].0 == k {
        names_under(hits, k, n - 1).push(seq![hits[n - 1].1])
    } else {
        names_under(hits, k, n - 1)
    }
}

/// The overlaps reported: each overlapping path once, in path order, with
/// the workers involved, without repeats, in name order.
pub open spec fn overlaps_reported(assignments: Seq<WorkerAssignment>, out: Seq<AssignmentFileOverlap>) -> bool {
    let hits = all_hits(assignments, assignments.len() as int);
    let ks = sorted_keys(hit_keys(hits));
    &&& out.len() == ks.len()
    &&& forall|i: int|
        0 <= i < ks.len() ==> {
            &&& (#[trigger] out[i]).file@ == render(ks[i])
            &&& strs_view(out[i].workers@) == sorted_keys(names_under(hits, ks[i], hits.len() as int)).map_values(
                |k: Seq<Seq<char>>| k[0],
            )
        }
}

struct HitList {
    keys: Vec<Vec<String>>,
    names: Vec<String>,
}

spec fn hits_of(h: &HitList) -> Seq<Hit> {
    Seq::new(h.keys@.len(), |i: int| (strs_view(h.keys@[i]@), h.names@[i]@))
}

spec fn hits_ok(h: &HitList) -> bool {
    h.keys@.len() == h.names@.len()
}

fn push_hit(h: &mut HitList, key: &Vec<String>, name: &String)
    requires
        hits_ok(old(h)),
    ensures
        hits_ok(final(h)),
        hits_of(final(h)) == hits_of(old(h)).push((strs_view(key@), name@)),
{
    let ghost before = hits_of(h);
    h.keys.push(copy_key(key));
    h.names.push(name.clone());
    proof {
        assert(hits_of(h) =~= before.push((strs_view(key@), name@)));
    }
}

fn collect_cross(
    h: &mut HitList,
    ls: &Vec<Vec<String>>,
    rs: &Vec<Vec<String>>,
    ln: &String,
    rn: &String,
)
    requires
        hits_ok(old(h)),
    ensures
        hits_ok(final(h)),
        hits_of(final(h)) == hits_of(old(h)) + cross_hits(keys_view(ls@), keys_view(rs@), ln@, rn@, ls@.len() as int),
{
    let ghost start = hits_of(h);
    let ghost lv = keys_view(ls@);
    let ghost rv = keys_view(rs@);
    let mut x: usize = 0;
    while x < ls.len()
        invariant
            x <= ls.len(),
            hits_ok(h),
            lv == keys_view(ls@),
            rv == keys_view(rs@),
            hits_of(h) == start + cross_hits(lv, rv, ln@, rn@, x as int),
        decreases ls.len() - x,
    {
        let ghost mid = hits_of(h);
        let mut y: usize = 0;
        proof {
            assert(lv[x as int] == strs_view(ls@[x as int]@));
        }
        while y < rs.len()
            invariant
                y <= rs.len(),
                x < ls.len(),
                hits_ok(h),
                lv == keys_view(ls@),
                rv == keys_view(rs@),
                lv[x as int] == strs_view(ls@[x as int]@),
                hits_of(h) == mid + row_hits(lv[x as int], rv, ln@, rn@, y as int),
            decreases rs.len() - y,
        {
            let ghost before = hits_of(h);
            proof {
                assert(rv[y as int] == strs_view(rs@[y as int]@));
            }
            if key_owns(&ls[x], &rs[y]) || key_owns(&rs[y], &ls[x]) {
                let k = if ls[x].len() <= rs[y].len() {
                    &ls[x]
                } else {
                    &rs[y]
                };
                push_hit(h, k, ln);
                push_hit(h, k, rn);
            }
            proof {
                let a = lv[x as int];
                let b = rv[y as int];
                assert(hits_of(h) =~= before + if paths_overlap(a, b) {
                    seq![(overlap_key(a, b), ln@), (overlap_key(a, b), rn@)]
                } else {
                    Seq::empty()
                });
            }
            y += 1;
        }
        proof {
            assert(hits_of(h) =~= start + cross_hits(lv, rv, ln@, rn@, x + 1));
        }
        x += 1;
    }
}

/// Overlapping ownership between assignments, found before any worker
/// starts: two workers own the same file, or one owns a directory above
/// the other's file.
pub fn detect_assignment_file_overlaps(assignments: &Vec<WorkerAssignment>) -> (r: Vec<AssignmentFileOverlap>)
    ensures
        overlaps_reported(assignments@, r@),
{
    let mut owned: Vec<Vec<Vec<String>>> = Vec::new();
    let mut i: usize = 0;
    while i < assignments.len()
        invariant
            i <= assignments.len(),
            owned@.len() == i,
            forall|q: int| 0 <= q < i ==> keys_view((#[trigger] owned@[q])@) == assigned_keys(assignments@[q]),
        decreases assignments.len() - i,
    {
        owned.push(owned_keys_of(&assignments[i].owned_files));
        i += 1;
    }
    let mut h = HitList { keys: Vec::new(), names: Vec::new() };
    proof {
        assert(hits_of(&h) =~= all_hits(assignments@, 0));
    }
    let mut l: usize = 0;
    while l < assignments.len()
        invariant
            l <= assignments.len(),
            owned@.len() == assignments@.len(),
            forall|q: int| 0 <= q < assignments@.len() ==> keys_view((#[trigger] owned@[q])@) == assigned_keys(assignments@[q]),
            hits_ok(&h),
            hits_of(&h) == all_hits(assignments@, l as int),
        decreases assignments.len() - l,
    {
        let ghost mid = hits_of(&h);
        let mut r: usize = l + 1;
        proof {
            assert(right_hits(assignments@, l as int, r as int) =~= Seq::<Hit>::empty());
        }
        while r < assignments.len()
            invariant
                l < r <= assignments.len(),
                owned@.len() == assignments@.len(),
                forall|q: int| 0 <= q < assignments@.len() ==> keys_view((#[trigger] owned@[q])@) == assigned_keys(assignments@[q]),
                hits_ok(&h),
                hits_of(&h) == mid + right_hits(assignments@, l as int, r as int),
            decreases assignments.len() - r,
        {
            let ghost before = hits_of(&h);
            proof {
                assert(keys_view(owned@[l as int]@) == assigned_keys(assignments@[l as int]));
                assert(keys_view(owned@[r as int]@) == assigned_keys(assignments@[r as int]));
            }
            if owned[l].len() > 0 && owned[r].len() > 0 {
                collect_cross(&mut h, &owned[l], &owned[r], &assignments[l].worker_name, &assignments[r].worker_name);
            }
            proof {
                assert(hits_of(&h) =~= mid + right_hits(assignments@, l as int, r + 1));
            }
            r += 1;
        }
        proof {
            if l + 1 > assignments.len() {
            }
            assert(hits_of(&h) =~= all_hits(assignments@, l + 1));
        }
        l += 1;
    }
    let ghost hits = hits_of(&h);
    let keys = sorted_distinct(&h.keys);
    proof {
        assert(keys_view(h.keys@) =~= hit_keys(hits));
    }
    let ghost ks = keys_view(keys@);
    let mut out: Vec<AssignmentFileOverlap> = Vec::new();
    let mut j: usize = 0;
    while j < keys.len()
        invariant
            j <= keys.len(),
            hits_ok(&h),
            hits == hits_of(&h),
            ks == keys_view(keys@),
            out@.len() == j,
            forall|q: int|
                0 <= q < j ==> {
                    &&& (#[trigger] out@[q]).file@ == render(ks[q])
                    &&& strs_view(out@[q].workers@) == sorted_keys(names_under(hits, ks[q], hits.len() as int)).map_values(
                        |k: Seq<Seq<char>>| k[0],
                    )
                },
        decreases keys.len() - j,
    {
        proof {
            assert(ks[j as int] == strs_view(keys@[j as int]@));
        }
        let mut named: Vec<Vec<String>> = Vec::new();
        let mut t: usize = 0;
        while t < h.keys.len()
            invariant
                t <= h.keys.len(),
                hits_ok(&h),
                hits == hits_of(&h),
                j < keys.len(),
                ks == keys_view(keys@),
                ks[j as int] == strs_view(keys@[j as int]@),
                keys_view(named@) == names_under(hits, ks[j as int], t as int),
            decreases h.keys.len() - t,
        {
            let ghost before = keys_view(named@);
            proof {
                assert(hits[t as int] == (strs_view(h.keys@[t as int]@), h.names@[t as int]@));
            }
            if super::paths::key_equal(&h.keys[t], &keys[j]) {
                let mut one: Vec<String> = Vec::new();
                one.push(h.names[t].clone());
                named.push(one);
                proof {
                    assert(strs_view(named@[before.len() as int]@) =~= seq![h.names@[t as int]@]);
                    assert(keys_view(named@) =~= before.push(seq![hits[t as int].1]));
                }
            }
            t += 1;
        }
        let distinct = sorted_distinct(&named);
        let ghost dv = keys_view(distinct@);
        let mut workers: Vec<String> = Vec::new();
        let mut u: usize = 0;
        proof {
            assert forall|q: int| 0 <= q < dv.len() implies (#[trigger] dv[q]).len() == 1 by {
                assert(dv.contains(dv[q]));
                let nv = keys_view(named@);
                let p = choose|p: int| 0 <= p < nv.len() && nv[p] == dv[q];
                lemma_names_under_singletons(hits, ks[j as int], h.keys@.len() as int, p);
            }
        }
        while u < distinct.len()
            invariant
                u <= distinct.len(),
                dv == keys_view(distinct@),
                forall|q: int| 0 <= q < dv.len() ==> (#[trigger] dv[q]).len() == 1,
                workers@.len() == u,
                forall|q: int| 0 <= q < u ==> (#[trigger] workers@[q])@ == dv[q][0],
            decreases distinct.len() - u,
        {
            proof {
                assert(dv[u as int] == strs_view(distinct@[u as int]@));
                assert(dv[u as int].len() == 1);
            }
            workers.push(distinct[u][0].clone());
            u += 1;
        }
        proof {
            assert(strs_view(workers@) =~= dv.map_values(|k: Seq<Seq<char>>| k[0]));
        }
        out.push(AssignmentFileOverlap { file: render_key(&keys[j]), workers });
        j += 1;
    }
    out
}

proof fn lemma_names_under_singletons(hits: Seq<Hit>, k: Seq<Seq<char>>, n: int, p: int)
    requires
        0 <= p < names_under(hits, k, n).len(),
    ensures
        names_under(hits, k, n)[p].len() == 1,
    decreases n,
{
    if n > 0 {
        if hits[n - 1].0 == k {
            if p < names_under(hits, k, n - 1).len() {
                lemma_names_under_singletons(hits, k, n - 1, p);
            }
        } else {
            lemma_names_under_singletons(hits, k, n - 1, p);
        }
    }
}

} // verus!
