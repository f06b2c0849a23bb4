//! Checking worker patch proposals against the mutation scopes before any
//! worker output is applied.
use vstd::prelude::*;
use crate::execution_graph::types::strs_view;
use crate::patch::PatchOperation;
use crate::text::{blank, is_blank, join3, str_eq};
use super::paths::{key_owns, owns, path_key, path_key_of, render, render_key};
use super::scopes::{
    apply_organization_file_scopes, file_scope_errors, names_of, opt_msg, owned_keys, owned_keys_of,
    scoped_assignments, selected, selected_names,
};
use super::sorting::keys_view;
use super::types::{OrganizationFileScope, WorkerAssignment, WorkerPatchProposal};

verus! {

pub open spec fn repeated_proposal_msg(w: Seq<char>) -> Seq<char> {
    "employee '"@ + w + "' submitted more than one patch proposal"@
}

pub open spec fn unselected_proposal_msg(w: Seq<char>) -> Seq<char> {
    "patch proposal references unselected employee '"@ + w + "'"@
}

pub open spec fn empty_summary_msg(w: Seq<char>) -> Seq<char> {
    "employee '"@ + w + "' submitted an empty patch summary"@
}

pub open spec fn unnamed_change_msg(w: Seq<char>) -> Seq<char> {
    "employee '"@ + w + "' must submit named files and patch operations"@
}

pub open spec fn outside_file_msg(w: Seq<char>, f: Seq<char>) -> Seq<char> {
    "employee '"@ + w + "' proposed file "@ + f + " outside its mutation scope"@
}

pub open spec fn outside_operation_msg(w: Seq<char>, p: Seq<char>) -> Seq<char> {
    "employee '"@ + w + "' proposed operation on "@ + p
        + " outside its declared files or mutation scope"@
}

pub open spec fn missing_proposal_msg(n: Seq<char>) -> Seq<char> {
    "selected mutation employee '"@ + n + "' submitted no patch proposal"@
}

/// Some key of the list owns the path.
pub open spec fn covered(k: Seq<Seq<char>>, by: Seq<Seq<Seq<char>>>) -> bool {
    exists|q: int| 0 <= q < by.len() && owns(k, #[trigger] by[q])
}

/// The last assignment with the name, or -1: the scope a later assignment
/// gives replaces an earlier one.
pub open spec fn last_named(assignments: Seq<WorkerAssignment>, name: Seq<char>, n: int) -> int
    decreases n,
{
    if n <= 0 {
        -1
    } else if assignments[n - 1].worker_name@ == name {
        n - 1
    } else {
        last_named(assignments, name, n - 1)
    }
}

/// The normalised files the employee owns.
pub open spec fn owned_scope(assignments: Seq<WorkerAssignment>, name: Seq<char>) -> Seq<Seq<Seq<char>>> {
    owned_keys(
        strs_view(assignments[last_named(assignments, name, assignments.len() as int)].owned_files@),
    )
}

/// Files the proposal declares that its author does not own.
pub open spec fn outside_files(w: Seq<char>, owned: Seq<Seq<Seq<char>>>, files: Seq<Seq<Seq<char>>>, n: int) -> Seq<Seq<char>>
    decreases n,
{
    if n <= 0 {
        Seq::empty()
    } else {
        outside_files(w, owned, files, n - 1) + opt_msg(
            !covered(files[n - 1], owned),
            outside_file_msg(w, render(files[n - 1])),
        )
    }
}

pub open spec fn op_paths(ops: Seq<PatchOperation>) -> Seq<Seq<char>> {
    ops.map_values(|o: PatchOperation| o.path_view())
}

/// Operations on paths outside the declared files or the owned files.
pub open spec fn outside_operations(
    w: Seq<char>,
    owned: Seq<Seq<Seq<char>>>,
    files: Seq<Seq<Seq<char>>>,
    paths: Seq<Seq<char>>,
    n: int,
) -> Seq<Seq<char>>
    decreases n,
{
    if n <= 0 {
        Seq::empty()
    } else {
        let k = path_key(paths[n - 1]);
        outside_operations(w, owned, files, paths, n - 1) + opt_msg(
            !covered(k, files) || !covered(k, owned),
            outside_operation_msg(w, render(k)),
        )
    }
}

pub open spec fn proposal_named_before(ps: Seq<WorkerPatchProposal>, i: int) -> bool {
    exists|j: int| 0 <= j < i && #[trigger] ps[j].worker@ == ps[i].worker@
}

/// The complaints about one proposal, in the order they are checked.
pub open spec fn proposal_entry_errors(
    assignments: Seq<WorkerAssignment>,
    ps: Seq<WorkerPatchProposal>,
    i: int,
) -> Seq<Seq<char>> {
    let p = ps[i];
    let w = p.worker@;
    let sel = names_of(assignments).contains(w);
    let owned = owned_scope(assignments, w);
    let files = owned_keys(strs_view(p.files@));
    let paths = op_paths(p.operations@);
    opt_msg(proposal_named_before(ps, i), repeated_proposal_msg(w)) + opt_msg(
        !sel,
        unselected_proposal_msg(w),
    ) + opt_msg(blank(p.summary@), empty_summary_msg(w)) + opt_msg(
        p.files@.len() == 0 || p.operations@.len() == 0,
        unnamed_change_msg(w),
    ) + if sel {
        outside_files(w, owned, files, files.len() as int) + outside_operations(
            w,
            owned,
            files,
            paths,
            paths.len() as int,
        )
    } else {
        Seq::empty()
    }
}

pub open spec fn proposal_errors_upto(
    assignments: Seq<WorkerAssignment>,
    ps: Seq<WorkerPatchProposal>,
    n: int,
) -> Seq<Seq<char>>
    decreases n,
{
    if n <= 0 {
        Seq::empty()
    } else {
        proposal_errors_upto(assignments, ps, n - 1) + proposal_entry_errors(assignments, ps, n - 1)
    }
}

pub open spec fn has_proposal(ps: Seq<WorkerPatchProposal>, name: Seq<char>) -> bool {
    exists|j: int| 0 <= j < ps.len() && #[trigger] ps[j].worker@ == name
}

pub open spec fn missing_proposals(sel: Seq<Seq<char>>, ps: Seq<WorkerPatchProposal>, n: int) -> Seq<Seq<char>>
    decreases n,
{
    if n <= 0 {
        Seq::empty()
    } else {
        missing_proposals(sel, ps, n - 1) + opt_msg(
            !has_proposal(ps, sel[n - 1]),
            missing_proposal_msg(sel[n - 1]),
        )
    }
}

/// Everything wrong with the proposals of the selected employees.
pub open spec fn proposal_errors(
    assignments: Seq<WorkerAssignment>,
    ps: Seq<WorkerPatchProposal>,
) -> Seq<Seq<char>> {
    proposal_errors_upto(assignments, ps, ps.len() as int) + missing_proposals(
        selected(assignments),
        ps,
        selected(assignments).len() as int,
    )
}

fn proposal_seen_before(ps: &Vec<WorkerPatchProposal>, i: usize) -> (b: bool)
    requires
        i < ps.len(),
    ensures
        b == proposal_named_before(ps@, i as int),
{
    let mut j: usize = 0;
    while j < i
        invariant
            j <= i < ps.len(),
            forall|q: int| 0 <= q < j ==> ps@[q].worker@ != ps@[i as int].worker@,
        decreases i - j,
    {
        if str_eq(ps[j].worker.as_str(), ps[i].worker.as_str()) {
            return true;
        }
        j += 1;
    }
    false
}

pub(crate) fn find_last_assignment(assignments: &Vec<WorkerAssignment>, name: &str) -> (r: Option<usize>)
    ensures
        r is Some <==> names_of(assignments@).contains(name@),
        r matches Some(j) ==> j as int == last_named(assignments@, name@, assignments@.len() as int)
            && j < assignments.len(),
{
    let mut j: usize = assignments.len();
    while j > 0
        invariant
            j <= assignments.len(),
            last_named(assignments@, name@, assignments@.len() as int) == last_named(
                assignments@,
                name@,
                j as int,
            ),
            forall|q: int| j <= q < assignments.len() ==> assignments@[q].worker_name@ != name@,
        decreases j,
    {
        if str_eq(assignments[j - 1].worker_name.as_str(), name) {
            proof {
                assert(names_of(assignments@)[j - 1] == name@);
            }
            return Some(j - 1);
        }
        j -= 1;
    }
    proof {
        assert forall|q: int| 0 <= q < names_of(assignments@).len() implies names_of(assignments@)[q]
            != name@ by {
            assert(names_of(assignments@)[q] == assignments@[q].worker_name@);
        }
    }
    None
}

pub(crate) fn is_covered(k: &Vec<String>, by: &Vec<Vec<String>>) -> (b: bool)
    ensures
        b == covered(strs_view(k@), keys_view(by@)),
{
    let mut q: usize = 0;
    while q < by.len()
        invariant
            q <= by.len(),
            forall|j: int| 0 <= j < q ==> !owns(strs_view(k@), #[trigger] keys_view(by@)[j]),
        decreases by.len() - q,
    {
        if key_owns(k, &by[q]) {
            proof {
                assert(keys_view(by@)[q as int] == strs_view(by@[q as int]@));
            }
            return true;
        }
        proof {
            assert(keys_view(by@)[q as int] == strs_view(by@[q as int]@));
        }
        q += 1;
    }
    false
}

/// Appends the scope complaints about one selected employee's proposal.
fn scope_violations(
    errors: &mut Vec<String>,
    w: &str,
    owned: &Vec<Vec<String>>,
    p: &WorkerPatchProposal,
)
    ensures
        strs_view(final(errors)@) == strs_view(old(errors)@) + {
            let files = owned_keys(strs_view(p.files@));
            let paths = op_paths(p.operations@);
            outside_files(w@, keys_view(owned@), files, files.len() as int) + outside_operations(
                w@,
                keys_view(owned@),
                files,
                paths,
                paths.len() as int,
            )
        },
{
    let ghost start = strs_view(errors@);
    let ghost ov = keys_view(owned@);
    let files = owned_keys_of(&p.files);
    let ghost fv = keys_view(files@);
    let mut i: usize = 0;
    while i < files.len()
        invariant
            i <= files.len(),
            fv == keys_view(files@),
            ov == keys_view(owned@),
            strs_view(errors@) == start + outside_files(w@, ov, fv, i as int),
        decreases files.len() - i,
    {
        let ghost before = strs_view(errors@);
        if !is_covered(&files[i], owned) {
            let shown = render_key(&files[i]);
            let head = join3("employee '", w, "' proposed file ");
            errors.push(join3(head.as_str(), shown.as_str(), " outside its mutation scope"));
        }
        proof {
            assert(fv[i as int] == strs_view(files@[i as int]@));
            assert(strs_view(errors@) =~= before + opt_msg(
                !covered(fv[i as int], ov),
                outside_file_msg(w@, render(fv[i as int])),
            ));
        }
        i += 1;
    }
    let ghost mid = strs_view(errors@);
    let ghost paths = op_paths(p.operations@);
    let mut j: usize = 0;
    while j < p.operations.len()
        invariant
            j <= p.operations.len(),
            fv == keys_view(files@),
            ov == keys_view(owned@),
            paths == op_paths(p.operations@),
            strs_view(errors@) == mid + outside_operations(w@, ov, fv, paths, j as int),
        decreases p.operations.len() - j,
    {
        let ghost before = strs_view(errors@);
        let (k, _, _) = path_key_of(p.operations[j].path());
        proof {
            assert(paths[j as int] == p.operations@[j as int].path_view());
        }
        if !is_covered(&k, &files) || !is_covered(&k, owned) {
            let shown = render_key(&k);
            let head = join3("employee '", w, "' proposed operation on ");
            errors.push(
                join3(head.as_str(), shown.as_str(), " outside its declared files or mutation scope"),
            );
        }
        proof {
            let kv = path_key(paths[j as int]);
            assert(strs_view(errors@) =~= before + opt_msg(
                !covered(kv, fv) || !covered(kv, ov),
                outside_operation_msg(w@, render(kv)),
            ));
        }
        j += 1;
    }
    proof {
        assert(strs_view(errors@) =~= start + (outside_files(w@, ov, fv, fv.len() as int)
            + outside_operations(w@, ov, fv, paths, paths.len() as int)));
    }
}

/// Checks every proposal against the selected employees and the files they
/// own. An empty list means every selected employee sent exactly one
/// proposal that stays inside its scope.
pub fn validate_organization_proposals(
    assignments: &Vec<WorkerAssignment>,
    proposals: &Vec<WorkerPatchProposal>,
) -> (errors: Vec<String>)
    ensures
        strs_view(errors@) == proposal_errors(assignments@, proposals@),
{
    let ghost ps = proposals@;
    let sel = selected_names(assignments);
    let mut errors: Vec<String> = Vec::new();
    let mut i: usize = 0;
    while i < proposals.len()
        invariant
            i <= proposals.len(),
            ps == proposals@,
            strs_view(errors@) == proposal_errors_upto(assignments@, ps, i as int),
        decreases proposals.len() - i,
    {
        let p = &proposals[i];
        let w = p.worker.as_str();
        let ghost before = strs_view(errors@);
        if proposal_seen_before(proposals, i) {
            errors.push(join3("employee '", w, "' submitted more than one patch proposal"));
        }
        let found = find_last_assignment(assignments, w);
        if found.is_none() {
            errors.push(join3("patch proposal references unselected employee '", w, "'"));
        }
        if is_blank(p.summary.as_str()) {
            errors.push(join3("employee '", w, "' submitted an empty patch summary"));
        }
        if p.files.len() == 0 || p.operations.len() == 0 {
            errors.push(join3("employee '", w, "' must submit named files and patch operations"));
        }
        let ghost mid = strs_view(errors@);
        match found {
            Some(a) => {
                let owned = owned_keys_of(&assignments[a].owned_files);
                scope_violations(&mut errors, w, &owned, p);
            },
            None => {},
        }
        proof {
            assert(strs_view(errors@) =~= before + proposal_entry_errors(assignments@, ps, i as int));
        }
        i += 1;
    }
    let ghost sv = strs_view(sel@);
    let mut m: usize = 0;
    while m < sel.len()
        invariant
            m <= sel.len(),
            ps == proposals@,
            sv == strs_view(sel@),
            sv == selected(assignments@),
            strs_view(errors@) == proposal_errors_upto(assignments@, ps, ps.len() as int)
                + missing_proposals(sv, ps, m as int),
        decreases sel.len() - m,
    {
        let ghost before = strs_view(errors@);
        let mut found = false;
        let mut j: usize = 0;
        while j < proposals.len()
            invariant
                j <= proposals.len(),
                m < sel.len(),
                found == exists|q: int| 0 <= q < j && #[trigger] proposals@[q].worker@ == sel@[m as int]@,
            decreases proposals.len() - j,
        {
            if str_eq(proposals[j].worker.as_str(), sel[m].as_str()) {
                found = true;
            }
            j += 1;
        }
        if !found {
            errors.push(join3("selected mutation employee '", sel[m].as_str(), "' submitted no patch proposal"));
        }
        proof {
            assert(sv[m as int] == sel@[m as int]@);
            assert(strs_view(errors@) =~= before + opt_msg(
                !has_proposal(ps, sv[m as int]),
                missing_proposal_msg(sv[m as int]),
            ));
        }
        m += 1;
    }
    errors
}

/// The mutation contract: the file scopes first, and only if they hold, the
/// proposals against them.
pub fn apply_organization_mutation_contract(
    assignments: &mut Vec<WorkerAssignment>,
    file_scopes: &Vec<OrganizationFileScope>,
    proposals: &Vec<WorkerPatchProposal>,
) -> (errors: Vec<String>)
    ensures
        scoped_assignments(
            old(assignments)@,
            final(assignments)@,
            file_scopes@,
            file_scope_errors(old(assignments)@, file_scopes@).len() == 0,
        ),
        strs_view(errors@) == if file_scope_errors(old(assignments)@, file_scopes@).len() == 0 {
            proposal_errors(final(assignments)@, proposals@)
        } else {
            file_scope_errors(old(assignments)@, file_scopes@)
        },
{
    let errors = apply_organization_file_scopes(assignments, file_scopes);
    if errors.len() == 0 {
        validate_organization_proposals(assignments, proposals)
    } else {
        errors
    }
}

} // verus!
