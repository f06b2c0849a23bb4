//! The mutation contract: every selected employee owns an explicit set of
//! relative files, and every proposal stays inside the files its author owns
//! and declared.
use vstd::prelude::*;
use crate::execution_graph::types::strs_view;
use crate::patch::PatchOperation;
use crate::text::{blank, is_blank, join3, str_eq};
use super::paths::{
    copy_key, has_parent_piece, is_absolute, key_owns, normalized, owns, path_key, path_key_of, render,
    render_key,
};
use super::sorting::{keys_view, sorted_distinct, sorted_keys};
use super::types::{OrganizationFileScope, WorkerAssignment, WorkerPatchProposal};

verus! {

// ----- normalised file sets -----

pub open spec fn file_keys(files: Seq<Seq<char>>) -> Seq<Seq<Seq<char>>> {
    files.map_values(|f: Seq<char>| path_key(f))
}

/// The normalised components of a file list: distinct, in path order.
pub open spec fn owned_keys(files: Seq<Seq<char>>) -> Seq<Seq<Seq<char>>> {
    sorted_keys(file_keys(files))
}

/// The normalised text of a file list: distinct, in path order.
pub open spec fn normalized_files(files: Seq<Seq<char>>) -> Seq<Seq<char>> {
    owned_keys(files).map_values(|k: Seq<Seq<char>>| render(k))
}

pub(crate) fn owned_keys_of(files: &Vec<String>) -> (r: Vec<Vec<String>>)
    ensures
        keys_view(r@) == owned_keys(strs_view(files@)),
{
    let mut keys: Vec<Vec<String>> = Vec::new();
    let mut i: usize = 0;
    while i < files.len()
        invariant
            i <= files.len(),
            keys@.len() == i,
            forall|q: int| 0 <= q < i ==> strs_view((#[trigger] keys@[q])@) == path_key(files@[q]@),
        decreases files.len() - i,
    {
        let (k, _, _) = path_key_of(files[i].as_str());
        keys.push(k);
        i += 1;
    }
    proof {
        assert(keys_view(keys@) =~= file_keys(strs_view(files@)));
    }
    sorted_distinct(&keys)
}

fn render_keys(keys: &Vec<Vec<String>>) -> (r: Vec<String>)
    ensures
        strs_view(r@) == keys_view(keys@).map_values(|k: Seq<Seq<char>>| render(k)),
{
    let mut out: Vec<String> = Vec::new();
    let mut i: usize = 0;
    while i < keys.len()
        invariant
            i <= keys.len(),
            out@.len() == i,
            forall|q: int| 0 <= q < i ==> (#[trigger] out@[q])@ == render(strs_view(keys@[q]@)),
        decreases keys.len() - i,
    {
        out.push(render_key(&keys[i]));
        i += 1;
    }
    proof {
        assert(strs_view(out@) =~= keys_view(keys@).map_values(|k: Seq<Seq<char>>| render(k)));
    }
    out
}

/// The files normalised, without repeats, in path order.
pub fn normalize_owned_files(files: &Vec<String>) -> (r: Vec<String>)
    ensures
        strs_view(r@) == normalized_files(strs_view(files@)),
{
    let keys = owned_keys_of(files);
    render_keys(&keys)
}

// ----- who is selected -----

pub open spec fn names_of(assignments: Seq<WorkerAssignment>) -> Seq<Seq<char>> {
    assignments.map_values(|a: WorkerAssignment| a.worker_name@)
}

pub open spec fn name_keys(names: Seq<Seq<char>>) -> Seq<Seq<Seq<char>>> {
    names.map_values(|n: Seq<char>| seq![n])
}

/// The selected employees, without repeats, in name order.
pub open spec fn selected(assignments: Seq<WorkerAssignment>) -> Seq<Seq<char>> {
    sorted_keys(name_keys(names_of(assignments))).map_values(|k: Seq<Seq<char>>| k[0])
}

pub(crate) fn selected_names(assignments: &Vec<WorkerAssignment>) -> (r: Vec<String>)
    ensures
        strs_view(r@) == selected(assignments@),
        forall|n: Seq<char>| strs_view(r@).contains(n) <==> names_of(assignments@).contains(n),
{
    let mut keys: Vec<Vec<String>> = Vec::new();
    let mut i: usize = 0;
    while i < assignments.len()
        invariant
            i <= assignments.len(),
            keys@.len() == i,
            forall|q: int| 0 <= q < i ==> strs_view((#[trigger] keys@[q])@) == seq![assignments@[q].worker_name@],
        decreases assignments.len() - i,
    {
        let mut k: Vec<String> = Vec::new();
        k.push(assignments[i].worker_name.clone());
        proof {
            assert(strs_view(k@) =~= seq![assignments@[i as int].worker_name@]);
        }
        keys.push(k);
        i += 1;
    }
    let ghost nk = name_keys(names_of(assignments@));
    proof {
        assert(keys_view(keys@) =~= nk);
    }
    let sorted = sorted_distinct(&keys);
    let ghost sk = keys_view(sorted@);
    proof {
        assert forall|q: int| 0 <= q < sk.len() implies (#[trigger] sk[q]).len() == 1 by {
            assert(sk.contains(sk[q]));
            let p = choose|p: int| 0 <= p < nk.len() && nk[p] == sk[q];
            assert(nk[p] == seq![names_of(assignments@)[p]]);
        }
    }
    let mut out: Vec<String> = Vec::new();
    let mut j: usize = 0;
    while j < sorted.len()
        invariant
            j <= sorted.len(),
            sk == keys_view(sorted@),
            forall|x: Seq<Seq<char>>| sk.contains(x) <==> nk.contains(x),
            nk == name_keys(names_of(assignments@)),
            forall|q: int| 0 <= q < sk.len() ==> (#[trigger] sk[q]).len() == 1,
            out@.len() == j,
            forall|q: int| 0 <= q < j ==> (#[trigger] out@[q])@ == sk[q][0],
        decreases sorted.len() - j,
    {
        proof {
            assert(sk[j as int].len() == 1);
            assert(sk[j as int] == strs_view(sorted@[j as int]@));
        }
        out.push(sorted[j][0].clone());
        j += 1;
    }
    proof {
        assert(strs_view(out@) =~= sk.map_values(|k: Seq<Seq<char>>| k[0]));
        let names = names_of(assignments@);
        assert forall|n: Seq<char>| strs_view(out@).contains(n) <==> names.contains(n) by {
            if strs_view(out@).contains(n) {
                let q = choose|q: int| 0 <= q < out@.len() && strs_view(out@)[q] == n;
                assert(sk.contains(sk[q]));
                let p = choose|p: int| 0 <= p < nk.len() && nk[p] == sk[q];
                assert(names[p] == n);
            }
            if names.contains(n) {
                let p = choose|p: int| 0 <= p < names.len() && names[p] == n;
                assert(nk[p] == seq![n]);
                assert(nk.contains(seq![n]));
                let q = choose|q: int| 0 <= q < sk.len() && sk[q] == seq![n];
                assert(strs_view(out@)[q] == n);
            }
        }
    }
    out
}

fn is_selected(assignments: &Vec<WorkerAssignment>, name: &str) -> (b: bool)
    ensures
        b == names_of(assignments@).contains(name@),
{
    let mut i: usize = 0;
    while i < assignments.len()
        invariant
            i <= assignments.len(),
            forall|q: int| 0 <= q < i ==> assignments@[q].worker_name@ != name@,
        decreases assignments.len() - i,
    {
        if str_eq(assignments[i].worker_name.as_str(), name) {
            proof {
                assert(names_of(assignments@)[i as int] == name@);
            }
            return true;
        }
        i += 1;
    }
    proof {
        assert forall|q: int| 0 <= q < names_of(assignments@).len() implies names_of(assignments@)[q]
            != name@ by {
            assert(names_of(assignments@)[q] == assignments@[q].worker_name@);
        }
    }
    false
}

// ----- file scopes -----

pub open spec fn bad_scope_path(f: Seq<char>) -> bool {
    normalized(f).len() == 0 || is_absolute(f) || has_parent_piece(f)
}

/// A scope must name at least one relative file with no `..` in it.
pub open spec fn scope_shape_bad(files: Seq<Seq<char>>) -> bool {
    files.len() == 0 || exists|k: int| 0 <= k < files.len() && bad_scope_path(#[trigger] files[k])
}

pub open spec fn duplicate_scope_msg(e: Seq<char>) -> Seq<char> {
    "employee '"@ + e + "' has duplicate file scope entries"@
}

pub open spec fn unselected_scope_msg(e: Seq<char>) -> Seq<char> {
    "file scope references unselected employee '"@ + e + "'"@
}

pub open spec fn scope_shape_msg(e: Seq<char>) -> Seq<char> {
    "mutation employee '"@ + e + "' must have at least one relative owned file without parent traversal"@
}

pub open spec fn missing_scope_msg(e: Seq<char>) -> Seq<char> {
    "selected mutation employee '"@ + e + "' has no file scope"@
}

pub open spec fn scope_named_before(scopes: Seq<OrganizationFileScope>, i: int) -> bool {
    exists|j: int| 0 <= j < i && #[trigger] scopes[j].employee@ == scopes[i].employee@
}

pub open spec fn opt_msg(b: bool, m: Seq<char>) -> Seq<Seq<char>> {
    if b {
        seq![m]
    } else {
        Seq::empty()
    }
}

/// The complaints about one scope entry, in the order they are checked.
pub open spec fn scope_entry_errors(
    scopes: Seq<OrganizationFileScope>,
    i: int,
    names: Seq<Seq<char>>,
) -> Seq<Seq<char>> {
    let e = scopes[i].employee@;
    opt_msg(scope_named_before(scopes, i), duplicate_scope_msg(e)) + opt_msg(
        !names.contains(e),
        unselected_scope_msg(e),
    ) + opt_msg(scope_shape_bad(strs_view(scopes[i].owned_files@)), scope_shape_msg(e))
}

pub open spec fn scope_errors_upto(
    scopes: Seq<OrganizationFileScope>,
    n: int,
    names: Seq<Seq<char>>,
) -> Seq<Seq<char>>
    decreases n,
{
    if n <= 0 {
        Seq::empty()
    } else {
        scope_errors_upto(scopes, n - 1, names) + scope_entry_errors(scopes, n - 1, names)
    }
}

pub open spec fn has_scope(scopes: Seq<OrganizationFileScope>, name: Seq<char>) -> bool {
    exists|j: int| 0 <= j < scopes.len() && #[trigger] scopes[j].employee@ == name
}

pub open spec fn missing_scope_errors(
    sel: Seq<Seq<char>>,
    scopes: Seq<OrganizationFileScope>,
    n: int,
) -> Seq<Seq<char>>
    decreases n,
{
    if n <= 0 {
        Seq::empty()
    } else {
        missing_scope_errors(sel, scopes, n - 1) + opt_msg(
            !has_scope(scopes, sel[n - 1]),
            missing_scope_msg(sel[n - 1]),
        )
    }
}

/// Everything wrong with the scopes given for the selected employees.
pub open spec fn file_scope_errors(
    assignments: Seq<WorkerAssignment>,
    scopes: Seq<OrganizationFileScope>,
) -> Seq<Seq<char>> {
    scope_errors_upto(scopes, scopes.len() as int, names_of(assignments)) + missing_scope_errors(
        selected(assignments),
        scopes,
        selected(assignments).len() as int,
    )
}

/// The scope entry given for an employee.
pub open spec fn scope_for(scopes: Seq<OrganizationFileScope>, name: Seq<char>) -> int {
    choose|j: int| 0 <= j < scopes.len() && scopes[j].employee@ == name
}

/// The assignments keep everything but their files; with no complaint each
/// owns exactly the normalised files of its scope, else nothing changes.
pub open spec fn scoped_assignments(
    before: Seq<WorkerAssignment>,
    after: Seq<WorkerAssignment>,
    scopes: Seq<OrganizationFileScope>,
    ok: bool,
) -> bool {
    &&& after.len() == before.len()
    &&& forall|i: int|
        0 <= i < before.len() ==> {
            &&& (#[trigger] after[i]).worker_name == before[i].worker_name
            &&& after[i].task_description == before[i].task_description
            &&& after[i].profile == before[i].profile
            &&& if ok {
                strs_view(after[i].owned_files@) == normalized_files(
                    strs_view(scopes[scope_for(scopes, before[i].worker_name@)].owned_files@),
                )
            } else {
                after[i].owned_files == before[i].owned_files
            }
        }
}

fn scope_seen_before(scopes: &Vec<OrganizationFileScope>, i: usize) -> (b: bool)
    requires
        i < scopes.len(),
    ensures
        b == scope_named_before(scopes@, i as int),
{
    let mut j: usize = 0;
    while j < i
        invariant
            j <= i < scopes.len(),
            forall|q: int| 0 <= q < j ==> scopes@[q].employee@ != scopes@[i as int].employee@,
        decreases i - j,
    {
        if str_eq(scopes[j].employee.as_str(), scopes[i].employee.as_str()) {
            return true;
        }
        j += 1;
    }
    false
}

fn scope_shape_is_bad(files: &Vec<String>) -> (b: bool)
    ensures
        b == scope_shape_bad(strs_view(files@)),
{
    if files.len() == 0 {
        return true;
    }
    let mut k: usize = 0;
    while k < files.len()
        invariant
            k <= files.len(),
            forall|q: int| 0 <= q < k ==> !bad_scope_path(#[trigger] strs_view(files@)[q]),
        decreases files.len() - k,
    {
        let (key, absolute, parent) = path_key_of(files[k].as_str());
        let text = render_key(&key);
        if text.as_str().is_empty() || absolute || parent {
            proof {
                assert(bad_scope_path(strs_view(files@)[k as int]));
            }
            return true;
        }
        proof {
            assert(!bad_scope_path(strs_view(files@)[k as int]));
        }
        k += 1;
    }
    false
}

fn find_scope(scopes: &Vec<OrganizationFileScope>, name: &str) -> (r: Option<usize>)
    ensures
        r is Some <==> has_scope(scopes@, name@),
        r matches Some(j) ==> j < scopes.len() && scopes@[j as int].employee@ == name@,
{
    let mut j: usize = 0;
    while j < scopes.len()
        invariant
            j <= scopes.len(),
            forall|q: int| 0 <= q < j ==> scopes@[q].employee@ != name@,
        decreases scopes.len() - j,
    {
        if str_eq(scopes[j].employee.as_str(), name) {
            return Some(j);
        }
        j += 1;
    }
    None
}

/// Checks the file scopes against the selected employees. With no complaint
/// every assignment takes the normalised files of its scope.
pub fn apply_organization_file_scopes(
    assignments: &mut Vec<WorkerAssignment>,
    file_scopes: &Vec<OrganizationFileScope>,
) -> (errors: Vec<String>)
    ensures
        strs_view(errors@) == file_scope_errors(old(assignments)@, file_scopes@),
        scoped_assignments(old(assignments)@, final(assignments)@, file_scopes@, errors@.len() == 0),
{
    let ghost scopes = file_scopes@;
    let ghost names = names_of(assignments@);
    let sel = selected_names(assignments);
    let mut errors: Vec<String> = Vec::new();
    let mut i: usize = 0;
    while i < file_scopes.len()
        invariant
            i <= file_scopes.len(),
            scopes == file_scopes@,
            names == names_of(assignments@),
            strs_view(errors@) == scope_errors_upto(scopes, i as int, names),
        decreases file_scopes.len() - i,
    {
        let e = file_scopes[i].employee.as_str();
        let ghost before = strs_view(errors@);
        if scope_seen_before(file_scopes, i) {
            errors.push(join3("employee '", e, "' has duplicate file scope entries"));
        }
        if !is_selected(assignments, e) {
            errors.push(join3("file scope references unselected employee '", e, "'"));
        }
        if scope_shape_is_bad(&file_scopes[i].owned_files) {
            errors.push(
                join3(
                    "mutation employee '",
                    e,
                    "' must have at least one relative owned file without parent traversal",
                ),
            );
        }
        proof {
            assert(strs_view(errors@) =~= before + scope_entry_errors(scopes, i as int, names));
        }
        i += 1;
    }
    let ghost sv = strs_view(sel@);
    let mut m: usize = 0;
    while m < sel.len()
        invariant
            m <= sel.len(),
            scopes == file_scopes@,
            names == names_of(assignments@),
            sv == strs_view(sel@),
            sv == selected(assignments@),
            strs_view(errors@) == scope_errors_upto(scopes, scopes.len() as int, names)
                + missing_scope_errors(sv, scopes, m as int),
        decreases sel.len() - m,
    {
        let ghost before = strs_view(errors@);
        if find_scope(file_scopes, sel[m].as_str()).is_none() {
            errors.push(join3("selected mutation employee '", sel[m].as_str(), "' has no file scope"));
        }
        proof {
            assert(sv[m as int] == sel@[m as int]@);
            assert(strs_view(errors@) =~= before + opt_msg(
                !has_scope(scopes, sv[m as int]),
                missing_scope_msg(sv[m as int]),
            ));
        }
        m += 1;
    }
    let ghost old_assignments = assignments@;
    if errors.len() == 0 {
        proof {
            lemma_no_errors_facts(old_assignments, scopes, sv);
        }
        let mut k: usize = 0;
        while k < assignments.len()
            invariant
                k <= assignments.len(),
                assignments@.len() == old_assignments.len(),
                scopes == file_scopes@,
                forall|q: int|
                    0 <= q < old_assignments.len() ==> has_scope(scopes, (#[trigger] old_assignments[q]).worker_name@),
                forall|a: int, b: int|
                    0 <= a < scopes.len() && 0 <= b < scopes.len() && #[trigger] scopes[a].employee@
                        == #[trigger] scopes[b].employee@ ==> a == b,
                forall|q: int|
                    0 <= q < old_assignments.len() ==> {
                        &&& (#[trigger] assignments@[q]).worker_name == old_assignments[q].worker_name
                        &&& assignments@[q].task_description == old_assignments[q].task_description
                        &&& assignments@[q].profile == old_assignments[q].profile
                    },
                forall|q: int|
                    0 <= q < k ==> strs_view((#[trigger] assignments@[q]).owned_files@) == normalized_files(
                        strs_view(scopes[scope_for(scopes, old_assignments[q].worker_name@)].owned_files@),
                    ),
                forall|q: int|
                    k <= q < old_assignments.len() ==> (#[trigger] assignments@[q]).owned_files
                        == old_assignments[q].owned_files,
            decreases assignments.len() - k,
        {
            proof {
                assert(has_scope(scopes, old_assignments[k as int].worker_name@));
            }
            let found = find_scope(file_scopes, assignments[k].worker_name.as_str());
            let j = match found {
                Some(j) => j,
                None => {
                    proof {
                        assert(false);
                    }
                    0
                },
            };
            let files = normalize_owned_files(&file_scopes[j].owned_files);
            proof {
                let c = scope_for(scopes, old_assignments[k as int].worker_name@);
                assert(0 <= c < scopes.len() && scopes[c].employee@ == scopes[j as int].employee@);
                assert(c == j);
            }
            let ghost prev = assignments@;
            assignments[k].owned_files = files;
            proof {
                assert forall|q: int| 0 <= q < old_assignments.len() && q != k implies assignments@[q]
                    == prev[q] by {
                }
            }
            k += 1;
        }
    }
    errors
}

proof fn lemma_no_errors_facts(
    assignments: Seq<WorkerAssignment>,
    scopes: Seq<OrganizationFileScope>,
    sv: Seq<Seq<char>>,
)
    requires
        file_scope_errors(assignments, scopes).len() == 0,
        sv == selected(assignments),
        forall|n: Seq<char>| sv.contains(n) <==> names_of(assignments).contains(n),
    ensures
        forall|q: int|
            0 <= q < assignments.len() ==> has_scope(scopes, (#[trigger] assignments[q]).worker_name@),
        forall|a: int, b: int|
            0 <= a < scopes.len() && 0 <= b < scopes.len() && #[trigger] scopes[a].employee@
                == #[trigger] scopes[b].employee@ ==> a == b,
{
    let names = names_of(assignments);
    assert forall|q: int| 0 <= q < assignments.len() implies has_scope(
        scopes,
        (#[trigger] assignments[q]).worker_name@,
    ) by {
        let n = assignments[q].worker_name@;
        assert(names[q] == n);
        assert(sv.contains(n));
        let p = choose|p: int| 0 <= p < sv.len() && sv[p] == n;
        lemma_missing_at(sv, scopes, sv.len() as int, p);
    }
    assert forall|a: int, b: int|
        0 <= a < scopes.len() && 0 <= b < scopes.len() && #[trigger] scopes[a].employee@
            == #[trigger] scopes[b].employee@ implies a == b by {
        if a < b {
            assert(scope_named_before(scopes, b));
            lemma_upto_at(scopes, scopes.len() as int, names, b);
        } else if b < a {
            assert(scope_named_before(scopes, a));
            lemma_upto_at(scopes, scopes.len() as int, names, a);
        }
    }
}

/// A complaint about one entry shows up in the whole list.
proof fn lemma_upto_at(scopes: Seq<OrganizationFileScope>, n: int, names: Seq<Seq<char>>, i: int)
    requires
        0 <= i < n,
        scope_named_before(scopes, i),
    ensures
        scope_errors_upto(scopes, n, names).len() > 0,
    decreases n,
{
    if i < n - 1 {
        lemma_upto_at(scopes, n - 1, names, i);
    }
}

proof fn lemma_missing_at(sel: Seq<Seq<char>>, scopes: Seq<OrganizationFileScope>, n: int, p: int)
    requires
        0 <= p < n,
        missing_scope_errors(sel, scopes, n).len() == 0,
    ensures
        has_scope(scopes, sel[p]),
    decreases n,
{
    if p < n - 1 {
        lemma_missing_at(sel, scopes, n - 1, p);
    }
}

} // verus!
