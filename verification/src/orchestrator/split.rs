//! Splitting a task by files: each worker gets every n-th indexed file.
use vstd::prelude::*;
use crate::execution_graph::types::strs_view;
use crate::profile::{AgentProfile, ProfileView};
use crate::text::{decimal, decimal_string, join2, join3};
use super::types::WorkerAssignment;

verus! {

/// The files at the positions that leave remainder `i` modulo `n`, in order.
pub open spec fn group(files: Seq<Seq<char>>, n: nat, i: nat, upto: int) -> Seq<Seq<char>>
    decreases upto,
{
    if upto <= 0 {
        Seq::empty()
    } else if (upto - 1) % (n as int) == i as int {
        group(files, n, i, upto - 1).push(files[upto - 1])
    } else {
        group(files, n, i, upto - 1)
    }
}

/// Lines joined by newlines.
pub open spec fn lines_joined(parts: Seq<Seq<char>>) -> Seq<char>
    decreases parts.len(),
{
    if parts.len() == 0 {
        Seq::empty()
    } else if parts.len() == 1 {
        parts[0]
    } else {
        lines_joined(parts.drop_last()) + "\n"@ + parts.last()
    }
}

/// The brief of the `i`-th worker: its files when it has any, else its
/// group number.
pub open spec fn split_brief(task: Seq<char>, owned: Seq<Seq<char>>, i: nat) -> Seq<char> {
    if owned.len() > 0 {
        task + "\n\n你负责的文件:\n"@ + lines_joined(owned)
    } else {
        task + "\n\n负责的文件：第 "@ + decimal(i) + " 组"@
    }
}

/// Whether `assignments` is the split of the task among the profiles.
pub open spec fn split_of(
    task: Seq<char>,
    profiles: Seq<AgentProfile>,
    files: Seq<Seq<char>>,
    assignments: Seq<WorkerAssignment>,
) -> bool {
    if profiles.len() == 0 {
        assignments.len() == 0
    } else if files.len() == 0 {
        &&& assignments.len() == 1
        &&& assignments[0].worker_name@ == profiles[0].name@
        &&& assignments[0].task_description@ == task
        &&& assignments[0].owned_files@.len() == 0
        &&& assignments[0].profile@ == profiles[0]@
    } else {
        &&& assignments.len() == profiles.len()
        &&& forall|i: int|
            0 <= i < profiles.len() ==> {
                let owned = group(files, profiles.len(), i as nat, files.len() as int);
                &&& (#[trigger] assignments[i]).worker_name@ == profiles[i].name@
                &&& strs_view(assignments[i].owned_files@) == owned
                &&& assignments[i].task_description@ == split_brief(task, owned, i as nat)
                &&& assignments[i].profile@ == profiles[i]@
            }
    }
}

pub(crate) fn join_lines(parts: &Vec<String>) -> (s: String)
    ensures
        s@ == lines_joined(strs_view(parts@)),
{
    let ghost ps = strs_view(parts@);
    let mut s = String::new();
    let mut i: usize = 0;
    while i < parts.len()
        invariant
            i <= parts.len(),
            ps == strs_view(parts@),
            s@ == lines_joined(ps.take(i as int)),
        decreases parts.len() - i,
    {
        let ghost before = ps.take(i as int);
        if i > 0 {
            s.append("\n");
        }
        s.append(parts[i].as_str());
        proof {
            let after = ps.take(i + 1);
            assert(after.drop_last() =~= before);
            assert(after.last() == ps[i as int]);
            if i == 0 {
                assert(after.len() == 1);
                assert(s@ =~= after[0]);
            }
        }
        i += 1;
    }
    proof {
        assert(ps.take(parts.len() as int) =~= ps);
    }
    s
}

/// Splits a task into file-scoped assignments, dealing the files out to the
/// workers in turn.
pub fn split_task(task_description: &str, profiles: &[AgentProfile], files: &Vec<String>) -> (r: Vec<WorkerAssignment>)
    ensures
        split_of(task_description@, profiles@, strs_view(files@), r@),
{
    let mut out: Vec<WorkerAssignment> = Vec::new();
    if profiles.len() == 0 {
        return out;
    }
    if files.len() == 0 {
        out.push(
            WorkerAssignment {
                worker_name: profiles[0].name.clone(),
                task_description: task_description.to_owned(),
                owned_files: Vec::new(),
                profile: profiles[0].clone(),
            },
        );
        return out;
    }
    let ghost fv = strs_view(files@);
    let n = profiles.len();
    let mut i: usize = 0;
    while i < n
        invariant
            i <= n,
            n == profiles@.len(),
            n > 0,
            files@.len() > 0,
            fv == strs_view(files@),
            out@.len() == i,
            forall|q: int|
                0 <= q < i ==> {
                    let owned = group(fv, n as nat, q as nat, fv.len() as int);
                    &&& (#[trigger] out@[q]).worker_name@ == profiles@[q].name@
                    &&& strs_view(out@[q].owned_files@) == owned
                    &&& out@[q].task_description@ == split_brief(task_description@, owned, q as nat)
                    &&& out@[q].profile@ == profiles@[q]@
                },
        decreases n - i,
    {
        let mut owned: Vec<String> = Vec::new();
        let mut k: usize = 0;
        while k < files.len()
            invariant
                k <= files.len(),
                n > 0,
                i < n,
                fv == strs_view(files@),
                strs_view(owned@) == group(fv, n as nat, i as nat, k as int),
            decreases files.len() - k,
        {
            if k % n == i {
                let ghost before = owned@;
                owned.push(files[k].clone());
                proof {
                    assert(strs_view(owned@) =~= strs_view(before).push(fv[k as int]));
                }
            }
            k += 1;
        }
        let text = if owned.len() > 0 {
            let listed = join_lines(&owned);
            join3(task_description, "\n\n你负责的文件:\n", listed.as_str())
        } else {
            let number = decimal_string(i as u64);
            let head = join3(task_description, "\n\n负责的文件：第 ", number.as_str());
            join2(head.as_str(), " 组")
        };
        out.push(
            WorkerAssignment {
                worker_name: profiles[i].name.clone(),
                task_description: text,
                owned_files: owned,
                profile: profiles[i].clone(),
            },
        );
        i += 1;
    }
    out
}

} // verus!
