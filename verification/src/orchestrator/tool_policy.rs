//! Which tools a worker may hold in each kind of organization run.
use vstd::prelude::*;
use crate::organization::types::WorkerWorkspaceMode;
use crate::text::{join2, join3, str_eq};
use super::types::WorkerAssignment;

verus! {

/// What the policy reads of a tool a worker can call.
#[derive(Debug, Clone, PartialEq, Eq)]
pub struct ToolAccess {
    pub name: String,
    /// The tool declares itself read-only.
    pub read_only: bool,
    /// Its side effect is classed as read-only.
    pub side_effect_read_only: bool,
    /// It cannot reach outside the workspace.
    pub workspace_only: bool,
}

/// A read-only run admits only tools that are read-only in both respects.
pub open spec fn breaks_read_only(t: ToolAccess) -> bool {
    !t.read_only || !t.side_effect_read_only
}

/// A sandboxed worker may keep the workspace write and edit tools, which
/// the sandbox replaces, and the shell; any other tool with a side effect
/// is refused.
pub open spec fn breaks_sandbox(t: ToolAccess) -> bool {
    let replaced = ((t.name@ == "write_file"@ || t.name@ == "edit"@) && t.workspace_only) || t.name@ == "shell"@;
    !t.side_effect_read_only && !replaced
}

/// The name of the first tool a read-only run refuses, if any.
pub open spec fn read_only_breaker(tools: Seq<ToolAccess>) -> Option<Seq<char>>
    decreases tools.len(),
{
    if tools.len() == 0 {
        None
    } else if breaks_read_only(tools[0]) {
        Some(tools[0].name@)
    } else {
        read_only_breaker(tools.drop_first())
    }
}

/// The name of the first tool a sandboxed run refuses, if any.
pub open spec fn sandbox_breaker(tools: Seq<ToolAccess>) -> Option<Seq<char>>
    decreases tools.len(),
{
    if tools.len() == 0 {
        None
    } else if breaks_sandbox(tools[0]) {
        Some(tools[0].name@)
    } else {
        sandbox_breaker(tools.drop_first())
    }
}

fn sandbox_breaking(t: &ToolAccess) -> (b: bool)
    ensures
        b == breaks_sandbox(*t),
{
    let replaced = ((str_eq(t.name.as_str(), "write_file") || str_eq(t.name.as_str(), "edit")) && t.workspace_only)
        || str_eq(t.name.as_str(), "shell");
    !t.side_effect_read_only && !replaced
}

/// The first of a worker's tools that a read-only run refuses.
pub fn organization_read_only_blocker(tools: &Vec<ToolAccess>) -> (r: Option<String>)
    ensures
        crate::execution_graph::types::opt_view(r) == read_only_breaker(tools@),
{
    let mut i: usize = 0;
    proof {
        assert(tools@.subrange(0, tools@.len() as int) =~= tools@);
    }
    while i < tools.len()
        invariant
            i <= tools.len(),
            read_only_breaker(tools@) == read_only_breaker(tools@.subrange(i as int, tools@.len() as int)),
        decreases tools.len() - i,
    {
        proof {
            let tail = tools@.subrange(i as int, tools@.len() as int);
            assert(tail[0] == tools@[i as int]);
            assert(tail.drop_first() =~= tools@.subrange(i + 1, tools@.len() as int));
        }
        if !tools[i].read_only || !tools[i].side_effect_read_only {
            return Some(tools[i].name.clone());
        }
        i += 1;
    }
    proof {
        assert(tools@.subrange(i as int, tools@.len() as int) =~= Seq::<ToolAccess>::empty());
    }
    None
}

/// The first of a worker's tools that a sandboxed run refuses.
pub fn organization_sandbox_blocker(tools: &Vec<ToolAccess>) -> (r: Option<String>)
    ensures
        crate::execution_graph::types::opt_view(r) == sandbox_breaker(tools@),
{
    let mut i: usize = 0;
    proof {
        assert(tools@.subrange(0, tools@.len() as int) =~= tools@);
    }
    while i < tools.len()
        invariant
            i <= tools.len(),
            sandbox_breaker(tools@) == sandbox_breaker(tools@.subrange(i as int, tools@.len() as int)),
        decreases tools.len() - i,
    {
        proof {
            let tail = tools@.subrange(i as int, tools@.len() as int);
            assert(tail[0] == tools@[i as int]);
            assert(tail.drop_first() =~= tools@.subrange(i + 1, tools@.len() as int));
        }
        if sandbox_breaking(&tools[i]) {
            return Some(tools[i].name.clone());
        }
        i += 1;
    }
    proof {
        assert(tools@.subrange(i as int, tools@.len() as int) =~= Seq::<ToolAccess>::empty());
    }
    None
}

pub open spec fn mode_word(m: WorkerWorkspaceMode) -> Seq<char> {
    match m {
        WorkerWorkspaceMode::ProposalOnly => "proposal-only"@,
        WorkerWorkspaceMode::IsolatedSandbox => "isolated-sandbox"@,
    }
}

/// Why a mutation worker may not run: in sandbox mode, the first of its
/// tools the sandbox refuses; proposal-only workers keep their tools.
pub open spec fn worker_blocker(worker: Seq<char>, tools: Seq<ToolAccess>, m: WorkerWorkspaceMode) -> Option<Seq<char>> {
    match m {
        WorkerWorkspaceMode::ProposalOnly => None,
        WorkerWorkspaceMode::IsolatedSandbox => match sandbox_breaker(tools) {
            Some(tool) => Some("employee '"@ + worker + "' tool '"@ + tool + "' is not permitted in "@ + mode_word(m)
                + " mode"@),
            None => None,
        },
    }
}

pub open spec fn tools_view(v: Seq<Vec<ToolAccess>>) -> Seq<Seq<ToolAccess>> {
    v.map_values(|t: Vec<ToolAccess>| t@)
}

/// The blockers of every worker, in assignment order.
pub open spec fn worker_blockers(assignments: Seq<WorkerAssignment>, tools: Seq<Seq<ToolAccess>>, m: WorkerWorkspaceMode) -> Seq<Seq<char>>
    decreases assignments.len(),
{
    if assignments.len() == 0 || tools.len() == 0 {
        Seq::empty()
    } else {
        let rest = worker_blockers(assignments.drop_last(), tools.drop_last(), m);
        match worker_blocker(assignments.last().worker_name@, tools.last(), m) {
            Some(b) => rest.push(b),
            None => rest,
        }
    }
}

/// The tools that stop mutation workers from running in `mode`; `tools[i]`
/// are the tools of `assignments[i]`.
pub fn mutation_worker_blockers(
    assignments: &Vec<WorkerAssignment>,
    tools: &Vec<Vec<ToolAccess>>,
    mode: WorkerWorkspaceMode,
) -> (r: Vec<String>)
    requires
        assignments@.len() == tools@.len(),
    ensures
        crate::execution_graph::types::strs_view(r@) == worker_blockers(assignments@, tools_view(tools@), mode),
{
    let mut out: Vec<String> = Vec::new();
    let mut i: usize = 0;
    while i < assignments.len()
        invariant
            i <= assignments.len(),
            assignments@.len() == tools@.len(),
            crate::execution_graph::types::strs_view(out@) == worker_blockers(
                assignments@.subrange(0, i as int),
                tools_view(tools@).subrange(0, i as int),
                mode,
            ),
        decreases assignments.len() - i,
    {
        let ghost prev = out@;
        proof {
            let pa = assignments@.subrange(0, i + 1);
            let pt = tools_view(tools@).subrange(0, i + 1);
            assert(pa.drop_last() =~= assignments@.subrange(0, i as int));
            assert(pt.drop_last() =~= tools_view(tools@).subrange(0, i as int));
            assert(pa.last() == assignments@[i as int]);
            assert(pt.last() == tools@[i as int]@);
        }
        match mode {
            WorkerWorkspaceMode::ProposalOnly => {},
            WorkerWorkspaceMode::IsolatedSandbox => {
                match organization_sandbox_blocker(&tools[i]) {
                    Some(tool) => {
                        let head = join3("employee '", assignments[i].worker_name.as_str(), "' tool '");
                        let head = join3(head.as_str(), tool.as_str(), "' is not permitted in ");
                        let msg = join3(head.as_str(), "isolated-sandbox", " mode");
                        out.push(msg);
                        proof {
                            assert(msg@ =~= "employee '"@ + assignments@[i as int].worker_name@ + "' tool '"@ + tool@
                                + "' is not permitted in "@ + mode_word(mode) + " mode"@);
                            assert(out@ =~= prev.push(msg));
                            assert(crate::execution_graph::types::strs_view(out@) =~= crate::execution_graph::types::strs_view(prev).push(msg@));
                        }
                    },
                    None => {},
                }
            },
        }
        i += 1;
    }
    proof {
        assert(assignments@.subrange(0, assignments@.len() as int) =~= assignments@);
        assert(tools_view(tools@).subrange(0, tools@.len() as int) =~= tools_view(tools@));
    }
    out
}

/// The first worker, in assignment order, holding a tool a read-only run
/// refuses, with that tool.
pub open spec fn read_only_violation(assignments: Seq<WorkerAssignment>, tools: Seq<Seq<ToolAccess>>) -> Option<(Seq<char>, Seq<char>)>
    decreases assignments.len(),
{
    if assignments.len() == 0 || tools.len() == 0 {
        None
    } else {
        match read_only_breaker(tools[0]) {
            Some(tool) => Some((assignments[0].worker_name@, tool)),
            None => read_only_violation(assignments.drop_first(), tools.drop_first()),
        }
    }
}

/// Finds the first worker whose tools break a read-only run, and the
/// rationale the staffing decision records for it.
pub fn read_only_block(assignments: &Vec<WorkerAssignment>, tools: &Vec<Vec<ToolAccess>>) -> (r: Option<String>)
    requires
        assignments@.len() == tools@.len(),
    ensures
        match read_only_violation(assignments@, tools_view(tools@)) {
            Some((w, t)) => r matches Some(m) && m@ == "read-only organization executor blocked worker '"@ + w
                + "' tool '"@ + t
                + "'; mutation-capable tasks require the file-claim and patch-review pipeline"@,
            None => r is None,
        },
{
    let ghost tv = tools_view(tools@);
    let mut i: usize = 0;
    proof {
        assert(assignments@.subrange(0, assignments@.len() as int) =~= assignments@);
        assert(tv.subrange(0, tv.len() as int) =~= tv);
    }
    while i < assignments.len()
        invariant
            i <= assignments.len(),
            assignments@.len() == tools@.len(),
            tv == tools_view(tools@),
            read_only_violation(assignments@, tv) == read_only_violation(
                assignments@.subrange(i as int, assignments@.len() as int),
                tv.subrange(i as int, tv.len() as int),
            ),
        decreases assignments.len() - i,
    {
        proof {
            let ta = assignments@.subrange(i as int, assignments@.len() as int);
            let tt = tv.subrange(i as int, tv.len() as int);
            assert(ta[0] == assignments@[i as int]);
            assert(tt[0] == tools@[i as int]@);
            assert(ta.drop_first() =~= assignments@.subrange(i + 1, assignments@.len() as int));
            assert(tt.drop_first() =~= tv.subrange(i + 1, tv.len() as int));
        }
        match organization_read_only_blocker(&tools[i]) {
            Some(tool) => {
                let head = join3(
                    "read-only organization executor blocked worker '",
                    assignments[i].worker_name.as_str(),
                    "' tool '",
                );
                return Some(
                    join3(
                        head.as_str(),
                        tool.as_str(),
                        "'; mutation-capable tasks require the file-claim and patch-review pipeline",
                    ),
                );
            },
            None => {},
        }
        i += 1;
    }
    proof {
        assert(assignments@.subrange(i as int, assignments@.len() as int) =~= Seq::<WorkerAssignment>::empty());
    }
    None
}

} // verus!
