//! Turning a staffing decision into executable worker assignments. Partial
//! staffing is never handed out: either every selected employee gets an
//! assignment, or none does.
use vstd::prelude::*;
use crate::auto_delegation::{roster_index, roster_position};
use crate::execution_graph::types::strs_view;
use crate::organization::routing::{route_spec, route_to_spec};
use crate::organization::types::{
    decision_can_execute, AssignmentAuthority, CollaborationMode, DispatchTarget, OrganizationRouter, OrganizationTaskRequest,
    StaffingDecision, StaffingDecisionView, StaffingMode, StaffingPolicy, StaffingRequest,
    StaffingRequestView, DEFAULT_MAX_EMPLOYEE_ROSTER,
};
use crate::profile::{profiles_view, AgentProfile, ProfileView};
use crate::text::join3;
use super::types::{StaffedTask, WorkerAssignment};

verus! {

/// The brief an employee receives for its part of the objective.
pub open spec fn brief(objective: Seq<char>, role: Seq<char>, responsibility: Seq<char>) -> Seq<char> {
    "组织目标："@ + objective + "\n\n岗位："@ + role + "\n岗位责任："@ + responsibility
}

pub open spec fn missing_employee_reason() -> Seq<char> {
    "staffing decision referenced an employee missing from the roster"@
}

/// Every selected employee is on the roster.
pub open spec fn all_on_roster(d: StaffingDecisionView, roster: Seq<ProfileView>) -> bool {
    forall|i: int| 0 <= i < d.assignments.len() ==> #[trigger] roster_index(roster, d.assignments[i].employee) is Some
}

/// What staffing yields from a decision: nothing to run unless it can run
/// and selects someone; a selected employee missing from the roster blocks
/// the whole decision.
pub open spec fn staffed(
    objective: Seq<char>,
    roster: Seq<AgentProfile>,
    d: StaffingDecisionView,
    t: StaffedTask,
) -> bool {
    let ps = profiles_view(roster);
    if !decision_can_execute(d) || d.assignments.len() == 0 {
        t.decision@ == d && t.assignments@.len() == 0
    } else if !all_on_roster(d, ps) {
        &&& t.decision@ == (StaffingDecisionView {
            mode: StaffingMode::Blocked,
            assignments: Seq::empty(),
            rationale: d.rationale.push(missing_employee_reason()),
            ..d
        })
        &&& t.assignments@.len() == 0
    } else {
        &&& t.decision@ == d
        &&& t.assignments@.len() == d.assignments.len()
        &&& forall|i: int|
            0 <= i < d.assignments.len() ==> {
                let a = #[trigger] t.assignments@[i];
                let p = roster[roster_index(ps, d.assignments[i].employee)->0];
                &&& a.worker_name@ == p.name@
                &&& a.task_description@ == brief(
                    objective,
                    d.assignments[i].role,
                    d.assignments[i].responsibility,
                )
                &&& a.owned_files@.len() == 0
                &&& a.profile@ == p@
            }
    }
}

/// Builds the assignments of a decision against the roster.
pub fn build_staffed_task(
    request: &StaffingRequest,
    roster: &[AgentProfile],
    decision: StaffingDecision,
) -> (t: StaffedTask)
    ensures
        staffed(request@.objective, roster@, decision@, t),
{
    let ghost d = decision@;
    let ghost ps = profiles_view(roster@);
    if !decision.can_execute() || decision.assignments.len() == 0 {
        return StaffedTask { decision, assignments: Vec::new() };
    }
    let mut out: Vec<WorkerAssignment> = Vec::new();
    let mut i: usize = 0;
    while i < decision.assignments.len()
        invariant
            i <= decision.assignments.len(),
            d == decision@,
            decision_can_execute(d),
            d.assignments.len() > 0,
            ps == profiles_view(roster@),
            out@.len() == i,
            forall|q: int| 0 <= q < i ==> #[trigger] roster_index(ps, d.assignments[q].employee) is Some,
            forall|q: int|
                0 <= q < i ==> {
                    let a = #[trigger] out@[q];
                    let p = roster@[roster_index(ps, d.assignments[q].employee)->0];
                    &&& a.worker_name@ == p.name@
                    &&& a.task_description@ == brief(
                        request@.objective,
                        d.assignments[q].role,
                        d.assignments[q].responsibility,
                    )
                    &&& a.owned_files@.len() == 0
                    &&& a.profile@ == p@
                },
        decreases decision.assignments.len() - i,
    {
        let sel = &decision.assignments[i];
        proof {
            assert(d.assignments[i as int] == sel@);
        }
        match roster_position(roster, sel.employee.as_str()) {
            Some(j) => {
                proof {
                    crate::organization::routing::lemma_first_where(
                        ps.len() as int,
                        crate::organization::routing::named_at(ps, sel@.employee),
                    );
                }
                let profile = &roster[j];
                proof {
                    assert(ps[j as int] == profile@);
                }
                let head = join3("组织目标：", request.objective.as_str(), "\n\n岗位：");
                let mid = join3(head.as_str(), sel.role.as_str(), "\n岗位责任：");
                let text = join3(mid.as_str(), sel.responsibility.as_str(), "");
                proof {
                    reveal_strlit("");
                    assert(text@ =~= brief(request@.objective, sel@.role, sel@.responsibility));
                }
                out.push(
                    WorkerAssignment {
                        worker_name: profile.name.clone(),
                        task_description: text,
                        owned_files: Vec::new(),
                        profile: profile.clone(),
                    },
                );
            },
            None => {
                let mut decision = decision;
                decision.mode = StaffingMode::Blocked;
                decision.assignments = Vec::new();
                decision.rationale.push(
                    "staffing decision referenced an employee missing from the roster".to_owned(),
                );
                proof {
                    assert(roster_index(ps, d.assignments[i as int].employee) is None);
                    assert(!all_on_roster(d, ps));
                    assert(decision@ =~= (StaffingDecisionView {
                        mode: StaffingMode::Blocked,
                        assignments: Seq::empty(),
                        rationale: d.rationale.push(missing_employee_reason()),
                        ..d
                    }));
                }
                return StaffedTask { decision, assignments: Vec::new() };
            },
        }
        i += 1;
    }
    StaffedTask { decision, assignments: out }
}

/// The routing policy for a parent that runs at most `max_workers` workers.
pub open spec fn policy_for(max_workers: usize) -> StaffingPolicy {
    StaffingPolicy { max_workers_per_task: max_workers, max_employee_roster: DEFAULT_MAX_EMPLOYEE_ROSTER }
}

/// Routes a staffing request and builds its assignments.
pub fn staff_task(max_workers: usize, request: &StaffingRequest, roster: &[AgentProfile]) -> (t: StaffedTask)
    ensures
        staffed(request@.objective, roster@, route_spec(policy_for(max_workers), request@, profiles_view(roster@)), t),
{
    let router = OrganizationRouter::new(
        StaffingPolicy { max_workers_per_task: max_workers, max_employee_roster: DEFAULT_MAX_EMPLOYEE_ROSTER },
    );
    let decision = router.route(request, roster);
    build_staffed_task(request, roster, decision)
}

/// Routes an organization task, to whoever fits or to the named employee,
/// and builds its assignments.
pub fn staff_organization_task(
    max_workers: usize,
    request: &OrganizationTaskRequest,
    roster: &[AgentProfile],
) -> (t: StaffedTask)
    ensures
        staffed(
            request.staffing@.objective,
            roster@,
            match request.target {
                DispatchTarget::ManagerSelected => route_spec(
                    policy_for(max_workers),
                    request.staffing@,
                    profiles_view(roster@),
                ),
                DispatchTarget::Employee { employee } => route_to_spec(
                    policy_for(max_workers),
                    request.staffing@,
                    profiles_view(roster@),
                    employee@,
                ),
            },
            t,
        ),
{
    let router = OrganizationRouter::new(
        StaffingPolicy { max_workers_per_task: max_workers, max_employee_roster: DEFAULT_MAX_EMPLOYEE_ROSTER },
    );
    let decision = match &request.target {
        DispatchTarget::ManagerSelected => router.route(&request.staffing, roster),
        DispatchTarget::Employee { employee } => router.route_to_employee(
            &request.staffing,
            roster,
            employee.as_str(),
        ),
    };
    build_staffed_task(&request.staffing, roster, decision)
}

/// Who a report goes back to, as shown to people.
pub fn assignment_authority_label(authority: &AssignmentAuthority) -> (s: String)
    ensures
        s@ == match authority {
            AssignmentAuthority::Manager { manager } => manager@,
            AssignmentAuthority::User => "用户"@,
        },
{
    match authority {
        AssignmentAuthority::Manager { manager } => manager.clone(),
        AssignmentAuthority::User => "用户".to_owned(),
    }
}

pub fn collaboration_label(collaboration: CollaborationMode) -> (s: &'static str)
    ensures
        s@ == match collaboration {
            CollaborationMode::Independent => "independent"@,
            CollaborationMode::SequentialHandoff => "sequential_handoff"@,
        },
{
    match collaboration {
        CollaborationMode::Independent => "independent",
        CollaborationMode::SequentialHandoff => "sequential_handoff",
    }
}

/// Why a decision is blocked: its first rationale, else the reason of its
/// first unfilled requirement.
pub fn organization_block_reason(decision: &StaffingDecision) -> (r: Option<String>)
    ensures
        crate::execution_graph::types::opt_view(r) == if decision@.rationale.len() > 0 {
            Some(decision@.rationale[0])
        } else if decision@.unfilled.len() > 0 {
            Some(decision@.unfilled[0].reason)
        } else {
            None
        },
{
    if decision.rationale.len() > 0 {
        Some(decision.rationale[0].clone())
    } else if decision.unfilled.len() > 0 {
        Some(decision.unfilled[0].reason.clone())
    } else {
        None
    }
}

/// The parent runs at most `max_workers` workers at once.
pub fn ensure_worker_limit(max_workers: usize, requested: usize) -> (r: Result<(), String>)
    ensures
        r is Ok <==> requested <= max_workers,
        r matches Err(e) ==> e@ == "worker limit exceeded: requested "@ + crate::text::decimal(requested as nat)
            + ", maximum is "@ + crate::text::decimal(max_workers as nat),
{
    if requested > max_workers {
        let a = crate::text::decimal_string(requested as u64);
        let b = crate::text::decimal_string(max_workers as u64);
        let head = join3("worker limit exceeded: requested ", a.as_str(), ", maximum is ");
        return Err(crate::text::join2(head.as_str(), b.as_str()));
    }
    Ok(())
}

} // verus!
