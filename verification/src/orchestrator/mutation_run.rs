//! The decisions of a mutation task around its worker pipeline: when no
//! pipeline runs at all, how a broken contract blocks staffing, how
//! submission errors fail the batch, and which reports reach the manager.
use vstd::prelude::*;
use crate::agent_loop::outcome::RunOutcome;
use crate::attention::Report;
use crate::execution_graph::types::{strs_view, ExecutionGraphSnapshot};
use crate::organization::types::{
    assignments_view, decision_can_execute, AssignmentAuthority, AssignmentView, CollaborationMode,
    EmployeeAssignment, StaffingDecision, StaffingDecisionView, StaffingMode,
};
use crate::profile::clone_capabilities;
use crate::text::{join2, join3, join_with, joined, str_eq};
use super::proposals::{proposal_errors, validate_organization_proposals};
use super::types::{
    EmployeeWorkReport, ManagerAcceptanceReport, ManagerAcceptanceStatus, OrganizationMutationReport,
    WorkerAssignment, WorkerExecutionReport, WorkerExecutionStatus, WorkerPatchProposal,
};

verus! {

/// Independent workers run side by side; a sequential hand-off runs them
/// in order, each told what the earlier ones submitted.
pub fn run_modes(c: CollaborationMode) -> (r: (bool, bool))
    ensures
        r == (c is Independent, c is SequentialHandoff),
{
    match c {
        CollaborationMode::Independent => (true, false),
        CollaborationMode::SequentialHandoff => (false, true),
    }
}

pub open spec fn direct_summary() -> Seq<char> {
    "no specialist mutation was dispatched; manager action is still required"@
}

pub open spec fn blocked_staffing_summary() -> Seq<char> {
    "staffing contract blocked mutation execution"@
}

/// Staffing stops a mutation before its contract is checked: a direct task
/// waits for the manager, and a decision that cannot run, or runs nobody,
/// is blocked.
pub open spec fn staffing_gate_of(d: StaffingDecisionView, assigned: nat) -> Option<(ManagerAcceptanceStatus, Seq<char>)> {
    if d.mode is Direct {
        Some((ManagerAcceptanceStatus::AwaitingManager, direct_summary()))
    } else if !decision_can_execute(d) || assigned == 0 {
        Some((ManagerAcceptanceStatus::Blocked, blocked_staffing_summary()))
    } else {
        None
    }
}

pub fn staffing_gate(decision: &StaffingDecision, assigned: usize) -> (r: Option<(ManagerAcceptanceStatus, &'static str)>)
    ensures
        match r {
            Some((s, m)) => staffing_gate_of(decision@, assigned as nat) == Some((s, m@)),
            None => staffing_gate_of(decision@, assigned as nat) is None,
        },
{
    if decision.mode == StaffingMode::Direct {
        return Some(
            (
                ManagerAcceptanceStatus::AwaitingManager,
                "no specialist mutation was dispatched; manager action is still required",
            ),
        );
    }
    if !decision.can_execute() || assigned == 0 {
        return Some((ManagerAcceptanceStatus::Blocked, "staffing contract blocked mutation execution"));
    }
    None
}

/// A broken contract blocks the decision, with its errors added to the
/// rationale.
pub fn block_staffing(decision: &mut StaffingDecision, errors: &Vec<String>)
    ensures
        final(decision)@ == (StaffingDecisionView {
            mode: StaffingMode::Blocked,
            rationale: old(decision)@.rationale + strs_view(errors@),
            ..old(decision)@
        }),
{
    decision.mode = StaffingMode::Blocked;
    let mut i: usize = 0;
    let ghost start = strs_view(decision.rationale@);
    while i < errors.len()
        invariant
            i <= errors.len(),
            strs_view(decision.rationale@) == start + strs_view(errors@).subrange(0, i as int),
            decision.mode == StaffingMode::Blocked,
            assignments_view(decision.assignments@) == old(decision)@.assignments,
            decision@.unfilled == old(decision)@.unfilled,
            decision.worker_limit == old(decision).worker_limit,
            start == old(decision)@.rationale,
        decreases errors.len() - i,
    {
        let e = errors[i].clone();
        let ghost prev = decision.rationale@;
        decision.rationale.push(e);
        proof {
            assert(decision.rationale@ =~= prev.push(e));
            assert(strs_view(decision.rationale@) =~= strs_view(prev).push(e@));
            assert(strs_view(decision.rationale@) =~= start + strs_view(errors@).subrange(0, i + 1));
        }
        i += 1;
    }
    proof {
        assert(strs_view(errors@).subrange(0, errors@.len() as int) =~= strs_view(errors@));
        assert(decision@ =~= (StaffingDecisionView {
            mode: StaffingMode::Blocked,
            rationale: old(decision)@.rationale + strs_view(errors@),
            ..old(decision)@
        }));
    }
}

/// The report of a mutation that never reached its worker pipeline.
pub fn mutation_without_pipeline(
    task_id: &str,
    staffing: StaffingDecision,
    manager: String,
    status: ManagerAcceptanceStatus,
    summary: &str,
    reasons: Vec<String>,
    execution_graph: ExecutionGraphSnapshot,
) -> (r: OrganizationMutationReport)
    ensures
        r.task_id@ == task_id@,
        r.staffing == staffing,
        r.employee_reports@.len() == 0,
        r.pipeline is None,
        r.manager_acceptance.manager == manager,
        r.manager_acceptance.status == status,
        r.manager_acceptance.summary@ == summary@,
        r.manager_acceptance.reasons == reasons,
        r.execution_graph == execution_graph,
{
    OrganizationMutationReport {
        task_id: task_id.to_owned(),
        staffing,
        employee_reports: Vec::new(),
        pipeline: None,
        manager_acceptance: ManagerAcceptanceReport { manager, status, summary: summary.to_owned(), reasons },
        execution_graph,
    }
}

/// The submission errors of a batch: those the collector recorded, then,
/// unless claiming blocked the batch, the proposals that break the
/// mutation contract.
pub fn submission_errors(
    collected: Vec<String>,
    blocked: bool,
    assignments: &Vec<WorkerAssignment>,
    proposals: &Vec<WorkerPatchProposal>,
) -> (r: Vec<String>)
    ensures
        strs_view(r@) == strs_view(collected@) + if blocked {
            Seq::<Seq<char>>::empty()
        } else {
            proposal_errors(assignments@, proposals@)
        },
{
    let mut errors = collected;
    let ghost a = strs_view(errors@);
    if blocked {
        proof {
            assert(a + Seq::<Seq<char>>::empty() =~= a);
        }
        return errors;
    }
    let mut more = validate_organization_proposals(assignments, proposals);
    let ghost b = strs_view(more@);
    errors.append(&mut more);
    proof {
        assert(strs_view(errors@) =~= a + b);
    }
    errors
}

pub open spec fn submission_failure(errors: Seq<Seq<char>>) -> Seq<char> {
    "structured patch proposal submission failed: "@ + joined(errors, "; "@)
}

/// Submission errors fail the batch; their message follows any error the
/// batch already had.
pub fn fail_on_submission_errors(execution: &mut WorkerExecutionReport, errors: &Vec<String>)
    ensures
        errors@.len() == 0 ==> *final(execution) == *old(execution),
        errors@.len() > 0 ==> {
            &&& final(execution).status == WorkerExecutionStatus::WorkerFailed
            &&& final(execution).execution_error matches Some(e) && e@ == match old(execution).execution_error {
                Some(x) => x@ + "; "@ + submission_failure(strs_view(errors@)),
                None => submission_failure(strs_view(errors@)),
            }
            &&& final(execution).reports == old(execution).reports
            &&& final(execution).claim_report == old(execution).claim_report
            &&& final(execution).conflicts == old(execution).conflicts
            &&& final(execution).ownership_violations == old(execution).ownership_violations
            &&& final(execution).release_failures == old(execution).release_failures
        },
{
    if errors.len() == 0 {
        return;
    }
    let joined_errors = join_with(errors, "; ");
    let message = join2("structured patch proposal submission failed: ", joined_errors.as_str());
    let combined = match execution.execution_error.take() {
        Some(existing) => join3(existing.as_str(), "; ", message.as_str()),
        None => message,
    };
    execution.execution_error = Some(combined);
    execution.status = WorkerExecutionStatus::WorkerFailed;
}

fn copy_assignment(a: &EmployeeAssignment) -> (r: EmployeeAssignment)
    ensures
        r@ == a@,
{
    EmployeeAssignment {
        employee: a.employee.clone(),
        role: a.role.clone(),
        responsibility: a.responsibility.clone(),
        matched_capabilities: clone_capabilities(&a.matched_capabilities),
    }
}

fn copy_authority(a: &AssignmentAuthority) -> (r: AssignmentAuthority)
    ensures
        r == *a,
{
    match a {
        AssignmentAuthority::Manager { manager } => AssignmentAuthority::Manager { manager: manager.clone() },
        AssignmentAuthority::User => AssignmentAuthority::User,
    }
}

fn copy_report(r: &Report) -> (c: Report)
    ensures
        c == *r,
{
    Report {
        task_id: r.task_id.clone(),
        worker: r.worker.clone(),
        run_id: r.run_id.clone(),
        summary: r.summary.clone(),
        findings: r.findings.clone(),
        success: r.success,
        outcome: r.outcome,
        attention: r.attention,
    }
}

/// The first assignment of the decision made to `worker`, if any.
pub open spec fn assignment_for(assignments: Seq<AssignmentView>, worker: Seq<char>) -> Option<AssignmentView>
    decreases assignments.len(),
{
    if assignments.len() == 0 {
        None
    } else if assignments[0].employee == worker {
        Some(assignments[0])
    } else {
        assignment_for(assignments.drop_first(), worker)
    }
}

pub type EmployeeReportView = (AssignmentView, AssignmentAuthority, Report);

/// The reports the manager sees: each report whose worker holds an
/// assignment of the decision, with that assignment, in report order.
pub open spec fn employee_reports_spec(
    assignments: Seq<AssignmentView>,
    reports: Seq<Report>,
    reports_to: AssignmentAuthority,
) -> Seq<EmployeeReportView>
    decreases reports.len(),
{
    if reports.len() == 0 {
        Seq::empty()
    } else {
        let rest = employee_reports_spec(assignments, reports.drop_last(), reports_to);
        match assignment_for(assignments, reports.last().worker@) {
            Some(a) => rest.push((a, reports_to, reports.last())),
            None => rest,
        }
    }
}

pub open spec fn employee_reports_view(v: Seq<EmployeeWorkReport>) -> Seq<EmployeeReportView> {
    v.map_values(|e: EmployeeWorkReport| (e.assignment@, e.reports_to, e.report))
}

fn find_assignment(assignments: &Vec<EmployeeAssignment>, worker: &str) -> (r: Option<usize>)
    ensures
        match r {
            Some(i) => i < assignments@.len() && assignment_for(assignments_view(assignments@), worker@) == Some(
                assignments@[i as int]@,
            ),
            None => assignment_for(assignments_view(assignments@), worker@) is None,
        },
{
    let ghost all = assignments_view(assignments@);
    proof {
        assert(all.subrange(0, all.len() as int) =~= all);
    }
    let mut i: usize = 0;
    while i < assignments.len()
        invariant
            i <= assignments.len(),
            all == assignments_view(assignments@),
            assignment_for(all, worker@) == assignment_for(all.subrange(i as int, all.len() as int), worker@),
        decreases assignments.len() - i,
    {
        let ghost tail = all.subrange(i as int, all.len() as int);
        proof {
            assert(tail[0] == assignments@[i as int]@);
            assert(tail.drop_first() =~= all.subrange(i + 1, all.len() as int));
        }
        if str_eq(assignments[i].employee.as_str(), worker) {
            return Some(i);
        }
        i += 1;
    }
    proof {
        assert(all.subrange(i as int, all.len() as int) =~= Seq::<AssignmentView>::empty());
    }
    None
}

/// Pairs each report with its worker's assignment; reports of workers
/// without one are left out.
pub fn employee_reports_of(
    decision: &StaffingDecision,
    reports: &Vec<Report>,
    reports_to: &AssignmentAuthority,
) -> (r: Vec<EmployeeWorkReport>)
    ensures
        employee_reports_view(r@) == employee_reports_spec(decision@.assignments, reports@, *reports_to),
{
    let mut out: Vec<EmployeeWorkReport> = Vec::new();
    let mut i: usize = 0;
    while i < reports.len()
        invariant
            i <= reports.len(),
            employee_reports_view(out@) == employee_reports_spec(
                decision@.assignments,
                reports@.subrange(0, i as int),
                *reports_to,
            ),
        decreases reports.len() - i,
    {
        let ghost prev = out@;
        proof {
            let pre = reports@.subrange(0, i + 1);
            assert(pre.drop_last() =~= reports@.subrange(0, i as int));
            assert(pre.last() == reports@[i as int]);
        }
        match find_assignment(&decision.assignments, reports[i].worker.as_str()) {
            Some(k) => {
                let e = EmployeeWorkReport {
                    assignment: copy_assignment(&decision.assignments[k]),
                    reports_to: copy_authority(reports_to),
                    report: copy_report(&reports[i]),
                };
                out.push(e);
                proof {
                    assert(out@ =~= prev.push(e));
                    assert(employee_reports_view(out@) =~= employee_reports_view(prev).push(
                        (e.assignment@, e.reports_to, e.report),
                    ));
                }
            },
            None => {},
        }
        i += 1;
    }
    proof {
        assert(reports@.subrange(0, reports@.len() as int) =~= reports@);
    }
    out
}

} // verus!
