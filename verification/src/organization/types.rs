//! The staffing vocabulary: requests, requirements, decisions and plans.
use vstd::prelude::*;
use crate::execution_graph::types::{clone_opt_string, opt_view, strs_view};
use crate::execution_graph::ExecutionGraph;
use crate::profile::{caps_view, clone_capabilities, EmployeeCapability, EmployeeRole};

verus! {

pub const DEFAULT_MAX_WORKERS_PER_TASK: usize = 3;

pub const DEFAULT_MAX_EMPLOYEE_ROSTER: usize = 8;

/// Who assigned the task.
#[derive(Debug, PartialEq, Eq)]
pub enum AssignmentAuthority {
    Manager { manager: String },
    User,
}

impl AssignmentAuthority {
    pub fn manager(name: &str) -> (r: Self)
        ensures
            r matches AssignmentAuthority::Manager { manager } && manager@ == name@,
    {
        AssignmentAuthority::Manager { manager: name.to_owned() }
    }
}

/// Where the task goes: to whoever the manager selects, or to one employee.
#[derive(Debug, PartialEq, Eq)]
pub enum DispatchTarget {
    ManagerSelected,
    Employee { employee: String },
}

impl Default for DispatchTarget {
    fn default() -> (r: Self)
        ensures
            r is ManagerSelected,
    {
        DispatchTarget::ManagerSelected
    }
}

#[derive(Debug, Clone, Copy, PartialEq, Eq, Structural)]
pub enum CollaborationMode {
    Independent,
    SequentialHandoff,
}

impl Default for CollaborationMode {
    fn default() -> (r: Self)
        ensures
            r is Independent,
    {
        CollaborationMode::Independent
    }
}

#[derive(Debug, Clone, Copy, PartialEq, Eq, Structural)]
pub enum WorkerWorkspaceMode {
    /// Worker may only submit structured operations; it cannot edit a draft.
    ProposalOnly,
    /// Worker edits an owned, temporary clone. Only the sealed diff is offered
    /// to the parent Review/Apply pipeline.
    IsolatedSandbox,
}

impl Default for WorkerWorkspaceMode {
    fn default() -> (r: Self)
        ensures
            r is ProposalOnly,
    {
        WorkerWorkspaceMode::ProposalOnly
    }
}

/// One role/capability requirement produced by the Lead's planning step.
#[derive(Debug, PartialEq, Eq)]
pub struct RoleRequirement {
    pub role: EmployeeRole,
    /// Optional stable employee identity selected by the caller. The router
    /// still enforces the role and capability contract for that employee.
    pub employee: Option<String>,
    pub capabilities: Vec<EmployeeCapability>,
    pub responsibility: String,
    pub required: bool,
}

pub struct RequirementView {
    pub role: Seq<char>,
    pub employee: Option<Seq<char>>,
    pub capabilities: Seq<Seq<char>>,
    pub responsibility: Seq<char>,
    pub required: bool,
}

impl View for RoleRequirement {
    type V = RequirementView;

    open spec fn view(&self) -> RequirementView {
        RequirementView {
            role: self.role@,
            employee: opt_view(self.employee),
            capabilities: caps_view(self.capabilities@),
            responsibility: self.responsibility@,
            required: self.required,
        }
    }
}

impl Clone for RoleRequirement {
    fn clone(&self) -> (r: Self)
        ensures
            r@ == self@,
    {
        RoleRequirement {
            role: self.role.clone(),
            employee: clone_opt_string(&self.employee),
            capabilities: clone_capabilities(&self.capabilities),
            responsibility: self.responsibility.clone(),
            required: self.required,
        }
    }
}

impl RoleRequirement {
    pub fn required(role: EmployeeRole, responsibility: &str) -> (r: Self)
        ensures
            r@.role == role@,
            r@.employee is None,
            r@.capabilities.len() == 0,
            r@.responsibility == responsibility@,
            r@.required,
    {
        let r = RoleRequirement {
            role,
            employee: None,
            capabilities: Vec::new(),
            responsibility: responsibility.to_owned(),
            required: true,
        };
        proof {
            assert(caps_view(r.capabilities@) =~= Seq::<Seq<char>>::empty());
        }
        r
    }

    pub fn optional(role: EmployeeRole, responsibility: &str) -> (r: Self)
        ensures
            r@.role == role@,
            r@.employee is None,
            r@.capabilities.len() == 0,
            r@.responsibility == responsibility@,
            !r@.required,
    {
        let r = RoleRequirement {
            role,
            employee: None,
            capabilities: Vec::new(),
            responsibility: responsibility.to_owned(),
            required: false,
        };
        proof {
            assert(caps_view(r.capabilities@) =~= Seq::<Seq<char>>::empty());
        }
        r
    }

    pub fn with_capabilities(self, capabilities: Vec<EmployeeCapability>) -> (r: Self)
        ensures
            r@ == (RequirementView { capabilities: caps_view(capabilities@), ..self@ }),
    {
        RoleRequirement { capabilities, ..self }
    }

    pub fn for_employee(self, employee: &str) -> (r: Self)
        ensures
            r@ == (RequirementView { employee: Some(employee@), ..self@ }),
    {
        RoleRequirement { employee: Some(employee.to_owned()), ..self }
    }
}

pub open spec fn requirements_view(v: Seq<RoleRequirement>) -> Seq<RequirementView> {
    v.map_values(|r: RoleRequirement| r@)
}

/// Structured staffing input. Natural-language classification is deliberately
/// outside this deterministic boundary: the Lead may propose requirements,
/// while this contract enforces limits and exact capability matching.
#[derive(Debug, PartialEq, Eq)]
pub struct StaffingRequest {
    pub objective: String,
    pub requirements: Vec<RoleRequirement>,
    pub max_workers: Option<usize>,
}

pub struct StaffingRequestView {
    pub objective: Seq<char>,
    pub requirements: Seq<RequirementView>,
    pub max_workers: Option<usize>,
}

impl View for StaffingRequest {
    type V = StaffingRequestView;

    open spec fn view(&self) -> StaffingRequestView {
        StaffingRequestView {
            objective: self.objective@,
            requirements: requirements_view(self.requirements@),
            max_workers: self.max_workers,
        }
    }
}

impl StaffingRequest {
    /// A request the Lead handles itself: no requirement, no worker.
    pub fn direct(objective: &str) -> (r: Self)
        ensures
            r@.objective == objective@,
            r@.requirements.len() == 0,
            r@.max_workers == Some(0usize),
    {
        let r = StaffingRequest { objective: objective.to_owned(), requirements: Vec::new(), max_workers: Some(0) };
        proof {
            assert(requirements_view(r.requirements@) =~= Seq::<RequirementView>::empty());
        }
        r
    }
}

#[derive(Debug, PartialEq, Eq)]
pub struct OrganizationTaskRequest {
    pub task_id: String,
    pub assigned_by: AssignmentAuthority,
    pub target: DispatchTarget,
    pub collaboration: CollaborationMode,
    pub workspace_mode: WorkerWorkspaceMode,
    pub staffing: StaffingRequest,
}

impl OrganizationTaskRequest {
    pub fn manager_selected(task_id: &str, manager: &str, staffing: StaffingRequest) -> (r: Self)
        ensures
            r.task_id@ == task_id@,
            r.assigned_by matches AssignmentAuthority::Manager { manager: m } && m@ == manager@,
            r.target is ManagerSelected,
            r.collaboration is Independent,
            r.workspace_mode is ProposalOnly,
            r.staffing == staffing,
    {
        OrganizationTaskRequest {
            task_id: task_id.to_owned(),
            assigned_by: AssignmentAuthority::manager(manager),
            target: DispatchTarget::ManagerSelected,
            collaboration: CollaborationMode::Independent,
            workspace_mode: WorkerWorkspaceMode::ProposalOnly,
            staffing,
        }
    }

    pub fn user_to_employee(task_id: &str, employee: &str, staffing: StaffingRequest) -> (r: Self)
        ensures
            r.task_id@ == task_id@,
            r.assigned_by is User,
            r.target matches DispatchTarget::Employee { employee: e } && e@ == employee@,
            r.collaboration is Independent,
            r.workspace_mode is ProposalOnly,
            r.staffing == staffing,
    {
        OrganizationTaskRequest {
            task_id: task_id.to_owned(),
            assigned_by: AssignmentAuthority::User,
            target: DispatchTarget::Employee { employee: employee.to_owned() },
            collaboration: CollaborationMode::Independent,
            workspace_mode: WorkerWorkspaceMode::ProposalOnly,
            staffing,
        }
    }

    pub fn with_collaboration(self, collaboration: CollaborationMode) -> (r: Self)
        ensures
            r == (OrganizationTaskRequest { collaboration, ..self }),
    {
        OrganizationTaskRequest { collaboration, ..self }
    }
}

#[derive(Debug)]
pub struct OrganizationExecutionGraphPlan {
    pub graph: ExecutionGraph,
    /// Compatibility mapping from a selected profile to its leased work node.
    pub work_nodes: Vec<(String, String)>,
    pub decide_node: String,
    pub finalize_node: String,
}

#[derive(Debug)]
pub struct MutationExecutionGraphPlan {
    pub graph: ExecutionGraph,
    pub work_nodes: Vec<(String, String)>,
    pub contract_node: String,
    pub claim_node: String,
    pub review_node: String,
    pub apply_node: String,
    pub release_node: String,
    pub finalize_node: String,
}

#[derive(Debug, Clone, Copy, PartialEq, Eq, Structural)]
pub enum StaffingMode {
    Direct,
    SingleSpecialist,
    MultiSpecialist,
    Blocked,
}

#[derive(Debug, PartialEq, Eq)]
pub struct EmployeeAssignment {
    pub employee: String,
    pub role: EmployeeRole,
    pub responsibility: String,
    pub matched_capabilities: Vec<EmployeeCapability>,
}

pub struct AssignmentView {
    pub employee: Seq<char>,
    pub role: Seq<char>,
    pub responsibility: Seq<char>,
    pub matched_capabilities: Seq<Seq<char>>,
}

impl View for EmployeeAssignment {
    type V = AssignmentView;

    open spec fn view(&self) -> AssignmentView {
        AssignmentView {
            employee: self.employee@,
            role: self.role@,
            responsibility: self.responsibility@,
            matched_capabilities: caps_view(self.matched_capabilities@),
        }
    }
}

#[derive(Debug, PartialEq, Eq)]
pub struct UnfilledRequirement {
    pub role: EmployeeRole,
    pub responsibility: String,
    pub required: bool,
    pub reason: String,
}

pub struct UnfilledView {
    pub role: Seq<char>,
    pub responsibility: Seq<char>,
    pub required: bool,
    pub reason: Seq<char>,
}

impl View for UnfilledRequirement {
    type V = UnfilledView;

    open spec fn view(&self) -> UnfilledView {
        UnfilledView {
            role: self.role@,
            responsibility: self.responsibility@,
            required: self.required,
            reason: self.reason@,
        }
    }
}

#[derive(Debug, PartialEq, Eq)]
pub struct StaffingDecision {
    pub mode: StaffingMode,
    pub assignments: Vec<EmployeeAssignment>,
    pub unfilled: Vec<UnfilledRequirement>,
    pub worker_limit: usize,
    pub rationale: Vec<String>,
}

#[verifier::ext_equal]
pub struct StaffingDecisionView {
    pub mode: StaffingMode,
    pub assignments: Seq<AssignmentView>,
    pub unfilled: Seq<UnfilledView>,
    pub worker_limit: usize,
    pub rationale: Seq<Seq<char>>,
}

pub open spec fn assignments_view(v: Seq<EmployeeAssignment>) -> Seq<AssignmentView> {
    v.map_values(|a: EmployeeAssignment| a@)
}

pub open spec fn unfilled_view(v: Seq<UnfilledRequirement>) -> Seq<UnfilledView> {
    v.map_values(|u: UnfilledRequirement| u@)
}

impl View for StaffingDecision {
    type V = StaffingDecisionView;

    open spec fn view(&self) -> StaffingDecisionView {
        StaffingDecisionView {
            mode: self.mode,
            assignments: assignments_view(self.assignments@),
            unfilled: unfilled_view(self.unfilled@),
            worker_limit: self.worker_limit,
            rationale: strs_view(self.rationale@),
        }
    }
}

/// A decision can run when it is not blocked and no required role is left
/// unfilled.
pub open spec fn decision_can_execute(d: StaffingDecisionView) -> bool {
    !(d.mode is Blocked) && forall|i: int| 0 <= i < d.unfilled.len() ==> !(#[trigger] d.unfilled[i]).required
}

impl StaffingDecision {
    pub fn can_execute(&self) -> (b: bool)
        ensures
            b == decision_can_execute(self@),
    {
        if self.mode == StaffingMode::Blocked {
            return false;
        }
        let mut i: usize = 0;
        while i < self.unfilled.len()
            invariant
                i <= self.unfilled@.len(),
                forall|k: int| 0 <= k < i ==> !(#[trigger] self@.unfilled[k]).required,
                self@.unfilled.len() == self.unfilled@.len(),
            decreases self.unfilled.len() - i,
        {
            if self.unfilled[i].required {
                proof {
                    assert(self@.unfilled[i as int] == self.unfilled@[i as int]@);
                }
                return false;
            }
            i += 1;
        }
        true
    }
}

#[derive(Debug, Clone, Copy, PartialEq, Eq, Structural)]
pub struct StaffingPolicy {
    pub max_workers_per_task: usize,
    pub max_employee_roster: usize,
}

impl Default for StaffingPolicy {
    fn default() -> (p: Self)
        ensures
            p.max_workers_per_task == DEFAULT_MAX_WORKERS_PER_TASK,
            p.max_employee_roster == DEFAULT_MAX_EMPLOYEE_ROSTER,
    {
        StaffingPolicy {
            max_workers_per_task: DEFAULT_MAX_WORKERS_PER_TASK,
            max_employee_roster: DEFAULT_MAX_EMPLOYEE_ROSTER,
        }
    }
}

#[derive(Debug, Clone, Copy)]
pub struct OrganizationRouter {
    policy: StaffingPolicy,
}

impl OrganizationRouter {
    pub fn new(policy: StaffingPolicy) -> (r: Self)
        ensures
            r.policy() == policy,
    {
        OrganizationRouter { policy }
    }

    pub closed spec fn policy(&self) -> StaffingPolicy {
        self.policy
    }

    pub(crate) fn policy_value(&self) -> (p: StaffingPolicy)
        ensures
            p == self.policy(),
    {
        self.policy
    }
}

impl Default for OrganizationRouter {
    fn default() -> (r: Self)
        ensures
            r.policy().max_workers_per_task == DEFAULT_MAX_WORKERS_PER_TASK,
            r.policy().max_employee_roster == DEFAULT_MAX_EMPLOYEE_ROSTER,
    {
        OrganizationRouter::new(StaffingPolicy::default())
    }
}

} // verus!
