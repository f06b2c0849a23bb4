//! The contract a lead hands a worker, and the worker's status.
use vstd::prelude::*;
use crate::agent_loop::budget::AgentBudget;
use crate::agent_loop::outcome::RunOutcome;
use crate::execution_graph::types::{clone_strings, strs_view};
use crate::execution_graph::structure::contains_text;
use crate::profile::AgentProfile;
use crate::text::join3;

verus! {

/// What a worker may touch. Paths are '/'-separated.
#[derive(Debug, PartialEq, Eq)]
pub struct WorkScope {
    pub owned_files: Vec<String>,
    pub allowed_directories: Vec<String>,
}

impl WorkScope {
    pub fn new(owned_files: Vec<String>) -> (s: Self)
        ensures
            s.owned_files@ == owned_files@,
            s.allowed_directories@.len() == 0,
    {
        WorkScope { owned_files, allowed_directories: Vec::new() }
    }
}

#[derive(Debug, Clone, Copy, PartialEq, Eq, Structural)]
pub struct DelegationBudget {
    pub max_steps: u32,
    pub max_tool_calls: u32,
    pub token_limit: usize,
    pub timeout_secs: u64,
}

impl Default for DelegationBudget {
    /// The assistant budget, with its model timeout as the worker timeout.
    fn default() -> (b: Self)
        ensures
            b.max_steps == 80,
            b.max_tool_calls == 256,
            b.token_limit == 500_000,
            b.timeout_secs == 240,
    {
        let d = AgentBudget::assistant_default();
        DelegationBudget {
            max_steps: d.max_steps,
            max_tool_calls: d.max_tool_calls,
            token_limit: d.token_limit,
            timeout_secs: d.llm_timeout_secs,
        }
    }
}

#[derive(Debug, PartialEq, Eq)]
pub struct DelegationPermissions {
    pub allowed_tools: Vec<String>,
    pub denied_tools: Vec<String>,
    pub require_approval: bool,
}

impl Default for DelegationPermissions {
    fn default() -> (p: Self)
        ensures
            p.allowed_tools@.len() == 0,
            p.denied_tools@.len() == 0,
            p.require_approval,
    {
        DelegationPermissions { allowed_tools: Vec::new(), denied_tools: Vec::new(), require_approval: true }
    }
}

#[derive(Debug, PartialEq, Eq)]
pub struct AcceptanceCriteria {
    pub verification_required: bool,
    pub tests_must_pass: bool,
    pub no_ownership_violations: bool,
    pub custom_rules: Vec<String>,
}

impl Default for AcceptanceCriteria {
    fn default() -> (a: Self)
        ensures
            a.verification_required,
            !a.tests_must_pass,
            a.no_ownership_violations,
            a.custom_rules@.len() == 0,
    {
        AcceptanceCriteria {
            verification_required: true,
            tests_must_pass: false,
            no_ownership_violations: true,
            custom_rules: Vec::new(),
        }
    }
}

#[derive(Debug, Clone, Copy, PartialEq, Eq, Structural)]
pub struct ArtifactRequirements {
    pub require_patches: bool,
    pub require_verification_evidence: bool,
    pub require_command_log: bool,
}

impl Default for ArtifactRequirements {
    fn default() -> (a: Self)
        ensures
            a.require_patches,
            !a.require_verification_evidence,
            !a.require_command_log,
    {
        ArtifactRequirements { require_patches: true, require_verification_evidence: false, require_command_log: false }
    }
}

#[derive(Debug, Clone, Copy, PartialEq, Eq, Structural)]
pub struct EscalationRules {
    pub max_retries: u32,
    pub escalate_on_failure: bool,
    pub escalate_on_blocked: bool,
}

impl Default for EscalationRules {
    fn default() -> (e: Self)
        ensures
            e.max_retries == 3,
            e.escalate_on_failure,
            e.escalate_on_blocked,
    {
        EscalationRules { max_retries: 3, escalate_on_failure: true, escalate_on_blocked: true }
    }
}

/// Everything a worker is told: the task, its scope, budget, permissions,
/// acceptance criteria, artifacts to produce and when to escalate.
#[derive(Debug, PartialEq, Eq)]
pub struct DelegationContract {
    pub worker: String,
    pub task_description: String,
    pub scope: WorkScope,
    pub budget: DelegationBudget,
    pub permissions: DelegationPermissions,
    pub acceptance: AcceptanceCriteria,
    pub artifacts: ArtifactRequirements,
    pub escalation: EscalationRules,
}

impl DelegationContract {
    /// A contract with no scope and the default budget, permissions,
    /// acceptance, artifact and escalation rules.
    pub fn new(worker: &str, task_description: &str) -> (c: Self)
        ensures
            c.worker@ == worker@,
            c.task_description@ == task_description@,
            c.scope.owned_files@.len() == 0,
            c.scope.allowed_directories@.len() == 0,
            c.budget.max_steps == 80 && c.budget.max_tool_calls == 256 && c.budget.token_limit == 500_000
                && c.budget.timeout_secs == 240,
            c.permissions.allowed_tools@.len() == 0 && c.permissions.denied_tools@.len() == 0
                && c.permissions.require_approval,
            c.acceptance.verification_required && !c.acceptance.tests_must_pass
                && c.acceptance.no_ownership_violations && c.acceptance.custom_rules@.len() == 0,
            c.artifacts.require_patches && !c.artifacts.require_verification_evidence
                && !c.artifacts.require_command_log,
            c.escalation.max_retries == 3 && c.escalation.escalate_on_failure && c.escalation.escalate_on_blocked,
    {
        DelegationContract {
            worker: worker.to_owned(),
            task_description: task_description.to_owned(),
            scope: WorkScope::new(Vec::new()),
            budget: DelegationBudget::default(),
            permissions: DelegationPermissions::default(),
            acceptance: AcceptanceCriteria::default(),
            artifacts: ArtifactRequirements::default(),
            escalation: EscalationRules::default(),
        }
    }

    pub fn with_scope(self, scope: WorkScope) -> (c: Self)
        ensures
            c == (DelegationContract { scope, ..self }),
    {
        DelegationContract { scope, ..self }
    }

    pub fn with_budget(self, budget: DelegationBudget) -> (c: Self)
        ensures
            c == (DelegationContract { budget, ..self }),
    {
        DelegationContract { budget, ..self }
    }

    pub fn with_permissions(self, permissions: DelegationPermissions) -> (c: Self)
        ensures
            c == (DelegationContract { permissions, ..self }),
    {
        DelegationContract { permissions, ..self }
    }
}

/// The tools a contract lets the worker use: the allowed ones, in order,
/// that are not denied.
pub open spec fn effective_tools(allowed: Seq<Seq<char>>, denied: Seq<Seq<char>>) -> Seq<Seq<char>>
    decreases allowed.len(),
{
    if allowed.len() == 0 {
        Seq::empty()
    } else {
        let r = effective_tools(allowed.drop_last(), denied);
        if denied.contains(allowed.last()) {
            r
        } else {
            r.push(allowed.last())
        }
    }
}

/// The allowed tools minus the denied ones.
pub fn effective_tool_list(permissions: &DelegationPermissions) -> (r: Vec<String>)
    ensures
        strs_view(r@) == effective_tools(strs_view(permissions.allowed_tools@), strs_view(permissions.denied_tools@)),
{
    let ghost allowed = strs_view(permissions.allowed_tools@);
    let ghost denied = strs_view(permissions.denied_tools@);
    let mut out: Vec<String> = Vec::new();
    let mut i: usize = 0;
    proof {
        assert(allowed.take(0) =~= Seq::<Seq<char>>::empty());
        assert(strs_view(out@) =~= effective_tools(allowed.take(0), denied));
    }
    while i < permissions.allowed_tools.len()
        invariant
            i <= allowed.len(),
            allowed == strs_view(permissions.allowed_tools@),
            denied == strs_view(permissions.denied_tools@),
            strs_view(out@) == effective_tools(allowed.take(i as int), denied),
        decreases permissions.allowed_tools.len() - i,
    {
        let t = &permissions.allowed_tools[i];
        let ghost before = strs_view(out@);
        proof {
            assert(allowed.take(i + 1).drop_last() =~= allowed.take(i as int));
            assert(allowed.take(i + 1).last() == allowed[i as int]);
            assert(t@ == allowed[i as int]);
        }
        if !contains_text(&permissions.denied_tools, t.as_str()) {
            out.push(t.clone());
            proof {
                assert(strs_view(out@) =~= before.push(t@));
            }
        }
        i += 1;
    }
    proof {
        assert(allowed.take(allowed.len() as int) =~= allowed);
    }
    out
}

/// The profile a contract gives the worker: its name, a prompt naming the
/// task, the effective tools, and the contract's budget with the assistant
/// defaults for what the contract does not set.
pub fn profile_for_contract(contract: &DelegationContract) -> (p: AgentProfile)
    ensures
        p@.name == contract.worker@,
        p.system_prompt@ == "你是一个 AI 助手，任务是："@ + contract.task_description@,
        strs_view(p.tools@) == effective_tools(
            strs_view(contract.permissions.allowed_tools@),
            strs_view(contract.permissions.denied_tools@),
        ),
        p.budget.max_steps == contract.budget.max_steps,
        p.budget.max_tool_calls == contract.budget.max_tool_calls,
        p.budget.per_tool_limit == 128,
        p.budget.token_limit == contract.budget.token_limit,
        p.budget.llm_timeout_secs == contract.budget.timeout_secs,
        p.budget.tool_timeout_secs == 120,
{
    let defaults = AgentBudget::assistant_default();
    let prompt = join3("你是一个 AI 助手，任务是：", contract.task_description.as_str(), "");
    proof {
        reveal_strlit("");
    }
    AgentProfile::new(
        contract.worker.as_str(),
        prompt.as_str(),
        effective_tool_list(&contract.permissions),
        AgentBudget {
            max_steps: contract.budget.max_steps,
            max_tool_calls: contract.budget.max_tool_calls,
            per_tool_limit: defaults.per_tool_limit,
            token_limit: contract.budget.token_limit,
            llm_timeout_secs: contract.budget.timeout_secs,
            tool_timeout_secs: defaults.tool_timeout_secs,
        },
    )
}

/// How a worker's run ended.
#[derive(Debug, Clone, Copy, PartialEq, Eq, Structural)]
pub enum WorkerStatus {
    Completed,
    Submitted,
    CompletedWithIssues,
    Blocked,
    Failed,
    Interrupted,
}

impl WorkerStatus {
    pub fn is_success(self) -> (b: bool)
        ensures
            b == (self is Completed),
    {
        match self {
            WorkerStatus::Completed => true,
            _ => false,
        }
    }

    /// Every status is final: the enum holds outcomes, not intermediate
    /// states.
    pub fn is_terminal(self) -> (b: bool)
        ensures
            b,
    {
        true
    }
}

/// The worker status a run outcome stands for.
pub open spec fn status_of_outcome(o: RunOutcome) -> WorkerStatus {
    match o {
        RunOutcome::CompletedVerified => WorkerStatus::Completed,
        RunOutcome::CompletedUnverified => WorkerStatus::Submitted,
        RunOutcome::Blocked => WorkerStatus::Blocked,
        RunOutcome::Failed => WorkerStatus::Failed,
        RunOutcome::Interrupted => WorkerStatus::Interrupted,
        RunOutcome::BudgetExhausted => WorkerStatus::Blocked,
    }
}

pub fn worker_status_for(outcome: RunOutcome) -> (s: WorkerStatus)
    ensures
        s == status_of_outcome(outcome),
{
    match outcome {
        RunOutcome::CompletedVerified => WorkerStatus::Completed,
        RunOutcome::CompletedUnverified => WorkerStatus::Submitted,
        RunOutcome::Blocked => WorkerStatus::Blocked,
        RunOutcome::Failed => WorkerStatus::Failed,
        RunOutcome::Interrupted => WorkerStatus::Interrupted,
        RunOutcome::BudgetExhausted => WorkerStatus::Blocked,
    }
}

/// What a worker produced.
#[derive(Debug, PartialEq, Eq)]
pub struct WorkerArtifacts {
    pub patches: Vec<PatchRecord>,
    pub verification_results: Vec<VerificationRecord>,
    pub commands_run: Vec<CommandRecord>,
}

impl Default for WorkerArtifacts {
    fn default() -> (a: Self)
        ensures
            a.patches@.len() == 0,
            a.verification_results@.len() == 0,
            a.commands_run@.len() == 0,
    {
        WorkerArtifacts { patches: Vec::new(), verification_results: Vec::new(), commands_run: Vec::new() }
    }
}

/// One file change.
#[derive(Debug, Clone, PartialEq, Eq)]
pub struct PatchRecord {
    pub path: String,
    pub diff_summary: String,
    pub applied: bool,
}

/// One verification command's result.
#[derive(Debug, Clone, PartialEq, Eq)]
pub struct VerificationRecord {
    pub command: String,
    pub success: bool,
    pub exit_code: Option<i32>,
}

/// One command run.
#[derive(Debug, Clone, PartialEq, Eq)]
pub struct CommandRecord {
    pub command: String,
    pub exit_code: Option<i32>,
    pub success: bool,
}

} // verus!
