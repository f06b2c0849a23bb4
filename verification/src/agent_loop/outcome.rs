//! Why a run stopped, what it amounts to, and the evidence that decides
//! whether a finished run counts as verified.
use vstd::prelude::*;
use super::budget::AgentBudget;
use crate::llm::Message;

verus! {

#[derive(Debug, Clone, Copy, PartialEq, Eq, Structural)]
pub enum StopReason {
    Finished,
    BudgetExhausted { tokens: usize, limit: usize },
    MaxStepsReached,
    MaxToolCallsReached,
    ToolFailurePersistent,
    Interrupted,
}

/// Unified outcome of a run, consumed by UI, workers, tasks and replay.
#[derive(Debug, Clone, Copy, PartialEq, Eq, Structural)]
pub enum RunOutcome {
    CompletedVerified,
    CompletedUnverified,
    Blocked,
    Interrupted,
    BudgetExhausted,
    Failed,
}

/// The outcome a stop reason stands for, before verification is weighed.
pub open spec fn outcome_of_stop(s: StopReason) -> RunOutcome {
    match s {
        StopReason::Finished => RunOutcome::CompletedUnverified,
        StopReason::BudgetExhausted { .. } => RunOutcome::BudgetExhausted,
        StopReason::MaxStepsReached => RunOutcome::Blocked,
        StopReason::MaxToolCallsReached => RunOutcome::Blocked,
        StopReason::ToolFailurePersistent => RunOutcome::Failed,
        StopReason::Interrupted => RunOutcome::Interrupted,
    }
}

impl From<StopReason> for RunOutcome {
    fn from(s: StopReason) -> (r: Self) {
        match s {
            StopReason::Finished => RunOutcome::CompletedUnverified,
            StopReason::BudgetExhausted { .. } => RunOutcome::BudgetExhausted,
            StopReason::MaxStepsReached => RunOutcome::Blocked,
            StopReason::MaxToolCallsReached => RunOutcome::Blocked,
            StopReason::ToolFailurePersistent => RunOutcome::Failed,
            StopReason::Interrupted => RunOutcome::Interrupted,
        }
    }
}

impl vstd::std_specs::convert::FromSpecImpl<StopReason> for RunOutcome {
    open spec fn obeys_from_spec() -> bool {
        true
    }

    open spec fn from_spec(s: StopReason) -> RunOutcome {
        outcome_of_stop(s)
    }
}

/// The result of one run of the loop.
#[derive(Debug)]
pub struct LoopResult {
    pub messages: Vec<Message>,
    pub stop_reason: StopReason,
    pub outcome: RunOutcome,
    pub tool_calls_made: usize,
    pub estimated_tokens: usize,
}

/// How a tool call ended.
#[derive(Debug, Clone, Copy, PartialEq, Eq, Structural)]
pub enum ToolCompletionStatus {
    Completed,
    Failed,
    TimedOut,
    Cancelled,
    UnknownEffect,
    AwaitingApproval,
}

pub open spec fn ledger_status(s: ToolCompletionStatus) -> Seq<char> {
    match s {
        ToolCompletionStatus::Completed => "completed"@,
        ToolCompletionStatus::Failed => "failed"@,
        ToolCompletionStatus::TimedOut => "timed_out"@,
        ToolCompletionStatus::Cancelled => "cancelled"@,
        ToolCompletionStatus::UnknownEffect => "unknown_effect"@,
        ToolCompletionStatus::AwaitingApproval => "awaiting_approval"@,
    }
}

impl ToolCompletionStatus {
    /// The status name the ledger records.
    pub fn as_ledger_status(self) -> (r: &'static str)
        ensures
            r@ == ledger_status(self),
    {
        match self {
            ToolCompletionStatus::Completed => "completed",
            ToolCompletionStatus::Failed => "failed",
            ToolCompletionStatus::TimedOut => "timed_out",
            ToolCompletionStatus::Cancelled => "cancelled",
            ToolCompletionStatus::UnknownEffect => "unknown_effect",
            ToolCompletionStatus::AwaitingApproval => "awaiting_approval",
        }
    }

    pub fn is_success(self) -> (b: bool)
        ensures
            b == (self is Completed),
    {
        self == ToolCompletionStatus::Completed
    }
}

/// Whether the run may go on: it stops when the tool-call budget is spent or
/// three tool calls in a row failed.
pub fn check_budget(tool_calls_made: usize, consecutive_failures: u32, budget: &AgentBudget) -> (r: Result<
    (),
    StopReason,
>)
    ensures
        tool_calls_made >= budget.max_tool_calls ==> r == Err::<(), StopReason>(StopReason::MaxToolCallsReached),
        tool_calls_made < budget.max_tool_calls && consecutive_failures >= 3 ==> r == Err::<(), StopReason>(
            StopReason::ToolFailurePersistent,
        ),
        tool_calls_made < budget.max_tool_calls && consecutive_failures < 3 ==> r is Ok,
{
    if tool_calls_made >= budget.max_tool_calls as usize {
        return Err(StopReason::MaxToolCallsReached);
    }
    if consecutive_failures >= 3 {
        return Err(StopReason::ToolFailurePersistent);
    }
    Ok(())
}

/// Why a step must not start, checked in the loop's order: the budgets
/// first, then cancellation, then the token estimate of the conversation.
pub open spec fn step_block(
    tool_calls_made: usize,
    consecutive_failures: u32,
    budget: AgentBudget,
    cancelled: bool,
    estimated_tokens: usize,
) -> Option<StopReason> {
    if tool_calls_made >= budget.max_tool_calls {
        Some(StopReason::MaxToolCallsReached)
    } else if consecutive_failures >= 3 {
        Some(StopReason::ToolFailurePersistent)
    } else if cancelled {
        Some(StopReason::Interrupted)
    } else if estimated_tokens > budget.token_limit {
        Some(StopReason::BudgetExhausted { tokens: estimated_tokens, limit: budget.token_limit })
    } else {
        None
    }
}

/// The checks before each model call: the reason the run stops now, if any.
pub fn check_step(
    tool_calls_made: usize,
    consecutive_failures: u32,
    budget: &AgentBudget,
    cancelled: bool,
    estimated_tokens: usize,
) -> (r: Option<StopReason>)
    ensures
        r == step_block(tool_calls_made, consecutive_failures, *budget, cancelled, estimated_tokens),
{
    match check_budget(tool_calls_made, consecutive_failures, budget) {
        Err(stop) => Some(stop),
        Ok(()) => {
            if cancelled {
                Some(StopReason::Interrupted)
            } else if estimated_tokens > budget.token_limit {
                Some(StopReason::BudgetExhausted { tokens: estimated_tokens, limit: budget.token_limit })
            } else {
                None
            }
        },
    }
}

/// One recorded verification run.
#[derive(Debug, Clone, PartialEq, Eq)]
pub struct VerificationEvidence {
    pub tool: String,
    pub command: String,
    pub exit_code: Option<i32>,
    pub success: bool,
    pub step: u32,
}

/// What a run knows about its own verification.
#[derive(Debug, Clone, PartialEq, Eq)]
pub struct VerificationState {
    pub required: bool,
    pub last_success: Option<VerificationEvidence>,
    pub last_failure: Option<VerificationEvidence>,
    pub last_edit_step: u32,
}

pub struct EvidenceView {
    pub exit_code: Option<i32>,
    pub success: bool,
    pub step: u32,
}

pub open spec fn evidence_view(e: Option<VerificationEvidence>) -> Option<EvidenceView> {
    match e {
        Some(x) => Some(EvidenceView { exit_code: x.exit_code, success: x.success, step: x.step }),
        None => None,
    }
}

impl VerificationState {
    pub fn new() -> (s: Self)
        ensures
            !s.required,
            s.last_success is None,
            s.last_failure is None,
            s.last_edit_step == 0,
    {
        VerificationState { required: false, last_success: None, last_failure: None, last_edit_step: 0 }
    }
}

/// Records a verification command: a zero exit code is a success, any
/// other result a failure.
pub fn record_verification(state: &mut VerificationState, tool: &str, command: &str, exit_code: Option<i32>, step: u32)
    ensures
        final(state).required == old(state).required,
        final(state).last_edit_step == old(state).last_edit_step,
        exit_code == Some(0i32) ==> evidence_view(final(state).last_success) == Some(
            EvidenceView { exit_code, success: true, step },
        ) && final(state).last_failure == old(state).last_failure,
        exit_code != Some(0i32) ==> evidence_view(final(state).last_failure) == Some(
            EvidenceView { exit_code, success: false, step },
        ) && final(state).last_success == old(state).last_success,
{
    let success = match exit_code {
        Some(code) => code == 0,
        None => false,
    };
    let evidence = VerificationEvidence {
        tool: tool.to_owned(),
        command: command.to_owned(),
        exit_code,
        success,
        step,
    };
    if success {
        state.last_success = Some(evidence);
    } else {
        state.last_failure = Some(evidence);
    }
}

/// A finished run is verified only by a successful check with exit code
/// zero, run after the last edit, and not followed by a failed check.
pub open spec fn verification_fresh(success: EvidenceView, failure: Option<EvidenceView>, last_edit_step: u32) -> bool {
    &&& success.success
    &&& success.exit_code == Some(0i32)
    &&& success.step > last_edit_step
    &&& !(failure matches Some(f) && f.step > success.step)
}

/// The outcome of a run from why it stopped and what verified it.
pub open spec fn run_outcome(stop: StopReason, success: Option<EvidenceView>, failure: Option<EvidenceView>, last_edit_step: u32) -> RunOutcome {
    if !(stop is Finished) {
        outcome_of_stop(stop)
    } else {
        match success {
            None => RunOutcome::CompletedUnverified,
            Some(s) => if verification_fresh(s, failure, last_edit_step) {
                RunOutcome::CompletedVerified
            } else {
                RunOutcome::CompletedUnverified
            },
        }
    }
}

pub fn derive_run_outcome(stop_reason: StopReason, verification: &VerificationState) -> (r: RunOutcome)
    ensures
        r == run_outcome(
            stop_reason,
            evidence_view(verification.last_success),
            evidence_view(verification.last_failure),
            verification.last_edit_step,
        ),
        r is CompletedVerified ==> stop_reason is Finished,
{
    if stop_reason != StopReason::Finished {
        return RunOutcome::from(stop_reason);
    }
    let success = match &verification.last_success {
        None => {
            return RunOutcome::CompletedUnverified;
        },
        Some(s) => s,
    };
    let failure_is_newer = match &verification.last_failure {
        Some(f) => f.step > success.step,
        None => false,
    };
    let exit_ok = match success.exit_code {
        Some(code) => code == 0,
        None => false,
    };
    let fresh = success.success && exit_ok && success.step > verification.last_edit_step && !failure_is_newer;
    if fresh {
        RunOutcome::CompletedVerified
    } else {
        RunOutcome::CompletedUnverified
    }
}

/// Only a clean finish discards the run's checkpoint; a run stopped any
/// other way keeps it for recovery.
pub fn discards_checkpoint(stop_reason: StopReason) -> (b: bool)
    ensures
        b == (stop_reason is Finished),
{
    match stop_reason {
        StopReason::Finished => true,
        _ => false,
    }
}

/// Closes a run: the conversation moves into the result, with the outcome
/// its stop reason and verification evidence decide.
pub fn finish_loop_result(
    messages: &mut Vec<Message>,
    stop_reason: StopReason,
    tool_calls_made: usize,
    estimated_tokens: usize,
    verification: &VerificationState,
) -> (r: LoopResult)
    ensures
        r.messages@ == old(messages)@,
        final(messages)@.len() == 0,
        r.stop_reason == stop_reason,
        r.outcome == run_outcome(
            stop_reason,
            evidence_view(verification.last_success),
            evidence_view(verification.last_failure),
            verification.last_edit_step,
        ),
        r.tool_calls_made == tool_calls_made,
        r.estimated_tokens == estimated_tokens,
{
    let outcome = derive_run_outcome(stop_reason, verification);
    let mut taken: Vec<Message> = Vec::new();
    std::mem::swap(&mut taken, messages);
    LoopResult { messages: taken, stop_reason, outcome, tool_calls_made, estimated_tokens }
}

/// A finished run with a passing check (exit code zero) after its last edit
/// is verified exactly when no failed check came after that pass: a failure
/// older than the pass never takes the verification away, and a newer one
/// always does. A run that stopped any other way is never verified.
pub proof fn law_only_newer_failure_cancels_verification(
    stop: StopReason,
    success: EvidenceView,
    failure: Option<EvidenceView>,
    last_edit_step: u32,
)
    ensures
        (stop is Finished && success.success && success.exit_code == Some(0i32) && success.step > last_edit_step)
            ==> (run_outcome(stop, Some(success), failure, last_edit_step) == RunOutcome::CompletedVerified <==> !(
        failure matches Some(f) && f.step > success.step)),
        (stop is Finished && success.success && success.exit_code == Some(0i32) && success.step > last_edit_step
            && failure is Some && failure->0.step <= success.step) ==> run_outcome(
            stop,
            Some(success),
            failure,
            last_edit_step,
        ) == RunOutcome::CompletedVerified,
        success.step <= last_edit_step ==> run_outcome(stop, Some(success), failure, last_edit_step)
            != RunOutcome::CompletedVerified,
        !(stop is Finished) ==> run_outcome(stop, Some(success), failure, last_edit_step)
            != RunOutcome::CompletedVerified,
        run_outcome(stop, None, failure, last_edit_step) != RunOutcome::CompletedVerified,
{
}

} // verus!
