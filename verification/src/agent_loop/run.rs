//! Driving one agent run: before each model call the budgets, cancellation
//! and token estimate are checked; the model either answers, which the
//! verification gate may refuse, or asks for tools, which run one at a
//! time; a run that changed files counts as verified only by a successful
//! check run after its last edit.
use vstd::prelude::*;
use super::budget::AgentBudget;
use super::outcome::{check_budget, check_step, outcome_of_stop, step_block, RunOutcome, StopReason};

verus! {

#[derive(Debug, Clone, Copy, PartialEq, Eq, Structural)]
pub enum AgentPhase {
    /// Ready to start the next step.
    Ready,
    AwaitingModel,
    RunningTools,
    Done,
}

/// What an agent run knows between steps. Steps are counted from one;
/// the evidence holds the step of the last successful and the last failed
/// verification check.
#[derive(Debug, Clone, Copy, PartialEq, Eq, Structural)]
pub struct AgentRunState {
    pub budget: AgentBudget,
    pub phase: AgentPhase,
    pub step: u32,
    pub tool_calls_made: usize,
    pub consecutive_failures: u32,
    pub last_edit_step: u32,
    pub last_success: Option<u32>,
    pub last_failure: Option<u32>,
    pub batch: usize,
    pub next_tool: usize,
}

/// What the outside world reports back.
#[derive(Debug, Clone, Copy, PartialEq, Eq, Structural)]
pub enum AgentEvent {
    /// The loop is ready for a model call: whether the user cancelled and
    /// the conversation's estimated tokens.
    Tick { cancelled: bool, estimated_tokens: usize },
    /// The model answered with this many tool calls; with none, whether
    /// the verification gate refuses the final answer.
    ModelReplied { tool_calls: usize, gate_blocks: bool },
    /// A tool call ended: whether it succeeded, whether it changed the
    /// workspace, and, for a verification command, whether it passed.
    ToolDone { success: bool, mutated: bool, verification: Option<bool> },
}

/// What the run asks for next.
#[derive(Debug, Clone, Copy, PartialEq, Eq, Structural)]
pub enum AgentAction {
    CallModel,
    RunTool(usize),
    /// Add the verification feedback to the conversation and go on.
    Feedback,
    /// The step is over; report the next tick.
    Continue,
    Finish { stop: StopReason, outcome: RunOutcome },
    Wait,
}

pub open spec fn agent_wf(s: AgentRunState) -> bool {
    &&& s.step <= s.budget.max_steps
    &&& s.last_edit_step <= s.step
    &&& s.last_success matches Some(v) ==> v <= s.step
    &&& s.last_failure matches Some(v) ==> v <= s.step
    &&& s.phase is AwaitingModel ==> {
        &&& s.tool_calls_made < s.budget.max_tool_calls
        &&& s.consecutive_failures < 3
        &&& s.step > 0
    }
    &&& s.phase is RunningTools ==> {
        &&& s.next_tool < s.batch
        &&& s.tool_calls_made < s.budget.max_tool_calls
        &&& s.consecutive_failures < 3
        &&& s.step > 0
    }
}

pub open spec fn agent_initial(budget: AgentBudget) -> AgentRunState {
    AgentRunState {
        budget,
        phase: AgentPhase::Ready,
        step: 0,
        tool_calls_made: 0,
        consecutive_failures: 0,
        last_edit_step: 0,
        last_success: None,
        last_failure: None,
        batch: 0,
        next_tool: 0,
    }
}

/// A finished run is verified by a successful check run after the last
/// edit and not followed by a failed one.
pub open spec fn verified(s: AgentRunState) -> bool {
    &&& s.last_success matches Some(v)
    &&& v > s.last_edit_step
    &&& !(s.last_failure matches Some(f) && f > v)
}

pub open spec fn agent_outcome(s: AgentRunState, stop: StopReason) -> RunOutcome {
    if !(stop is Finished) {
        outcome_of_stop(stop)
    } else if verified(s) {
        RunOutcome::CompletedVerified
    } else {
        RunOutcome::CompletedUnverified
    }
}

pub open spec fn finish(s: AgentRunState, stop: StopReason) -> (AgentRunState, AgentAction) {
    (AgentRunState { phase: AgentPhase::Done, ..s }, AgentAction::Finish { stop, outcome: agent_outcome(s, stop) })
}

/// The run after a tool call's result is recorded.
pub open spec fn recorded(s: AgentRunState, success: bool, mutated: bool, verification: Option<bool>) -> AgentRunState {
    AgentRunState {
        tool_calls_made: (s.tool_calls_made + 1) as usize,
        consecutive_failures: if success { 0 } else { (s.consecutive_failures + 1) as u32 },
        last_edit_step: if mutated { s.step } else { s.last_edit_step },
        last_success: if verification == Some(true) { Some(s.step) } else { s.last_success },
        last_failure: if verification == Some(false) { Some(s.step) } else { s.last_failure },
        next_tool: (s.next_tool + 1) as usize,
        ..s
    }
}

/// One step of the run.
pub open spec fn agent_next(s: AgentRunState, e: AgentEvent) -> (AgentRunState, AgentAction) {
    match (s.phase, e) {
        (AgentPhase::Ready, AgentEvent::Tick { cancelled, estimated_tokens }) => if s.step >= s.budget.max_steps {
            finish(s, StopReason::MaxStepsReached)
        } else {
            match step_block(s.tool_calls_made, s.consecutive_failures, s.budget, cancelled, estimated_tokens) {
                Some(stop) => finish(s, stop),
                None => (
                    AgentRunState { phase: AgentPhase::AwaitingModel, step: (s.step + 1) as u32, ..s },
                    AgentAction::CallModel,
                ),
            }
        },
        (AgentPhase::AwaitingModel, AgentEvent::ModelReplied { tool_calls, gate_blocks }) => if tool_calls == 0 {
            if gate_blocks {
                (AgentRunState { phase: AgentPhase::Ready, ..s }, AgentAction::Feedback)
            } else {
                finish(s, StopReason::Finished)
            }
        } else {
            (
                AgentRunState { phase: AgentPhase::RunningTools, batch: tool_calls, next_tool: 0, ..s },
                AgentAction::RunTool(0),
            )
        },
        (AgentPhase::RunningTools, AgentEvent::ToolDone { success, mutated, verification }) => {
            let t = recorded(s, success, mutated, verification);
            if t.tool_calls_made >= s.budget.max_tool_calls {
                finish(t, StopReason::MaxToolCallsReached)
            } else if t.consecutive_failures >= 3 {
                finish(t, StopReason::ToolFailurePersistent)
            } else if t.next_tool < s.batch {
                (t, AgentAction::RunTool(t.next_tool))
            } else {
                (AgentRunState { phase: AgentPhase::Ready, ..t }, AgentAction::Continue)
            }
        },
        _ => (s, AgentAction::Wait),
    }
}

/// Opens a run under a budget.
pub fn agent_start(budget: AgentBudget) -> (r: AgentRunState)
    ensures
        r == agent_initial(budget),
        agent_wf(r),
{
    AgentRunState {
        budget,
        phase: AgentPhase::Ready,
        step: 0,
        tool_calls_made: 0,
        consecutive_failures: 0,
        last_edit_step: 0,
        last_success: None,
        last_failure: None,
        batch: 0,
        next_tool: 0,
    }
}

fn finish_exec(s: AgentRunState, stop: StopReason) -> (r: (AgentRunState, AgentAction))
    ensures
        r == finish(s, stop),
{
    let outcome = if stop != StopReason::Finished {
        RunOutcome::from(stop)
    } else {
        let fresh = match s.last_success {
            Some(v) => v > s.last_edit_step && match s.last_failure {
                Some(f) => f <= v,
                None => true,
            },
            None => false,
        };
        if fresh {
            RunOutcome::CompletedVerified
        } else {
            RunOutcome::CompletedUnverified
        }
    };
    (AgentRunState { phase: AgentPhase::Done, ..s }, AgentAction::Finish { stop, outcome })
}

/// Takes one event and says what happens next.
pub fn agent_step(state: &AgentRunState, event: AgentEvent) -> (r: (AgentRunState, AgentAction))
    requires
        agent_wf(*state),
    ensures
        r == agent_next(*state, event),
        agent_wf(r.0),
{
    let s = *state;
    match (s.phase, event) {
        (AgentPhase::Ready, AgentEvent::Tick { cancelled, estimated_tokens }) => {
            if s.step >= s.budget.max_steps {
                finish_exec(s, StopReason::MaxStepsReached)
            } else {
                match check_step(s.tool_calls_made, s.consecutive_failures, &s.budget, cancelled, estimated_tokens) {
                    Some(stop) => finish_exec(s, stop),
                    None => (AgentRunState { phase: AgentPhase::AwaitingModel, step: s.step + 1, ..s }, AgentAction::CallModel),
                }
            }
        },
        (AgentPhase::AwaitingModel, AgentEvent::ModelReplied { tool_calls, gate_blocks }) => {
            if tool_calls == 0 {
                if gate_blocks {
                    (AgentRunState { phase: AgentPhase::Ready, ..s }, AgentAction::Feedback)
                } else {
                    finish_exec(s, StopReason::Finished)
                }
            } else {
                (
                    AgentRunState { phase: AgentPhase::RunningTools, batch: tool_calls, next_tool: 0, ..s },
                    AgentAction::RunTool(0),
                )
            }
        },
        (AgentPhase::RunningTools, AgentEvent::ToolDone { success, mutated, verification }) => {
            let t = AgentRunState {
                tool_calls_made: s.tool_calls_made + 1,
                consecutive_failures: if success { 0 } else { s.consecutive_failures + 1 },
                last_edit_step: if mutated { s.step } else { s.last_edit_step },
                last_success: if verification == Some(true) { Some(s.step) } else { s.last_success },
                last_failure: if verification == Some(false) { Some(s.step) } else { s.last_failure },
                next_tool: s.next_tool + 1,
                ..s
            };
            match check_budget(t.tool_calls_made, t.consecutive_failures, &s.budget) {
                Err(stop) => finish_exec(t, stop),
                Ok(()) => {
                    if t.next_tool < s.batch {
                        (t, AgentAction::RunTool(t.next_tool))
                    } else {
                        (AgentRunState { phase: AgentPhase::Ready, ..t }, AgentAction::Continue)
                    }
                },
            }
        },
        _ => (s, AgentAction::Wait),
    }
}

/// The verification policy: a run reports verified success only when it
/// finished on its own and a check passed after the last change to the
/// workspace, with no failed check after it.
pub proof fn law_success_needs_later_verification(s: AgentRunState, e: AgentEvent)
    ensures
        (agent_next(s, e).1 matches AgentAction::Finish { stop, outcome } && outcome == RunOutcome::CompletedVerified)
            ==> ({
            let t = agent_next(s, e).0;
            &&& agent_next(s, e).1->stop is Finished
            &&& t.last_success matches Some(v)
            &&& v > t.last_edit_step
        }),
{
}

/// A tool call that changes the workspace voids earlier verification: until
/// a later check passes, the run cannot finish verified.
pub proof fn law_edit_voids_verification(s: AgentRunState, success: bool)
    requires
        agent_wf(s),
        s.phase is RunningTools,
    ensures
        !verified(agent_next(s, AgentEvent::ToolDone { success, mutated: true, verification: None }).0),
{
}

/// A refused final answer never ends the run, and a completion is
/// requested only within the step, tool-call, failure, cancellation and
/// token limits.
pub proof fn law_gate_and_budget(s: AgentRunState, e: AgentEvent)
    ensures
        (s.phase is AwaitingModel && e == (AgentEvent::ModelReplied { tool_calls: 0, gate_blocks: true }))
            ==> agent_next(s, e).1 == AgentAction::Feedback,
        (agent_next(s, e).1 is CallModel) ==> (s.step < s.budget.max_steps && (e matches AgentEvent::Tick {
            cancelled,
            estimated_tokens,
        } && step_block(s.tool_calls_made, s.consecutive_failures, s.budget, cancelled, estimated_tokens) is None)),
{
}

} // verus!
