use zhongshu_core::agent_loop::budget::AgentBudget;
use zhongshu_core::agent_loop::messages::run_input;
use zhongshu_core::agent_loop::outcome::{check_step, discards_checkpoint, finish_loop_result};
use zhongshu_core::agent_loop::messages::{close_unresolved_tool_calls, user_requested_verification};
use zhongshu_core::agent_loop::outcome::{
    derive_run_outcome, record_verification, RunOutcome, StopReason, VerificationState,
};
use zhongshu_core::llm::{FunctionCall, Message, ToolCall};

#[test]
fn detects_user_verification_request() {
    let messages = vec![Message::user("please run tests before finalizing")];
    assert!(user_requested_verification(&messages));
}

#[test]
fn finished_outcome_requires_fresh_successful_verification() {
    let mut verification = VerificationState::new();
    assert_eq!(derive_run_outcome(StopReason::Finished, &verification), RunOutcome::CompletedUnverified);

    record_verification(&mut verification, "shell", "cargo test", Some(0), 2);
    assert_eq!(derive_run_outcome(StopReason::Finished, &verification), RunOutcome::CompletedVerified);

    verification.last_edit_step = 2;
    assert_eq!(derive_run_outcome(StopReason::Finished, &verification), RunOutcome::CompletedUnverified);
}

#[test]
fn checkpoint_recovery_closes_dangling_tool_calls() {
    let call = ToolCall {
        id: "call-1".into(),
        call_type: "function".into(),
        function: FunctionCall { name: "write_file".into(), arguments: r#"{"path":"src/a.rs"}"#.into() },
    };
    let mut messages = vec![Message::assistant_with_tools("", vec![call])];

    close_unresolved_tool_calls(&mut messages);

    assert_eq!(messages.len(), 2);
    assert_eq!(messages[1].tool_call_id.as_deref(), Some("call-1"));
    assert!(messages[1].content.contains("unknown_effect"));
}

#[test]
fn plain_chat_does_not_request_verification() {
    let messages = vec![Message::user("summarize this file for me")];
    assert!(!user_requested_verification(&messages));
}

#[test]
fn answered_tool_calls_are_not_closed_again() {
    let call = ToolCall {
        id: "call-1".into(),
        call_type: "function".into(),
        function: FunctionCall { name: "read_file".into(), arguments: "{}".into() },
    };
    let mut messages = vec![
        Message::assistant_with_tools("", vec![call]),
        Message::tool_result("call-1".to_string(), "contents".to_string()),
    ];

    close_unresolved_tool_calls(&mut messages);

    assert_eq!(messages.len(), 2);
}

#[test]
fn failed_verification_after_success_is_not_verified() {
    let mut verification = VerificationState::new();
    record_verification(&mut verification, "shell", "cargo test", Some(0), 2);
    record_verification(&mut verification, "shell", "cargo test", Some(1), 3);
    assert_eq!(derive_run_outcome(StopReason::Finished, &verification), RunOutcome::CompletedUnverified);
    assert_eq!(derive_run_outcome(StopReason::Interrupted, &verification), RunOutcome::Interrupted);
}

#[test]
fn run_input_is_the_last_user_message() {
    let messages = vec![Message::user("first"), Message::assistant("ok"), Message::user("second")];
    assert_eq!(run_input(&messages, "cli"), "second");
    assert_eq!(run_input(&Vec::new(), "cli"), "cli");
}

#[test]
fn step_checks_budget_then_cancellation_then_tokens() {
    let budget = AgentBudget::default();
    assert_eq!(check_step(0, 0, &budget, false, 10), None);
    assert_eq!(check_step(budget.max_tool_calls as usize, 0, &budget, true, 10), Some(StopReason::MaxToolCallsReached));
    assert_eq!(check_step(0, 3, &budget, true, 10), Some(StopReason::ToolFailurePersistent));
    assert_eq!(check_step(0, 0, &budget, true, usize::MAX), Some(StopReason::Interrupted));
    assert_eq!(
        check_step(0, 0, &budget, false, budget.token_limit + 1),
        Some(StopReason::BudgetExhausted { tokens: budget.token_limit + 1, limit: budget.token_limit })
    );
}

#[test]
fn finishing_moves_the_conversation_into_the_result() {
    let mut verification = VerificationState::new();
    record_verification(&mut verification, "shell", "cargo test", Some(0), 2);
    let mut messages = vec![Message::user("fix it"), Message::assistant("done")];
    let result = finish_loop_result(&mut messages, StopReason::Finished, 4, 120, &verification);
    assert!(messages.is_empty());
    assert_eq!(result.messages.len(), 2);
    assert_eq!(result.outcome, RunOutcome::CompletedVerified);
    assert_eq!(result.tool_calls_made, 4);
    assert_eq!(result.estimated_tokens, 120);
    let stopped = finish_loop_result(&mut messages, StopReason::MaxStepsReached, 4, 120, &verification);
    assert_eq!(stopped.outcome, RunOutcome::Blocked);
    assert!(discards_checkpoint(StopReason::Finished));
    assert!(!discards_checkpoint(StopReason::Interrupted));
}
