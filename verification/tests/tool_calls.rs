use zhongshu_core::agent_loop::outcome::{StopReason, ToolCompletionStatus};
use zhongshu_core::agent_loop::tool_calls::{
    is_mutation, is_read_signal, over_limit_notice, settle_tool_call, ToolCallCounts, ToolCallSettlement,
};

#[test]
fn counts_each_tool_separately() {
    let mut counts = ToolCallCounts::new();
    assert_eq!(counts.record_call("read_file"), 1);
    assert_eq!(counts.record_call("read_file"), 2);
    assert_eq!(counts.record_call("shell"), 1);
    assert_eq!(counts.record_call("read_file"), 3);
    assert_eq!(counts.record_call("shell"), 2);
}

#[test]
fn over_limit_call_is_answered_not_run() {
    let (result, instruction) = over_limit_notice("read_file", 129);
    assert_eq!(result, "[系统：工具 read_file 已被调用 129 次，跳过本次调用，请换用其他方法。]");
    assert_eq!(
        instruction,
        "工具 read_file 已达到单工具调用上限。不要再次调用它；请基于已有证据给出最终答复，或明确说明证据不足。"
    );
}

#[test]
fn workspace_signals() {
    assert!(is_read_signal("grep"));
    assert!(!is_read_signal("read_file"));
    assert!(is_mutation("edit", true, false));
    assert!(!is_mutation("write_file", false, false));
    assert!(is_mutation("shell", false, true));
    assert!(!is_mutation("shell", true, false));
}

#[test]
fn failure_streak_and_budget() {
    let done = settle_tool_call(ToolCompletionStatus::Completed, 3, 256, 2);
    assert_eq!(done, ToolCallSettlement { stop_before_result: None, consecutive_failures: 0, stop_after_result: None });
    let second = settle_tool_call(ToolCompletionStatus::Failed, 3, 256, 1);
    assert_eq!(second.consecutive_failures, 2);
    assert_eq!(second.stop_after_result, None);
    let third = settle_tool_call(ToolCompletionStatus::TimedOut, 3, 256, 2);
    assert_eq!(third.stop_after_result, Some(StopReason::ToolFailurePersistent));
    let spent = settle_tool_call(ToolCompletionStatus::Failed, 256, 256, 2);
    assert_eq!(spent.stop_before_result, Some(StopReason::MaxToolCallsReached));
    assert_eq!(spent.consecutive_failures, 2);
    let unknown = settle_tool_call(ToolCompletionStatus::UnknownEffect, 999, 256, 2);
    assert_eq!(unknown, ToolCallSettlement { stop_before_result: None, consecutive_failures: 2, stop_after_result: None });
    let cancelled = settle_tool_call(ToolCompletionStatus::Cancelled, 3, 256, 2);
    assert_eq!(cancelled.consecutive_failures, 2);
}
