use zhongshu_core::llm::{Message, Role};
use zhongshu_core::scripted::ScriptedProvider;
use zhongshu_core::sse::StreamEvent;

#[test]
fn provider_keeps_and_changes_its_model() {
    let p = ScriptedProvider::new("offline");
    assert_eq!(p.model_name(), "offline");
    assert_eq!(p.change_model("other").model_name(), "other");
}

#[test]
fn first_turn_requests_self_test_when_offered() {
    let messages = vec![Message::user("check the system")];
    let tools = vec!["read_file".to_string(), "self_test".to_string()];
    assert!(ScriptedProvider::should_call_tool(&messages, Some(&tools)));
    let reply = ScriptedProvider::chat_reply(&messages, Some(&tools));
    assert_eq!(reply.role, Role::Assistant);
    assert_eq!(reply.content, "offline proof: running safe self-test");
    let calls = reply.tool_calls.unwrap();
    assert_eq!(calls.len(), 1);
    assert_eq!(calls[0].id, "offline-proof-self-test");
    assert_eq!(calls[0].function.name, "self_test");
    let args: serde_json::Value = serde_json::from_str(&calls[0].function.arguments).unwrap();
    assert_eq!(args["steps"][0]["tool"], "system_info");
}

#[test]
fn answers_after_a_tool_result_or_without_the_tool() {
    let tools = vec!["self_test".to_string()];
    let messages = vec![
        Message::user("say \"hi\""),
        Message::tool_result("offline-proof-self-test".into(), "ok".into()),
    ];
    assert!(!ScriptedProvider::should_call_tool(&messages, Some(&tools)));
    assert!(!ScriptedProvider::should_call_tool(&vec![Message::user("x")], None));
    let reply = ScriptedProvider::chat_reply(&messages, Some(&tools));
    assert_eq!(
        reply.content,
        "offline proof complete: chat coding path handled input \"say \\\"hi\\\"\" without a live LLM"
    );
    assert!(reply.tool_calls.is_none());
}

#[test]
fn streamed_reply_announces_the_tool_call_then_finishes() {
    let tools = vec!["self_test".to_string()];
    let events = ScriptedProvider::stream_reply(&vec![Message::user("go")], Some(&tools));
    assert_eq!(events.len(), 3);
    assert_eq!(events[0], StreamEvent::TextDelta("offline proof: running safe self-test\n".into()));
    match &events[2] {
        StreamEvent::Finished { finish_reason, tool_calls, .. } => {
            assert_eq!(finish_reason, "tool_calls");
            assert_eq!(tool_calls[0].name, "self_test");
        }
        other => panic!("unexpected {:?}", other),
    }
    let events = ScriptedProvider::stream_reply(&Vec::new(), None);
    assert_eq!(
        events[0],
        StreamEvent::TextDelta("offline proof complete: chat coding path handled input \"\" without a live LLM".into())
    );
}
