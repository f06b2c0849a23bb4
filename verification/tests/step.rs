use zhongshu_core::agent_loop::step::StepCollector;
use zhongshu_core::sse::StreamEvent;
use zhongshu_core::streaming::StreamToolCall;

#[test]
fn collects_text_and_final_tool_calls() {
    let mut step = StepCollector::new();
    assert_eq!(step.observe(StreamEvent::TextDelta("Hel".into())).as_deref(), Some("Hel"));
    assert_eq!(
        step.observe(StreamEvent::ToolCallDelta { index: 0, id: Some("call-1".into()), name: Some("read".into()), arguments: None }),
        None
    );
    step.observe(StreamEvent::TextDelta("lo".into()));
    step.observe(StreamEvent::Finished {
        finish_reason: "tool_calls".into(),
        content: "Hello".into(),
        tool_calls: vec![StreamToolCall { id: "call-1".into(), name: "read".into(), arguments: "{\"path\":\"a\"}".into() }],
    });
    let (content, calls) = step.finish();
    assert_eq!(content, "Hello");
    assert_eq!(calls.len(), 1);
    assert_eq!(calls[0].id, "call-1");
    assert_eq!(calls[0].call_type, "function");
    assert_eq!(calls[0].function.name, "read");
    assert_eq!(calls[0].function.arguments, "{\"path\":\"a\"}");
}

#[test]
fn turn_without_finish_has_no_tool_calls() {
    let mut step = StepCollector::new();
    step.observe(StreamEvent::TextDelta("partial".into()));
    let (content, calls) = step.finish();
    assert_eq!(content, "partial");
    assert!(calls.is_empty());
}
