use zhongshu_core::streaming::{finish_tool_calls, merge_streamed_name, ToolCallAccum};

#[test]
fn streamed_function_name_fragments_are_accumulated_without_duplication() {
    let mut name = None;
    merge_streamed_name(&mut name, "list_");
    merge_streamed_name(&mut name, "dir");
    merge_streamed_name(&mut name, "");
    merge_streamed_name(&mut name, "list_dir");
    assert_eq!(name.as_deref(), Some("list_dir"));
}

#[test]
fn incomplete_streamed_tool_call_fails_observably() {
    let tools = vec![(
        0u32,
        ToolCallAccum { id: Some("call-1".into()), name: None, args: r#"{"path":"."}"#.into() },
    )];

    let error = finish_tool_calls(tools).unwrap_err();
    assert!(error.to_string().contains("omitted its function name"));
}

#[test]
fn finished_tool_calls_come_out_in_index_order() {
    let tools = vec![
        (2u32, ToolCallAccum { id: Some("call-b".into()), name: Some("read_file".into()), args: "{}".into() }),
        (0u32, ToolCallAccum { id: Some("call-a".into()), name: Some("list_dir".into()), args: "{\"path\":\".\"}".into() }),
    ];

    let calls = finish_tool_calls(tools).unwrap();
    assert_eq!(calls.len(), 2);
    assert_eq!(calls[0].id, "call-a");
    assert_eq!(calls[0].name, "list_dir");
    assert_eq!(calls[1].id, "call-b");
}
