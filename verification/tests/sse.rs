use serde_json::Value;
use zhongshu_core::sse::{
    apply_sse_chunk, decode_sse_line, SseChoice, SseChunk, SseDelta, SseFunctionDelta,
    SseLineDecoder, SseToolCallDelta, StreamEvent,
};
use zhongshu_core::streaming::ToolCallAccum;

fn text(v: &Value, key: &str) -> Option<String> {
    v.get(key).and_then(Value::as_str).map(str::to_string)
}

/// Builds the library's chunk from a parsed payload.
fn chunk_from(data: &str) -> Option<SseChunk> {
    let v: Value = serde_json::from_str(data).ok()?;
    let mut choices = Vec::new();
    for c in v.get("choices")?.as_array()? {
        let delta = c.get("delta").cloned().unwrap_or(Value::Null);
        let tool_calls = delta.get("tool_calls").and_then(Value::as_array).map(|items| {
            items
                .iter()
                .map(|t| SseToolCallDelta {
                    index: t.get("index").and_then(Value::as_u64).map(|i| i as u32),
                    id: text(t, "id"),
                    function: t.get("function").map(|f| SseFunctionDelta {
                        name: text(f, "name"),
                        arguments: text(f, "arguments"),
                    }),
                })
                .collect()
        });
        choices.push(SseChoice {
            delta: SseDelta { content: text(&delta, "content"), tool_calls },
            finish_reason: text(c, "finish_reason"),
        });
    }
    Some(SseChunk { choices })
}

#[test]
fn fragmented_sse_line_preserves_tool_name_and_arguments() {
    let first = "data: {\"choices\":[{\"delta\":{\"tool_calls\":[{\"index\":0,\"id\":\"call-1\",\"function\":{\"name\":\"list_dir\",\"arguments\":\"{\\\"path\\\":\"}}]},\"finish_reason\":null}]}\n".to_string();
    let second = "data: {\"choices\":[{\"delta\":{\"tool_calls\":[{\"index\":0,\"id\":\"\",\"function\":{\"name\":\"\",\"arguments\":\"\\\".\\\"}\"}}]},\"finish_reason\":\"tool_calls\"}]}\n".to_string();
    let split = first.find("list_dir").unwrap() + 3;
    let mut decoder = SseLineDecoder::new();
    assert!(decoder.push(&first.as_bytes()[..split]).is_empty());
    let mut data = decoder.push(&first.as_bytes()[split..]);
    data.extend(decoder.push(second.as_bytes()));

    let mut content = String::new();
    let mut tools: Vec<(u32, ToolCallAccum)> = Vec::new();
    let mut finish_reason = String::new();
    for item in data {
        assert_ne!(item, "[DONE]");
        let chunk = chunk_from(&item).unwrap();
        apply_sse_chunk(&chunk, &mut content, &mut tools, &mut finish_reason);
    }

    let tool = &tools.iter().find(|(i, _)| *i == 0).unwrap().1;
    assert_eq!(tool.id.as_deref(), Some("call-1"));
    assert_eq!(tool.name.as_deref(), Some("list_dir"));
    assert_eq!(tool.args, r#"{"path":"."}"#);
    assert_eq!(finish_reason, "tool_calls");
}

#[test]
fn fragmented_sse_line_preserves_multibyte_content() {
    let line = "data: {\"choices\":[{\"delta\":{\"content\":\"中文验证\"},\"finish_reason\":\"stop\"}]}\n".to_string();
    let marker = "中".as_bytes();
    let start = line.as_bytes().windows(marker.len()).position(|window| window == marker).unwrap();
    let mut decoder = SseLineDecoder::new();
    assert!(decoder.push(&line.as_bytes()[..start + 1]).is_empty());
    let data = decoder.push(&line.as_bytes()[start + 1..]);
    let mut content = String::new();
    let mut tools: Vec<(u32, ToolCallAccum)> = Vec::new();
    let mut finish_reason = String::new();

    let chunk = chunk_from(&data[0]).unwrap();
    let events = apply_sse_chunk(&chunk, &mut content, &mut tools, &mut finish_reason);
    assert_eq!(content, "中文验证");
    assert_eq!(finish_reason, "stop");
    assert_eq!(events, vec![StreamEvent::TextDelta("中文验证".into())]);
}

#[test]
fn non_data_and_empty_lines_carry_no_payload() {
    assert_eq!(decode_sse_line(b": keep-alive\n"), None);
    assert_eq!(decode_sse_line(b"data:   \n"), None);
    assert_eq!(decode_sse_line(b"  data: [DONE]  \r\n").as_deref(), Some("[DONE]"));
    assert_eq!(decode_sse_line(&[0x64, 0x61, 0x74, 0x61, 0x3a, 0xff, 0x0a]), None);
}

#[test]
fn unfinished_line_is_decoded_at_the_end() {
    let mut decoder = SseLineDecoder::new();
    assert!(decoder.push(b"data: tail").is_empty());
    assert_eq!(decoder.finish(), vec!["tail".to_string()]);
    assert!(decoder.finish().is_empty());
}

#[test]
fn repeated_empty_id_does_not_erase_the_first() {
    let mut content = String::new();
    let mut tools: Vec<(u32, ToolCallAccum)> = Vec::new();
    let mut finish_reason = String::new();
    let first = SseChunk {
        choices: vec![SseChoice {
            delta: SseDelta {
                content: None,
                tool_calls: Some(vec![SseToolCallDelta {
                    index: Some(1),
                    id: Some("call-9".into()),
                    function: Some(SseFunctionDelta { name: Some("read".into()), arguments: None }),
                }]),
            },
            finish_reason: None,
        }],
    };
    let second = SseChunk {
        choices: vec![SseChoice {
            delta: SseDelta {
                content: None,
                tool_calls: Some(vec![SseToolCallDelta {
                    index: Some(1),
                    id: Some(" ".into()),
                    function: Some(SseFunctionDelta { name: Some("read_file".into()), arguments: Some("{}".into()) }),
                }]),
            },
            finish_reason: None,
        }],
    };
    apply_sse_chunk(&first, &mut content, &mut tools, &mut finish_reason);
    let events = apply_sse_chunk(&second, &mut content, &mut tools, &mut finish_reason);
    assert_eq!(tools.len(), 1);
    assert_eq!(tools[0].1.id.as_deref(), Some("call-9"));
    assert_eq!(tools[0].1.name.as_deref(), Some("read_file"));
    assert_eq!(events.len(), 2);
}
