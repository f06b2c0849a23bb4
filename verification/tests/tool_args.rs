use std::path::PathBuf;
use zhongshu_core::agent_loop::tool_args::{changed_paths_from_tool_args, paths_from_fields, verification_command_text};
use zhongshu_core::llm::{FunctionCall, ToolCall};

fn call(name: &str, arguments: &str) -> ToolCall {
    ToolCall {
        id: "call-1".into(),
        call_type: "function".into(),
        function: FunctionCall { name: name.into(), arguments: arguments.into() },
    }
}

#[test]
fn shell_json_command_text_is_read_from_arguments() {
    let tc = call("shell", r#"{"command":"cargo test -p zhongshu-core"}"#);
    assert_eq!(verification_command_text(&tc).as_deref(), Some("cargo test -p zhongshu-core"));
    assert_eq!(verification_command_text(&call("read", r#"{"command":"x"}"#)), None);
    assert_eq!(verification_command_text(&call("shell", "not json")), None);
    assert_eq!(verification_command_text(&call("shell", r#"{"command":3}"#)), None);
}

#[test]
fn extracts_json_path_for_changed_file() {
    let paths = changed_paths_from_tool_args(r#"{"path":"src/lib.rs"}"#, false);
    let paths: Vec<PathBuf> = paths.into_iter().map(PathBuf::from).collect();
    assert_eq!(paths, vec![PathBuf::from("src/lib.rs")]);
}

#[test]
fn changed_paths_follow_key_order_then_path_list() {
    let paths = changed_paths_from_tool_args(
        r#"{"target":"b.rs","file":"a.rs","paths":["c.rs",7,"d.rs"],"other":"x"}"#,
        false,
    );
    assert_eq!(paths, vec!["a.rs", "b.rs", "c.rs", "d.rs"]);
    assert!(changed_paths_from_tool_args("not json", false).is_empty());
    assert_eq!(changed_paths_from_tool_args("src/lib.rs", true), vec!["src/lib.rs"]);
}

#[test]
fn fields_and_items_keep_only_strings() {
    let fields = vec![None, Some("a".to_string()), None];
    let items = Some(vec![Some("b".to_string()), None]);
    assert_eq!(paths_from_fields(&fields, &items), vec!["a", "b"]);
    assert_eq!(paths_from_fields(&fields, &None), vec!["a"]);
}
