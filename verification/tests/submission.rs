use zhongshu_core::orchestrator::collector::PatchProposalCollector;
use zhongshu_core::orchestrator::submission::{validate_patch_submission_shape, EditShape, OperationShape};
use zhongshu_core::orchestrator::types::PatchProposalSubmission;
use zhongshu_core::patch::{PatchOperation, ReplaceRequest};

fn shape(op_type: &str, keys: &[&str]) -> OperationShape {
    OperationShape {
        is_object: true,
        op_type: Some(op_type.into()),
        keys: keys.iter().map(|k| k.to_string()).collect(),
        edits: None,
    }
}

fn replace_keys() -> Vec<&'static str> {
    vec!["new_text", "old_text", "path", "replace_all", "type"]
}

fn valid_submission() -> PatchProposalSubmission {
    PatchProposalSubmission {
        summary: "update copy".into(),
        files: vec!["copy.txt".into()],
        verification_commands: vec!["cargo test".into()],
        operations: vec![PatchOperation::Replace(ReplaceRequest::once("copy.txt", "old", "new"))],
    }
}

#[test]
fn patch_proposal_tool_accepts_exact_schema_and_pins_worker_identity() {
    let shapes = vec![shape("replace", &replace_keys())];
    assert_eq!(validate_patch_submission_shape(Some(&shapes)), Ok(()));
    let mut collector = PatchProposalCollector::new();
    collector.record("writer", valid_submission()).unwrap();
    let proposal = &collector.proposals_list()[0];
    assert_eq!(proposal.worker, "writer");
    assert_eq!(proposal.files, vec!["copy.txt".to_string()]);
    assert!(collector.error_list().is_empty());
}

#[test]
fn patch_proposal_tool_records_malformed_and_duplicate_submissions_as_errors() {
    let mut collector = PatchProposalCollector::new();
    let mut malformed_keys = replace_keys();
    malformed_keys.push("unexpected");
    let malformed = vec![shape("replace", &malformed_keys)];
    let error = validate_patch_submission_shape(Some(&malformed)).unwrap_err();
    assert_eq!(error, "operations[0] contains unknown field 'unexpected'");
    let answer = collector.record_invalid_schema("writer", &error);
    assert_eq!(answer, "invalid patch proposal schema: operations[0] contains unknown field 'unexpected'");
    assert!(collector.record("writer", valid_submission()).is_ok());
    assert!(collector.record("writer", valid_submission()).is_err());
    assert_eq!(collector.proposals_list().len(), 1);
    assert_eq!(collector.error_list().len(), 2);
    assert!(collector.error_list()[0].contains("unknown field"));
    assert!(collector.error_list()[1].contains("more than one"));
}

#[test]
fn shape_errors_come_in_order() {
    assert_eq!(validate_patch_submission_shape(None), Err("operations must be an array".to_string()));
    let not_object = vec![shape("replace", &replace_keys()), OperationShape { is_object: false, op_type: None, keys: Vec::new(), edits: None }];
    assert_eq!(validate_patch_submission_shape(Some(&not_object)), Err("operations[1] must be an object".to_string()));
    let untyped = vec![OperationShape { is_object: true, op_type: None, keys: vec!["path".into()], edits: None }];
    assert_eq!(validate_patch_submission_shape(Some(&untyped)), Err("operations[0].type must be a string".to_string()));
    let unknown = vec![shape("delete", &["type", "path"])];
    assert_eq!(validate_patch_submission_shape(Some(&unknown)), Err("operations[0] has unknown type 'delete'".to_string()));
    let write = vec![shape("write_file", &["allow_create", "content", "encoding", "line_ending", "path", "type"])];
    assert_eq!(validate_patch_submission_shape(Some(&write)), Ok(()));
}

#[test]
fn multi_replace_edits_are_checked() {
    let mut no_edits = shape("multi_replace", &["edits", "path", "type"]);
    assert_eq!(validate_patch_submission_shape(Some(&vec![no_edits.clone()])), Err("operations[0].edits must be an array".to_string()));
    no_edits.edits = Some(vec![
        EditShape { is_object: true, keys: vec!["new_text".into(), "old_text".into()] },
        EditShape { is_object: true, keys: vec!["new_text".into(), "note".into()] },
    ]);
    assert_eq!(
        validate_patch_submission_shape(Some(&vec![no_edits.clone()])),
        Err("operations[0].edits[1] contains unknown field 'note'".to_string())
    );
    no_edits.edits = Some(vec![EditShape { is_object: false, keys: Vec::new() }]);
    assert_eq!(validate_patch_submission_shape(Some(&vec![no_edits])), Err("operations[0].edits[0] must be an object".to_string()));
}
