use zhongshu_core::agent_loop::budget::AgentBudget;
use zhongshu_core::orchestrator::tool_policy::{
    mutation_worker_blockers, organization_read_only_blocker, organization_sandbox_blocker, read_only_block,
    ToolAccess,
};
use zhongshu_core::orchestrator::types::WorkerAssignment;
use zhongshu_core::organization::types::WorkerWorkspaceMode;
use zhongshu_core::profile::AgentProfile;

fn tool(name: &str, read_only: bool, side_effect_read_only: bool, workspace_only: bool) -> ToolAccess {
    ToolAccess { name: name.into(), read_only, side_effect_read_only, workspace_only }
}

fn read_file() -> ToolAccess {
    tool("read_file", true, true, true)
}

fn assignment(worker: &str) -> WorkerAssignment {
    WorkerAssignment {
        worker_name: worker.into(),
        task_description: "edit".into(),
        owned_files: vec!["src/a.rs".into()],
        profile: AgentProfile::new(worker, "test", vec![], AgentBudget::default()),
    }
}

#[test]
fn read_only_run_refuses_the_first_writing_tool() {
    assert_eq!(organization_read_only_blocker(&vec![read_file()]), None);
    let tools = vec![read_file(), tool("write_file", false, false, true), tool("shell", false, false, false)];
    assert_eq!(organization_read_only_blocker(&tools), Some("write_file".to_string()));
    let sneaky = vec![tool("fetch", true, false, false)];
    assert_eq!(organization_read_only_blocker(&sneaky), Some("fetch".to_string()));
}

#[test]
fn sandbox_keeps_workspace_writes_and_shell_only() {
    let allowed = vec![read_file(), tool("write_file", false, false, true), tool("edit", false, false, true), tool("shell", false, false, false)];
    assert_eq!(organization_sandbox_blocker(&allowed), None);
    let escaping_write = vec![tool("write_file", false, false, false)];
    assert_eq!(organization_sandbox_blocker(&escaping_write), Some("write_file".to_string()));
    let browser = vec![read_file(), tool("browser_click", false, false, false)];
    assert_eq!(organization_sandbox_blocker(&browser), Some("browser_click".to_string()));
}

#[test]
fn mutation_blockers_apply_only_in_sandbox_mode() {
    let assignments = vec![assignment("w1"), assignment("w2")];
    let tools = vec![vec![read_file()], vec![tool("browser_click", false, false, false)]];
    assert!(mutation_worker_blockers(&assignments, &tools, WorkerWorkspaceMode::ProposalOnly).is_empty());
    assert_eq!(
        mutation_worker_blockers(&assignments, &tools, WorkerWorkspaceMode::IsolatedSandbox),
        vec!["employee 'w2' tool 'browser_click' is not permitted in isolated-sandbox mode".to_string()]
    );
}

#[test]
fn read_only_block_names_first_offending_worker() {
    let assignments = vec![assignment("w1"), assignment("w2")];
    let clean = vec![vec![read_file()], vec![read_file()]];
    assert_eq!(read_only_block(&assignments, &clean), None);
    let tools = vec![vec![read_file()], vec![tool("write_file", false, false, true)]];
    assert_eq!(
        read_only_block(&assignments, &tools).as_deref(),
        Some("read-only organization executor blocked worker 'w2' tool 'write_file'; mutation-capable tasks require the file-claim and patch-review pipeline")
    );
}
