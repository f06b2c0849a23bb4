use zhongshu_core::agent_loop::budget::AgentBudget;
use zhongshu_core::auto_delegation::{
    admit_proposal, extract_json_object, AutoDelegationPlanner, AutoDelegationStrategy, PlannerProposal,
    PlannerReply, PlannerRequirement,
};
use zhongshu_core::organization::types::CollaborationMode;
use zhongshu_core::profile::{AgentProfile, EmployeeCapability, EmployeeRole};

fn profile(name: &str, role: &str, capabilities: &[&str]) -> AgentProfile {
    AgentProfile::new(name, "test", vec!["read_file".into()], AgentBudget::default()).with_specialty(
        EmployeeRole::new(role),
        capabilities.iter().map(|capability| EmployeeCapability::new(capability)).collect(),
        "test focus",
    )
}

fn roster() -> Vec<AgentProfile> {
    vec![profile("researcher", "research", &["source_review"]), profile("writer", "writing", &["synthesis"])]
}

fn requirement(employee: &str, role: &str, capabilities: &[&str], responsibility: &str) -> PlannerRequirement {
    PlannerRequirement {
        employee: employee.into(),
        role: role.into(),
        capabilities: capabilities.iter().map(|c| c.to_string()).collect(),
        responsibility: responsibility.into(),
    }
}

fn proposal(
    mutation_required: bool,
    collaboration: CollaborationMode,
    merge_risk: u8,
    requirements: Vec<PlannerRequirement>,
) -> PlannerProposal {
    PlannerProposal {
        strategy: AutoDelegationStrategy::MultiAgent,
        reason: "split".into(),
        mutation_required,
        collaboration,
        separability: 90,
        specialization_benefit: 90,
        merge_risk,
        max_workers: 2,
        requirements,
    }
}

#[test]
fn admits_bounded_exact_roster_proposal() {
    let text = r#"```json
            {"strategy":"multi_agent","reason":"研究与成稿可分离","mutation_required":false,"collaboration":"sequential_handoff","separability":85,"specialization_benefit":90,"merge_risk":25,"max_workers":2,"requirements":[{"employee":"researcher","role":"research","capabilities":["source_review"],"responsibility":"整理来源"},{"employee":"writer","role":"writing","capabilities":["synthesis"],"responsibility":"综合成稿"}]}
            ```"#;
    let json = extract_json_object(text).unwrap();
    assert!(json.starts_with('{') && json.ends_with('}'));
    let p = PlannerProposal {
        strategy: AutoDelegationStrategy::MultiAgent,
        reason: "研究与成稿可分离".into(),
        mutation_required: false,
        collaboration: CollaborationMode::SequentialHandoff,
        separability: 85,
        specialization_benefit: 90,
        merge_risk: 25,
        max_workers: 2,
        requirements: vec![
            requirement("researcher", "research", &["source_review"], "整理来源"),
            requirement("writer", "writing", &["synthesis"], "综合成稿"),
        ],
    };
    let decision = admit_proposal("prepare a report", &roster(), p);
    assert_eq!(decision.strategy, AutoDelegationStrategy::MultiAgent);
    assert_eq!(decision.worker_count(), 2);
    assert_eq!(decision.collaboration, CollaborationMode::SequentialHandoff);
}

#[test]
fn mutation_proposal_falls_back_to_single_agent() {
    let decision =
        admit_proposal("edit files", &roster(), proposal(true, CollaborationMode::Independent, 10, Vec::new()));
    assert_eq!(decision.strategy, AutoDelegationStrategy::SingleAgent);
    assert!(decision.reason.contains("副作用"));
}

#[test]
fn invented_capability_falls_back_to_single_agent() {
    let decision = admit_proposal(
        "prepare a report",
        &roster(),
        proposal(
            false,
            CollaborationMode::Independent,
            10,
            vec![
                requirement("researcher", "research", &["invented"], "research"),
                requirement("writer", "writing", &["synthesis"], "write"),
            ],
        ),
    );
    assert_eq!(decision.strategy, AutoDelegationStrategy::SingleAgent);
    assert!(decision.reason.contains("不具备"));
}

#[test]
fn high_merge_risk_falls_back_to_single_agent() {
    let decision = admit_proposal(
        "prepare a report",
        &roster(),
        proposal(false, CollaborationMode::Independent, 80, Vec::new()),
    );
    assert_eq!(decision.strategy, AutoDelegationStrategy::SingleAgent);
    assert!(decision.reason.contains("合并风险"));
}

#[test]
fn json_object_is_found_inside_surrounding_text() {
    assert_eq!(extract_json_object("noise {\"a\":1} tail").as_deref(), Some("{\"a\":1}"));
    assert_eq!(extract_json_object("no object here"), None);
}

#[test]
fn short_roster_is_decided_without_the_planner() {
    let one = vec![profile("researcher", "research", &["source_review"])];
    let decision = AutoDelegationPlanner::short_roster("prepare a report", &one).unwrap();
    assert_eq!(decision.strategy, AutoDelegationStrategy::SingleAgent);
    assert_eq!(decision.reason, "可用于自动只读协作的员工不足 2 名，交由主 AI 处理");
    assert_eq!(decision.worker_count(), 0);
    assert!(AutoDelegationPlanner::short_roster("prepare a report", &roster()).is_none());
}

#[test]
fn planner_failures_fall_back_with_their_reason() {
    let failed = AutoDelegationPlanner::decide_from_reply("x", &roster(), PlannerReply::ProviderFailed("timeout".into()));
    assert_eq!(failed.strategy, AutoDelegationStrategy::SingleAgent);
    assert_eq!(failed.reason, "自动编排规划失败，已回退主 AI：timeout");
    let empty = AutoDelegationPlanner::decide_from_reply("x", &roster(), PlannerReply::NoChoice);
    assert_eq!(empty.reason, "自动编排规划未返回候选方案，已回退主 AI");
    let malformed = AutoDelegationPlanner::decide_from_reply("x", &roster(), PlannerReply::Malformed("expected value".into()));
    assert_eq!(malformed.reason, "自动编排候选方案格式无效，已回退主 AI：expected value");
}

#[test]
fn planner_proposal_goes_through_admission() {
    let p = proposal(
        false,
        CollaborationMode::Independent,
        20,
        vec![
            requirement("researcher", "research", &["source_review"], "check sources"),
            requirement("writer", "writing", &["synthesis"], "write report"),
        ],
    );
    let decision = AutoDelegationPlanner::decide_from_reply("prepare a report", &roster(), PlannerReply::Proposal(p));
    assert_eq!(decision.strategy, AutoDelegationStrategy::MultiAgent);
    assert_eq!(decision.worker_count(), 2);
}

#[test]
fn planner_instructions_end_with_the_roster() {
    let text = AutoDelegationPlanner::instructions("[{\"employee\":\"writer\"}]");
    assert!(text.starts_with("你是多 Agent 路由规划器"));
    assert!(text.ends_with("可用员工：[{\"employee\":\"writer\"}]"));
    assert!(text.contains("{\"strategy\":\"single_agent|multi_agent\""));
}
