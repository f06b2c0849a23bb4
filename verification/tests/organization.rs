use zhongshu_core::agent_loop::budget::AgentBudget;
use zhongshu_core::execution_graph::types::{ExecutionEdgeKind, ExecutionNodeKind};
use zhongshu_core::organization::types::{
    EmployeeAssignment, StaffingDecision, CollaborationMode, OrganizationRouter, OrganizationTaskRequest, RoleRequirement, StaffingMode,
    StaffingRequest,
};
use zhongshu_core::profile::{AgentProfile, EmployeeCapability, EmployeeRole};

fn employee(name: &str, role: EmployeeRole, capabilities: Vec<EmployeeCapability>) -> AgentProfile {
    let focus = role.as_str().to_string();
    AgentProfile::new(name, "specialist", vec![], AgentBudget::default()).with_specialty(
        role,
        capabilities,
        &focus,
    )
}

fn roster() -> Vec<AgentProfile> {
    vec![
        employee(
            "frontend-1",
            EmployeeRole::frontend(),
            vec![EmployeeCapability::ui_implementation(), EmployeeCapability::browser_verification()],
        ),
        employee(
            "backend-1",
            EmployeeRole::backend(),
            vec![EmployeeCapability::api_implementation(), EmployeeCapability::data_consistency()],
        ),
        employee("writer-1", EmployeeRole::writer(), vec![EmployeeCapability::product_copy()]),
        employee("tester-1", EmployeeRole::tester(), vec![EmployeeCapability::test_execution()]),
    ]
}

#[test]
fn direct_request_does_not_dispatch_workers() {
    let decision =
        OrganizationRouter::default().route(&StaffingRequest::direct("answer a focused question"), &roster());

    assert_eq!(decision.mode, StaffingMode::Direct);
    assert!(decision.assignments.is_empty());
    assert!(decision.can_execute());
}

#[test]
fn optional_requirement_does_not_let_direct_assignment_bypass_capabilities() {
    let roster = vec![employee("writer-1", EmployeeRole::writer(), vec![EmployeeCapability::product_copy()])];
    let request = StaffingRequest {
        objective: "prepare a cash-flow forecast".into(),
        requirements: vec![RoleRequirement::optional(
            EmployeeRole::new("management_accountant"),
            "prepare forecast",
        )
        .with_capabilities(vec![EmployeeCapability::new("cash_flow_forecasting")])],
        max_workers: Some(1),
    };

    let decision = OrganizationRouter::default().route_to_employee(&request, &roster, "writer-1");

    assert_eq!(decision.mode, StaffingMode::Blocked);
    assert!(!decision.can_execute());
    assert!(decision.rationale[0].contains("did not match"));
}

#[test]
fn routes_only_required_specialists() {
    let request = StaffingRequest {
        objective: "ship a full-stack settings screen".into(),
        requirements: vec![
            RoleRequirement::required(EmployeeRole::backend(), "implement API")
                .with_capabilities(vec![EmployeeCapability::api_implementation()]),
            RoleRequirement::required(EmployeeRole::frontend(), "implement UI")
                .with_capabilities(vec![EmployeeCapability::ui_implementation()]),
            RoleRequirement::optional(EmployeeRole::writer(), "write empty-state copy"),
        ],
        max_workers: None,
    };

    let decision = OrganizationRouter::default().route(&request, &roster());

    assert_eq!(decision.mode, StaffingMode::MultiSpecialist);
    assert_eq!(decision.assignments.len(), 3);
    assert!(decision.can_execute());
    assert!(!decision.assignments.iter().any(|assignment| assignment.role == EmployeeRole::tester()));
}

#[test]
fn required_role_over_worker_limit_blocks_instead_of_silently_dropping_it() {
    let request = StaffingRequest {
        objective: "cross-domain delivery".into(),
        requirements: vec![
            RoleRequirement::required(EmployeeRole::backend(), "API"),
            RoleRequirement::required(EmployeeRole::frontend(), "UI"),
            RoleRequirement::required(EmployeeRole::writer(), "copy"),
        ],
        max_workers: Some(2),
    };

    let decision = OrganizationRouter::default().route(&request, &roster());

    assert_eq!(decision.mode, StaffingMode::Blocked);
    assert_eq!(decision.assignments.len(), 2);
    assert_eq!(decision.unfilled.len(), 1);
    assert!(decision.unfilled[0].reason.contains("worker limit"));
    assert!(!decision.can_execute());
}

#[test]
fn capability_mismatch_is_visible() {
    let request = StaffingRequest {
        objective: "browser validation".into(),
        requirements: vec![RoleRequirement::required(EmployeeRole::tester(), "validate in browser")
            .with_capabilities(vec![EmployeeCapability::browser_verification()])],
        max_workers: None,
    };

    let decision = OrganizationRouter::default().route(&request, &roster());

    assert_eq!(decision.mode, StaffingMode::Blocked);
    assert!(decision.assignments.is_empty());
    assert_eq!(decision.unfilled[0].role, EmployeeRole::tester());
}

#[test]
fn oversized_roster_is_blocked_before_dispatch() {
    let mut employees = roster();
    for index in 0..5 {
        employees.push(employee(&format!("extra-{index}"), EmployeeRole::generalist(), vec![]));
    }
    let request = StaffingRequest {
        objective: "API".into(),
        requirements: vec![RoleRequirement::required(EmployeeRole::backend(), "API")],
        max_workers: None,
    };

    let decision = OrganizationRouter::default().route(&request, &employees);

    assert_eq!(decision.mode, StaffingMode::Blocked);
    assert!(decision.rationale[0].contains("roster has 9"));
}

#[test]
fn zero_worker_limit_cannot_silently_drop_required_roles() {
    let request = StaffingRequest {
        objective: "API".into(),
        requirements: vec![RoleRequirement::required(EmployeeRole::backend(), "API")],
        max_workers: Some(0),
    };

    let decision = OrganizationRouter::default().route(&request, &roster());

    assert_eq!(decision.mode, StaffingMode::Blocked);
    assert!(!decision.can_execute());
    assert_eq!(decision.unfilled.len(), 1);
    assert!(decision.unfilled[0].reason.contains("zero"));
}

#[test]
fn duplicate_employee_names_are_blocked_as_ambiguous() {
    let employees = vec![
        employee("same", EmployeeRole::backend(), vec![]),
        employee("same", EmployeeRole::frontend(), vec![]),
    ];
    let request = StaffingRequest {
        objective: "UI".into(),
        requirements: vec![RoleRequirement::required(EmployeeRole::frontend(), "UI")],
        max_workers: None,
    };

    let decision = OrganizationRouter::default().route(&request, &employees);

    assert_eq!(decision.mode, StaffingMode::Blocked);
    assert!(decision.assignments.is_empty());
    assert!(decision.rationale[0].contains("duplicate identity"));
}

#[test]
fn routes_non_software_roles_defined_at_runtime() {
    let accountant = employee(
        "accountant-1",
        EmployeeRole::new("management_accountant"),
        vec![EmployeeCapability::new("cash_flow_forecasting"), EmployeeCapability::new("variance_analysis")],
    );
    let request = StaffingRequest {
        objective: "prepare a quarterly cash-flow forecast".into(),
        requirements: vec![RoleRequirement::required(
            EmployeeRole::new("management_accountant"),
            "forecast cash flow and explain material variance",
        )
        .with_capabilities(vec![EmployeeCapability::new("cash_flow_forecasting")])],
        max_workers: Some(1),
    };

    let decision = OrganizationRouter::default().route(&request, &[accountant]);

    assert_eq!(decision.mode, StaffingMode::SingleSpecialist);
    assert!(decision.can_execute());
    assert_eq!(decision.assignments[0].employee, "accountant-1");
    assert_eq!(decision.assignments[0].role, EmployeeRole::new("management_accountant"));
}

#[test]
fn routes_to_named_employee_without_weakening_role_contract() {
    let employees = vec![
        employee("writer-a", EmployeeRole::writer(), vec![]),
        employee("writer-b", EmployeeRole::writer(), vec![]),
    ];
    let request = StaffingRequest {
        objective: "update copy".into(),
        requirements: vec![RoleRequirement::required(EmployeeRole::writer(), "copy").for_employee("writer-b")],
        max_workers: Some(1),
    };

    let decision = OrganizationRouter::default().route(&request, &employees);

    assert_eq!(decision.mode, StaffingMode::SingleSpecialist);
    assert_eq!(decision.assignments[0].employee, "writer-b");

    let mismatched = StaffingRequest {
        objective: "update backend".into(),
        requirements: vec![RoleRequirement::required(EmployeeRole::backend(), "API").for_employee("writer-b")],
        max_workers: Some(1),
    };
    let blocked = OrganizationRouter::default().route(&mismatched, &employees);
    assert_eq!(blocked.mode, StaffingMode::Blocked);
    assert!(blocked.unfilled[0].reason.contains("writer-b"));
}

#[test]
fn independent_compatibility_request_compiles_to_parallel_ready_work_nodes() {
    let staffing = StaffingRequest {
        objective: "compare two independent evidence sources".into(),
        requirements: vec![
            RoleRequirement::required(EmployeeRole::frontend(), "inspect UI evidence"),
            RoleRequirement::required(EmployeeRole::backend(), "inspect API evidence"),
        ],
        max_workers: Some(2),
    };
    let decision = OrganizationRouter::default().route(&staffing, &roster());
    let request = OrganizationTaskRequest::manager_selected("task", "lead", staffing);

    let plan = request.compile_execution_graph(&decision).unwrap();

    assert_eq!(plan.work_nodes.len(), 2);
    assert_eq!(plan.graph.ready_node_ids(), vec!["work-000", "work-001"]);
    assert_eq!(plan.graph.snapshot().edges.len(), 3);
}

#[test]
fn sequential_handoff_compiles_to_explicit_dependency_edges() {
    let staffing = StaffingRequest {
        objective: "inspect then verify".into(),
        requirements: vec![
            RoleRequirement::required(EmployeeRole::frontend(), "inspect UI evidence"),
            RoleRequirement::required(EmployeeRole::backend(), "verify API evidence"),
        ],
        max_workers: Some(2),
    };
    let decision = OrganizationRouter::default().route(&staffing, &roster());
    let request = OrganizationTaskRequest::manager_selected("task", "lead", staffing)
        .with_collaboration(CollaborationMode::SequentialHandoff);

    let plan = request.compile_execution_graph(&decision).unwrap();

    assert_eq!(plan.graph.ready_node_ids(), vec!["work-000"]);
    assert!(plan.graph.snapshot().edges.iter().any(|edge| edge.from == "work-000" && edge.to == "work-001"));
}

#[test]
fn mutation_graph_has_one_apply_and_failure_safe_release_edges() {
    let staffing = StaffingRequest {
        objective: "update UI and API".into(),
        requirements: vec![
            RoleRequirement::required(EmployeeRole::frontend(), "propose UI patch"),
            RoleRequirement::required(EmployeeRole::backend(), "propose API patch"),
        ],
        max_workers: Some(2),
    };
    let decision = OrganizationRouter::default().route(&staffing, &roster());
    let request = OrganizationTaskRequest::manager_selected("task", "lead", staffing);

    let plan = request.compile_mutation_execution_graph(&decision).unwrap();
    let snapshot = plan.graph.snapshot();

    assert_eq!(snapshot.nodes.iter().filter(|node| node.kind == ExecutionNodeKind::Apply).count(), 1);
    assert!(snapshot.edges.iter().any(|edge| {
        edge.from == plan.apply_node && edge.to == plan.release_node && edge.kind == ExecutionEdgeKind::Finally
    }));
    assert!(snapshot.edges.iter().any(|edge| {
        edge.from == plan.release_node
            && edge.to == plan.finalize_node
            && edge.kind == ExecutionEdgeKind::Requires
    }));
}

#[test]
fn large_staffing_decision_compiles_every_assignment() {
    let staffing = StaffingRequest {
        objective: "survey every module".into(),
        requirements: Vec::new(),
        max_workers: None,
    };
    let assignments: Vec<EmployeeAssignment> = (0..1001)
        .map(|index| EmployeeAssignment {
            employee: format!("worker-{index}"),
            role: EmployeeRole::frontend(),
            responsibility: "inspect".into(),
            matched_capabilities: Vec::new(),
        })
        .collect();
    let decision = StaffingDecision {
        mode: StaffingMode::MultiSpecialist,
        assignments,
        unfilled: Vec::new(),
        worker_limit: 1001,
        rationale: Vec::new(),
    };
    let request = OrganizationTaskRequest::manager_selected("task", "lead", staffing);

    let plan = request.compile_execution_graph(&decision).unwrap();
    let snapshot = plan.graph.snapshot();

    assert_eq!(plan.work_nodes.len(), 1001);
    assert_eq!(plan.work_nodes[1000].1, "work-1000");
    assert_eq!(snapshot.nodes.len(), 1003);
    assert_eq!(snapshot.edges.len(), 1002);
    assert_eq!(plan.graph.ready_node_ids().len(), 1001);
}
