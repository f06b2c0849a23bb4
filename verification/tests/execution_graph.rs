use zhongshu_core::execution_graph::types::{
    ExecutionArtifact, ExecutionEdge, ExecutionEdgeKind, ExecutionEffectExpectation,
    ExecutionEffectIntent, ExecutionGraphError, ExecutionNode, ExecutionNodeKind,
    ExecutionNodeState, ExecutionReconciliationDecision, NodeExecutionOutcome,
};
use zhongshu_core::execution_graph::ExecutionGraph;

fn edge(from: &str, to: &str) -> ExecutionEdge {
    ExecutionEdge { from: from.into(), to: to.into(), kind: ExecutionEdgeKind::Requires }
}

fn finally(from: &str, to: &str) -> ExecutionEdge {
    ExecutionEdge { from: from.into(), to: to.into(), kind: ExecutionEdgeKind::Finally }
}

#[test]
fn independent_nodes_are_ready_together_and_join_after_success() {
    let mut graph = ExecutionGraph::new("task").unwrap();
    for id in ["search-a", "search-b", "decide"] {
        graph.add_node(ExecutionNode::pending(id, ExecutionNodeKind::Work, id)).unwrap();
    }
    graph.add_edge(edge("search-a", "decide")).unwrap();
    graph.add_edge(edge("search-b", "decide")).unwrap();

    assert_eq!(graph.ready_node_ids(), vec!["search-a", "search-b"]);
    graph.start_node("search-a").unwrap();
    graph.complete_node("search-a", Vec::new()).unwrap();
    assert_eq!(graph.ready_node_ids(), vec!["search-b"]);
    graph.start_node("search-b").unwrap();
    graph.complete_node("search-b", Vec::new()).unwrap();
    assert_eq!(graph.ready_node_ids(), vec!["decide"]);
}

#[test]
fn rejects_cycles_and_a_second_apply_node() {
    let mut graph = ExecutionGraph::new("task").unwrap();
    graph.add_node(ExecutionNode::pending("a", ExecutionNodeKind::Work, "a")).unwrap();
    graph.add_node(ExecutionNode::pending("b", ExecutionNodeKind::Apply, "b")).unwrap();
    graph.add_edge(edge("a", "b")).unwrap();

    assert!(matches!(graph.add_edge(edge("b", "a")), Err(ExecutionGraphError::Cycle { .. })));
    assert_eq!(
        graph.add_node(ExecutionNode::pending("apply-again", ExecutionNodeKind::Apply, "apply")),
        Err(ExecutionGraphError::MultipleApplyNodes)
    );
}

#[test]
fn failure_skips_all_unreachable_dependants_without_retrying_nodes() {
    let mut graph = ExecutionGraph::new("task").unwrap();
    for id in ["work", "decide", "finalize"] {
        graph.add_node(ExecutionNode::pending(id, ExecutionNodeKind::Work, id)).unwrap();
    }
    graph.add_edge(edge("work", "decide")).unwrap();
    graph.add_edge(edge("decide", "finalize")).unwrap();
    graph.start_node("work").unwrap();
    graph.fail_node("work", "provider failed").unwrap();

    assert_eq!(graph.settle_unreachable().unwrap(), vec!["decide", "finalize"]);
    assert!(graph.ready_node_ids().is_empty());
    assert_eq!(graph.node("finalize").unwrap().state, ExecutionNodeState::Skipped);
}

#[test]
fn completion_records_typed_artifacts_and_append_only_transitions() {
    let mut graph = ExecutionGraph::new("task").unwrap();
    graph.add_node(ExecutionNode::pending("search", ExecutionNodeKind::Work, "search")).unwrap();
    graph.start_node("search").unwrap();
    graph
        .complete_node(
            "search",
            vec![ExecutionArtifact {
                id: "finding-1".into(),
                producer_node: "search".into(),
                kind: "finding".into(),
                summary: "new evidence".into(),
                evidence_refs: vec!["file:src/lib.rs".into()],
                uncertainties: Vec::new(),
            }],
        )
        .unwrap();

    let snapshot = graph.snapshot();
    assert_eq!(snapshot.artifacts.len(), 1);
    assert_eq!(snapshot.transitions.len(), 2);
    assert_eq!(snapshot.transitions[0].sequence, 1);
    assert_eq!(snapshot.transitions[1].sequence, 2);
}

#[test]
fn effect_intent_is_immutable_after_admission_and_survives_replay() {
    let mut graph = ExecutionGraph::new("task").unwrap();
    graph.add_node(ExecutionNode::pending("apply", ExecutionNodeKind::Apply, "apply")).unwrap();
    let intent = ExecutionEffectIntent {
        id: "apply:file:copy.txt".into(),
        node_id: "apply".into(),
        expectation: ExecutionEffectExpectation::WorkspaceFile {
            path: "copy.txt".into(),
            before_hash: "before".into(),
            after_hash: "after".into(),
            existed_before: true,
        },
    };
    graph.record_effect_intents("apply", vec![intent.clone()]).unwrap();
    graph.start_node("apply").unwrap();

    assert_eq!(
        graph.record_effect_intents("apply", vec![intent]),
        Err(ExecutionGraphError::EffectIntentNodeAlreadyStarted("apply".into()))
    );

    let (replayed, report) = ExecutionGraph::recover_from_checkpoint(graph.checkpoint()).unwrap();
    assert_eq!(report.recovery_required_nodes, vec!["apply"]);
    assert_eq!(replayed.effect_intents_for("apply").len(), 1);
    assert_eq!(replayed.snapshot().effect_intents.len(), 1);
}

#[test]
fn finally_edge_makes_cleanup_ready_after_failure() {
    let mut graph = ExecutionGraph::new("task").unwrap();
    graph.add_node(ExecutionNode::pending("apply", ExecutionNodeKind::Apply, "apply")).unwrap();
    graph
        .add_node(ExecutionNode::pending("release", ExecutionNodeKind::Finalize, "release claims"))
        .unwrap();
    graph.add_edge(finally("apply", "release")).unwrap();

    graph.start_node("apply").unwrap();
    graph.fail_node("apply", "write failed").unwrap();

    assert_eq!(graph.ready_node_ids(), vec!["release"]);
    assert!(graph.settle_unreachable().unwrap().is_empty());
}

#[test]
fn ready_scheduler_propagates_failure_and_still_runs_cleanup() {
    let mut graph = ExecutionGraph::new("task").unwrap();
    for (id, kind) in [
        ("work", ExecutionNodeKind::Work),
        ("apply", ExecutionNodeKind::Apply),
        ("release", ExecutionNodeKind::Release),
        ("finalize", ExecutionNodeKind::Finalize),
    ] {
        graph.add_node(ExecutionNode::pending(id, kind, id)).unwrap();
    }
    graph.add_edge(edge("work", "apply")).unwrap();
    graph.add_edge(finally("apply", "release")).unwrap();
    graph.add_edge(edge("apply", "finalize")).unwrap();
    graph.add_edge(edge("release", "finalize")).unwrap();

    let report = graph
        .run_ready(|node: &ExecutionNode| match node.id.as_str() {
            "work" => NodeExecutionOutcome::Failed("worker failed".into()),
            "release" => NodeExecutionOutcome::Succeeded(Vec::new()),
            _ => NodeExecutionOutcome::Deferred,
        })
        .unwrap();

    assert!(!report.stalled);
    assert_eq!(report.executed_nodes, vec!["work", "release"]);
    assert_eq!(graph.node("apply").unwrap().state, ExecutionNodeState::Skipped);
    assert_eq!(graph.node("release").unwrap().state, ExecutionNodeState::Succeeded);
    assert_eq!(graph.node("finalize").unwrap().state, ExecutionNodeState::Skipped);
}

#[test]
fn ready_scheduler_reports_stall_without_fabricating_progress() {
    let mut graph = ExecutionGraph::new("task").unwrap();
    graph
        .add_node(ExecutionNode::pending("external", ExecutionNodeKind::Work, "wait for external evidence"))
        .unwrap();

    let report = graph.run_ready(|_: &ExecutionNode| NodeExecutionOutcome::Deferred).unwrap();

    assert!(report.stalled);
    assert_eq!(report.deferred_nodes, vec!["external"]);
    assert!(report.executed_nodes.is_empty());
    assert!(graph.snapshot().transitions.is_empty());
    assert_eq!(graph.node("external").unwrap().state, ExecutionNodeState::Pending);
}

#[test]
fn ready_scheduler_rejects_bad_artifact_before_starting_node() {
    let mut graph = ExecutionGraph::new("task").unwrap();
    graph.add_node(ExecutionNode::pending("work", ExecutionNodeKind::Work, "produce evidence")).unwrap();

    let error = graph
        .run_ready(|_: &ExecutionNode| {
            NodeExecutionOutcome::Succeeded(vec![ExecutionArtifact {
                id: "artifact".into(),
                producer_node: "different-node".into(),
                kind: "evidence".into(),
                summary: "invalid producer".into(),
                evidence_refs: Vec::new(),
                uncertainties: Vec::new(),
            }])
        })
        .unwrap_err();

    assert!(matches!(error, ExecutionGraphError::ArtifactProducerMismatch { .. }));
    assert_eq!(graph.node("work").unwrap().state, ExecutionNodeState::Pending);
    assert!(graph.snapshot().transitions.is_empty());
}

#[test]
fn ready_batch_admission_is_atomic() {
    let mut graph = ExecutionGraph::new("task").unwrap();
    for id in ["first", "dependent"] {
        graph.add_node(ExecutionNode::pending(id, ExecutionNodeKind::Work, id)).unwrap();
    }
    graph.add_edge(edge("first", "dependent")).unwrap();

    let error = graph.start_ready_batch(&["first".into(), "dependent".into()]).unwrap_err();

    assert_eq!(error, ExecutionGraphError::NodeNotReady("dependent".into()));
    assert_eq!(graph.node("first").unwrap().state, ExecutionNodeState::Pending);
    assert_eq!(graph.node("dependent").unwrap().state, ExecutionNodeState::Pending);
    assert!(graph.snapshot().transitions.is_empty());
}

#[test]
fn checkpoint_recovery_marks_running_node_unknown_and_holds_dependants() {
    let mut graph = ExecutionGraph::new("task").unwrap();
    graph.add_node(ExecutionNode::pending("work", ExecutionNodeKind::Work, "external work")).unwrap();
    graph.add_node(ExecutionNode::pending("decide", ExecutionNodeKind::Decide, "decide")).unwrap();
    graph.add_edge(edge("work", "decide")).unwrap();
    graph.start_node("work").unwrap();
    let checkpoint = graph.checkpoint();

    let (recovered, report) = ExecutionGraph::recover_from_checkpoint(checkpoint).unwrap();

    assert_eq!(report.recovery_required_nodes, vec!["work"]);
    assert!(report.skipped_nodes.is_empty());
    assert!(report.ready_nodes.is_empty());
    assert_eq!(recovered.node("work").unwrap().state, ExecutionNodeState::RecoveryRequired);
    assert_eq!(recovered.node("decide").unwrap().state, ExecutionNodeState::Pending);
    assert_eq!(recovered.snapshot().transitions.len(), 2);
}

fn apply_release_finalize(task: &str) -> ExecutionGraph {
    let mut graph = ExecutionGraph::new(task).unwrap();
    for (id, kind) in [
        ("apply", ExecutionNodeKind::Apply),
        ("release", ExecutionNodeKind::Release),
        ("finalize", ExecutionNodeKind::Finalize),
    ] {
        graph.add_node(ExecutionNode::pending(id, kind, id)).unwrap();
    }
    graph.add_edge(finally("apply", "release")).unwrap();
    graph.add_edge(edge("apply", "finalize")).unwrap();
    graph.add_edge(edge("release", "finalize")).unwrap();
    graph
}

#[test]
fn recovery_never_retries_unknown_apply_but_exposes_finally_cleanup() {
    let mut graph = apply_release_finalize("mutation");
    graph.start_node("apply").unwrap();

    let (recovered, report) = ExecutionGraph::recover_from_checkpoint(graph.checkpoint()).unwrap();

    assert_eq!(report.recovery_required_nodes, vec!["apply"]);
    assert_eq!(report.ready_nodes, vec!["release"]);
    assert_eq!(recovered.node("apply").unwrap().state, ExecutionNodeState::RecoveryRequired);
    assert_eq!(recovered.node("release").unwrap().state, ExecutionNodeState::Pending);
    assert_eq!(recovered.node("finalize").unwrap().state, ExecutionNodeState::Pending);
    assert_eq!(
        recovered
            .snapshot()
            .transitions
            .iter()
            .filter(|t| t.node_id == "apply" && t.to == ExecutionNodeState::Running)
            .count(),
        1,
        "recovery records unknown effect and never starts Apply again"
    );
}

#[test]
fn evidence_backed_reconciliation_resolves_apply_without_retrying_it() {
    let mut graph = apply_release_finalize("mutation");
    graph.start_node("apply").unwrap();
    let (mut recovered, _) = ExecutionGraph::recover_from_checkpoint(graph.checkpoint()).unwrap();

    recovered
        .reconcile_node(
            "apply",
            ExecutionReconciliationDecision::ConfirmedSucceeded,
            "workspace content matches the reviewed patch hash",
            vec!["workspace:sha256:abc".into()],
            vec![ExecutionArtifact {
                id: "artifact-apply-reconciled".into(),
                producer_node: "apply".into(),
                kind: "applied_patch".into(),
                summary: "reconciled applied patch".into(),
                evidence_refs: vec!["workspace:sha256:abc".into()],
                uncertainties: Vec::new(),
            }],
        )
        .unwrap();

    assert_eq!(recovered.node("apply").unwrap().state, ExecutionNodeState::Succeeded);
    assert_eq!(recovered.ready_node_ids(), vec!["release"]);
    assert_eq!(recovered.snapshot().reconciliations.len(), 1);
    assert_eq!(
        recovered
            .snapshot()
            .transitions
            .iter()
            .filter(|t| t.node_id == "apply" && t.to == ExecutionNodeState::Running)
            .count(),
        1,
        "reconciliation confirms external fact without retrying Apply"
    );

    let checkpoint = recovered.checkpoint();
    let (validated, report) = ExecutionGraph::recover_from_checkpoint(checkpoint).unwrap();
    assert!(report.recovery_required_nodes.is_empty());
    assert_eq!(validated.snapshot(), recovered.snapshot());
}

#[test]
fn reconciliation_requires_evidence_and_preserves_unknown_state_on_rejection() {
    let mut graph = ExecutionGraph::new("mutation").unwrap();
    graph.add_node(ExecutionNode::pending("apply", ExecutionNodeKind::Apply, "apply")).unwrap();
    graph.start_node("apply").unwrap();
    let (mut recovered, _) = ExecutionGraph::recover_from_checkpoint(graph.checkpoint()).unwrap();

    let error = recovered
        .reconcile_node(
            "apply",
            ExecutionReconciliationDecision::ConfirmedSucceeded,
            "looks successful",
            Vec::new(),
            Vec::new(),
        )
        .unwrap_err();

    assert_eq!(error, ExecutionGraphError::MissingReconciliationEvidence);
    assert_eq!(recovered.node("apply").unwrap().state, ExecutionNodeState::RecoveryRequired);
    assert!(recovered.snapshot().reconciliations.is_empty());
}

#[test]
fn recovery_rejects_resolution_transition_without_reconciliation_record() {
    let mut graph = ExecutionGraph::new("mutation").unwrap();
    graph.add_node(ExecutionNode::pending("apply", ExecutionNodeKind::Apply, "apply")).unwrap();
    graph.start_node("apply").unwrap();
    let (mut recovered, _) = ExecutionGraph::recover_from_checkpoint(graph.checkpoint()).unwrap();
    recovered
        .reconcile_node(
            "apply",
            ExecutionReconciliationDecision::ConfirmedFailed,
            "workspace does not contain the expected content",
            vec!["workspace:sha256:def".into()],
            Vec::new(),
        )
        .unwrap();
    let mut checkpoint = recovered.checkpoint();
    checkpoint.graph.reconciliations.clear();

    let error = ExecutionGraph::recover_from_checkpoint(checkpoint).unwrap_err();

    assert!(matches!(error, ExecutionGraphError::InvalidSnapshot(_)));
}

#[test]
fn recovery_rejects_snapshot_state_that_does_not_match_history() {
    let mut graph = ExecutionGraph::new("task").unwrap();
    graph.add_node(ExecutionNode::pending("work", ExecutionNodeKind::Work, "work")).unwrap();
    graph.start_node("work").unwrap();
    let mut checkpoint = graph.checkpoint();
    checkpoint.graph.nodes[0].state = ExecutionNodeState::Succeeded;

    let error = ExecutionGraph::recover_from_checkpoint(checkpoint).unwrap_err();

    assert!(matches!(error, ExecutionGraphError::InvalidSnapshot(_)));
}

#[test]
fn second_settle_skips_nothing_and_changes_nothing() {
    let mut graph = ExecutionGraph::new("task").unwrap();
    for id in ["work", "apply", "finalize"] {
        graph.add_node(ExecutionNode::pending(id, ExecutionNodeKind::Work, id)).unwrap();
    }
    graph.add_edge(edge("work", "apply")).unwrap();
    graph.add_edge(edge("apply", "finalize")).unwrap();
    graph.start_node("work").unwrap();
    graph.fail_node("work", "broken").unwrap();

    assert_eq!(graph.settle_unreachable().unwrap(), vec!["apply", "finalize"]);
    let before = graph.snapshot().transitions.len();
    assert!(graph.settle_unreachable().unwrap().is_empty());
    assert_eq!(graph.snapshot().transitions.len(), before);
    assert_eq!(graph.node("finalize").unwrap().state, ExecutionNodeState::Skipped);
}

#[test]
fn recovering_settled_graph_gives_it_back() {
    let mut graph = ExecutionGraph::new("task").unwrap();
    for id in ["work", "review"] {
        graph.add_node(ExecutionNode::pending(id, ExecutionNodeKind::Work, id)).unwrap();
    }
    graph.add_edge(edge("work", "review")).unwrap();
    graph.start_node("work").unwrap();
    graph.complete_node("work", Vec::new()).unwrap();

    let (recovered, report) = ExecutionGraph::recover_from_checkpoint(graph.checkpoint()).unwrap();
    assert!(recovered.snapshot() == graph.snapshot());
    assert!(report.recovery_required_nodes.is_empty());
    assert!(report.skipped_nodes.is_empty());
    assert_eq!(report.ready_nodes, graph.ready_node_ids());
}

#[test]
fn cancelled_outcome_cancels_only_that_node() {
    let mut graph = ExecutionGraph::new("task").unwrap();
    for id in ["a", "b"] {
        graph.add_node(ExecutionNode::pending(id, ExecutionNodeKind::Work, id)).unwrap();
    }
    let report = graph
        .run_ready(|node| match node.id.as_str() {
            "a" => NodeExecutionOutcome::Cancelled("stop".into()),
            _ => NodeExecutionOutcome::Succeeded(Vec::new()),
        })
        .unwrap();
    assert!(!report.stalled);
    assert_eq!(report.executed_nodes, vec!["a", "b"]);
    assert!(report.skipped_nodes.is_empty());
    assert_eq!(graph.node("a").unwrap().state, ExecutionNodeState::Cancelled);
    assert_eq!(graph.node("b").unwrap().state, ExecutionNodeState::Succeeded);
}
