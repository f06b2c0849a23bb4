//! Value types of the execution graph and their mathematical views.
use vstd::prelude::*;

verus! {

#[derive(Debug, Clone, Copy, PartialEq, Eq, Structural)]
pub enum ExecutionNodeKind {
    Work,
    Contract,
    Claim,
    Propose,
    Verify,
    Review,
    Decide,
    Apply,
    Release,
    Finalize,
}

#[derive(Debug, Clone, Copy, PartialEq, Eq, Structural)]
pub enum ExecutionEdgeKind {
    Requires,
    Consumes,
    Validates,
    Supersedes,
    /// Cleanup dependency: the target becomes eligible after the source
    /// reaches any terminal state, not only after success.
    Finally,
}

#[derive(Debug, Clone, Copy, PartialEq, Eq, Structural)]
pub enum ExecutionNodeState {
    Pending,
    Running,
    Succeeded,
    Failed,
    Skipped,
    Cancelled,
    /// The process ended while the node was running. Its external effects are
    /// unknown and must be reconciled before any retry is considered.
    RecoveryRequired,
}

pub open spec fn state_is_terminal(s: ExecutionNodeState) -> bool {
    s is Succeeded || s is Failed || s is Skipped || s is Cancelled || s is RecoveryRequired
}

impl ExecutionNodeState {
    pub fn is_terminal(self) -> (b: bool)
        ensures
            b == state_is_terminal(self),
    {
        match self {
            ExecutionNodeState::Succeeded | ExecutionNodeState::Failed
            | ExecutionNodeState::Skipped | ExecutionNodeState::Cancelled
            | ExecutionNodeState::RecoveryRequired => true,
            _ => false,
        }
    }

    pub fn is_success(self) -> (b: bool)
        ensures
            b == (self is Succeeded),
    {
        match self {
            ExecutionNodeState::Succeeded => true,
            _ => false,
        }
    }
}

pub open spec fn strs_view(v: Seq<String>) -> Seq<Seq<char>> {
    v.map_values(|s: String| s@)
}

pub open spec fn opt_view(o: Option<String>) -> Option<Seq<char>> {
    match o {
        Some(s) => Some(s@),
        None => None,
    }
}

/// A copy of a list of strings.
pub fn clone_strings(v: &Vec<String>) -> (r: Vec<String>)
    ensures
        strs_view(r@) == strs_view(v@),
        r@.len() == v@.len(),
{
    let mut r: Vec<String> = Vec::new();
    let mut i: usize = 0;
    while i < v.len()
        invariant
            i <= v.len(),
            r@.len() == i,
            forall|k: int| 0 <= k < i ==> (#[trigger] r@[k])@ == v@[k]@,
        decreases v.len() - i,
    {
        r.push(v[i].clone());
        i += 1;
    }
    assert(strs_view(r@) =~= strs_view(v@));
    r
}

pub fn clone_opt_string(o: &Option<String>) -> (r: Option<String>)
    ensures
        opt_view(r) == opt_view(*o),
{
    match o {
        Some(s) => Some(s.clone()),
        None => None,
    }
}

#[derive(Debug, PartialEq, Eq)]
pub struct NodeRequirements {
    pub capabilities: Vec<String>,
    pub read_only: bool,
}

pub struct NodeRequirementsView {
    pub capabilities: Seq<Seq<char>>,
    pub read_only: bool,
}

impl View for NodeRequirements {
    type V = NodeRequirementsView;

    open spec fn view(&self) -> NodeRequirementsView {
        NodeRequirementsView { capabilities: strs_view(self.capabilities@), read_only: self.read_only }
    }
}

impl Clone for NodeRequirements {
    fn clone(&self) -> (r: Self)
        ensures
            r@ == self@,
    {
        NodeRequirements { capabilities: clone_strings(&self.capabilities), read_only: self.read_only }
    }
}

impl Default for NodeRequirements {
    fn default() -> (r: Self)
        ensures
            r@.capabilities.len() == 0,
            !r@.read_only,
    {
        let r = NodeRequirements { capabilities: Vec::new(), read_only: false };
        assert(r@.capabilities =~= Seq::<Seq<char>>::empty());
        r
    }
}

#[derive(Debug, PartialEq, Eq)]
pub struct ExecutionNode {
    pub id: String,
    pub kind: ExecutionNodeKind,
    pub objective: String,
    /// The executor selected for this node: a lease, not an identity.
    pub executor: Option<String>,
    pub requirements: NodeRequirements,
    pub state: ExecutionNodeState,
}

pub struct ExecutionNodeView {
    pub id: Seq<char>,
    pub kind: ExecutionNodeKind,
    pub objective: Seq<char>,
    pub executor: Option<Seq<char>>,
    pub requirements: NodeRequirementsView,
    pub state: ExecutionNodeState,
}

impl View for ExecutionNode {
    type V = ExecutionNodeView;

    open spec fn view(&self) -> ExecutionNodeView {
        ExecutionNodeView {
            id: self.id@,
            kind: self.kind,
            objective: self.objective@,
            executor: opt_view(self.executor),
            requirements: self.requirements@,
            state: self.state,
        }
    }
}

impl Clone for ExecutionNode {
    fn clone(&self) -> (r: Self)
        ensures
            r@ == self@,
    {
        ExecutionNode {
            id: self.id.clone(),
            kind: self.kind,
            objective: self.objective.clone(),
            executor: clone_opt_string(&self.executor),
            requirements: self.requirements.clone(),
            state: self.state,
        }
    }
}

impl ExecutionNode {
    pub fn pending(id: &str, kind: ExecutionNodeKind, objective: &str) -> (n: Self)
        ensures
            n@.id == id@,
            n@.kind == kind,
            n@.objective == objective@,
            n@.executor is None,
            n@.requirements.capabilities.len() == 0,
            !n@.requirements.read_only,
            n@.state is Pending,
    {
        ExecutionNode {
            id: id.to_owned(),
            kind,
            objective: objective.to_owned(),
            executor: None,
            requirements: NodeRequirements::default(),
            state: ExecutionNodeState::Pending,
        }
    }

    pub fn with_executor(self, executor: &str) -> (n: Self)
        ensures
            n@ == (ExecutionNodeView { executor: Some(executor@), ..self@ }),
    {
        ExecutionNode { executor: Some(executor.to_owned()), ..self }
    }

    pub fn with_requirements(self, requirements: NodeRequirements) -> (n: Self)
        ensures
            n@ == (ExecutionNodeView { requirements: requirements@, ..self@ }),
    {
        ExecutionNode { requirements, ..self }
    }
}

#[derive(Debug, PartialEq, Eq)]
pub struct ExecutionEdge {
    pub from: String,
    pub to: String,
    pub kind: ExecutionEdgeKind,
}

pub struct ExecutionEdgeView {
    pub from: Seq<char>,
    pub to: Seq<char>,
    pub kind: ExecutionEdgeKind,
}

impl View for ExecutionEdge {
    type V = ExecutionEdgeView;

    open spec fn view(&self) -> ExecutionEdgeView {
        ExecutionEdgeView { from: self.from@, to: self.to@, kind: self.kind }
    }
}

impl Clone for ExecutionEdge {
    fn clone(&self) -> (r: Self)
        ensures
            r@ == self@,
    {
        ExecutionEdge { from: self.from.clone(), to: self.to.clone(), kind: self.kind }
    }
}

#[derive(Debug, PartialEq, Eq)]
pub struct ExecutionArtifact {
    pub id: String,
    pub producer_node: String,
    pub kind: String,
    pub summary: String,
    pub evidence_refs: Vec<String>,
    pub uncertainties: Vec<String>,
}

pub struct ExecutionArtifactView {
    pub id: Seq<char>,
    pub producer_node: Seq<char>,
    pub kind: Seq<char>,
    pub summary: Seq<char>,
    pub evidence_refs: Seq<Seq<char>>,
    pub uncertainties: Seq<Seq<char>>,
}

impl View for ExecutionArtifact {
    type V = ExecutionArtifactView;

    open spec fn view(&self) -> ExecutionArtifactView {
        ExecutionArtifactView {
            id: self.id@,
            producer_node: self.producer_node@,
            kind: self.kind@,
            summary: self.summary@,
            evidence_refs: strs_view(self.evidence_refs@),
            uncertainties: strs_view(self.uncertainties@),
        }
    }
}

impl Clone for ExecutionArtifact {
    fn clone(&self) -> (r: Self)
        ensures
            r@ == self@,
    {
        ExecutionArtifact {
            id: self.id.clone(),
            producer_node: self.producer_node.clone(),
            kind: self.kind.clone(),
            summary: self.summary.clone(),
            evidence_refs: clone_strings(&self.evidence_refs),
            uncertainties: clone_strings(&self.uncertainties),
        }
    }
}

#[derive(Debug, PartialEq, Eq)]
pub enum ExecutionEffectExpectation {
    WorkspaceFile { path: String, before_hash: String, after_hash: String, existed_before: bool },
    FileClaim {
        agent_id: String,
        file_path: String,
        operation: String,
        conv_id: i64,
        expected_active: bool,
    },
}

pub enum ExecutionEffectExpectationView {
    WorkspaceFile {
        path: Seq<char>,
        before_hash: Seq<char>,
        after_hash: Seq<char>,
        existed_before: bool,
    },
    FileClaim {
        agent_id: Seq<char>,
        file_path: Seq<char>,
        operation: Seq<char>,
        conv_id: i64,
        expected_active: bool,
    },
}

impl View for ExecutionEffectExpectation {
    type V = ExecutionEffectExpectationView;

    open spec fn view(&self) -> ExecutionEffectExpectationView {
        match self {
            ExecutionEffectExpectation::WorkspaceFile {
                path,
                before_hash,
                after_hash,
                existed_before,
            } => ExecutionEffectExpectationView::WorkspaceFile {
                path: path@,
                before_hash: before_hash@,
                after_hash: after_hash@,
                existed_before: *existed_before,
            },
            ExecutionEffectExpectation::FileClaim {
                agent_id,
                file_path,
                operation,
                conv_id,
                expected_active,
            } => ExecutionEffectExpectationView::FileClaim {
                agent_id: agent_id@,
                file_path: file_path@,
                operation: operation@,
                conv_id: *conv_id,
                expected_active: *expected_active,
            },
        }
    }
}

impl Clone for ExecutionEffectExpectation {
    fn clone(&self) -> (r: Self)
        ensures
            r@ == self@,
    {
        match self {
            ExecutionEffectExpectation::WorkspaceFile {
                path,
                before_hash,
                after_hash,
                existed_before,
            } => ExecutionEffectExpectation::WorkspaceFile {
                path: path.clone(),
                before_hash: before_hash.clone(),
                after_hash: after_hash.clone(),
                existed_before: *existed_before,
            },
            ExecutionEffectExpectation::FileClaim {
                agent_id,
                file_path,
                operation,
                conv_id,
                expected_active,
            } => ExecutionEffectExpectation::FileClaim {
                agent_id: agent_id.clone(),
                file_path: file_path.clone(),
                operation: operation.clone(),
                conv_id: *conv_id,
                expected_active: *expected_active,
            },
        }
    }
}

/// A side-effect expectation persisted before the owning node is admitted.
#[derive(Debug, PartialEq, Eq)]
pub struct ExecutionEffectIntent {
    pub id: String,
    pub node_id: String,
    pub expectation: ExecutionEffectExpectation,
}

pub struct ExecutionEffectIntentView {
    pub id: Seq<char>,
    pub node_id: Seq<char>,
    pub expectation: ExecutionEffectExpectationView,
}

impl View for ExecutionEffectIntent {
    type V = ExecutionEffectIntentView;

    open spec fn view(&self) -> ExecutionEffectIntentView {
        ExecutionEffectIntentView {
            id: self.id@,
            node_id: self.node_id@,
            expectation: self.expectation@,
        }
    }
}

impl Clone for ExecutionEffectIntent {
    fn clone(&self) -> (r: Self)
        ensures
            r@ == self@,
    {
        ExecutionEffectIntent {
            id: self.id.clone(),
            node_id: self.node_id.clone(),
            expectation: self.expectation.clone(),
        }
    }
}

#[derive(Debug, PartialEq, Eq)]
pub struct ExecutionTransition {
    pub sequence: u64,
    pub node_id: String,
    pub from: ExecutionNodeState,
    pub to: ExecutionNodeState,
    pub reason: Option<String>,
}

pub struct ExecutionTransitionView {
    pub sequence: u64,
    pub node_id: Seq<char>,
    pub from: ExecutionNodeState,
    pub to: ExecutionNodeState,
    pub reason: Option<Seq<char>>,
}

impl View for ExecutionTransition {
    type V = ExecutionTransitionView;

    open spec fn view(&self) -> ExecutionTransitionView {
        ExecutionTransitionView {
            sequence: self.sequence,
            node_id: self.node_id@,
            from: self.from,
            to: self.to,
            reason: opt_view(self.reason),
        }
    }
}

impl Clone for ExecutionTransition {
    fn clone(&self) -> (r: Self)
        ensures
            r@ == self@,
    {
        ExecutionTransition {
            sequence: self.sequence,
            node_id: self.node_id.clone(),
            from: self.from,
            to: self.to,
            reason: clone_opt_string(&self.reason),
        }
    }
}

#[derive(Debug, Clone, Copy, PartialEq, Eq, Structural)]
pub enum ExecutionReconciliationDecision {
    ConfirmedSucceeded,
    ConfirmedFailed,
}

#[derive(Debug, PartialEq, Eq)]
pub struct ExecutionReconciliation {
    pub node_id: String,
    pub decision: ExecutionReconciliationDecision,
    pub reason: String,
    pub evidence_refs: Vec<String>,
    pub transition_sequence: u64,
}

pub struct ExecutionReconciliationView {
    pub node_id: Seq<char>,
    pub decision: ExecutionReconciliationDecision,
    pub reason: Seq<char>,
    pub evidence_refs: Seq<Seq<char>>,
    pub transition_sequence: u64,
}

impl View for ExecutionReconciliation {
    type V = ExecutionReconciliationView;

    open spec fn view(&self) -> ExecutionReconciliationView {
        ExecutionReconciliationView {
            node_id: self.node_id@,
            decision: self.decision,
            reason: self.reason@,
            evidence_refs: strs_view(self.evidence_refs@),
            transition_sequence: self.transition_sequence,
        }
    }
}

impl Clone for ExecutionReconciliation {
    fn clone(&self) -> (r: Self)
        ensures
            r@ == self@,
    {
        ExecutionReconciliation {
            node_id: self.node_id.clone(),
            decision: self.decision,
            reason: self.reason.clone(),
            evidence_refs: clone_strings(&self.evidence_refs),
            transition_sequence: self.transition_sequence,
        }
    }
}

/// A deterministic node handler result. `Deferred` leaves the node pending;
/// the scheduler never invents a terminal result when a handler has no
/// evidence yet.
#[derive(Debug, PartialEq, Eq)]
pub enum NodeExecutionOutcome {
    Succeeded(Vec<ExecutionArtifact>),
    Failed(String),
    Cancelled(String),
    Deferred,
}

#[derive(Debug, PartialEq, Eq)]
pub struct ExecutionScheduleReport {
    pub executed_nodes: Vec<String>,
    pub skipped_nodes: Vec<String>,
    pub deferred_nodes: Vec<String>,
    /// True when pending nodes remain but a complete pass made no progress.
    pub stalled: bool,
}

#[derive(Debug, PartialEq, Eq)]
pub struct ExecutionGraphSnapshot {
    pub task_id: String,
    pub nodes: Vec<ExecutionNode>,
    pub edges: Vec<ExecutionEdge>,
    pub artifacts: Vec<ExecutionArtifact>,
    pub transitions: Vec<ExecutionTransition>,
    pub reconciliations: Vec<ExecutionReconciliation>,
    pub effect_intents: Vec<ExecutionEffectIntent>,
}

#[verifier::ext_equal]
pub struct ExecutionGraphSnapshotView {
    pub task_id: Seq<char>,
    pub nodes: Seq<ExecutionNodeView>,
    pub edges: Seq<ExecutionEdgeView>,
    pub artifacts: Seq<ExecutionArtifactView>,
    pub transitions: Seq<ExecutionTransitionView>,
    pub reconciliations: Seq<ExecutionReconciliationView>,
    pub effect_intents: Seq<ExecutionEffectIntentView>,
}

impl View for ExecutionGraphSnapshot {
    type V = ExecutionGraphSnapshotView;

    open spec fn view(&self) -> ExecutionGraphSnapshotView {
        ExecutionGraphSnapshotView {
            task_id: self.task_id@,
            nodes: super::spec::nodes_view(self.nodes@),
            edges: super::spec::edges_view(self.edges@),
            artifacts: super::spec::artifacts_view(self.artifacts@),
            transitions: super::spec::transitions_view(self.transitions@),
            reconciliations: super::spec::reconciliations_view(self.reconciliations@),
            effect_intents: super::spec::intents_view(self.effect_intents@),
        }
    }
}

pub const EXECUTION_GRAPH_CHECKPOINT_VERSION: u32 = 1;

#[derive(Debug, PartialEq, Eq)]
pub struct ExecutionGraphCheckpoint {
    pub schema_version: u32,
    pub graph: ExecutionGraphSnapshot,
}

#[derive(Debug, PartialEq, Eq)]
pub struct ExecutionRecoveryReport {
    /// Nodes whose in-flight effects became unknown during process loss.
    pub recovery_required_nodes: Vec<String>,
    /// Pending nodes that became unreachable after recovery propagation.
    pub skipped_nodes: Vec<String>,
    /// Nodes eligible for an explicit recovery handler; checkpoint
    /// restoration never executes them.
    pub ready_nodes: Vec<String>,
}

#[derive(Debug, Clone, PartialEq, Eq)]
pub enum ExecutionGraphError {
    EmptyTaskId,
    EmptyNodeId,
    DuplicateNode(String),
    MissingNode(String),
    DuplicateEdge { from: String, to: String },
    DuplicateBatchNode(String),
    Cycle { from: String, to: String },
    MultipleApplyNodes,
    TargetAlreadyStarted(String),
    NodeNotReady(String),
    InvalidTransition { node_id: String, from: ExecutionNodeState, to: ExecutionNodeState },
    DuplicateArtifact(String),
    ArtifactProducerMismatch { artifact_id: String, expected: String, actual: String },
    SchedulerStalled(Vec<String>),
    UnsupportedCheckpointVersion(u32),
    InvalidSnapshot(String),
    NodeNotRecoveryRequired(String),
    EmptyReconciliationReason,
    MissingReconciliationEvidence,
    FailedReconciliationHasArtifacts,
    EmptyEffectIntentId,
    DuplicateEffectIntent(String),
    EffectIntentNodeAlreadyStarted(String),
}

} // verus!
