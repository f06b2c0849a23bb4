//! What the parent hands to workers and what it records about them.
use vstd::prelude::*;
use crate::attention::Report;
use crate::execution_graph::types::ExecutionGraphSnapshot;
use crate::organization::types::{
    AssignmentAuthority, CollaborationMode, DispatchTarget, EmployeeAssignment, StaffingDecision,
};
use crate::patch::{PatchOperation, PatchOperationKind, PatchResult};
use crate::profile::AgentProfile;

verus! {

/// A file-scoped sub-task for one worker.
#[derive(Debug)]
pub struct WorkerAssignment {
    pub worker_name: String,
    pub task_description: String,
    pub owned_files: Vec<String>,
    pub profile: AgentProfile,
}

#[derive(Debug)]
pub struct StaffedTask {
    pub decision: StaffingDecision,
    /// Empty for direct tasks and blocked decisions: partial staffing is
    /// never exposed as executable work.
    pub assignments: Vec<WorkerAssignment>,
}

#[derive(Debug, Clone, Copy, PartialEq, Eq, Structural)]
pub enum OrganizationExecutionStatus {
    AwaitingManager,
    Blocked,
    Completed,
    Submitted,
    Cancelled,
    WorkerFailed,
}

#[derive(Debug)]
pub struct EmployeeWorkReport {
    pub assignment: EmployeeAssignment,
    pub reports_to: AssignmentAuthority,
    pub report: Report,
}

#[derive(Debug)]
pub struct OrganizationExecutionReport {
    pub task_id: String,
    pub assigned_by: AssignmentAuthority,
    pub target: DispatchTarget,
    pub collaboration: CollaborationMode,
    pub status: OrganizationExecutionStatus,
    pub staffing: StaffingDecision,
    pub employee_reports: Vec<EmployeeWorkReport>,
    pub execution_error: Option<String>,
    /// The neutral, append-only execution state behind the fields above.
    pub execution_graph: ExecutionGraphSnapshot,
}

impl OrganizationExecutionReport {
    /// Only a completed organization run may be finalised.
    pub fn can_finalize(&self) -> (b: bool)
        ensures
            b == (self.status == OrganizationExecutionStatus::Completed),
    {
        self.status == OrganizationExecutionStatus::Completed
    }
}

/// The files one employee may change.
#[derive(Debug, Clone, PartialEq, Eq)]
pub struct OrganizationFileScope {
    pub employee: String,
    pub owned_files: Vec<String>,
}

#[derive(Debug, Clone, Copy, PartialEq, Eq, Structural)]
pub enum ManagerAcceptanceStatus {
    AwaitingManager,
    Blocked,
    Accepted,
    ApplyFailed,
    AppliedWithReleaseFailures,
}

#[derive(Debug)]
pub struct ManagerAcceptanceReport {
    pub manager: String,
    pub status: ManagerAcceptanceStatus,
    pub summary: String,
    pub reasons: Vec<String>,
}

#[derive(Debug)]
pub struct OrganizationMutationReport {
    pub task_id: String,
    pub staffing: StaffingDecision,
    pub employee_reports: Vec<EmployeeWorkReport>,
    pub pipeline: Option<WorkerPatchPipelineReport>,
    pub manager_acceptance: ManagerAcceptanceReport,
    pub execution_graph: ExecutionGraphSnapshot,
}

impl OrganizationMutationReport {
    /// Only an accepted mutation may be finalised.
    pub fn can_finalize(&self) -> (b: bool)
        ensures
            b == (self.manager_acceptance.status == ManagerAcceptanceStatus::Accepted),
    {
        self.manager_acceptance.status == ManagerAcceptanceStatus::Accepted
    }
}

/// Two workers edited the same file.
#[derive(Debug, Clone, PartialEq, Eq)]
pub struct Conflict {
    pub file: String,
    pub workers: Vec<String>,
}

/// A file a worker's run wrote, as its trace records it.
#[derive(Debug, Clone, PartialEq, Eq)]
pub struct FileEdit {
    pub worker: String,
    pub path: String,
}

/// A worker wrote a file outside the files it owns.
#[derive(Debug, Clone, PartialEq, Eq)]
pub struct OwnershipViolation {
    pub worker: String,
    pub file: String,
    pub owned_files: Vec<String>,
    pub reason: String,
}

/// Two assignments own overlapping files before anyone starts.
#[derive(Debug, Clone, PartialEq, Eq)]
pub struct AssignmentFileOverlap {
    pub file: String,
    pub workers: Vec<String>,
}

#[derive(Debug, Clone, PartialEq, Eq)]
pub struct WorkerFileClaim {
    pub worker: String,
    pub file: String,
    pub operation: String,
    pub conv_id: i64,
}

#[derive(Debug, Clone, PartialEq, Eq)]
pub struct WorkerFileClaimConflict {
    pub worker: String,
    pub file: String,
    pub holder: Option<String>,
    pub message: String,
}

#[derive(Debug, Clone, PartialEq, Eq)]
pub struct WorkerFileClaimReleaseFailure {
    pub worker: String,
    pub file: String,
    pub message: String,
}

#[derive(Debug, Clone, PartialEq, Eq)]
pub struct WorkerFileClaimReport {
    pub active_claims: Vec<WorkerFileClaim>,
    pub local_overlaps: Vec<AssignmentFileOverlap>,
    pub conflicts: Vec<WorkerFileClaimConflict>,
    pub release_failures: Vec<WorkerFileClaimReleaseFailure>,
}

impl WorkerFileClaimReport {
    pub fn new() -> (r: Self)
        ensures
            r.active_claims@.len() == 0,
            r.local_overlaps@.len() == 0,
            r.conflicts@.len() == 0,
            r.release_failures@.len() == 0,
    {
        WorkerFileClaimReport {
            active_claims: Vec::new(),
            local_overlaps: Vec::new(),
            conflicts: Vec::new(),
            release_failures: Vec::new(),
        }
    }
}

#[derive(Debug, Clone, Copy, PartialEq, Eq, Structural)]
pub enum WorkerExecutionStatus {
    Completed,
    /// Results came back, but at least one lacks fresh verification
    /// evidence and still needs the parent to verify it.
    Submitted,
    BlockedBeforeExecution,
    WorkerFailed,
    CompletedWithReviewFindings,
}

#[derive(Debug)]
pub struct WorkerExecutionReport {
    pub status: WorkerExecutionStatus,
    pub reports: Vec<Report>,
    pub claim_report: WorkerFileClaimReport,
    pub conflicts: Vec<Conflict>,
    pub ownership_violations: Vec<OwnershipViolation>,
    pub release_failures: Vec<WorkerFileClaimReleaseFailure>,
    pub execution_error: Option<String>,
}

impl WorkerExecutionReport {
    /// Anything short of a verified completion blocks.
    pub fn has_blockers(&self) -> (b: bool)
        ensures
            b == (self.status != WorkerExecutionStatus::Completed),
    {
        self.status != WorkerExecutionStatus::Completed
    }
}

/// The analyst → verifier review pipeline: the analyst may submit an
/// unverified report; acceptance needs the verifier's fresh evidence.
#[derive(Debug)]
pub struct LeadReviewReport {
    pub status: WorkerExecutionStatus,
    pub recovery: ReviewPipelineRecovery,
    pub analyst: Report,
    pub verifier: Report,
    pub acceptance_reasons: Vec<String>,
}

#[derive(Debug, Clone, Copy, PartialEq, Eq, Structural)]
pub enum ReviewPipelineRecovery {
    NotNeeded,
    Succeeded,
    Failed,
}

/// The structured change a worker proposes; the parent applies it.
#[derive(Debug, Clone, PartialEq, Eq)]
pub struct WorkerPatchProposal {
    pub worker: String,
    pub files: Vec<String>,
    pub summary: String,
    pub verification_commands: Vec<String>,
    pub operations: Vec<PatchOperation>,
}

impl WorkerPatchProposal {
    pub fn new(worker: &str, files: Vec<String>, summary: &str) -> (p: Self)
        ensures
            p.worker@ == worker@,
            p.files == files,
            p.summary@ == summary@,
            p.verification_commands@.len() == 0,
            p.operations@.len() == 0,
    {
        WorkerPatchProposal {
            worker: worker.to_owned(),
            files,
            summary: summary.to_owned(),
            verification_commands: Vec::new(),
            operations: Vec::new(),
        }
    }

    pub fn with_verification_commands(self, commands: Vec<String>) -> (p: Self)
        ensures
            p == (WorkerPatchProposal { verification_commands: commands, ..self }),
    {
        WorkerPatchProposal { verification_commands: commands, ..self }
    }

    pub fn with_operations(self, operations: Vec<PatchOperation>) -> (p: Self)
        ensures
            p == (WorkerPatchProposal { operations: operations, ..self }),
    {
        WorkerPatchProposal { operations, ..self }
    }
}

/// The exact payload a worker submits; its identity comes from the parent.
#[derive(Debug, Clone, PartialEq, Eq)]
pub struct PatchProposalSubmission {
    pub summary: String,
    pub files: Vec<String>,
    pub verification_commands: Vec<String>,
    pub operations: Vec<PatchOperation>,
}

#[derive(Debug, Clone, Copy, PartialEq, Eq, Structural)]
pub enum WorkerMergeStatus {
    Approved,
    RequiresParentReview,
    Blocked,
}

#[derive(Debug, Clone, PartialEq, Eq)]
pub struct WorkerPatchDecision {
    pub proposal: WorkerPatchProposal,
    pub approved: bool,
    pub reasons: Vec<String>,
}

#[derive(Debug, Clone, PartialEq, Eq)]
pub struct WorkerMergeReview {
    pub status: WorkerMergeStatus,
    pub decisions: Vec<WorkerPatchDecision>,
    pub blockers: Vec<String>,
}

impl WorkerMergeReview {
    pub fn has_blockers(&self) -> (b: bool)
        ensures
            b == (self.status == WorkerMergeStatus::Blocked || self.blockers@.len() > 0),
    {
        self.status == WorkerMergeStatus::Blocked || !self.blockers.is_empty()
    }
}

#[derive(Debug)]
pub struct WorkerPatchApplyReport {
    pub applied: Vec<PatchResult>,
    pub failures: Vec<WorkerPatchApplyFailure>,
}

impl WorkerPatchApplyReport {
    pub fn passed(&self) -> (b: bool)
        ensures
            b == (self.failures@.len() == 0),
    {
        self.failures.is_empty()
    }
}

#[derive(Debug)]
pub struct WorkerPatchApplyFailure {
    pub worker: String,
    pub operation: PatchOperationKind,
    pub path: Option<String>,
    pub message: String,
}

#[derive(Debug, Clone, Copy, PartialEq, Eq, Structural)]
pub enum WorkerPatchPipelineStatus {
    Applied,
    AppliedWithReviewFindings,
    Blocked,
    ApplyFailed,
}

#[derive(Debug)]
pub struct WorkerPatchPipelineReport {
    pub status: WorkerPatchPipelineStatus,
    pub execution: WorkerExecutionReport,
    pub merge_review: WorkerMergeReview,
    pub apply_report: WorkerPatchApplyReport,
}

impl WorkerPatchPipelineReport {
    pub fn passed(&self) -> (b: bool)
        ensures
            b == (self.status == WorkerPatchPipelineStatus::Applied && self.apply_report.failures@.len()
                == 0),
    {
        self.status == WorkerPatchPipelineStatus::Applied && self.apply_report.passed()
    }
}

#[derive(Debug)]
pub struct ReviewedWorkerPatchPipeline {
    pub session_id: Option<String>,
    pub execution: WorkerExecutionReport,
    pub merge_review: WorkerMergeReview,
}

#[derive(Debug)]
pub struct AppliedWorkerPatchPipeline {
    pub execution: WorkerExecutionReport,
    pub merge_review: WorkerMergeReview,
    pub apply_report: WorkerPatchApplyReport,
}

} // verus!
