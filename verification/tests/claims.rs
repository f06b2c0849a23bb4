use std::cell::RefCell;

use zhongshu_core::agent_loop::budget::AgentBudget;
use zhongshu_core::orchestrator::claims::{
    claim_failure_message, conflict_report, release_failures, ClaimAnswer, ClaimRun, ClaimStart,
    ClaimStep, ReleaseAnswer,
};
use zhongshu_core::orchestrator::types::{WorkerAssignment, WorkerFileClaim, WorkerFileClaimReport};
use zhongshu_core::profile::AgentProfile;

fn assignment(worker: &str, files: &[&str]) -> WorkerAssignment {
    WorkerAssignment {
        worker_name: worker.into(),
        task_description: "edit".into(),
        owned_files: files.iter().map(|f| f.to_string()).collect(),
        profile: AgentProfile::new(worker, "test", vec![], AgentBudget::default()),
    }
}

#[derive(Default)]
struct MockCoordinator {
    conflict_files: Vec<String>,
    claim_error_files: Vec<String>,
    missing_releases: Vec<String>,
    claimed: RefCell<Vec<(String, String)>>,
    released: RefCell<Vec<(String, String)>>,
}

impl MockCoordinator {
    fn claim_file(&self, worker: &str, file: &str) -> ClaimAnswer {
        if self.claim_error_files.iter().any(|f| f == file) {
            return ClaimAnswer::Failed("scripted claim transport failure".into());
        }
        if self.conflict_files.iter().any(|f| f == file) {
            return ClaimAnswer::Conflict { holder: Some("remote-worker".into()), message: "remote conflict".into() };
        }
        self.claimed.borrow_mut().push((worker.into(), file.into()));
        ClaimAnswer::Claimed
    }

    fn release_file(&self, worker: &str, file: &str) -> ReleaseAnswer {
        self.released.borrow_mut().push((worker.into(), file.into()));
        if self.missing_releases.iter().any(|f| f == file) {
            ReleaseAnswer::Missing("missing claim".into())
        } else {
            ReleaseAnswer::Released
        }
    }

    fn release_all(&self, claims: &Vec<WorkerFileClaim>) -> Vec<ReleaseAnswer> {
        claims.iter().map(|c| self.release_file(&c.worker, &c.file)).collect()
    }
}

fn claim_worker_files(
    assignments: &Vec<WorkerAssignment>,
    coordinator: &MockCoordinator,
    conv_id: i64,
    operation: &str,
) -> Result<WorkerFileClaimReport, String> {
    let mut run = match ClaimRun::start(assignments, operation, conv_id)? {
        ClaimStart::Overlapping(report) => return Ok(report),
        ClaimStart::Run(run) => run,
    };
    let mut step = run.next_step();
    loop {
        step = match step {
            ClaimStep::Claim { worker, file } => run.record(coordinator.claim_file(&worker, &file)),
            ClaimStep::Claimed(report) => return Ok(report),
            ClaimStep::ReleaseAfterConflict { claims, conflict } => {
                let answers = coordinator.release_all(&claims);
                return Ok(conflict_report(conflict, release_failures(&claims, &answers)));
            }
            ClaimStep::ReleaseAfterError { claims, worker, file, error } => {
                let answers = coordinator.release_all(&claims);
                let unreleased = release_failures(&claims, &answers).len();
                return Err(claim_failure_message(&file, &worker, &error, unreleased));
            }
        };
    }
}

fn two_workers() -> Vec<WorkerAssignment> {
    vec![assignment("w1", &["src/a.rs"]), assignment("w2", &["src/b.rs"])]
}

#[test]
fn claim_worker_files_claims_each_owned_file() {
    let coordinator = MockCoordinator::default();
    let report = claim_worker_files(&two_workers(), &coordinator, 7, "edit").expect("claim worker files");
    assert_eq!(report.active_claims.len(), 2);
    assert!(report.conflicts.is_empty());
    assert!(report.local_overlaps.is_empty());
    assert_eq!(
        *coordinator.claimed.borrow(),
        vec![("w1".to_string(), "src/a.rs".to_string()), ("w2".to_string(), "src/b.rs".to_string())]
    );
    assert_eq!(report.active_claims[1].operation, "edit");
    assert_eq!(report.active_claims[1].conv_id, 7);
}

#[test]
fn claim_worker_files_releases_acquired_claims_on_conflict() {
    let coordinator = MockCoordinator { conflict_files: vec!["src/b.rs".into()], ..Default::default() };
    let report = claim_worker_files(&two_workers(), &coordinator, 7, "edit").expect("claim worker files");
    assert!(report.active_claims.is_empty());
    assert_eq!(report.conflicts.len(), 1);
    assert_eq!(report.conflicts[0].holder.as_deref(), Some("remote-worker"));
    assert_eq!(report.conflicts[0].worker, "w2");
    assert_eq!(*coordinator.released.borrow(), vec![("w1".to_string(), "src/a.rs".to_string())]);
}

#[test]
fn claim_worker_files_releases_acquired_claims_on_coordinator_error() {
    let coordinator = MockCoordinator { claim_error_files: vec!["src/b.rs".into()], ..Default::default() };
    let error = claim_worker_files(&two_workers(), &coordinator, 7, "edit").expect_err("coordinator error must remain observable");
    assert!(error.contains("transport failure"));
    assert!(error.contains("were released"));
    assert_eq!(*coordinator.released.borrow(), vec![("w1".to_string(), "src/a.rs".to_string())]);
}

#[test]
fn claim_error_counts_claims_that_could_not_be_released() {
    let coordinator = MockCoordinator {
        claim_error_files: vec!["src/b.rs".into()],
        missing_releases: vec!["src/a.rs".into()],
        ..Default::default()
    };
    let error = claim_worker_files(&two_workers(), &coordinator, 7, "edit").unwrap_err();
    assert_eq!(
        error,
        "failed to claim 'src/b.rs' for worker 'w2': scripted claim transport failure; 1 previously acquired claim(s) could not be released"
    );
}

#[test]
fn release_worker_file_claims_reports_missing_claims() {
    let coordinator = MockCoordinator { missing_releases: vec!["src/a.rs".into()], ..Default::default() };
    let claims = vec![WorkerFileClaim { worker: "w1".into(), file: "src/a.rs".into(), operation: "edit".into(), conv_id: 7 }];
    let failures = release_failures(&claims, &coordinator.release_all(&claims));
    assert_eq!(failures.len(), 1);
    assert_eq!(failures[0].message, "missing claim");
    assert_eq!(failures[0].file, "src/a.rs");
}

#[test]
fn overlapping_ownership_stops_before_any_claim() {
    let coordinator = MockCoordinator::default();
    let assignments = vec![assignment("w1", &["src"]), assignment("w2", &["src/a.rs"])];
    let report = claim_worker_files(&assignments, &coordinator, 7, "edit").unwrap();
    assert_eq!(report.local_overlaps.len(), 1);
    assert_eq!(report.local_overlaps[0].file, "src");
    assert!(coordinator.claimed.borrow().is_empty());
}

#[test]
fn invalid_claim_requests_are_rejected() {
    let coordinator = MockCoordinator::default();
    assert_eq!(claim_worker_files(&two_workers(), &coordinator, 0, "edit").unwrap_err(), "conv_id must be positive");
    assert_eq!(claim_worker_files(&two_workers(), &coordinator, 7, "  ").unwrap_err(), "operation must not be empty");
}

#[test]
fn owned_files_are_claimed_normalised_and_once() {
    let coordinator = MockCoordinator::default();
    let assignments = vec![assignment("w1", &["src/./b.rs", "src/a.rs", "src/b.rs"])];
    let report = claim_worker_files(&assignments, &coordinator, 3, "edit").unwrap();
    let files: Vec<&str> = report.active_claims.iter().map(|c| c.file.as_str()).collect();
    assert_eq!(files, vec!["src/a.rs", "src/b.rs"]);
}
