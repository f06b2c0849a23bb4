use zhongshu_core::agent_loop::outcome::RunOutcome;
use zhongshu_core::attention::{AttentionAction, AttentionLevel, AttentionManager, Report};

fn dummy_report(level: AttentionLevel) -> Report {
    Report {
        task_id: "t1".into(),
        worker: "test".into(),
        run_id: "test-run".into(),
        summary: "test".into(),
        findings: "test".into(),
        success: true,
        outcome: RunOutcome::CompletedVerified,
        attention: level,
    }
}

#[test]
fn process_immediate_publishes_interrupt() {
    let mut mgr = AttentionManager::new();

    let action = mgr.process(dummy_report(AttentionLevel::Immediate));
    assert!(matches!(action, AttentionAction::Interrupt(_)));
}

#[test]
fn process_notify_publishes_notify() {
    let mut mgr = AttentionManager::new();

    let action = mgr.process(dummy_report(AttentionLevel::Notify));
    assert!(matches!(action, AttentionAction::Notify(_)));
}

#[test]
fn process_digest_queues_report() {
    let mut mgr = AttentionManager::new();

    mgr.process(dummy_report(AttentionLevel::Digest));
    mgr.process(dummy_report(AttentionLevel::Digest));

    let drained = mgr.drain_digest();
    assert_eq!(drained.len(), 2);
}

#[test]
fn process_ignore_discards() {
    let mut mgr = AttentionManager::new();

    let action = mgr.process(dummy_report(AttentionLevel::Ignore));
    assert!(matches!(action, AttentionAction::Ignored));
    assert!(mgr.drain_digest().is_empty());
}

#[test]
fn digest_queue_respects_capacity() {
    let mut mgr = AttentionManager::with_capacity(2);

    mgr.process(dummy_report(AttentionLevel::Digest));
    mgr.process(dummy_report(AttentionLevel::Digest));
    let action = mgr.process(dummy_report(AttentionLevel::Digest)); // drops the oldest

    assert!(matches!(action, AttentionAction::Queued { dropped: Some(_) }));
    assert_eq!(mgr.digest_queue().len(), 2);
}

#[test]
fn digest_drain_keeps_arrival_order_and_empties_queue() {
    let mut mgr = AttentionManager::with_capacity(2);
    let mut first = dummy_report(AttentionLevel::Digest);
    first.task_id = "first".into();
    let mut second = dummy_report(AttentionLevel::Digest);
    second.task_id = "second".into();
    let mut third = dummy_report(AttentionLevel::Digest);
    third.task_id = "third".into();

    assert!(matches!(mgr.process(first), AttentionAction::Queued { dropped: None }));
    mgr.process(second);
    match mgr.process(third) {
        AttentionAction::Queued { dropped: Some(report) } => assert_eq!(report.task_id, "first"),
        other => panic!("unexpected action {:?}", other),
    }
    let drained = mgr.drain_digest();
    assert_eq!(drained.iter().map(|r| r.task_id.as_str()).collect::<Vec<_>>(), vec!["second", "third"]);
    assert!(mgr.digest_queue().is_empty());
}
