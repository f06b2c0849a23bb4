//! Attention levels of worker reports, and the manager that routes every
//! report by its level.
use vstd::prelude::*;
use crate::agent_loop::outcome::RunOutcome;

verus! {

/// How loudly a worker report asks for the user's attention, in
/// increasing order: Ignore < Digest < Notify < Immediate.
#[derive(Debug, Clone, Copy, PartialEq, Eq, PartialOrd, Ord, Structural)]
pub enum AttentionLevel {
    /// Archived only.
    Ignore,
    /// Collected for the daily or weekly digest.
    Digest,
    /// Shown as a desktop notification.
    Notify,
    /// Interrupts the user at once.
    Immediate,
}

/// A worker's report.
#[derive(Debug, Clone, PartialEq, Eq)]
pub struct Report {
    pub task_id: String,
    pub worker: String,
    pub run_id: String,
    pub summary: String,
    pub findings: String,
    pub success: bool,
    pub outcome: RunOutcome,
    pub attention: AttentionLevel,
}

/// What the manager did with a report.
#[derive(Debug)]
pub enum AttentionAction {
    /// Publish an interrupt carrying the report.
    Interrupt(Report),
    /// Publish a notification carrying the report.
    Notify(Report),
    /// The report joined the digest queue; the oldest report was dropped
    /// when the queue was full.
    Queued { dropped: Option<Report> },
    /// The report was discarded.
    Ignored,
}

pub const DEFAULT_DIGEST_CAPACITY: usize = 100;

/// Routes every report by its attention level and keeps a bounded queue of
/// digest reports.
#[derive(Debug)]
pub struct AttentionManager {
    digest_queue: Vec<Report>,
    capacity: usize,
}

impl AttentionManager {
    /// The reports waiting for the digest, oldest first.
    pub closed spec fn queue(&self) -> Seq<Report> {
        self.digest_queue@
    }

    pub closed spec fn capacity(&self) -> usize {
        self.capacity
    }

    /// The queue never holds more reports than its capacity, which is not
    /// zero.
    pub open spec fn wf(&self) -> bool {
        0 < self.capacity() && self.queue().len() <= self.capacity()
    }

    pub fn new() -> (m: Self)
        ensures
            m.wf(),
            m.queue().len() == 0,
            m.capacity() == DEFAULT_DIGEST_CAPACITY,
    {
        AttentionManager { digest_queue: Vec::new(), capacity: DEFAULT_DIGEST_CAPACITY }
    }

    /// A manager whose digest queue holds at most `capacity` reports.
    pub fn with_capacity(capacity: usize) -> (m: Self)
        requires
            capacity > 0,
        ensures
            m.wf(),
            m.queue().len() == 0,
            m.capacity() == capacity,
    {
        AttentionManager { digest_queue: Vec::new(), capacity }
    }

    /// The reports waiting for the digest.
    pub fn digest_queue(&self) -> (q: &Vec<Report>)
        ensures
            q@ == self.queue(),
    {
        &self.digest_queue
    }

    /// Takes every waiting digest report, oldest first.
    pub fn drain_digest(&mut self) -> (r: Vec<Report>)
        requires
            old(self).wf(),
        ensures
            final(self).wf(),
            r@ == old(self).queue(),
            final(self).queue().len() == 0,
            final(self).capacity() == old(self).capacity(),
    {
        let mut taken: Vec<Report> = Vec::new();
        std::mem::swap(&mut taken, &mut self.digest_queue);
        taken
    }

    /// Takes every report from a queue.
    pub fn drain_queue(queue: &mut Vec<Report>) -> (r: Vec<Report>)
        ensures
            r@ == old(queue)@,
            final(queue)@.len() == 0,
    {
        let mut taken: Vec<Report> = Vec::new();
        std::mem::swap(&mut taken, queue);
        taken
    }

    /// Routes one report: Immediate interrupts, Notify notifies, Digest
    /// joins the queue (dropping the oldest report when it is full), and
    /// Ignore discards.
    pub fn process(&mut self, report: Report) -> (a: AttentionAction)
        requires
            old(self).wf(),
        ensures
            final(self).wf(),
            final(self).capacity() == old(self).capacity(),
            report.attention is Immediate ==> a == AttentionAction::Interrupt(report) && final(self).queue()
                == old(self).queue(),
            report.attention is Notify ==> a == AttentionAction::Notify(report) && final(self).queue()
                == old(self).queue(),
            report.attention is Ignore ==> a == AttentionAction::Ignored && final(self).queue() == old(
                self,
            ).queue(),
            report.attention is Digest && old(self).queue().len() < old(self).capacity() ==> a
                == (AttentionAction::Queued { dropped: None }) && final(self).queue() == old(self).queue().push(
                report,
            ),
            report.attention is Digest && old(self).queue().len() >= old(self).capacity() ==> a
                == (AttentionAction::Queued { dropped: Some(old(self).queue()[0]) }) && final(self).queue()
                == old(self).queue().drop_first().push(report),
    {
        match report.attention {
            AttentionLevel::Immediate => AttentionAction::Interrupt(report),
            AttentionLevel::Notify => AttentionAction::Notify(report),
            AttentionLevel::Digest => {
                let mut dropped: Option<Report> = None;
                if self.digest_queue.len() >= self.capacity {
                    dropped = Some(self.digest_queue.remove(0));
                }
                self.digest_queue.push(report);
                AttentionAction::Queued { dropped }
            },
            AttentionLevel::Ignore => AttentionAction::Ignored,
        }
    }
}

} // verus!
