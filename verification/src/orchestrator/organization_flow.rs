//! Driving a read-only organization run: the lifecycle notices it publishes,
//! in order, and when each employee works. Publishing is one-way: what a
//! listener does with a notice cannot change staffing, the workers or the
//! completion gate.
use vstd::prelude::*;
use super::types::OrganizationExecutionStatus;

verus! {

/// A lifecycle notice; employees are named by their place in the batch.
#[derive(Debug, Clone, Copy, PartialEq, Eq, Structural)]
pub enum OrganizationNotice {
    TaskStarted,
    EmployeeAssigned(usize),
    EmployeeWorking(usize),
    EmployeeReported(usize),
    Handoff { from: usize, to: usize },
    ManagerReviewing,
    TaskFinished(OrganizationExecutionStatus),
}

/// What the run asks the outside world to do.
#[derive(Debug, Clone, Copy, PartialEq, Eq, Structural)]
pub enum OrganizationAction {
    Publish(OrganizationNotice),
    /// Fail the decision node: the staffing contract blocked execution.
    FailDecision,
    /// Cancel every work node.
    CancelWork,
    /// Cancel one work node before its employee starts.
    CancelNode(usize),
    RunWorker(usize),
    RunAll,
    /// Judge the reports, close the graph and publish the finished task.
    CloseAndFinish { cancelled: bool },
}

/// How staffing left the run.
#[derive(Debug, Clone, Copy, PartialEq, Eq, Structural)]
pub enum OrganizationGate {
    Direct,
    Blocked,
    UnsafeTools,
    Ready,
}

/// What the outside world reports back.
#[derive(Debug, Clone, Copy, PartialEq, Eq, Structural)]
pub enum OrganizationEvent {
    /// Staffing was decided: `assigned` employees were named, `workers` of
    /// them are admitted; `cancelled` when the user cancelled already.
    Begin { assigned: usize, workers: usize, gate: OrganizationGate, cancelled: bool },
    /// The running employee (sequential) or the next employee in batch
    /// order (independent) reported; `cancelled` when the user has
    /// cancelled by now.
    Reported { success: bool, cancelled: bool },
    /// A listener received a notice.
    Published,
}

#[derive(Debug, Clone, Copy, PartialEq, Eq, Structural)]
pub enum OrganizationPhase {
    Start,
    Sequential,
    Independent,
    Done,
}

/// A run being driven: in sequential mode `next` is the place of the next
/// employee to start, in independent mode the number of reports received.
#[derive(Debug, Clone, Copy, PartialEq, Eq, Structural)]
pub struct OrganizationRun {
    pub phase: OrganizationPhase,
    pub sequential: bool,
    pub by_manager: bool,
    pub workers: usize,
    pub next: usize,
}

pub open spec fn organization_wf(s: OrganizationRun) -> bool {
    &&& s.phase is Sequential ==> 0 < s.next <= s.workers
    &&& s.phase is Independent ==> s.next < s.workers
}

pub open spec fn organization_initial(sequential: bool, by_manager: bool) -> OrganizationRun {
    OrganizationRun { phase: OrganizationPhase::Start, sequential, by_manager, workers: 0, next: 0 }
}

pub open spec fn assigned_notices(n: usize) -> Seq<OrganizationAction> {
    Seq::new(n as nat, |i: int| OrganizationAction::Publish(OrganizationNotice::EmployeeAssigned(i as usize)))
}

pub open spec fn working_notices(n: usize) -> Seq<OrganizationAction> {
    Seq::new(n as nat, |i: int| OrganizationAction::Publish(OrganizationNotice::EmployeeWorking(i as usize)))
}

/// The end of a run: the manager reviews unless the user cancelled or the
/// task was not assigned by a manager; then the run is judged and closed.
pub open spec fn closing(s: OrganizationRun, cancelled: bool) -> Seq<OrganizationAction> {
    if !cancelled && s.by_manager {
        seq![
            OrganizationAction::Publish(OrganizationNotice::ManagerReviewing),
            OrganizationAction::CloseAndFinish { cancelled },
        ]
    } else {
        seq![OrganizationAction::CloseAndFinish { cancelled }]
    }
}

pub open spec fn done(s: OrganizationRun) -> OrganizationRun {
    OrganizationRun { phase: OrganizationPhase::Done, ..s }
}

/// One step of the run.
pub open spec fn organization_next(s: OrganizationRun, e: OrganizationEvent) -> (OrganizationRun, Seq<OrganizationAction>) {
    match (s.phase, e) {
        (OrganizationPhase::Start, OrganizationEvent::Begin { assigned, workers, gate, cancelled }) => {
            let pre = seq![OrganizationAction::Publish(OrganizationNotice::TaskStarted)] + assigned_notices(assigned);
            let t = OrganizationRun { workers, ..s };
            match gate {
                OrganizationGate::Direct => (
                    done(t),
                    pre.push(
                        OrganizationAction::Publish(
                            OrganizationNotice::TaskFinished(OrganizationExecutionStatus::AwaitingManager),
                        ),
                    ),
                ),
                OrganizationGate::Blocked => (
                    done(t),
                    pre.push(OrganizationAction::FailDecision).push(
                        OrganizationAction::Publish(OrganizationNotice::TaskFinished(OrganizationExecutionStatus::Blocked)),
                    ),
                ),
                OrganizationGate::UnsafeTools => (
                    done(t),
                    pre.push(OrganizationAction::CancelWork).push(
                        OrganizationAction::Publish(OrganizationNotice::TaskFinished(OrganizationExecutionStatus::Blocked)),
                    ),
                ),
                OrganizationGate::Ready => if workers == 0 {
                    (done(t), pre + closing(t, false))
                } else if cancelled {
                    (done(t), pre.push(OrganizationAction::CancelWork) + closing(t, true))
                } else if s.sequential {
                    (
                        OrganizationRun { phase: OrganizationPhase::Sequential, next: 1, ..t },
                        pre.push(OrganizationAction::Publish(OrganizationNotice::EmployeeWorking(0))).push(
                            OrganizationAction::RunWorker(0),
                        ),
                    )
                } else {
                    (
                        OrganizationRun { phase: OrganizationPhase::Independent, next: 0, ..t },
                        pre + working_notices(workers).push(OrganizationAction::RunAll),
                    )
                },
            }
        },
        (OrganizationPhase::Sequential, OrganizationEvent::Reported { success, cancelled }) => {
            let rep = seq![OrganizationAction::Publish(OrganizationNotice::EmployeeReported((s.next - 1) as usize))];
            if !success {
                (done(s), rep + closing(s, cancelled))
            } else if s.next >= s.workers {
                (done(s), rep + closing(s, false))
            } else if cancelled {
                (done(s), rep.push(OrganizationAction::CancelNode(s.next)) + closing(s, true))
            } else {
                (
                    OrganizationRun { next: (s.next + 1) as usize, ..s },
                    rep.push(
                        OrganizationAction::Publish(
                            OrganizationNotice::Handoff { from: (s.next - 1) as usize, to: s.next },
                        ),
                    ).push(OrganizationAction::Publish(OrganizationNotice::EmployeeWorking(s.next))).push(
                        OrganizationAction::RunWorker(s.next),
                    ),
                )
            }
        },
        (OrganizationPhase::Independent, OrganizationEvent::Reported { success, cancelled }) => {
            let rep = seq![OrganizationAction::Publish(OrganizationNotice::EmployeeReported(s.next))];
            if s.next + 1 >= s.workers {
                (done(s), rep + closing(s, false))
            } else {
                (OrganizationRun { next: (s.next + 1) as usize, ..s }, rep)
            }
        },
        _ => (s, Seq::empty()),
    }
}

/// Opens a run.
pub fn organization_start(sequential: bool, by_manager: bool) -> (r: OrganizationRun)
    ensures
        r == organization_initial(sequential, by_manager),
        organization_wf(r),
{
    OrganizationRun { phase: OrganizationPhase::Start, sequential, by_manager, workers: 0, next: 0 }
}

fn push_closing(s: &OrganizationRun, cancelled: bool, acts: &mut Vec<OrganizationAction>)
    ensures
        final(acts)@ == old(acts)@ + closing(*s, cancelled),
{
    if !cancelled && s.by_manager {
        acts.push(OrganizationAction::Publish(OrganizationNotice::ManagerReviewing));
    }
    acts.push(OrganizationAction::CloseAndFinish { cancelled });
    proof {
        if !cancelled && s.by_manager {
            assert(final(acts)@ =~= old(acts)@ + closing(*s, cancelled));
        } else {
            assert(final(acts)@ =~= old(acts)@ + closing(*s, cancelled));
        }
    }
}

fn push_numbered(acts: &mut Vec<OrganizationAction>, n: usize, working: bool)
    ensures
        final(acts)@ == old(acts)@ + if working { working_notices(n) } else { assigned_notices(n) },
{
    let ghost a0 = acts@;
    let ghost want = if working { working_notices(n) } else { assigned_notices(n) };
    let mut i: usize = 0;
    while i < n
        invariant
            i <= n,
            want == (if working { working_notices(n) } else { assigned_notices(n) }),
            acts@ == a0 + want.take(i as int),
        decreases n - i,
    {
        if working {
            acts.push(OrganizationAction::Publish(OrganizationNotice::EmployeeWorking(i)));
        } else {
            acts.push(OrganizationAction::Publish(OrganizationNotice::EmployeeAssigned(i)));
        }
        proof {
            assert(acts@ =~= a0 + want.take(i + 1));
        }
        i += 1;
    }
    proof {
        assert(want.take(n as int) =~= want);
    }
}

/// Takes one event and says what happens next, with the actions in the
/// order they are to be performed.
pub fn organization_step(run: &OrganizationRun, event: OrganizationEvent) -> (r: (OrganizationRun, Vec<OrganizationAction>))
    requires
        organization_wf(*run),
    ensures
        r.0 == organization_next(*run, event).0,
        r.1@ == organization_next(*run, event).1,
        organization_wf(r.0),
{
    let s = *run;
    let mut acts: Vec<OrganizationAction> = Vec::new();
    match (s.phase, event) {
        (OrganizationPhase::Start, OrganizationEvent::Begin { assigned, workers, gate, cancelled }) => {
            acts.push(OrganizationAction::Publish(OrganizationNotice::TaskStarted));
            push_numbered(&mut acts, assigned, false);
            proof {
                assert(acts@ =~= seq![OrganizationAction::Publish(OrganizationNotice::TaskStarted)] + assigned_notices(
                    assigned,
                ));
            }
            let t = OrganizationRun { workers, ..s };
            let d = OrganizationRun { phase: OrganizationPhase::Done, ..t };
            match gate {
                OrganizationGate::Direct => {
                    acts.push(
                        OrganizationAction::Publish(
                            OrganizationNotice::TaskFinished(OrganizationExecutionStatus::AwaitingManager),
                        ),
                    );
                    (d, acts)
                },
                OrganizationGate::Blocked => {
                    acts.push(OrganizationAction::FailDecision);
                    acts.push(
                        OrganizationAction::Publish(OrganizationNotice::TaskFinished(OrganizationExecutionStatus::Blocked)),
                    );
                    (d, acts)
                },
                OrganizationGate::UnsafeTools => {
                    acts.push(OrganizationAction::CancelWork);
                    acts.push(
                        OrganizationAction::Publish(OrganizationNotice::TaskFinished(OrganizationExecutionStatus::Blocked)),
                    );
                    (d, acts)
                },
                OrganizationGate::Ready => {
                    if workers == 0 {
                        push_closing(&t, false, &mut acts);
                        (d, acts)
                    } else if cancelled {
                        acts.push(OrganizationAction::CancelWork);
                        push_closing(&t, true, &mut acts);
                        (d, acts)
                    } else if s.sequential {
                        acts.push(OrganizationAction::Publish(OrganizationNotice::EmployeeWorking(0)));
                        acts.push(OrganizationAction::RunWorker(0));
                        (OrganizationRun { phase: OrganizationPhase::Sequential, next: 1, ..t }, acts)
                    } else {
                        let ghost pre = acts@;
                        push_numbered(&mut acts, workers, true);
                        acts.push(OrganizationAction::RunAll);
                        proof {
                            assert(acts@ =~= pre + working_notices(workers).push(OrganizationAction::RunAll));
                        }
                        (OrganizationRun { phase: OrganizationPhase::Independent, next: 0, ..t }, acts)
                    }
                },
            }
        },
        (OrganizationPhase::Sequential, OrganizationEvent::Reported { success, cancelled }) => {
            acts.push(OrganizationAction::Publish(OrganizationNotice::EmployeeReported(s.next - 1)));
            let d = OrganizationRun { phase: OrganizationPhase::Done, ..s };
            if !success {
                push_closing(&s, cancelled, &mut acts);
                (d, acts)
            } else if s.next >= s.workers {
                push_closing(&s, false, &mut acts);
                (d, acts)
            } else if cancelled {
                acts.push(OrganizationAction::CancelNode(s.next));
                push_closing(&s, true, &mut acts);
                (d, acts)
            } else {
                acts.push(OrganizationAction::Publish(OrganizationNotice::Handoff { from: s.next - 1, to: s.next }));
                acts.push(OrganizationAction::Publish(OrganizationNotice::EmployeeWorking(s.next)));
                acts.push(OrganizationAction::RunWorker(s.next));
                (OrganizationRun { next: s.next + 1, ..s }, acts)
            }
        },
        (OrganizationPhase::Independent, OrganizationEvent::Reported { success, cancelled }) => {
            acts.push(OrganizationAction::Publish(OrganizationNotice::EmployeeReported(s.next)));
            if s.next + 1 >= s.workers {
                push_closing(&s, false, &mut acts);
                (OrganizationRun { phase: OrganizationPhase::Done, ..s }, acts)
            } else {
                (OrganizationRun { next: s.next + 1, ..s }, acts)
            }
        },
        _ => {
            proof {
                assert(acts@ =~= Seq::<OrganizationAction>::empty());
            }
            (s, acts)
        },
    }
}

/// Whether an action ends the run.
pub open spec fn finishing(a: OrganizationAction) -> bool {
    ||| a is CloseAndFinish
    ||| a matches OrganizationAction::Publish(OrganizationNotice::TaskFinished(_))
}

/// Publishing is one-way: a listener receiving a notice changes nothing in
/// the run and asks for nothing.
pub proof fn law_callback_changes_nothing(s: OrganizationRun)
    ensures
        organization_next(s, OrganizationEvent::Published) == (s, Seq::<OrganizationAction>::empty()),
{
}

/// The lifecycle is published exactly and in order: the task starts first,
/// every named employee is announced in batch order, and a step ends the
/// run exactly when its last action finishes the task; nothing follows the
/// end.
pub proof fn law_lifecycle_in_order(s: OrganizationRun, e: OrganizationEvent)
    requires
        organization_wf(s),
    ensures
        (s.phase is Start && (e is Begin)) ==> ({
            let acts = organization_next(s, e).1;
            &&& acts[0] == OrganizationAction::Publish(OrganizationNotice::TaskStarted)
            &&& forall|i: int|
                1 <= i <= e->assigned ==> #[trigger] acts[i] == OrganizationAction::Publish(
                    OrganizationNotice::EmployeeAssigned((i - 1) as usize),
                )
        }),
        organization_next(s, e).0.phase is Done && !(s.phase is Done) ==> ({
            let acts = organization_next(s, e).1;
            acts.len() > 0 && finishing(acts.last()) && forall|i: int| 0 <= i < acts.len() - 1 ==> !finishing(#[trigger] acts[i])
        }),
        !(organization_next(s, e).0.phase is Done) ==> forall|i: int|
            0 <= i < organization_next(s, e).1.len() ==> !finishing(#[trigger] organization_next(s, e).1[i]),
        s.phase is Done ==> organization_next(s, e) == (s, Seq::<OrganizationAction>::empty()),
{
    let acts = organization_next(s, e).1;
    if s.phase is Start && e is Begin {
        let assigned = e->assigned;
        let pre = seq![OrganizationAction::Publish(OrganizationNotice::TaskStarted)] + assigned_notices(assigned);
        assert forall|i: int| 1 <= i <= assigned implies #[trigger] acts[i] == OrganizationAction::Publish(
            OrganizationNotice::EmployeeAssigned((i - 1) as usize),
        ) by {
            assert(pre[i] == assigned_notices(assigned)[i - 1]);
        }
        assert(acts[0] == pre[0]);
    }
}

/// In sequential mode no employee starts after one failed or after the
/// user cancelled, and each handoff goes from the employee that just
/// reported to the next in order.
pub proof fn law_sequential_stops(s: OrganizationRun, success: bool, cancelled: bool)
    requires
        organization_wf(s),
        s.phase is Sequential,
    ensures
        (!success || cancelled) ==> forall|i: int|
            0 <= i < organization_next(s, OrganizationEvent::Reported { success, cancelled }).1.len() ==> !(
            #[trigger] organization_next(s, OrganizationEvent::Reported { success, cancelled }).1[i] is RunWorker),
{
    let acts = organization_next(s, OrganizationEvent::Reported { success, cancelled }).1;
    if !success || cancelled {
        let rep = seq![OrganizationAction::Publish(OrganizationNotice::EmployeeReported((s.next - 1) as usize))];
        let c = if !success { closing(s, cancelled) } else if s.next >= s.workers { closing(s, false) } else { closing(s, true) };
        let mid = if !success || s.next >= s.workers { rep } else { rep.push(OrganizationAction::CancelNode(s.next)) };
        assert(acts == mid + c);
        assert forall|i: int| 0 <= i < acts.len() implies !(#[trigger] acts[i] is RunWorker) by {
            if i < mid.len() {
                assert(acts[i] == mid[i]);
            } else {
                assert(acts[i] == c[i - mid.len()]);
            }
        }
    }
}

} // verus!
