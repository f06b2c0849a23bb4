//! The loop's decisions around each tool call: the per-tool call limit,
//! and how a finished call moves the failure streak and the budgets.
use vstd::prelude::*;
use crate::execution_graph::types::strs_view;
use crate::text::{decimal, decimal_string, join3, str_eq};
use super::outcome::{StopReason, ToolCompletionStatus};

verus! {

/// How many times each tool was called in this run.
#[derive(Debug)]
pub struct ToolCallCounts {
    names: Vec<String>,
    counts: Vec<u32>,
}

impl View for ToolCallCounts {
    type V = Map<Seq<char>, u32>;

    closed spec fn view(&self) -> Map<Seq<char>, u32> {
        Map::new(
            |k: Seq<char>| exists|i: int| 0 <= i < self.names@.len() && (#[trigger] self.names@[i])@ == k,
            |k: Seq<char>| self.counts@[choose|i: int| 0 <= i < self.names@.len() && (#[trigger] self.names@[i])@ == k],
        )
    }
}

/// The number of calls recorded for a tool; none is zero.
pub open spec fn count_of(m: Map<Seq<char>, u32>, name: Seq<char>) -> u32 {
    if m.dom().contains(name) {
        m[name]
    } else {
        0
    }
}

impl ToolCallCounts {
    /// Each tool is listed once, with its count.
    pub closed spec fn wf(&self) -> bool {
        &&& self.names@.len() == self.counts@.len()
        &&& forall|i: int, j: int|
            0 <= i < j < self.names@.len() ==> (#[trigger] self.names@[i])@ != (#[trigger] self.names@[j])@
    }

    pub fn new() -> (c: Self)
        ensures
            c.wf(),
            c@ == Map::<Seq<char>, u32>::empty(),
    {
        let c = ToolCallCounts { names: Vec::new(), counts: Vec::new() };
        proof {
            assert(c@ =~= Map::<Seq<char>, u32>::empty());
        }
        c
    }

    /// Records one more call of `name` and returns its new count.
    pub fn record_call(&mut self, name: &str) -> (n: u32)
        requires
            old(self).wf(),
            count_of(old(self)@, name@) < u32::MAX,
        ensures
            final(self).wf(),
            n == count_of(old(self)@, name@) + 1,
            final(self)@ == old(self)@.insert(name@, n),
    {
        let ghost before = self@;
        let mut i: usize = 0;
        while i < self.names.len()
            invariant
                self.wf(),
                self@ == before,
                before == old(self)@,
                count_of(before, name@) < u32::MAX,
                i <= self.names@.len(),
                forall|q: int| 0 <= q < i ==> (#[trigger] self.names@[q])@ != name@,
            decreases self.names@.len() - i,
        {
            if str_eq(self.names[i].as_str(), name) {
                proof {
                    assert(before.dom().contains(name@));
                    let k = choose|k: int| 0 <= k < self.names@.len() && (#[trigger] self.names@[k])@ == name@;
                    if k != i {
                        if k < i {
                            assert(self.names@[k]@ != name@);
                        } else {
                            assert(self.names@[i as int]@ != self.names@[k]@);
                        }
                    }
                    assert(before[name@] == self.counts@[i as int]);
                }
                let n = self.counts[i] + 1;
                let ghost names0 = self.names@;
                self.counts.set(i, n);
                proof {
                    assert(self.names@ == names0);
                    assert forall|k: Seq<char>| #![auto] self@.dom().contains(k) <==> before.insert(name@, n).dom().contains(k) by {
                    }
                    assert forall|k: Seq<char>| #[trigger] self@.dom().contains(k) implies self@[k] == before.insert(name@, n)[k] by {
                        let a = choose|a: int| 0 <= a < self.names@.len() && (#[trigger] self.names@[a])@ == k;
                        if k == name@ {
                            if a != i {
                                if a < i {
                                    assert(self.names@[a]@ != name@);
                                } else {
                                    assert(self.names@[i as int]@ != self.names@[a]@);
                                }
                            }
                        } else {
                            assert(a != i);
                            let b = choose|b: int| 0 <= b < names0.len() && (#[trigger] names0[b])@ == k;
                            if a != b {
                                if a < b {
                                    assert(names0[a]@ != names0[b]@);
                                } else {
                                    assert(names0[b]@ != names0[a]@);
                                }
                            }
                        }
                    }
                    assert(self@ =~= before.insert(name@, n));
                }
                return n;
            }
            i += 1;
        }
        proof {
            assert(!before.dom().contains(name@));
        }
        let ghost names0 = self.names@;
        let ghost counts0 = self.counts@;
        self.names.push(name.to_owned());
        self.counts.push(1);
        proof {
            assert forall|a: int, b: int| 0 <= a < b < self.names@.len() implies (#[trigger] self.names@[a])@
                != (#[trigger] self.names@[b])@ by {
                if b == names0.len() {
                    assert(self.names@[a] == names0[a]);
                }
            }
            assert forall|k: Seq<char>| #![auto] self@.dom().contains(k) <==> before.insert(name@, 1).dom().contains(k) by {
                if k != name@ && self@.dom().contains(k) {
                    let a = choose|a: int| 0 <= a < self.names@.len() && (#[trigger] self.names@[a])@ == k;
                    assert(a < names0.len());
                    assert(names0[a]@ == k);
                }
                if k != name@ && before.dom().contains(k) {
                    let a = choose|a: int| 0 <= a < names0.len() && (#[trigger] names0[a])@ == k;
                    assert(self.names@[a] == names0[a]);
                }
                if k == name@ {
                    assert(self.names@[names0.len() as int]@ == name@);
                }
            }
            assert forall|k: Seq<char>| #[trigger] self@.dom().contains(k) implies self@[k] == before.insert(name@, 1)[k] by {
                let a = choose|a: int| 0 <= a < self.names@.len() && (#[trigger] self.names@[a])@ == k;
                if k == name@ {
                    if a < names0.len() {
                        assert(names0[a]@ == name@);
                    }
                } else {
                    assert(a < names0.len());
                    let b = choose|b: int| 0 <= b < names0.len() && (#[trigger] names0[b])@ == k;
                    if a != b {
                        if a < b {
                            assert(names0[a]@ != names0[b]@);
                        } else {
                            assert(names0[b]@ != names0[a]@);
                        }
                    }
                    assert(self.counts@[a] == counts0[a]);
                }
            }
            assert(self@ =~= before.insert(name@, 1));
        }
        1
    }
}

pub open spec fn over_limit_result(name: Seq<char>, count: nat) -> Seq<char> {
    "[系统：工具 "@ + name + " 已被调用 "@ + decimal(count) + " 次，跳过本次调用，请换用其他方法。]"@
}

pub open spec fn over_limit_instruction(name: Seq<char>) -> Seq<char> {
    "工具 "@ + name + " 已达到单工具调用上限。不要再次调用它；请基于已有证据给出最终答复，或明确说明证据不足。"@
}

/// A call past the per-tool limit is not run: its answer, which keeps the
/// call's result slot filled, and the instruction that follows it.
pub fn over_limit_notice(name: &str, count: u32) -> (r: (String, String))
    ensures
        r.0@ == over_limit_result(name@, count as nat),
        r.1@ == over_limit_instruction(name@),
{
    let head = join3("[系统：工具 ", name, " 已被调用 ");
    let n = decimal_string(count as u64);
    let result = join3(head.as_str(), n.as_str(), " 次，跳过本次调用，请换用其他方法。]");
    let instruction = join3(
        "工具 ",
        name,
        " 已达到单工具调用上限。不要再次调用它；请基于已有证据给出最终答复，或明确说明证据不足。",
    );
    (result, instruction)
}

/// Tools whose use counts as reading the workspace.
pub open spec fn reads_workspace(name: Seq<char>) -> bool {
    name == "read"@ || name == "glob"@ || name == "grep"@ || name == "bash"@
}

pub fn is_read_signal(name: &str) -> (b: bool)
    ensures
        b == reads_workspace(name@),
{
    str_eq(name, "read") || str_eq(name, "glob") || str_eq(name, "grep") || str_eq(name, "bash")
}

/// A call changed the workspace when a direct edit or write succeeded, or
/// when a shell command left changes behind, whatever its exit status.
pub open spec fn mutates_workspace(name: Seq<char>, success: bool, shell_changed: bool) -> bool {
    (success && (name == "edit"@ || name == "write_file"@)) || (name == "shell"@ && shell_changed)
}

pub fn is_mutation(name: &str, success: bool, shell_changed: bool) -> (b: bool)
    ensures
        b == mutates_workspace(name@, success, shell_changed),
{
    (success && (str_eq(name, "edit") || str_eq(name, "write_file"))) || (str_eq(name, "shell") && shell_changed)
}

/// What a finished tool call does to the run.
#[derive(Debug, Clone, Copy, PartialEq, Eq, Structural)]
pub struct ToolCallSettlement {
    /// The run stops before the call's result is recorded.
    pub stop_before_result: Option<StopReason>,
    /// The failure streak after this call.
    pub consecutive_failures: u32,
    /// The run stops once the call's result is recorded.
    pub stop_after_result: Option<StopReason>,
}

/// A call whose effect is unknown, or that waits for approval, changes
/// nothing; otherwise the tool-call budget is checked first, then a
/// completion clears the failure streak, a failure or timeout extends it,
/// and a third failure in a row stops the run.
pub open spec fn settlement_of(
    status: ToolCompletionStatus,
    tool_calls_made: usize,
    max_tool_calls: u32,
    failures: u32,
) -> ToolCallSettlement {
    if status is UnknownEffect || status is AwaitingApproval {
        ToolCallSettlement { stop_before_result: None, consecutive_failures: failures, stop_after_result: None }
    } else if tool_calls_made >= max_tool_calls {
        ToolCallSettlement {
            stop_before_result: Some(StopReason::MaxToolCallsReached),
            consecutive_failures: failures,
            stop_after_result: None,
        }
    } else if status is Completed {
        ToolCallSettlement { stop_before_result: None, consecutive_failures: 0, stop_after_result: None }
    } else if status is Failed || status is TimedOut {
        let f = (failures + 1) as u32;
        ToolCallSettlement {
            stop_before_result: None,
            consecutive_failures: f,
            stop_after_result: if f >= 3 {
                Some(StopReason::ToolFailurePersistent)
            } else {
                None
            },
        }
    } else {
        ToolCallSettlement { stop_before_result: None, consecutive_failures: failures, stop_after_result: None }
    }
}

pub fn settle_tool_call(
    status: ToolCompletionStatus,
    tool_calls_made: usize,
    max_tool_calls: u32,
    consecutive_failures: u32,
) -> (s: ToolCallSettlement)
    requires
        consecutive_failures < u32::MAX,
    ensures
        s == settlement_of(status, tool_calls_made, max_tool_calls, consecutive_failures),
{
    match status {
        ToolCompletionStatus::UnknownEffect | ToolCompletionStatus::AwaitingApproval => {
            return ToolCallSettlement {
                stop_before_result: None,
                consecutive_failures,
                stop_after_result: None,
            };
        },
        _ => {},
    }
    if tool_calls_made >= max_tool_calls as usize {
        return ToolCallSettlement {
            stop_before_result: Some(StopReason::MaxToolCallsReached),
            consecutive_failures,
            stop_after_result: None,
        };
    }
    match status {
        ToolCompletionStatus::Completed => ToolCallSettlement {
            stop_before_result: None,
            consecutive_failures: 0,
            stop_after_result: None,
        },
        ToolCompletionStatus::Failed | ToolCompletionStatus::TimedOut => {
            let f = consecutive_failures + 1;
            ToolCallSettlement {
                stop_before_result: None,
                consecutive_failures: f,
                stop_after_result: if f >= 3 {
                    Some(StopReason::ToolFailurePersistent)
                } else {
                    None
                },
            }
        },
        _ => ToolCallSettlement { stop_before_result: None, consecutive_failures, stop_after_result: None },
    }
}

} // verus!
