//! Accumulating streamed tool calls from a chat completion stream.
use vstd::prelude::*;
use crate::text::{blank, decimal, decimal_string, ends_with, has_suffix, has_prefix, is_blank, join3, starts_with, str_eq};
use crate::execution_graph::types::opt_view;

verus! {

/// A tool call as the stream has delivered it so far.
#[derive(Debug, Default, PartialEq, Eq)]
pub struct ToolCallAccum {
    pub id: Option<String>,
    pub name: Option<String>,
    pub args: String,
}

/// A finished tool call.
#[derive(Debug, PartialEq, Eq)]
pub struct StreamToolCall {
    pub id: String,
    pub name: String,
    pub arguments: String,
}

/// The name after one more streamed fragment: the first fragment starts
/// it; a fragment it already ends with changes nothing; a fragment that
/// extends it replaces it; any other fragment is appended.
pub open spec fn merged_name(slot: Option<Seq<char>>, delta: Seq<char>) -> Option<Seq<char>> {
    match slot {
        None => Some(delta),
        Some(current) => if current == delta || has_suffix(current, delta) {
            Some(current)
        } else if has_prefix(delta, current) {
            Some(delta)
        } else {
            Some(current + delta)
        },
    }
}

pub fn merge_streamed_name(slot: &mut Option<String>, delta: &str)
    ensures
        opt_view(*final(slot)) == merged_name(opt_view(*old(slot)), delta@),
{
    match slot {
        None => {
            *slot = Some(delta.to_owned());
        },
        Some(current) => {
            if str_eq(current.as_str(), delta) || ends_with(current.as_str(), delta) {
            } else if starts_with(delta, current.as_str()) {
                *current = delta.to_owned();
            } else {
                current.append(delta);
            }
        },
    }
}

/// An accumulated call is complete when it has a non-blank id and name.
pub open spec fn accum_valid(a: ToolCallAccum) -> bool {
    (a.id matches Some(i) && !blank(i@)) && (a.name matches Some(n) && !blank(n@))
}

/// The error for an incomplete call at the index: a missing id is reported
/// before a missing name.
pub open spec fn accum_error(index: u32, a: ToolCallAccum) -> Seq<char> {
    if !(a.id matches Some(i) && !blank(i@)) {
        "streamed tool call at index "@ + decimal(index as nat) + " omitted its id"@
    } else {
        "streamed tool call at index "@ + decimal(index as nat) + " omitted its function name"@
    }
}

pub open spec fn keys_distinct(e: Seq<(u32, ToolCallAccum)>) -> bool {
    forall|i: int, j: int| 0 <= i < j < e.len() ==> (#[trigger] e[i]).0 != (#[trigger] e[j]).0
}

pub open spec fn above(prev: Option<u32>, k: u32) -> bool {
    match prev {
        None => true,
        Some(p) => k > p,
    }
}

pub open spec fn count_above(e: Seq<(u32, ToolCallAccum)>, prev: Option<u32>, n: int) -> nat
    decreases n,
{
    if n <= 0 {
        0
    } else {
        count_above(e, prev, n - 1) + if above(prev, e[n - 1].0) {
            1nat
        } else {
            0nat
        }
    }
}

proof fn lemma_count_step(e: Seq<(u32, ToolCallAccum)>, prev: Option<u32>, j: int, n: int)
    requires
        keys_distinct(e),
        0 <= j < e.len(),
        0 <= n <= e.len(),
        above(prev, e[j].0),
        forall|q: int| 0 <= q < e.len() && above(prev, (#[trigger] e[q]).0) ==> e[q].0 >= e[j].0,
    ensures
        count_above(e, Some(e[j].0), n) + (if j < n { 1nat } else { 0nat }) == count_above(e, prev, n),
    decreases n,
{
    if n > 0 {
        lemma_count_step(e, prev, j, n - 1);
        let q = n - 1;
        if q != j {
            if j < q {
                assert(e[j].0 != e[q].0);
            } else {
                assert(e[q].0 != e[j].0);
            }
        }
    }
}

/// The call an accumulated entry becomes.
pub open spec fn finished(a: ToolCallAccum) -> StreamToolCall {
    StreamToolCall { id: a.id->0, name: a.name->0, arguments: a.args }
}

pub open spec fn finished_view(c: StreamToolCall) -> (Seq<char>, Seq<char>, Seq<char>) {
    (c.id@, c.name@, c.arguments@)
}

/// `p` lists every entry once, in increasing index order.
pub open spec fn index_order(e: Seq<(u32, ToolCallAccum)>, p: Seq<int>) -> bool {
    &&& forall|q: int| 0 <= q < p.len() ==> 0 <= #[trigger] p[q] < e.len()
    &&& forall|q: int, r: int| 0 <= q < r < p.len() ==> e[#[trigger] p[q]].0 < e[#[trigger] p[r]].0
    &&& forall|j: int| 0 <= j < e.len() ==> #[trigger] listed(p, j)
}

/// Position `j` occurs in `p`.
pub open spec fn listed(p: Seq<int>, j: int) -> bool {
    exists|q: int| 0 <= q < p.len() && p[q] == j
}

fn finish_one(a: &ToolCallAccum) -> (c: StreamToolCall)
    requires
        accum_valid(*a),
    ensures
        finished_view(c) == finished_view(finished(*a)),
{
    let id = match &a.id {
        Some(i) => i.clone(),
        None => String::new(),
    };
    let name = match &a.name {
        Some(n) => n.clone(),
        None => String::new(),
    };
    StreamToolCall { id, name, arguments: a.args.clone() }
}

fn accum_message(index: u32, a: &ToolCallAccum) -> (m: String)
    ensures
        m@ == accum_error(index, *a),
{
    let id_ok = match &a.id {
        Some(i) => !is_blank(i.as_str()),
        None => false,
    };
    let n = decimal_string(index as u64);
    if !id_ok {
        join3("streamed tool call at index ", n.as_str(), " omitted its id")
    } else {
        join3("streamed tool call at index ", n.as_str(), " omitted its function name")
    }
}

fn accum_is_valid(a: &ToolCallAccum) -> (b: bool)
    ensures
        b == accum_valid(*a),
{
    let id_ok = match &a.id {
        Some(i) => !is_blank(i.as_str()),
        None => false,
    };
    let name_ok = match &a.name {
        Some(n) => !is_blank(n.as_str()),
        None => false,
    };
    id_ok && name_ok
}

/// The finished calls in index order. The first incomplete call in index
/// order is reported instead: its id missing, or else its name.
pub fn finish_tool_calls(accumulators: Vec<(u32, ToolCallAccum)>) -> (r: Result<Vec<StreamToolCall>, String>)
    requires
        keys_distinct(accumulators@),
    ensures
        match r {
            Ok(v) => (forall|j: int| 0 <= j < accumulators@.len() ==> accum_valid(#[trigger] accumulators@[j].1))
                && exists|p: Seq<int>|
                #![trigger index_order(accumulators@, p)]
                index_order(accumulators@, p) && p.len() == v@.len() && forall|q: int|
                    0 <= q < v@.len() ==> finished_view(#[trigger] v@[q]) == finished_view(
                        finished(accumulators@[p[q]].1),
                    ),
            Err(m) => exists|j: int|
                0 <= j < accumulators@.len() && !accum_valid(#[trigger] accumulators@[j].1) && m@ == accum_error(
                    accumulators@[j].0,
                    accumulators@[j].1,
                ) && forall|q: int|
                    0 <= q < accumulators@.len() && !accum_valid(#[trigger] accumulators@[q].1) ==> accumulators@[q].0
                        >= accumulators@[j].0,
        },
{
    let ghost e = accumulators@;
    let n = accumulators.len();
    let mut out: Vec<StreamToolCall> = Vec::new();
    let mut prev: Option<u32> = None;
    let ghost mut picked: Seq<int> = Seq::empty();
    loop
        invariant
            e == accumulators@,
            n == e.len(),
            keys_distinct(e),
            picked.len() == out@.len(),
            forall|q: int| 0 <= q < picked.len() ==> 0 <= #[trigger] picked[q] < n,
            forall|q: int, r: int| 0 <= q < r < picked.len() ==> e[#[trigger] picked[q]].0 < e[#[trigger] picked[r]].0,
            forall|j: int| 0 <= j < n ==> (#[trigger] listed(picked, j) <==> !above(prev, e[j].0)),
            prev is None <==> picked.len() == 0,
            picked.len() > 0 ==> prev == Some(e[picked.last()].0),
            forall|q: int| 0 <= q < picked.len() ==> accum_valid(e[#[trigger] picked[q]].1),
            forall|q: int| 0 <= q < out@.len() ==> finished_view(#[trigger] out@[q]) == finished_view(finished(e[picked[q]].1)),
        ensures
            forall|q: int| 0 <= q < n ==> !above(prev, #[trigger] e[q].0),
        decreases count_above(e, prev, n as int),
    {
        let mut best: Option<usize> = None;
        let mut j: usize = 0;
        while j < n
            invariant
                e == accumulators@,
                n == e.len(),
                j <= n,
                match best {
                    None => forall|q: int| 0 <= q < j ==> !above(prev, #[trigger] e[q].0),
                    Some(b) => b < j && above(prev, e[b as int].0) && forall|q: int|
                        0 <= q < j && above(prev, (#[trigger] e[q]).0) ==> e[q].0 >= e[b as int].0,
                },
            decreases n - j,
        {
            let k = accumulators[j].0;
            let is_above = match prev {
                None => true,
                Some(p) => k > p,
            };
            if is_above {
                match best {
                    None => {
                        best = Some(j);
                    },
                    Some(b) => {
                        if k < accumulators[b].0 {
                            best = Some(j);
                        }
                    },
                }
            }
            j += 1;
        }
        let b = match best {
            None => {
                break;
            },
            Some(b) => b,
        };
        if !accum_is_valid(&accumulators[b].1) {
            let m = accum_message(accumulators[b].0, &accumulators[b].1);
            proof {
                assert forall|q: int| 0 <= q < n && !accum_valid(#[trigger] e[q].1) implies e[q].0 >= e[b as int].0 by {
                    if !above(prev, e[q].0) {
                        assert(listed(picked, q));
                        let w = choose|w: int| 0 <= w < picked.len() && picked[w] == q;
                        assert(accum_valid(e[picked[w]].1));
                    }
                }
            }
            return Err(m);
        }
        let ghost old_prev = prev;
        proof {
            lemma_count_step(e, prev, b as int, n as int);
        }
        out.push(finish_one(&accumulators[b].1));
        proof {
            let p0 = picked;
            picked = picked.push(b as int);
            assert forall|q: int, r: int| 0 <= q < r < picked.len() implies e[#[trigger] picked[q]].0 < e[#[trigger] picked[r]].0 by {
                if r == p0.len() {
                    assert(picked[q] == p0[q]);
                    assert(!above(old_prev, e[p0[q]].0)) by {
                        assert(listed(p0, p0[q]));
                    }
                } else {
                    assert(picked[q] == p0[q] && picked[r] == p0[r]);
                }
            }
            assert forall|jj: int| 0 <= jj < n implies (#[trigger] listed(picked, jj) <==> !above(
                Some(e[b as int].0),
                e[jj].0,
            )) by {
                if jj == b {
                    assert(picked[p0.len() as int] == jj);
                } else {
                    assert(e[jj].0 != e[b as int].0) by {
                        if jj < b {
                            assert(e[jj].0 != e[b as int].0);
                        } else {
                            assert(e[b as int].0 != e[jj].0);
                        }
                    }
                    if listed(picked, jj) {
                        let q = choose|q: int| 0 <= q < picked.len() && picked[q] == jj;
                        assert(q < p0.len());
                        assert(p0[q] == jj);
                        assert(listed(p0, jj));
                    }
                    if !above(old_prev, e[jj].0) {
                        assert(listed(p0, jj));
                        let q = choose|q: int| 0 <= q < p0.len() && p0[q] == jj;
                        assert(picked[q] == jj);
                    }
                }
            }
            assert forall|q: int| 0 <= q < out@.len() implies finished_view(#[trigger] out@[q]) == finished_view(finished(e[picked[q]].1)) by {
                if q < p0.len() {
                    assert(picked[q] == p0[q]);
                }
            }
        }
        prev = Some(accumulators[b].0);
    }
    proof {
        assert forall|jj: int| 0 <= jj < n implies accum_valid(#[trigger] e[jj].1) by {
            assert(listed(picked, jj));
            let q = choose|q: int| 0 <= q < picked.len() && picked[q] == jj;
        }
        assert(index_order(e, picked));
    }
    Ok(out)
}

} // verus!
