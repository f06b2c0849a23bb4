//! Decisions the loop takes over its message history.
use vstd::prelude::*;
use crate::llm::{messages_view, Message, MessageView, Role, ToolCallView};
use crate::intent::{lowercase, matches_keywords, mentions, to_lowercase, words_view};
use crate::execution_graph::types::strs_view;
use crate::execution_graph::structure::contains_text;
use crate::text::join3;

verus! {

/// The tool calls a message carries.
pub open spec fn calls_of(m: MessageView) -> Seq<ToolCallView> {
    match m.tool_calls {
        Some(v) => v,
        None => Seq::empty(),
    }
}

/// All tool calls of a history, in order.
pub open spec fn all_calls(ms: Seq<MessageView>) -> Seq<ToolCallView>
    decreases ms.len(),
{
    if ms.len() == 0 {
        Seq::empty()
    } else {
        all_calls(ms.drop_last()) + calls_of(ms.last())
    }
}

/// Some message answers the tool call with the identifier.
pub open spec fn answered(ms: Seq<MessageView>, id: Seq<char>) -> bool {
    exists|i: int| 0 <= i < ms.len() && (#[trigger] ms[i]).tool_call_id == Some(id)
}

/// The note recorded for a call whose result was never persisted.
pub open spec fn unknown_effect_note(name: Seq<char>) -> Seq<char> {
    "<observation tool=\""@ + name
        + "\" status=\"unknown_effect\">进程在工具结果持久化前终止；实际执行状态未知，必须先对账再决定是否重试。</observation>"@
}

pub open spec fn unknown_effect_result(c: ToolCallView) -> MessageView {
    MessageView { role: Role::Tool, content: unknown_effect_note(c.name), tool_calls: None, tool_call_id: Some(c.id) }
}

/// The results appended for the calls, in order, that no message of `ms`
/// answers.
pub open spec fn closing_results(calls: Seq<ToolCallView>, ms: Seq<MessageView>) -> Seq<MessageView>
    decreases calls.len(),
{
    if calls.len() == 0 {
        Seq::empty()
    } else {
        closing_results(calls.drop_last(), ms) + if answered(ms, calls.last().id) {
            Seq::empty()
        } else {
            seq![unknown_effect_result(calls.last())]
        }
    }
}

proof fn lemma_closing_push(calls: Seq<ToolCallView>, c: ToolCallView, ms: Seq<MessageView>)
    ensures
        closing_results(calls.push(c), ms) == closing_results(calls, ms) + if answered(ms, c.id) {
            Seq::<MessageView>::empty()
        } else {
            seq![unknown_effect_result(c)]
        },
{
    assert(calls.push(c).drop_last() =~= calls);
}

fn note_for(name: &str) -> (s: String)
    ensures
        s@ == unknown_effect_note(name@),
{
    join3(
        "<observation tool=\"",
        name,
        "\" status=\"unknown_effect\">进程在工具结果持久化前终止；实际执行状态未知，必须先对账再决定是否重试。</observation>",
    )
}

/// After recovery from a checkpoint, answers every tool call that has no
/// result with a note that its effect is unknown and must be reconciled
/// before any retry.
pub fn close_unresolved_tool_calls(messages: &mut Vec<Message>)
    ensures
        messages_view(final(messages)@) == messages_view(old(messages)@) + closing_results(
            all_calls(messages_view(old(messages)@)),
            messages_view(old(messages)@),
        ),
{
    let ghost ms = messages_view(messages@);
    let mut resolved: Vec<String> = Vec::new();
    let mut i: usize = 0;
    while i < messages.len()
        invariant
            i <= messages@.len(),
            ms == messages_view(messages@),
            forall|x: Seq<char>| #[trigger] strs_view(resolved@).contains(x) <==> exists|q: int|
                0 <= q < i && (#[trigger] ms[q]).tool_call_id == Some(x),
        decreases messages.len() - i,
    {
        match &messages[i].tool_call_id {
            Some(id) => {
                let ghost before = strs_view(resolved@);
                resolved.push(id.clone());
                proof {
                    assert(strs_view(resolved@) =~= before.push(id@));
                    assert(ms[i as int].tool_call_id == Some(id@));
                    assert forall|x: Seq<char>| #[trigger] strs_view(resolved@).contains(x) <==> exists|q: int|
                        0 <= q < i + 1 && (#[trigger] ms[q]).tool_call_id == Some(x) by {
                        if x == id@ {
                            assert(strs_view(resolved@)[before.len() as int] == x);
                        }
                        if before.contains(x) {
                            let w = choose|w: int| 0 <= w < before.len() && before[w] == x;
                            assert(strs_view(resolved@)[w] == x);
                        }
                        if strs_view(resolved@).contains(x) && x != id@ {
                            let w = choose|w: int| 0 <= w < strs_view(resolved@).len() && strs_view(resolved@)[w] == x;
                            assert(before[w] == x);
                        }
                    }
                }
            },
            None => {
                proof {
                    assert(ms[i as int].tool_call_id is None);
                }
            },
        }
        i += 1;
    }
    let mut extra: Vec<Message> = Vec::new();
    let mut k: usize = 0;
    proof {
        assert(ms.take(0) =~= Seq::<MessageView>::empty());
        assert(messages_view(extra@) =~= closing_results(all_calls(ms.take(0)), ms));
    }
    while k < messages.len()
        invariant
            k <= messages@.len(),
            ms == messages_view(messages@),
            forall|x: Seq<char>| #[trigger] strs_view(resolved@).contains(x) <==> answered(ms, x),
            messages_view(extra@) == closing_results(all_calls(ms.take(k as int)), ms),
        decreases messages.len() - k,
    {
        let ghost before = all_calls(ms.take(k as int));
        proof {
            assert(ms.take(k + 1).drop_last() =~= ms.take(k as int));
            assert(ms.take(k + 1).last() == ms[k as int]);
        }
        match &messages[k].tool_calls {
            Some(calls) => {
                let ghost cv = crate::llm::calls_view(calls@);
                proof {
                    assert(calls_of(ms[k as int]) == cv);
                    assert(before + cv.take(0) =~= before);
                }
                let mut j: usize = 0;
                while j < calls.len()
                    invariant
                        j <= calls@.len(),
                        cv == crate::llm::calls_view(calls@),
                        forall|x: Seq<char>| #[trigger] strs_view(resolved@).contains(x) <==> answered(ms, x),
                        messages_view(extra@) == closing_results(before + cv.take(j as int), ms),
                    decreases calls.len() - j,
                {
                    let c = &calls[j];
                    let ghost e0 = messages_view(extra@);
                    proof {
                        assert(c@ == cv[j as int]);
                        lemma_closing_push(before + cv.take(j as int), cv[j as int], ms);
                        assert((before + cv.take(j as int)).push(cv[j as int]) =~= before + cv.take(j + 1));
                    }
                    if !contains_text(&resolved, c.id.as_str()) {
                        extra.push(Message::tool_result(c.id.clone(), note_for(c.function.name.as_str())));
                        proof {
                            assert(messages_view(extra@) =~= e0 + seq![unknown_effect_result(cv[j as int])]);
                        }
                    } else {
                        proof {
                            assert(messages_view(extra@) =~= e0 + Seq::<MessageView>::empty());
                        }
                    }
                    j += 1;
                }
                proof {
                    assert(cv.take(cv.len() as int) =~= cv);
                }
            },
            None => {
                proof {
                    assert(calls_of(ms[k as int]) =~= Seq::<ToolCallView>::empty());
                    assert(before + calls_of(ms[k as int]) =~= before);
                }
            },
        }
        k += 1;
    }
    proof {
        assert(ms.take(ms.len() as int) =~= ms);
    }
    let ghost e = extra@;
    messages.append(&mut extra);
    proof {
        assert(messages_view(messages@) =~= ms + messages_view(e));
    }
}

/// The words by which a user asks for verification.
pub open spec fn verification_words() -> Seq<Seq<char>> {
    seq!["test"@, "verify"@, "verification"@, "测试"@, "验证"@]
}

/// A message asks for verification when its lowercased text names one of
/// the verification words.
pub open spec fn requests_verification(content: Seq<char>) -> bool {
    mentions(lowercase(content), verification_words())
}

fn verification_words_list() -> (v: Vec<&'static str>)
    ensures
        words_view(v@) == verification_words(),
{
    let v: Vec<&'static str> = vec!["test", "verify", "verification", "测试", "验证"];
    proof {
        assert(words_view(v@) =~= verification_words());
    }
    v
}

/// Whether any user message asks for verification.
pub fn user_requested_verification(messages: &Vec<Message>) -> (b: bool)
    ensures
        b == exists|i: int|
            0 <= i < messages@.len() && (#[trigger] messages@[i]).role is User && requests_verification(
                messages@[i].content@,
            ),
{
    let words = verification_words_list();
    let mut i: usize = 0;
    while i < messages.len()
        invariant
            i <= messages@.len(),
            words_view(words@) == verification_words(),
            forall|q: int| 0 <= q < i ==> !((#[trigger] messages@[q]).role is User && requests_verification(messages@[q].content@)),
        decreases messages.len() - i,
    {
        if messages[i].role == Role::User {
            let lowered = to_lowercase(messages[i].content.as_str());
            if matches_keywords(lowered.as_str(), &words) {
                return true;
            }
        }
        i += 1;
    }
    false
}

/// The content of the last user message, if any.
pub open spec fn last_user(messages: Seq<MessageView>) -> Option<Seq<char>>
    decreases messages.len(),
{
    if messages.len() == 0 {
        None
    } else if messages.last().role == Role::User {
        Some(messages.last().content)
    } else {
        last_user(messages.drop_last())
    }
}

/// What a run was asked: the last user message, else its source.
pub fn run_input(messages: &Vec<Message>, source: &str) -> (s: String)
    ensures
        s@ == match last_user(messages_view(messages@)) {
            Some(c) => c,
            None => source@,
        },
{
    let ghost mv = messages_view(messages@);
    let mut i: usize = messages.len();
    proof {
        assert(mv.take(messages.len() as int) =~= mv);
    }
    while i > 0
        invariant
            i <= messages.len(),
            mv == messages_view(messages@),
            last_user(mv) == last_user(mv.take(i as int)),
        decreases i,
    {
        proof {
            assert(mv.take(i as int).drop_last() =~= mv.take(i - 1));
            assert(mv.take(i as int).last() == messages@[i - 1]@);
        }
        if messages[i - 1].role == Role::User {
            return messages[i - 1].content.clone();
        }
        i -= 1;
    }
    proof {
        assert(mv.take(0) =~= Seq::<MessageView>::empty());
    }
    source.to_owned()
}

} // verus!
