//! A deterministic provider for offline runs: the first turn asks for the
//! safe `self_test` tool when it is offered, the next turn answers.
use vstd::prelude::*;
use crate::execution_graph::types::strs_view;
use crate::llm::{calls_view, FunctionCall, Message, MessageView, Role, ToolCall, ToolCallView};
use crate::sse::{events_view, EventView, StreamEvent};
use crate::streaming::StreamToolCall;
use crate::text::{join3, str_eq};

verus! {

/// What `{:?}` writes for a string: the text quoted, with escapes.
pub uninterp spec fn debug_quoted(s: Seq<char>) -> Seq<char>;

/// `<str as Debug>::fmt` through `format!`: the quoted, escaped text.
#[verifier::external_body]
fn quoted(s: &str) -> (r: String)
    ensures
        r@ == debug_quoted(s@),
{
    format!("{:?}", s)
}

pub open spec fn self_test_id() -> Seq<char> {
    "offline-proof-self-test"@
}

/// The arguments of the self-test call, as JSON text.
pub open spec fn self_test_arguments() -> Seq<char> {
    "{\"steps\":[{\"args\":{},\"expect_contains\":\"hostname\",\"name\":\"offline system-info smoke\",\"tool\":\"system_info\"}]}"@
}

pub open spec fn running_text() -> Seq<char> {
    "offline proof: running safe self-test"@
}

/// The provider asks for the tool when no tool has answered yet and the
/// request offers `self_test`.
pub open spec fn wants_tool(messages: Seq<MessageView>, tools: Option<Seq<Seq<char>>>) -> bool {
    no_tool_answer(messages) && (tools matches Some(ts) && offers_self_test(ts))
}

pub open spec fn no_tool_answer(messages: Seq<MessageView>) -> bool {
    forall|i: int| 0 <= i < messages.len() ==> (#[trigger] messages[i]).role != Role::Tool
}

pub open spec fn offers_self_test(ts: Seq<Seq<char>>) -> bool {
    exists|i: int| 0 <= i < ts.len() && #[trigger] ts[i] == "self_test"@
}

/// The last user message, or nothing.
pub open spec fn last_user_text(messages: Seq<MessageView>) -> Seq<char>
    decreases messages.len(),
{
    if messages.len() == 0 {
        Seq::empty()
    } else if messages.last().role == Role::User {
        messages.last().content
    } else {
        last_user_text(messages.drop_last())
    }
}

/// The final answer for an input already written with `{:?}`.
pub open spec fn final_answer(quoted_input: Seq<char>) -> Seq<char> {
    "offline proof complete: chat coding path handled input "@ + quoted_input + " without a live LLM"@
}

#[derive(Debug, Clone)]
pub struct ScriptedProvider {
    model: String,
}

impl ScriptedProvider {
    pub closed spec fn model(&self) -> Seq<char> {
        self.model@
    }

    pub fn new(model: &str) -> (p: Self)
        ensures
            p.model() == model@,
    {
        ScriptedProvider { model: model.to_owned() }
    }

    pub fn model_name(&self) -> (m: &str)
        ensures
            m@ == self.model(),
    {
        self.model.as_str()
    }

    pub fn change_model(&self, model: &str) -> (p: Self)
        ensures
            p.model() == model@,
    {
        Self::new(model)
    }

    /// Whether this turn asks for the self-test tool.
    pub fn should_call_tool(messages: &Vec<Message>, tools: Option<&Vec<String>>) -> (b: bool)
        ensures
            b == wants_tool(crate::llm::messages_view(messages@), match tools {
                Some(t) => Some(strs_view(t@)),
                None => None,
            }),
    {
        let ghost mv = crate::llm::messages_view(messages@);
        let mut i: usize = 0;
        while i < messages.len()
            invariant
                i <= messages.len(),
                mv == crate::llm::messages_view(messages@),
                forall|q: int| 0 <= q < i ==> mv[q].role != Role::Tool,
            decreases messages.len() - i,
        {
            proof {
                assert(mv[i as int] == messages@[i as int]@);
            }
            if messages[i].role == Role::Tool {
                return false;
            }
            i += 1;
        }
        match tools {
            None => false,
            Some(ts) => {
                let mut k: usize = 0;
                while k < ts.len()
                    invariant
                        k <= ts.len(),
                        mv == crate::llm::messages_view(messages@),
                        tools == Some(ts),
                        forall|q: int| 0 <= q < mv.len() ==> mv[q].role != Role::Tool,
                        forall|q: int| 0 <= q < k ==> ts@[q]@ != "self_test"@,
                    decreases ts.len() - k,
                {
                    if str_eq(ts[k].as_str(), "self_test") {
                        proof {
                            reveal_strlit("self_test");
                            let tsv = strs_view(ts@);
                            assert(tsv[k as int] == "self_test"@);
                            assert(exists|j: int| 0 <= j < tsv.len() && #[trigger] tsv[j] == "self_test"@);
                            assert(no_tool_answer(mv));
                            assert(offers_self_test(tsv));
                        }
                        return true;
                    }
                    k += 1;
                }
                proof {
                    assert forall|q: int| 0 <= q < strs_view(ts@).len() implies strs_view(ts@)[q] != "self_test"@ by {
                        assert(strs_view(ts@)[q] == ts@[q]@);
                    }
                }
                false
            },
        }
    }

    /// The safe self-test call.
    pub fn tool_call() -> (c: ToolCall)
        ensures
            c@ == (ToolCallView {
                id: self_test_id(),
                call_type: "function"@,
                name: "self_test"@,
                arguments: self_test_arguments(),
            }),
    {
        ToolCall {
            id: "offline-proof-self-test".to_owned(),
            call_type: "function".to_owned(),
            function: FunctionCall {
                name: "self_test".to_owned(),
                arguments: "{\"steps\":[{\"args\":{},\"expect_contains\":\"hostname\",\"name\":\"offline system-info smoke\",\"tool\":\"system_info\"}]}".to_owned(),
            },
        }
    }

    /// The final answer for an input already written with `{:?}`.
    pub fn final_text_from(quoted_input: &str) -> (s: String)
        ensures
            s@ == final_answer(quoted_input@),
    {
        join3("offline proof complete: chat coding path handled input ", quoted_input, " without a live LLM")
    }

    /// The final answer naming the last user input.
    pub fn final_text(messages: &Vec<Message>) -> (s: String)
        ensures
            s@ == final_answer(debug_quoted(last_user_text(crate::llm::messages_view(messages@)))),
    {
        let ghost mv = crate::llm::messages_view(messages@);
        let mut i: usize = messages.len();
        proof {
            assert(mv.take(messages.len() as int) =~= mv);
        }
        while i > 0
            invariant
                i <= messages.len(),
                mv == crate::llm::messages_view(messages@),
                last_user_text(mv) == last_user_text(mv.take(i as int)),
            decreases i,
        {
            proof {
                assert(mv.take(i as int).drop_last() =~= mv.take(i - 1));
                assert(mv.take(i as int).last() == messages@[i - 1]@);
            }
            if messages[i - 1].role == Role::User {
                let q = quoted(messages[i - 1].content.as_str());
                return Self::final_text_from(q.as_str());
            }
            i -= 1;
        }
        proof {
            assert(mv.take(0) =~= Seq::<MessageView>::empty());
            assert(last_user_text(mv) == Seq::<char>::empty());
            reveal_strlit("");
            assert(""@ =~= Seq::<char>::empty());
        }
        let q = quoted("");
        Self::final_text_from(q.as_str())
    }

    /// The reply to a chat request.
    pub fn chat_reply(messages: &Vec<Message>, tools: Option<&Vec<String>>) -> (m: Message)
        ensures
            if wants_tool(crate::llm::messages_view(messages@), match tools {
                Some(t) => Some(strs_view(t@)),
                None => None,
            }) {
                m@.role == Role::Assistant && m@.content == running_text() && m@.tool_calls == Some(
                    seq![ToolCallView {
                        id: self_test_id(),
                        call_type: "function"@,
                        name: "self_test"@,
                        arguments: self_test_arguments(),
                    }],
                )
            } else {
                m@ == (MessageView {
                    role: Role::Assistant,
                    content: final_answer(debug_quoted(last_user_text(crate::llm::messages_view(messages@)))),
                    tool_calls: None,
                    tool_call_id: None,
                })
            },
    {
        if Self::should_call_tool(messages, tools) {
            let mut calls: Vec<ToolCall> = Vec::new();
            calls.push(Self::tool_call());
            proof {
                assert(calls_view(calls@) =~= seq![calls@[0]@]);
            }
            Message::assistant_with_tools("offline proof: running safe self-test", calls)
        } else {
            let text = Self::final_text(messages);
            Message::assistant(text.as_str())
        }
    }

    /// The events of a streamed reply: the text, the tool call when one is
    /// asked for, and the finish.
    pub fn stream_reply(messages: &Vec<Message>, tools: Option<&Vec<String>>) -> (events: Vec<StreamEvent>)
        ensures
            if wants_tool(crate::llm::messages_view(messages@), match tools {
                Some(t) => Some(strs_view(t@)),
                None => None,
            }) {
                events_view(events@) == seq![
                    EventView::Text(running_text() + "\n"@),
                    EventView::Tool {
                        index: 0,
                        id: Some(self_test_id()),
                        name: Some("self_test"@),
                        arguments: None,
                    },
                    EventView::Finished {
                        finish_reason: "tool_calls"@,
                        content: running_text() + "\n"@,
                        tool_calls: seq![(self_test_id(), "self_test"@, self_test_arguments())],
                    },
                ]
            } else {
                let text = final_answer(debug_quoted(last_user_text(crate::llm::messages_view(messages@))));
                events_view(events@) == seq![
                    EventView::Text(text),
                    EventView::Finished { finish_reason: "stop"@, content: text, tool_calls: Seq::empty() },
                ]
            },
    {
        let mut events: Vec<StreamEvent> = Vec::new();
        if Self::should_call_tool(messages, tools) {
            events.push(StreamEvent::TextDelta("offline proof: running safe self-test\n".to_owned()));
            events.push(
                StreamEvent::ToolCallDelta {
                    index: 0,
                    id: Some("offline-proof-self-test".to_owned()),
                    name: Some("self_test".to_owned()),
                    arguments: None,
                },
            );
            let call = Self::tool_call();
            let ghost args = call.function.arguments@;
            let mut finished: Vec<StreamToolCall> = Vec::new();
            finished.push(
                StreamToolCall {
                    id: "offline-proof-self-test".to_owned(),
                    name: "self_test".to_owned(),
                    arguments: call.function.arguments,
                },
            );
            events.push(
                StreamEvent::Finished {
                    finish_reason: "tool_calls".to_owned(),
                    content: "offline proof: running safe self-test\n".to_owned(),
                    tool_calls: finished,
                },
            );
            proof {
                assert(args == self_test_arguments());
                assert(finished@.map_values(|c: StreamToolCall| crate::streaming::finished_view(c)) =~= seq![
                    (self_test_id(), "self_test"@, self_test_arguments()),
                ]);
                reveal_strlit("offline proof: running safe self-test\n");
                reveal_strlit("offline proof: running safe self-test");
                reveal_strlit("\n");
                assert("offline proof: running safe self-test\n"@ =~= running_text() + "\n"@);
                assert(events_view(events@) =~= seq![
                    EventView::Text(running_text() + "\n"@),
                    EventView::Tool {
                        index: 0,
                        id: Some(self_test_id()),
                        name: Some("self_test"@),
                        arguments: None,
                    },
                    EventView::Finished {
                        finish_reason: "tool_calls"@,
                        content: running_text() + "\n"@,
                        tool_calls: seq![(self_test_id(), "self_test"@, self_test_arguments())],
                    },
                ]);
            }
        } else {
            let text = Self::final_text(messages);
            events.push(StreamEvent::TextDelta(text.clone()));
            events.push(
                StreamEvent::Finished { finish_reason: "stop".to_owned(), content: text, tool_calls: Vec::new() },
            );
            proof {
                assert(events@[1]->Finished_tool_calls@.map_values(|c: StreamToolCall| crate::streaming::finished_view(c))
                    =~= Seq::empty());
                assert(events_view(events@) =~= seq![
                    EventView::Text(events@[0]->TextDelta_0@),
                    EventView::Finished {
                        finish_reason: "stop"@,
                        content: events@[0]->TextDelta_0@,
                        tool_calls: Seq::empty(),
                    },
                ]);
            }
        }
        events
    }
}

} // verus!
