//! Collecting one streamed model turn: its text as it arrives, and the tool
//! calls the finished stream reports.
use vstd::prelude::*;
use crate::llm::{calls_view, FunctionCall, ToolCall, ToolCallView};
use crate::sse::StreamEvent;
use crate::streaming::{finished_view, StreamToolCall};

verus! {

/// A finished streamed call as the conversation records it.
pub open spec fn as_function_call(c: (Seq<char>, Seq<char>, Seq<char>)) -> ToolCallView {
    ToolCallView { id: c.0, call_type: "function"@, name: c.1, arguments: c.2 }
}

/// One model turn being streamed.
#[derive(Debug)]
pub struct StepCollector {
    content: String,
    tool_calls: Vec<StreamToolCall>,
}

impl StepCollector {
    pub closed spec fn text(&self) -> Seq<char> {
        self.content@
    }

    pub closed spec fn calls(&self) -> Seq<(Seq<char>, Seq<char>, Seq<char>)> {
        self.tool_calls@.map_values(|c: StreamToolCall| finished_view(c))
    }

    pub fn new() -> (c: Self)
        ensures
            c.text() == Seq::<char>::empty(),
            c.calls() == Seq::<(Seq<char>, Seq<char>, Seq<char>)>::empty(),
    {
        let c = StepCollector { content: String::new(), tool_calls: Vec::new() };
        proof {
            assert(c.calls() =~= Seq::<(Seq<char>, Seq<char>, Seq<char>)>::empty());
        }
        c
    }

    /// Takes in one event; text is handed back to be shown as it arrives.
    /// Tool-call fragments wait for the finish event, whose calls replace
    /// any earlier ones.
    pub fn observe(&mut self, event: StreamEvent) -> (shown: Option<String>)
        ensures
            match event {
                StreamEvent::TextDelta(t) => {
                    &&& final(self).text() == old(self).text() + t@
                    &&& final(self).calls() == old(self).calls()
                    &&& shown matches Some(s) && s@ == t@
                },
                StreamEvent::ToolCallDelta { .. } => {
                    &&& final(self).text() == old(self).text()
                    &&& final(self).calls() == old(self).calls()
                    &&& shown is None
                },
                StreamEvent::Finished { tool_calls, .. } => {
                    &&& final(self).text() == old(self).text()
                    &&& final(self).calls() == tool_calls@.map_values(|c: StreamToolCall| finished_view(c))
                    &&& shown is None
                },
            },
    {
        match event {
            StreamEvent::TextDelta(text) => {
                self.content.append(text.as_str());
                Some(text)
            },
            StreamEvent::ToolCallDelta { .. } => None,
            StreamEvent::Finished { tool_calls, .. } => {
                self.tool_calls = tool_calls;
                None
            },
        }
    }

    /// The turn's text and its tool calls, as function calls.
    pub fn finish(self) -> (r: (String, Vec<ToolCall>))
        ensures
            r.0@ == self.text(),
            calls_view(r.1@) == self.calls().map_values(|c: (Seq<char>, Seq<char>, Seq<char>)| as_function_call(c)),
    {
        let mut calls: Vec<ToolCall> = Vec::new();
        let ghost fs = self.calls();
        let mut i: usize = 0;
        while i < self.tool_calls.len()
            invariant
                i <= self.tool_calls@.len(),
                fs == self.calls(),
                calls_view(calls@) == fs.subrange(0, i as int).map_values(
                    |c: (Seq<char>, Seq<char>, Seq<char>)| as_function_call(c),
                ),
            decreases self.tool_calls@.len() - i,
        {
            let c = &self.tool_calls[i];
            proof {
                assert(fs[i as int] == finished_view(self.tool_calls@[i as int]));
            }
            let call = ToolCall {
                id: c.id.clone(),
                call_type: "function".to_owned(),
                function: FunctionCall { name: c.name.clone(), arguments: c.arguments.clone() },
            };
            let ghost prev = calls@;
            calls.push(call);
            proof {
                assert(calls@ =~= prev.push(call));
                assert(call@ == as_function_call(fs[i as int]));
                assert(calls_view(calls@) =~= calls_view(prev).push(call@));
                assert(calls_view(calls@) =~= fs.subrange(0, i + 1).map_values(
                    |c: (Seq<char>, Seq<char>, Seq<char>)| as_function_call(c),
                ));
            }
            i += 1;
        }
        proof {
            assert(fs.subrange(0, fs.len() as int) =~= fs);
        }
        (self.content, calls)
    }
}

} // verus!
