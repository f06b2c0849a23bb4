//! The chat message model the agent loop reads and writes.
use vstd::prelude::*;
use crate::execution_graph::types::{clone_opt_string, opt_view};

verus! {

#[derive(Debug, Clone, Copy, PartialEq, Eq, Structural)]
pub enum Role {
    System,
    User,
    Assistant,
    Tool,
}

#[derive(Debug, PartialEq, Eq)]
pub struct FunctionCall {
    pub name: String,
    pub arguments: String,
}

#[derive(Debug, PartialEq, Eq)]
pub struct ToolCall {
    pub id: String,
    pub call_type: String,
    pub function: FunctionCall,
}

pub struct ToolCallView {
    pub id: Seq<char>,
    pub call_type: Seq<char>,
    pub name: Seq<char>,
    pub arguments: Seq<char>,
}

impl View for ToolCall {
    type V = ToolCallView;

    open spec fn view(&self) -> ToolCallView {
        ToolCallView {
            id: self.id@,
            call_type: self.call_type@,
            name: self.function.name@,
            arguments: self.function.arguments@,
        }
    }
}

impl Clone for ToolCall {
    fn clone(&self) -> (r: Self)
        ensures
            r@ == self@,
    {
        ToolCall {
            id: self.id.clone(),
            call_type: self.call_type.clone(),
            function: FunctionCall { name: self.function.name.clone(), arguments: self.function.arguments.clone() },
        }
    }
}

pub open spec fn calls_view(v: Seq<ToolCall>) -> Seq<ToolCallView> {
    v.map_values(|c: ToolCall| c@)
}

/// One chat message.
#[derive(Debug, PartialEq, Eq)]
pub struct Message {
    pub role: Role,
    pub content: String,
    pub tool_calls: Option<Vec<ToolCall>>,
    pub tool_call_id: Option<String>,
}

pub struct MessageView {
    pub role: Role,
    pub content: Seq<char>,
    pub tool_calls: Option<Seq<ToolCallView>>,
    pub tool_call_id: Option<Seq<char>>,
}

impl View for Message {
    type V = MessageView;

    open spec fn view(&self) -> MessageView {
        MessageView {
            role: self.role,
            content: self.content@,
            tool_calls: match self.tool_calls {
                Some(v) => Some(calls_view(v@)),
                None => None,
            },
            tool_call_id: opt_view(self.tool_call_id),
        }
    }
}

pub open spec fn messages_view(v: Seq<Message>) -> Seq<MessageView> {
    v.map_values(|m: Message| m@)
}

impl Message {
    pub fn user(content: &str) -> (m: Self)
        ensures
            m@ == (MessageView { role: Role::User, content: content@, tool_calls: None, tool_call_id: None }),
    {
        Message { role: Role::User, content: content.to_owned(), tool_calls: None, tool_call_id: None }
    }

    pub fn assistant(content: &str) -> (m: Self)
        ensures
            m@ == (MessageView { role: Role::Assistant, content: content@, tool_calls: None, tool_call_id: None }),
    {
        Message { role: Role::Assistant, content: content.to_owned(), tool_calls: None, tool_call_id: None }
    }

    pub fn assistant_with_tools(content: &str, calls: Vec<ToolCall>) -> (m: Self)
        ensures
            m@ == (MessageView {
                role: Role::Assistant,
                content: content@,
                tool_calls: Some(calls_view(calls@)),
                tool_call_id: None,
            }),
    {
        Message { role: Role::Assistant, content: content.to_owned(), tool_calls: Some(calls), tool_call_id: None }
    }

    pub fn tool_result(call_id: String, content: String) -> (m: Self)
        ensures
            m@ == (MessageView { role: Role::Tool, content: content@, tool_calls: None, tool_call_id: Some(call_id@) }),
    {
        Message { role: Role::Tool, content, tool_calls: None, tool_call_id: Some(call_id) }
    }
}

} // verus!
