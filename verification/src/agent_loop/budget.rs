//! Limits on one agent run.
use vstd::prelude::*;

verus! {

/// How far one agent run may go. Timeouts are whole seconds.
#[derive(Debug, Clone, Copy, PartialEq, Eq, Structural)]
pub struct AgentBudget {
    pub max_steps: u32,
    pub max_tool_calls: u32,
    pub per_tool_limit: u32,
    pub token_limit: usize,
    pub llm_timeout_secs: u64,
    pub tool_timeout_secs: u64,
}

impl AgentBudget {
    /// The budget of an interactive assistant run.
    pub fn assistant_default() -> (b: Self)
        ensures
            b.max_steps == 80,
            b.max_tool_calls == 256,
            b.per_tool_limit == 128,
            b.token_limit == 500_000,
            b.llm_timeout_secs == 240,
            b.tool_timeout_secs == 120,
    {
        AgentBudget {
            max_steps: 80,
            max_tool_calls: 256,
            per_tool_limit: 128,
            token_limit: 500_000,
            llm_timeout_secs: 240,
            tool_timeout_secs: 120,
        }
    }

    /// The larger budget of a coding run.
    pub fn coding_default() -> (b: Self)
        ensures
            b.max_steps == 200,
            b.max_tool_calls == 1024,
            b.per_tool_limit == 512,
            b.token_limit == 1_000_000,
            b.llm_timeout_secs == 600,
            b.tool_timeout_secs == 300,
    {
        AgentBudget {
            max_steps: 200,
            max_tool_calls: 1024,
            per_tool_limit: 512,
            token_limit: 1_000_000,
            llm_timeout_secs: 600,
            tool_timeout_secs: 300,
        }
    }
}

impl Default for AgentBudget {
    fn default() -> (b: Self)
        ensures
            b.max_steps == 80,
            b.max_tool_calls == 256,
            b.per_tool_limit == 128,
            b.token_limit == 500_000,
            b.llm_timeout_secs == 240,
            b.tool_timeout_secs == 120,
    {
        AgentBudget::assistant_default()
    }
}

} // verus!
