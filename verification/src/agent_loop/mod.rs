//! The agent loop's decisions: budgets, stop reasons and run outcomes.
pub mod budget;
pub mod outcome;
pub mod messages;
pub mod tool_calls;
pub mod step;
pub mod run;
pub mod tool_args;
