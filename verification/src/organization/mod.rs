//! Staffing: routing requirements to employees under explicit limits, and
//! compiling a staffed request into an execution graph.
pub mod types;
pub mod routing;
pub mod compile;
pub mod laws;
