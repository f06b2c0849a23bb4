//! The parent's decisions around worker execution: ownership scopes, patch
//! proposals, review outcomes and what the manager is told.
pub mod paths;
pub mod sorting;
pub mod types;
pub mod outcomes;
pub mod scopes;
pub mod proposals;
pub mod projection;
pub mod review;
pub mod staffing;
pub mod collector;
pub mod ownership;
pub mod laws;
pub mod split;
pub mod conflicts;
pub mod organization_run;
pub mod review_pipeline;
pub mod claims;
pub mod execution;
pub mod mutation_run;
pub mod tool_policy;
pub mod pipeline;
pub mod submission;
pub mod assignment_run;
pub mod review_run;
pub mod mutation_flow;
pub mod organization_flow;
