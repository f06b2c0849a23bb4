pub mod text;
pub mod execution_graph;
pub mod agent_loop;
pub mod profile;
pub mod organization;
pub mod intent;
pub mod llm;
pub mod llm_registry;
pub mod attention;
pub mod contract;
pub mod streaming;
pub mod auto_delegation;
pub mod orchestrator;
pub mod patch;
pub mod sse;
pub mod scripted;
