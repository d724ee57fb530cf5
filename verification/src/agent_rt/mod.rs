//! The agent runtime: processes, scheduling, supervision and task orchestration.
pub mod agent_worker;
pub mod approval_gate;
pub mod behaviors;
pub mod bridge;
pub mod bridge_metrics;
pub mod chaos;
pub mod checkpoint;
pub mod cluster;
pub mod config;
pub mod dead_letter;
pub mod decomposition;
pub mod dets;
pub mod durable_mailbox;
pub mod error;
pub mod ets;
pub mod hot_code;
pub mod mcp_client;
pub mod mcp_jsonrpc;
pub mod mcp_server;
pub mod mcp_stdio;
pub mod mcp_types;
pub mod observability;
pub mod orchestration;
pub mod process;
pub mod rate_limiter;
pub mod registry;
pub mod release;
pub mod resource_budget;
pub mod result_aggregator;
pub mod retry_policy;
pub mod roles;
pub mod scheduler;
pub mod server;
pub mod startup;
pub mod supervision;
pub mod task_graph;
pub mod tool_factory;
pub mod types;
pub mod wire;
