//! Orchestration daemon helpers: text rendering, parsing and policy logic
//! with machine-checked contracts.

pub mod text;
pub mod attribution;
pub mod ci_gen;
pub mod str_map;
pub mod str_sort;
pub mod custom_commands;
pub mod env_inject;
pub mod file_watcher;
pub mod editor;
pub mod context_gen;
pub mod context_graph;
pub mod code_search;
pub mod daemon_status;
pub mod auto_compact;
pub mod context_gen_telemetry;
pub mod conversation;
pub mod delta_report;
pub mod delegation;
pub mod json;
pub mod agent_dispatch;
pub mod event_log;
pub mod chat_workspace;
pub mod global_context;
pub mod e2e_tester;
pub mod e2e_scenarios;
pub mod daemon_loop;
pub mod context_manager;
pub mod agent_log;
pub mod dependency_graph;
pub mod context_loader;
pub mod daemon_decisions;
