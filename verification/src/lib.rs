//! Multi-agent orchestration core: resource guards, task planning,
//! edit blocks, configuration, roles and audit rules.

pub mod guard;
pub mod schedule;
pub mod orchestrate;
pub mod text;
pub mod diff_edit;
pub mod config;
pub mod role;
pub mod agent;
pub mod lifecycle;
pub mod audit;
pub mod judge;
pub mod synthesis;
pub mod types;
pub mod project_tools;
pub mod project_scan;
pub mod codec;
pub mod mcp;
pub mod providers;
pub mod ui;
pub mod keymap;
pub mod tui_layout;
pub mod bridge;
pub mod command;
pub mod runtime;
pub mod event_loop;
pub mod graph_signature;
pub mod templates;
pub mod llm_retry;
pub mod spawn_plan;
pub mod handoff;
pub mod agent_factory;
pub mod provider_setup;
pub mod orchestrate_run;
pub mod mcp_manager;
pub mod file_tools;
pub mod agent_tree;
