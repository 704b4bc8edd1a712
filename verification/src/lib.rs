//! Verified core of the Pi ↔ Grok adapter.
pub mod text;
pub mod path;
pub mod plan_mode;
pub mod queue_bridge;
pub mod goal_host;
pub mod model;
pub mod adapter;
pub mod subagent_bridge;
pub mod context;
pub mod cli;
pub mod self_heal;
pub mod pi_version;
pub mod psm;
pub mod theme;
pub mod json;
pub mod cache_metrics;
pub mod background_bash_bridge;
pub mod todo_bridge;
pub mod workflow_host;
pub mod session_paths;
pub mod migrate_home;
pub mod pi_rpc;
pub mod extension_ui;
pub mod pi_events;
pub mod launch;
pub mod crash_report;
pub mod ext_requests;
