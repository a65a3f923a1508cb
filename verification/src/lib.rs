//! Task, quota and snapshot logic of the Codex quota floating window.

pub mod codex_client;
pub mod codex_protocol;
pub mod commands;
pub mod diagnostics;
pub mod hook_diagnostics;
pub mod json;
pub mod lan_server;
pub mod domain;
pub mod task_registry;
pub mod text;
pub mod poller;
pub mod rollout_watcher;
pub mod snapshot_cache;
pub mod snapshot_store;
pub mod tray;
