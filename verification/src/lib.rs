//! Control plane of a tiling window manager: the container tree, the window
//! state machine, the pending-sync ledger, the command layer and the IPC
//! server's protocol state machine.

pub mod ancestry;
pub mod app_command;
pub mod commands;
pub mod container;
pub mod error;
pub mod ipc_server;
pub mod pending_sync;
pub mod snapshot;
pub mod traversal;
pub mod tree_model;
pub mod user_config;
pub mod window_state;
pub mod wire;
pub mod wire_reply;
pub mod wm_event;
pub mod wm_state;
