//! Hyprland's own types, sockets and events.

pub mod events;
pub mod ipc;
pub mod types;
