//! Shared library for a dock, a drawer and a notification daemon on Wayland:
//! compositor-neutral IPC, `.desktop` entry parsing, pin-file management,
//! stylesheet watching, and the bits of system plumbing that are common to the
//! three.
//!
//! The library decides and computes. Sockets, files, processes, signals and
//! windows are up to its callers, which hand it plain values and take plain
//! values back.

pub mod compositor;
pub mod config;
pub mod desktop;
pub mod encoding;
pub mod error;
pub mod hyprland;
pub mod json;
pub mod launch;
pub mod layer_shell;
pub mod number;
pub mod path;
pub mod pinning;
pub mod process;
pub mod shell;
pub mod signals;
pub mod text;

pub use error::DockError;
