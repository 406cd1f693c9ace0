//! What every compositor backend offers once it is connected.

use vstd::prelude::*;
use crate::compositor::types::{WmClient, WmEvent, WmMonitor};
use crate::error::{DockError, IpcError};

verus! {

/// Blocking event stream reader. Designed to be used from a background thread.
pub trait WmEventStream: Send {
    /// Blocks until the next event. Returns `Err` on connection failure.
    fn next_event(&mut self) -> Result<WmEvent, IpcError>;
}

/// Abstraction over window manager IPC (Hyprland, Sway, etc.).
///
/// Implemented once per compositor, by whoever holds the connection to it.
pub trait Compositor {
    /// List all windows/clients.
    fn list_clients(&self) -> Result<Vec<WmClient>, DockError>;

    /// List all monitors/outputs.
    fn list_monitors(&self) -> Result<Vec<WmMonitor>, DockError>;

    /// Get the currently focused window.
    fn get_active_window(&self) -> Result<WmClient, DockError>;

    /// Get cursor position. Returns `None` if the compositor doesn't expose this.
    fn get_cursor_position(&self) -> Option<(i32, i32)>;

    /// Focus a window by its compositor-specific ID.
    fn focus_window(&self, id: &str) -> Result<(), DockError>;

    /// Close a window by its compositor-specific ID.
    fn close_window(&self, id: &str) -> Result<(), DockError>;

    /// Toggle floating state of a window.
    fn toggle_floating(&self, id: &str) -> Result<(), DockError>;

    /// Toggle fullscreen state of a window.
    fn toggle_fullscreen(&self, id: &str) -> Result<(), DockError>;

    /// Move a window to a workspace.
    fn move_to_workspace(&self, id: &str, workspace: i32) -> Result<(), DockError>;

    /// Switch the focused workspace.
    fn focus_workspace(&self, workspace: i32) -> Result<(), DockError>;

    /// Toggle a special/scratchpad workspace.
    /// Hyprland: toggles the named special workspace. Sway: toggles the scratchpad.
    fn toggle_special_workspace(&self, name: &str) -> Result<(), DockError>;

    /// Raise the active window to the top of the stack.
    fn raise_active(&self) -> Result<(), DockError>;

    /// Launch a command via the compositor's exec mechanism.
    fn exec(&self, cmd: &str) -> Result<(), DockError>;

    /// Connect to the compositor's event stream.
    fn event_stream(&self) -> Result<Box<dyn WmEventStream>, DockError>;

    /// Whether this compositor supports cursor position queries.
    fn supports_cursor_position(&self) -> bool;
}

} // verus!
