//! What Hyprland reports about windows and monitors.

use vstd::prelude::*;
use crate::json::Json;
use crate::number::Double;

verus! {

/// Reference to a workspace (embedded in client and monitor).
#[derive(Debug, Clone, Default)]
pub struct WorkspaceRef {
    pub id: i32,
    pub name: String,
}

/// A Hyprland window/client.
#[derive(Debug, Clone, Default)]
pub struct HyprClient {
    pub address: String,
    pub mapped: bool,
    pub hidden: bool,
    pub at: Vec<i32>,
    pub size: Vec<i32>,
    pub workspace: WorkspaceRef,
    pub floating: bool,
    pub monitor: i32,
    pub class: String,
    pub title: String,
    pub initial_class: String,
    pub initial_title: String,
    pub pid: i32,
    pub xwayland: bool,
    pub pinned: bool,
    pub fullscreen: i32,
    pub fullscreen_mode: i32,
    pub fake_fullscreen: bool,
    pub grouped: Vec<Json>,
    pub swallowing: Json,
}

/// A Hyprland monitor/output.
#[derive(Debug, Clone, Default)]
pub struct HyprMonitor {
    pub id: i32,
    pub name: String,
    pub description: String,
    pub make: String,
    pub model: String,
    pub serial: String,
    pub width: i32,
    pub height: i32,
    pub refresh_rate: Double,
    pub x: i32,
    pub y: i32,
    pub active_workspace: WorkspaceRef,
    pub reserved: Vec<i32>,
    pub scale: Double,
    pub transform: i32,
    pub focused: bool,
    pub dpms_status: bool,
    pub vrr: bool,
}

} // verus!
