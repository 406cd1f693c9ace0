//! The backend for environments without Hyprland or Sway.

use vstd::prelude::*;
use crate::compositor::types::{WmClient, WmMonitor};
use crate::error::DockError;
use crate::launch;
use crate::launch::SpawnPlan;
use crate::text;

verus! {

/// Fallback compositor backend for environments without Hyprland or Sway IPC.
///
/// Drawers can run on any compositor. Most methods return errors, which a
/// drawer handles gracefully. The one exception is the launch path, which
/// starts processes directly.
#[derive(Debug, Clone, Copy)]
pub struct NullCompositor;

impl NullCompositor {
    pub fn list_clients(&self) -> (r: Result<Vec<WmClient>, DockError>)
        ensures
            r matches Err(DockError::NoCompositorDetected),
    {
        Err(DockError::NoCompositorDetected)
    }

    pub fn list_monitors(&self) -> (r: Result<Vec<WmMonitor>, DockError>)
        ensures
            r matches Err(DockError::NoCompositorDetected),
    {
        Err(DockError::NoCompositorDetected)
    }

    pub fn get_active_window(&self) -> (r: Result<WmClient, DockError>)
        ensures
            r matches Err(DockError::NoCompositorDetected),
    {
        Err(DockError::NoCompositorDetected)
    }

    pub fn get_cursor_position(&self) -> (r: Option<(i32, i32)>)
        ensures
            r is None,
    {
        None
    }

    pub fn focus_window(&self, _id: &str) -> (r: Result<(), DockError>)
        ensures
            r matches Err(DockError::NoCompositorDetected),
    {
        Err(DockError::NoCompositorDetected)
    }

    pub fn close_window(&self, _id: &str) -> (r: Result<(), DockError>)
        ensures
            r matches Err(DockError::NoCompositorDetected),
    {
        Err(DockError::NoCompositorDetected)
    }

    pub fn toggle_floating(&self, _id: &str) -> (r: Result<(), DockError>)
        ensures
            r matches Err(DockError::NoCompositorDetected),
    {
        Err(DockError::NoCompositorDetected)
    }

    pub fn toggle_fullscreen(&self, _id: &str) -> (r: Result<(), DockError>)
        ensures
            r matches Err(DockError::NoCompositorDetected),
    {
        Err(DockError::NoCompositorDetected)
    }

    pub fn move_to_workspace(&self, _id: &str, _workspace: i32) -> (r: Result<(), DockError>)
        ensures
            r matches Err(DockError::NoCompositorDetected),
    {
        Err(DockError::NoCompositorDetected)
    }

    pub fn focus_workspace(&self, _workspace: i32) -> (r: Result<(), DockError>)
        ensures
            r matches Err(DockError::NoCompositorDetected),
    {
        Err(DockError::NoCompositorDetected)
    }

    pub fn toggle_special_workspace(&self, _name: &str) -> (r: Result<(), DockError>)
        ensures
            r matches Err(DockError::NoCompositorDetected),
    {
        Err(DockError::NoCompositorDetected)
    }

    pub fn raise_active(&self) -> (r: Result<(), DockError>)
        ensures
            r matches Err(DockError::NoCompositorDetected),
    {
        Err(DockError::NoCompositorDetected)
    }

    /// Launches the command directly via process spawn instead of compositor
    /// IPC: the process to start, if the command has one. Rejects blank
    /// commands so the caller can distinguish success from a no-op.
    pub fn exec(&self, cmd: &str) -> (r: Result<Option<SpawnPlan>, DockError>)
        ensures
            match r {
                Ok(plan) => text::trim(cmd@).len() > 0 && launch::is_plan(
                    plan,
                    launch::direct_plan(launch::command_words(cmd@)),
                ),
                Err(DockError::NoCompositorDetected) => text::trim(cmd@).len() == 0,
                Err(_) => false,
            },
    {
        let chars = text::chars_of(cmd);
        if text::trimmed(chars.as_slice()).len() == 0 {
            return Err(DockError::NoCompositorDetected);
        }
        Ok(launch::launch_command(cmd))
    }

    /// There is no event stream to subscribe to. Failing at once keeps callers
    /// from spawning a worker thread that would block forever.
    pub fn event_stream(&self) -> (r: Result<(), DockError>)
        ensures
            r matches Err(DockError::NoCompositorDetected),
    {
        Err(DockError::NoCompositorDetected)
    }

    /// Whether this compositor supports cursor position queries.
    pub fn supports_cursor_position(&self) -> (r: bool)
        ensures
            !r,
    {
        false
    }
}

/// A command that is not blank is started directly, as it would be anywhere; a blank
/// one is refused.
pub proof fn commands_are_started_directly(
    backend: NullCompositor,
    cmd: &str,
    r: Result<Option<SpawnPlan>, DockError>,
    direct: Option<SpawnPlan>,
)
    requires
        call_ensures(NullCompositor::exec, (&backend, cmd), r),
        call_ensures(launch::launch_command, (cmd,), direct),
    ensures
        r is Err <==> text::all_white(cmd@),
        r matches Ok(plan) ==> (plan is Some <==> direct is Some) && (plan is Some ==> plan->0@
            == direct->0@),
{
    let (before, behind) = text::trim_leaves_the_middle(cmd@);
    if text::trim(cmd@).len() == 0 {
        assert(cmd@ == before + behind);
        assert forall|i: int| 0 <= i < cmd@.len() implies text::is_white_space(
            #[trigger] cmd@[i],
        ) by {
            if i < before.len() {
                assert(cmd@[i] == before[i]);
            } else {
                assert(cmd@[i] == behind[i - before.len()]);
            }
        }
    } else {
        let i = before.len() as int;
        assert(cmd@[i] == text::trim(cmd@)[0]);
    }
}

} // verus!
