//! Compositor-neutral windows, monitors, workspaces and events.

use vstd::prelude::*;
use crate::number::Double;
use crate::text::IntoText;

verus! {

/// Compositor-neutral window representation.
#[derive(Debug)]
#[non_exhaustive]
pub struct WmClient {
    /// Compositor-specific identifier (Hyprland: `0x1234`, Sway: `42`).
    pub id: String,
    /// Application class (Hyprland: `class`; Sway: `app_id` or
    /// `window_properties.class`).
    pub class: String,
    /// Initial class at window creation (Hyprland only). Empty on backends that
    /// don't track this separately.
    pub initial_class: String,
    /// Human-readable window title.
    pub title: String,
    /// Process ID of the window's owning process, or 0 if unavailable.
    pub pid: i32,
    /// Workspace this window lives on.
    pub workspace: WmWorkspace,
    /// Whether the window is floating (not tiled).
    pub floating: bool,
    /// ID of the monitor this window is on. Matches [`WmMonitor::id`].
    pub monitor_id: i32,
    /// Whether the window is currently fullscreen.
    pub fullscreen: bool,
}

/// What a window holds.
#[verifier::ext_equal]
pub struct WmClientView {
    pub id: Seq<char>,
    pub class: Seq<char>,
    pub initial_class: Seq<char>,
    pub title: Seq<char>,
    pub pid: i32,
    pub workspace: WmWorkspaceView,
    pub floating: bool,
    pub monitor_id: i32,
    pub fullscreen: bool,
}

impl View for WmClient {
    type V = WmClientView;

    open spec fn view(&self) -> WmClientView {
        WmClientView {
            id: self.id@,
            class: self.class@,
            initial_class: self.initial_class@,
            title: self.title@,
            pid: self.pid,
            workspace: self.workspace@,
            floating: self.floating,
            monitor_id: self.monitor_id,
            fullscreen: self.fullscreen,
        }
    }
}

impl WmClientView {
    /// Empty texts, zeros and falsehoods throughout.
    pub open spec fn empty() -> WmClientView {
        WmClientView {
            id: Seq::empty(),
            class: Seq::empty(),
            initial_class: Seq::empty(),
            title: Seq::empty(),
            pid: 0,
            workspace: WmWorkspaceView::empty(),
            floating: false,
            monitor_id: 0,
            fullscreen: false,
        }
    }
}

impl Clone for WmClient {
    fn clone(&self) -> (r: WmClient)
        ensures
            r@ == self@,
    {
        WmClient {
            id: self.id.clone(),
            class: self.class.clone(),
            initial_class: self.initial_class.clone(),
            title: self.title.clone(),
            pid: self.pid,
            workspace: self.workspace.clone(),
            floating: self.floating,
            monitor_id: self.monitor_id,
            fullscreen: self.fullscreen,
        }
    }
}

impl Default for WmClient {
    fn default() -> (r: WmClient)
        ensures
            r@ == WmClientView::empty(),
    {
        WmClient {
            id: String::new(),
            class: String::new(),
            initial_class: String::new(),
            title: String::new(),
            pid: 0,
            workspace: WmWorkspace::default(),
            floating: false,
            monitor_id: 0,
            fullscreen: false,
        }
    }
}

impl WmClient {
    /// Fluent setter for [`Self::id`].
    pub fn with_id(self, id: impl IntoText) -> (r: WmClient)
        ensures
            r@ == (WmClientView { id: id.text(), ..self@ }),
    {
        WmClient { id: id.into_text(), ..self }
    }

    /// Fluent setter for [`Self::class`].
    pub fn with_class(self, class: impl IntoText) -> (r: WmClient)
        ensures
            r@ == (WmClientView { class: class.text(), ..self@ }),
    {
        WmClient { class: class.into_text(), ..self }
    }

    /// Fluent setter for [`Self::initial_class`].
    pub fn with_initial_class(self, initial_class: impl IntoText) -> (r: WmClient)
        ensures
            r@ == (WmClientView { initial_class: initial_class.text(), ..self@ }),
    {
        WmClient { initial_class: initial_class.into_text(), ..self }
    }

    /// Fluent setter for [`Self::title`].
    pub fn with_title(self, title: impl IntoText) -> (r: WmClient)
        ensures
            r@ == (WmClientView { title: title.text(), ..self@ }),
    {
        WmClient { title: title.into_text(), ..self }
    }

    /// Fluent setter for [`Self::pid`].
    pub fn with_pid(self, pid: i32) -> (r: WmClient)
        ensures
            r@ == (WmClientView { pid: pid, ..self@ }),
    {
        WmClient { pid: pid, ..self }
    }

    /// Fluent setter for [`Self::workspace`].
    pub fn with_workspace(self, workspace: WmWorkspace) -> (r: WmClient)
        ensures
            r@ == (WmClientView { workspace: workspace@, ..self@ }),
    {
        WmClient { workspace: workspace, ..self }
    }

    /// Fluent setter for [`Self::floating`].
    pub fn with_floating(self, floating: bool) -> (r: WmClient)
        ensures
            r@ == (WmClientView { floating: floating, ..self@ }),
    {
        WmClient { floating: floating, ..self }
    }

    /// Fluent setter for [`Self::monitor_id`].
    pub fn with_monitor_id(self, monitor_id: i32) -> (r: WmClient)
        ensures
            r@ == (WmClientView { monitor_id: monitor_id, ..self@ }),
    {
        WmClient { monitor_id: monitor_id, ..self }
    }

    /// Fluent setter for [`Self::fullscreen`].
    pub fn with_fullscreen(self, fullscreen: bool) -> (r: WmClient)
        ensures
            r@ == (WmClientView { fullscreen: fullscreen, ..self@ }),
    {
        WmClient { fullscreen: fullscreen, ..self }
    }
}

/// Compositor-neutral monitor/output.
#[derive(Debug)]
#[non_exhaustive]
pub struct WmMonitor {
    /// Compositor-assigned numeric ID. Matches [`WmClient::monitor_id`].
    pub id: i32,
    /// Output connector name (e.g. `DP-1`, `eDP-1`).
    pub name: String,
    /// Pixel width.
    pub width: i32,
    /// Pixel height.
    pub height: i32,
    /// Global x-offset in the compositor's layout.
    pub x: i32,
    /// Global y-offset in the compositor's layout.
    pub y: i32,
    /// HiDPI scale factor (one is no scaling).
    pub scale: Double,
    /// Whether this monitor currently holds keyboard focus.
    pub focused: bool,
    /// Workspace that's active on this monitor.
    pub active_workspace: WmWorkspace,
}

/// What a monitor holds.
#[verifier::ext_equal]
pub struct WmMonitorView {
    pub id: i32,
    pub name: Seq<char>,
    pub width: i32,
    pub height: i32,
    pub x: i32,
    pub y: i32,
    pub scale: Double,
    pub focused: bool,
    pub active_workspace: WmWorkspaceView,
}

impl View for WmMonitor {
    type V = WmMonitorView;

    open spec fn view(&self) -> WmMonitorView {
        WmMonitorView {
            id: self.id,
            name: self.name@,
            width: self.width,
            height: self.height,
            x: self.x,
            y: self.y,
            scale: self.scale,
            focused: self.focused,
            active_workspace: self.active_workspace@,
        }
    }
}

impl WmMonitorView {
    /// Empty texts, zeros and falsehoods throughout.
    pub open spec fn empty() -> WmMonitorView {
        WmMonitorView {
            id: 0,
            name: Seq::empty(),
            width: 0,
            height: 0,
            x: 0,
            y: 0,
            scale: Double { bits: 0 },
            focused: false,
            active_workspace: WmWorkspaceView::empty(),
        }
    }
}

impl Clone for WmMonitor {
    fn clone(&self) -> (r: WmMonitor)
        ensures
            r@ == self@,
    {
        WmMonitor {
            id: self.id,
            name: self.name.clone(),
            width: self.width,
            height: self.height,
            x: self.x,
            y: self.y,
            scale: self.scale,
            focused: self.focused,
            active_workspace: self.active_workspace.clone(),
        }
    }
}

impl Default for WmMonitor {
    fn default() -> (r: WmMonitor)
        ensures
            r@ == WmMonitorView::empty(),
    {
        WmMonitor {
            id: 0,
            name: String::new(),
            width: 0,
            height: 0,
            x: 0,
            y: 0,
            scale: Double { bits: 0 },
            focused: false,
            active_workspace: WmWorkspace::default(),
        }
    }
}

impl WmMonitor {
    /// Fluent setter for [`Self::id`].
    pub fn with_id(self, id: i32) -> (r: WmMonitor)
        ensures
            r@ == (WmMonitorView { id: id, ..self@ }),
    {
        WmMonitor { id: id, ..self }
    }

    /// Fluent setter for [`Self::name`].
    pub fn with_name(self, name: impl IntoText) -> (r: WmMonitor)
        ensures
            r@ == (WmMonitorView { name: name.text(), ..self@ }),
    {
        WmMonitor { name: name.into_text(), ..self }
    }

    /// Fluent setter for [`Self::width`].
    pub fn with_width(self, width: i32) -> (r: WmMonitor)
        ensures
            r@ == (WmMonitorView { width: width, ..self@ }),
    {
        WmMonitor { width: width, ..self }
    }

    /// Fluent setter for [`Self::height`].
    pub fn with_height(self, height: i32) -> (r: WmMonitor)
        ensures
            r@ == (WmMonitorView { height: height, ..self@ }),
    {
        WmMonitor { height: height, ..self }
    }

    /// Fluent setter for [`Self::x`].
    pub fn with_x(self, x: i32) -> (r: WmMonitor)
        ensures
            r@ == (WmMonitorView { x: x, ..self@ }),
    {
        WmMonitor { x: x, ..self }
    }

    /// Fluent setter for [`Self::y`].
    pub fn with_y(self, y: i32) -> (r: WmMonitor)
        ensures
            r@ == (WmMonitorView { y: y, ..self@ }),
    {
        WmMonitor { y: y, ..self }
    }

    /// Fluent setter for [`Self::scale`].
    pub fn with_scale(self, scale: Double) -> (r: WmMonitor)
        ensures
            r@ == (WmMonitorView { scale: scale, ..self@ }),
    {
        WmMonitor { scale: scale, ..self }
    }

    /// Fluent setter for [`Self::focused`].
    pub fn with_focused(self, focused: bool) -> (r: WmMonitor)
        ensures
            r@ == (WmMonitorView { focused: focused, ..self@ }),
    {
        WmMonitor { focused: focused, ..self }
    }

    /// Fluent setter for [`Self::active_workspace`].
    pub fn with_active_workspace(self, active_workspace: WmWorkspace) -> (r: WmMonitor)
        ensures
            r@ == (WmMonitorView { active_workspace: active_workspace@, ..self@ }),
    {
        WmMonitor { active_workspace: active_workspace, ..self }
    }
}

/// Compositor-neutral workspace reference.
#[derive(Debug)]
#[non_exhaustive]
pub struct WmWorkspace {
    /// Compositor-assigned numeric workspace ID.
    pub id: i32,
    /// Workspace name (may be numeric-as-string or a human name like `chat`).
    pub name: String,
}

/// What a workspace reference holds.
#[verifier::ext_equal]
pub struct WmWorkspaceView {
    pub id: i32,
    pub name: Seq<char>,
}

impl View for WmWorkspace {
    type V = WmWorkspaceView;

    open spec fn view(&self) -> WmWorkspaceView {
        WmWorkspaceView {
            id: self.id,
            name: self.name@,
        }
    }
}

impl WmWorkspaceView {
    /// Empty texts, zeros and falsehoods throughout.
    pub open spec fn empty() -> WmWorkspaceView {
        WmWorkspaceView {
            id: 0,
            name: Seq::empty(),
        }
    }
}

impl Clone for WmWorkspace {
    fn clone(&self) -> (r: WmWorkspace)
        ensures
            r@ == self@,
    {
        WmWorkspace {
            id: self.id,
            name: self.name.clone(),
        }
    }
}

impl Default for WmWorkspace {
    fn default() -> (r: WmWorkspace)
        ensures
            r@ == WmWorkspaceView::empty(),
    {
        WmWorkspace {
            id: 0,
            name: String::new(),
        }
    }
}

impl WmWorkspace {
    /// Fluent setter for [`Self::id`].
    pub fn with_id(self, id: i32) -> (r: WmWorkspace)
        ensures
            r@ == (WmWorkspaceView { id: id, ..self@ }),
    {
        WmWorkspace { id: id, ..self }
    }

    /// Fluent setter for [`Self::name`].
    pub fn with_name(self, name: impl IntoText) -> (r: WmWorkspace)
        ensures
            r@ == (WmWorkspaceView { name: name.text(), ..self@ }),
    {
        WmWorkspace { name: name.into_text(), ..self }
    }
}

/// Events from the compositor event stream.
#[derive(Debug, Clone, PartialEq, Eq)]
#[non_exhaustive]
pub enum WmEvent {
    /// Active window changed. Contains the window id.
    ActiveWindowChanged(String),
    /// Monitor added or removed (hotplug).
    MonitorChanged,
    /// The focused workspace changed.
    WorkspaceChanged { id: i32, name: String },
    /// Any other event.
    Other(String),
}

/// What an event holds.
pub enum WmEventView {
    ActiveWindowChanged(Seq<char>),
    MonitorChanged,
    WorkspaceChanged { id: i32, name: Seq<char> },
    Other(Seq<char>),
}

impl View for WmEvent {
    type V = WmEventView;

    open spec fn view(&self) -> WmEventView {
        match *self {
            WmEvent::ActiveWindowChanged(id) => WmEventView::ActiveWindowChanged(id@),
            WmEvent::MonitorChanged => WmEventView::MonitorChanged,
            WmEvent::WorkspaceChanged { id, name } => WmEventView::WorkspaceChanged {
                id,
                name: name@,
            },
            WmEvent::Other(line) => WmEventView::Other(line@),
        }
    }
}

/// What each window of `v` holds.
pub open spec fn clients(v: Seq<WmClient>) -> Seq<WmClientView> {
    v.map_values(|c: WmClient| c@)
}

/// What each monitor of `v` holds.
pub open spec fn monitors(v: Seq<WmMonitor>) -> Seq<WmMonitorView> {
    v.map_values(|m: WmMonitor| m@)
}

/// A setter changes its own field and no other.
pub proof fn setters_change_one_field(
    client: WmClient,
    pid: i32,
    workspace: WmWorkspace,
    flag: bool,
    with_pid: WmClient,
    with_workspace: WmClient,
    with_floating: WmClient,
    with_monitor_id: WmClient,
    with_fullscreen: WmClient,
)
    requires
        call_ensures(WmClient::with_pid, (client, pid), with_pid),
        call_ensures(WmClient::with_workspace, (client, workspace), with_workspace),
        call_ensures(WmClient::with_floating, (client, flag), with_floating),
        call_ensures(WmClient::with_monitor_id, (client, pid), with_monitor_id),
        call_ensures(WmClient::with_fullscreen, (client, flag), with_fullscreen),
    ensures
        with_pid.pid == pid && same_but_for_pid(with_pid, client),
        with_workspace.workspace@ == workspace@ && with_workspace.pid == client.pid
            && same_texts(with_workspace, client) && with_workspace.monitor_id == client.monitor_id
            && with_workspace.floating == client.floating && with_workspace.fullscreen
            == client.fullscreen,
        with_floating.floating == flag && with_floating.pid == client.pid && same_texts(
            with_floating,
            client,
        ) && with_floating.monitor_id == client.monitor_id && with_floating.fullscreen
            == client.fullscreen && with_floating.workspace@ == client.workspace@,
        with_monitor_id.monitor_id == pid && with_monitor_id.pid == client.pid && same_texts(
            with_monitor_id,
            client,
        ) && with_monitor_id.floating == client.floating && with_monitor_id.fullscreen
            == client.fullscreen && with_monitor_id.workspace@ == client.workspace@,
        with_fullscreen.fullscreen == flag && with_fullscreen.pid == client.pid && same_texts(
            with_fullscreen,
            client,
        ) && with_fullscreen.floating == client.floating && with_fullscreen.monitor_id
            == client.monitor_id && with_fullscreen.workspace@ == client.workspace@,
{
    lemma_fields(client);
    lemma_fields(with_pid);
    lemma_fields(with_workspace);
    lemma_fields(with_floating);
    lemma_fields(with_monitor_id);
    lemma_fields(with_fullscreen);
}

/// The texts of the two windows are the same.
pub open spec fn same_texts(a: WmClient, b: WmClient) -> bool {
    a.id@ == b.id@ && a.class@ == b.class@ && a.initial_class@ == b.initial_class@ && a.title@
        == b.title@
}

/// The two windows are the same, but perhaps for the process.
pub open spec fn same_but_for_pid(a: WmClient, b: WmClient) -> bool {
    same_texts(a, b) && a.workspace@ == b.workspace@ && a.floating == b.floating && a.monitor_id
        == b.monitor_id && a.fullscreen == b.fullscreen
}

proof fn lemma_fields(c: WmClient)
    ensures
        c@.id == c.id@ && c@.class == c.class@ && c@.initial_class == c.initial_class@ && c@.title
            == c.title@ && c@.workspace == c.workspace@,
{
}

} // verus!
