//! Windows and monitors from Sway's JSON.

use vstd::prelude::*;
use crate::compositor::types::{WmClient, WmClientView, WmMonitor, WmMonitorView, WmWorkspace, WmWorkspaceView};
use crate::json::{Json, JsonView};
use crate::number;
use crate::number::Double;

verus! {

/// The application class of a container: its `app_id` (Wayland), or else the
/// class among its window properties (X11).
pub open spec fn node_class(node: JsonView) -> Seq<char> {
    if node.text_or_empty("app_id"@).len() > 0 {
        node.text_or_empty("app_id"@)
    } else {
        match node.get("window_properties"@) {
            Some(properties) => properties.text_or_empty("class"@),
            None => Seq::empty(),
        }
    }
}

/// The workspace that a node names, as the containers in events do. Other
/// nodes name none: number zero, without a name.
pub open spec fn node_workspace(node: JsonView) -> WmWorkspaceView {
    match node.get("workspace"@) {
        Some(ws) => WmWorkspaceView {
            id: ws.i64_or_zero("num"@) as i32,
            name: ws.text_or_empty("name"@),
        },
        None => WmWorkspaceView::empty(),
    }
}

/// The window that a container with an id is.
pub open spec fn node_client(node: JsonView, floating: bool) -> Option<WmClientView> {
    match node.i64_at("id"@) {
        Some(id) => Some(
            WmClientView {
                id: number::int_text(id as int),
                class: node_class(node),
                initial_class: Seq::empty(),
                title: node.text_or_empty("name"@),
                pid: node.i64_or_zero("pid"@) as i32,
                workspace: node_workspace(node),
                floating,
                monitor_id: 0,
                fullscreen: node.i64_or_zero("fullscreen_mode"@) > 0,
            },
        ),
        None => None,
    }
}

/// The integer at `key` of the field `part`.
pub open spec fn part_i64(node: JsonView, part: Seq<char>, key: Seq<char>) -> Option<i64> {
    match node.get(part) {
        Some(v) => v.i64_at(key),
        None => None,
    }
}

/// One side of an output: that of its current mode, or else of its rectangle.
pub open spec fn output_extent(output: JsonView, side: Seq<char>) -> i32 {
    match part_i64(output, "current_mode"@, side) {
        Some(n) => n as i32,
        None => output_rect(output, side),
    }
}

/// A number of the rectangle of an output, zero where there is none.
pub open spec fn output_rect(output: JsonView, key: Seq<char>) -> i32 {
    match part_i64(output, "rect"@, key) {
        Some(n) => n as i32,
        None => 0,
    }
}

/// The scale of an output, one where it has none.
pub open spec fn output_scale(output: JsonView) -> Double {
    match output.get("scale"@) {
        Some(v) => match v.as_double() {
            Some(scale) => scale,
            None => Double { bits: number::ONE_BITS },
        },
        None => Double { bits: number::ONE_BITS },
    }
}

/// The monitor that an output is.
pub open spec fn output_monitor(output: JsonView, idx: i32) -> WmMonitorView {
    WmMonitorView {
        id: idx,
        name: output.text_or_empty("name"@),
        width: output_extent(output, "width"@),
        height: output_extent(output, "height"@),
        x: output_rect(output, "x"@),
        y: output_rect(output, "y"@),
        scale: output_scale(output),
        focused: output.bool_at("focused"@) == Some(true),
        active_workspace: WmWorkspaceView {
            id: 0,
            name: output.text_or_empty("current_workspace"@),
        },
    }
}

/// Converts a Sway container node into a [`WmClient`]; `None` where the node
/// has no integer `id`.
pub fn node_to_wm_client(node: &Json, floating: bool) -> (r: Option<WmClient>)
    ensures
        match r {
            Some(c) => node_client(node@, floating) == Some(c@),
            None => node_client(node@, floating) is None,
        },
{
    let id: i64 = match node.i64_at("id") {
        Some(id) => id,
        None => return None,
    };
    let app_id = node.text_or_empty("app_id");
    let class = if !app_id.as_str().is_empty() {
        app_id
    } else {
        match node.get("window_properties") {
            Some(properties) => properties.text_or_empty("class"),
            None => String::new(),
        }
    };
    Some(
        WmClient {
            id: number::i64_text(id),
            class,
            initial_class: String::new(),
            title: node.text_or_empty("name"),
            pid: node.i64_or_zero("pid") as i32,
            workspace: extract_workspace_from_node(node),
            floating,
            monitor_id: 0,
            fullscreen: node.i64_or_zero("fullscreen_mode") > 0,
        },
    )
}

/// The workspace that a node names.
fn extract_workspace_from_node(node: &Json) -> (r: WmWorkspace)
    ensures
        r@ == node_workspace(node@),
{
    match node.get("workspace") {
        Some(ws) => WmWorkspace {
            id: ws.i64_or_zero("num") as i32,
            name: ws.text_or_empty("name"),
        },
        None => WmWorkspace::default(),
    }
}

fn part_number(node: &Json, part: &str, key: &str) -> (r: Option<i64>)
    ensures
        r == part_i64(node@, part@, key@),
{
    match node.get(part) {
        Some(v) => v.i64_at(key),
        None => None,
    }
}

fn rect_number(output: &Json, key: &str) -> (r: i32)
    ensures
        r == output_rect(output@, key@),
{
    match part_number(output, "rect", key) {
        Some(n) => n as i32,
        None => 0,
    }
}

fn extent(output: &Json, side: &str) -> (r: i32)
    ensures
        r == output_extent(output@, side@),
{
    match part_number(output, "current_mode", side) {
        Some(n) => n as i32,
        None => rect_number(output, side),
    }
}

/// Converts a Sway output JSON node into a [`WmMonitor`] with the given id.
pub fn output_to_wm_monitor(output: &Json, idx: i32) -> (r: WmMonitor)
    ensures
        r@ == output_monitor(output@, idx),
{
    let scale = match output.get("scale") {
        Some(v) => match v.as_double() {
            Some(scale) => scale,
            None => Double::one(),
        },
        None => Double::one(),
    };
    WmMonitor {
        id: idx,
        name: output.text_or_empty("name"),
        width: extent(output, "width"),
        height: extent(output, "height"),
        x: rect_number(output, "x"),
        y: rect_number(output, "y"),
        scale,
        focused: output.bool_at("focused") == Some(true),
        active_workspace: WmWorkspace { id: 0, name: output.text_or_empty("current_workspace") },
    }
}

/// What `monitor` tells is what the fields of `output` hold: the size is that of
/// the current mode, or else of the rectangle.
pub open spec fn is_of_output(monitor: WmMonitorView, output: JsonView) -> bool {
    &&& monitor.name == output.text_or_empty("name"@)
    &&& is_side(monitor.width, output, "width"@)
    &&& is_side(monitor.height, output, "height"@)
    &&& is_of_rect(monitor.x, output, "x"@)
    &&& is_of_rect(monitor.y, output, "y"@)
    &&& output.get("scale"@) is Some && output.get("scale"@)->0.as_double() is Some
        ==> monitor.scale == output.get("scale"@)->0.as_double()->0
    &&& output.get("scale"@) is None || output.get("scale"@)->0.as_double() is None
        ==> monitor.scale.bits == number::ONE_BITS
    &&& monitor.focused <==> output.bool_at("focused"@) == Some(true)
    &&& monitor.active_workspace.id == 0
    &&& monitor.active_workspace.name == output.text_or_empty("current_workspace"@)
}

/// `n` is the integer that the rectangle of `output` holds at `key`, zero where it
/// holds none.
pub open spec fn is_of_rect(n: i32, output: JsonView, key: Seq<char>) -> bool {
    let held = output.get("rect"@) is Some && output.get("rect"@)->0.i64_at(key) is Some;
    &&& held ==> n == output.get("rect"@)->0.i64_at(key)->0 as i32
    &&& !held ==> n == 0
}

/// `n` is the integer that the current mode of `output` holds at `key`, and that of
/// the rectangle where it holds none.
pub open spec fn is_side(n: i32, output: JsonView, key: Seq<char>) -> bool {
    let held = output.get("current_mode"@) is Some && output.get("current_mode"@)->0.i64_at(
        key,
    ) is Some;
    &&& held ==> n == output.get("current_mode"@)->0.i64_at(key)->0 as i32
    &&& !held ==> is_of_rect(n, output, key)
}

/// A monitor has the number given, and shows what the fields of its output hold.
pub proof fn monitors_show_their_output(output: JsonView, idx: i32)
    ensures
        output_monitor(output, idx).id == idx,
        is_of_output(output_monitor(output, idx), output),
{
}

/// `workspace` is the one that `node` names, number zero without a name where it
/// names none.
pub open spec fn is_named_by(workspace: WmWorkspaceView, node: JsonView) -> bool {
    let named = node.get("workspace"@);
    &&& named is Some ==> workspace.id == named->0.i64_or_zero("num"@) as i32 && workspace.name
        == named->0.text_or_empty("name"@)
    &&& named is None ==> workspace.id == 0 && workspace.name.len() == 0
}

/// A container is a window exactly where it has an integer id, which is the id of
/// the window; the workspace is the one that it names.
pub proof fn windows_show_their_container(node: Json, floating: bool, r: Option<WmClient>)
    requires
        call_ensures(node_to_wm_client, (&node, floating), r),
    ensures
        r is Some <==> node@.i64_at("id"@) is Some,
        r matches Some(client) ==> {
            &&& client.id@ == number::int_text(node@.i64_at("id"@)->0 as int)
            &&& client.title@ == node@.text_or_empty("name"@)
            &&& client.floating == floating
            &&& client.monitor_id == 0
            &&& is_named_by(client.workspace@, node@)
        },
{
}

} // verus!
