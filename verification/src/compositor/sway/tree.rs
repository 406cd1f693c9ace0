//! Walking Sway's tree of outputs, workspaces and containers.

use vstd::prelude::*;
use crate::compositor::sway::types;
use crate::compositor::types as model;
use crate::compositor::types::{WmClient, WmClientView, WmMonitor, WmMonitorView, WmWorkspace, WmWorkspaceView};
use crate::error::DockError;
use crate::json;
use crate::json::{Json, JsonView};
use crate::number;
use crate::text;

verus! {

/// Maximum tree traversal depth to prevent stack overflow.
pub const MAX_TREE_DEPTH: u32 = 128;

/// A node is a window if it is a container with a process, and either an
/// `app_id` (Wayland) or window properties (X11).
pub open spec fn is_window(node: JsonView) -> bool {
    &&& node.i64_or_zero("pid"@) > 0
    &&& node.text_or_empty("app_id"@).len() > 0 || node.get("window_properties"@) is Some
    &&& node.text_or_empty("type"@) == "con"@
}

/// Sway's internal outputs and workspaces have names of this form.
pub open spec fn is_internal(node: JsonView) -> bool {
    text::starts_with(node.text_or_empty("name"@), "__"@)
}

/// The first window with focus among the elements of `parent[key]` from index
/// `from` on.
pub open spec fn focused_in(
    parent: JsonView,
    key: Seq<char>,
    floating: bool,
    from: int,
) -> Option<WmClientView>
    decreases parent, 0nat, parent.elements_at(key).len() - from,
{
    if from < 0 || from >= parent.elements_at(key).len() {
        None
    } else {
        proof {
            json::lemma_element_is_smaller(parent, key, from);
        }
        match focused_window(parent.elements_at(key)[from], floating) {
            Some(client) => Some(client),
            None => focused_in(parent, key, floating, from + 1),
        }
    }
}

/// The window with focus at or below `node`, one below before the node itself.
/// It floats where the node lies below a floating container or among floating
/// nodes.
pub open spec fn focused_window(node: JsonView, below_floating: bool) -> Option<WmClientView>
    decreases node, 1nat, 0int,
{
    let floating = below_floating || node.text_or_empty("type"@) == "floating_con"@;
    match focused_in(node, "nodes"@, floating, 0) {
        Some(client) => Some(client),
        None => match focused_in(node, "floating_nodes"@, true, 0) {
            Some(client) => Some(client),
            None => if node.bool_at("focused"@) == Some(true) && is_window(node) {
                types::node_client(node, floating)
            } else {
                None
            },
        },
    }
}

/// What the children of a node inherit: the workspace, and whether they float.
/// `None` where Sway keeps the node and all below it to itself.
pub open spec fn inherited(node: JsonView, ws: WmWorkspaceView, floating: bool) -> Option<
    (WmWorkspaceView, bool),
> {
    let kind = node.text_or_empty("type"@);
    if kind == "workspace"@ {
        if is_internal(node) {
            None
        } else {
            Some(
                (
                    WmWorkspaceView {
                        id: node.i64_or_zero("num"@) as i32,
                        name: node.text_or_empty("name"@),
                    },
                    false,
                ),
            )
        }
    } else if kind == "output"@ {
        if is_internal(node) {
            None
        } else {
            Some((ws, false))
        }
    } else if kind == "floating_con"@ {
        Some((ws, true))
    } else {
        Some((ws, floating))
    }
}

/// The window that `node` itself is, placed on the given workspace and output.
pub open spec fn own_window(
    node: JsonView,
    ws: WmWorkspaceView,
    output: i32,
    floating: bool,
) -> Seq<WmClientView> {
    if is_window(node) {
        match types::node_client(node, floating) {
            Some(client) => seq![WmClientView { workspace: ws, monitor_id: output, ..client }],
            None => Seq::empty(),
        }
    } else {
        Seq::empty()
    }
}

/// The windows at and below `node`, in depth-first order, none below the
/// greatest depth.
pub open spec fn windows(
    node: JsonView,
    ws: WmWorkspaceView,
    output: i32,
    floating: bool,
    depth: nat,
) -> Seq<WmClientView>
    decreases MAX_TREE_DEPTH + 1 - depth, 0nat, 0nat,
{
    if depth > MAX_TREE_DEPTH {
        Seq::empty()
    } else {
        match inherited(node, ws, floating) {
            None => Seq::empty(),
            Some((ws, floating)) => own_window(node, ws, output, floating) + windows_among(
                node.elements_at("nodes"@),
                ws,
                output,
                floating,
                depth + 1,
            ) + windows_among(node.elements_at("floating_nodes"@), ws, output, true, depth + 1),
        }
    }
}

/// The windows at and below `nodes`, one node after the other.
pub open spec fn windows_among(
    nodes: Seq<JsonView>,
    ws: WmWorkspaceView,
    output: i32,
    floating: bool,
    depth: nat,
) -> Seq<WmClientView>
    decreases MAX_TREE_DEPTH + 1 - depth, 1nat, nodes.len(),
{
    if nodes.len() == 0 {
        Seq::empty()
    } else {
        windows_among(nodes.drop_last(), ws, output, floating, depth) + windows(
            nodes.last(),
            ws,
            output,
            floating,
            depth,
        )
    }
}

/// `node` is an output that holds windows of the user.
pub open spec fn is_user_output(node: JsonView) -> bool {
    node.text_or_empty("type"@) == "output"@ && !is_internal(node)
}

/// The windows on the first `n` of `nodes`. The outputs are numbered from zero,
/// in order.
pub open spec fn windows_on(nodes: Seq<JsonView>, n: int) -> Seq<WmClientView>
    decreases n,
{
    if n <= 0 {
        Seq::empty()
    } else if is_user_output(nodes[n - 1]) {
        windows_on(nodes, n - 1) + windows(
            nodes[n - 1],
            WmWorkspaceView::empty(),
            user_outputs(nodes, n - 1) as i32,
            false,
            0,
        )
    } else {
        windows_on(nodes, n - 1)
    }
}

/// How many of the first `n` of `nodes` are outputs of the user.
pub open spec fn user_outputs(nodes: Seq<JsonView>, n: int) -> int
    decreases n,
{
    if n <= 0 {
        0
    } else if is_user_output(nodes[n - 1]) {
        user_outputs(nodes, n - 1) + 1
    } else {
        user_outputs(nodes, n - 1)
    }
}

/// The monitors for the active ones of `outputs`, numbered from zero.
pub open spec fn active_monitors(outputs: Seq<JsonView>) -> Seq<WmMonitorView>
    decreases outputs.len(),
{
    if outputs.len() == 0 {
        Seq::empty()
    } else {
        let before = active_monitors(outputs.drop_last());
        if outputs.last().bool_at("active"@) == Some(true) {
            before.push(types::output_monitor(outputs.last(), before.len() as i32))
        } else {
            before
        }
    }
}

/// Whether `node` is a window.
pub fn is_window_node(node: &Json) -> (r: bool)
    ensures
        r == is_window(node@),
{
    node.i64_or_zero("pid") > 0 && (!node.text_or_empty("app_id").as_str().is_empty() || node.get(
        "window_properties",
    ).is_some()) && node.text_is("type", "con")
}

fn has_internal_name(node: &Json) -> (r: bool)
    ensures
        r == is_internal(node@),
{
    text::text_begins_with(node.text_or_empty("name").as_str(), "__")
}

/// Finds the focused window in the tree by recursively searching for
/// the deepest node with `focused: true`.
pub fn find_focused_window(node: &Json) -> (r: Option<WmClient>)
    ensures
        match r {
            Some(c) => focused_window(node@, false) == Some(c@),
            None => focused_window(node@, false) is None,
        },
{
    find_focused_window_inner(node, false)
}

fn find_focused_window_inner(node: &Json, is_floating: bool) -> (r: Option<WmClient>)
    ensures
        match r {
            Some(c) => focused_window(node@, is_floating) == Some(c@),
            None => focused_window(node@, is_floating) is None,
        },
    decreases node@,
{
    let floating = is_floating || node.text_is("type", "floating_con");
    if let Some(nodes) = node.array_at("nodes") {
        let mut i: usize = 0;
        while i < nodes.len()
            invariant
                i <= nodes@.len(),
                node@.elements_at("nodes"@) == json::views(nodes@),
                focused_in(node@, "nodes"@, floating, 0) == focused_in(
                    node@,
                    "nodes"@,
                    floating,
                    i as int,
                ),
                floating == (is_floating || node@.text_or_empty("type"@) == "floating_con"@),
            decreases nodes@.len() - i,
        {
            proof {
                json::lemma_element_is_smaller(node@, "nodes"@, i as int);
            }
            if let Some(found) = find_focused_window_inner(&nodes[i], floating) {
                return Some(found);
            }
            i += 1;
        }
    }
    if let Some(nodes) = node.array_at("floating_nodes") {
        let mut i: usize = 0;
        while i < nodes.len()
            invariant
                i <= nodes@.len(),
                node@.elements_at("floating_nodes"@) == json::views(nodes@),
                focused_in(node@, "nodes"@, floating, 0) is None,
                focused_in(node@, "floating_nodes"@, true, 0) == focused_in(
                    node@,
                    "floating_nodes"@,
                    true,
                    i as int,
                ),
                floating == (is_floating || node@.text_or_empty("type"@) == "floating_con"@),
            decreases nodes@.len() - i,
        {
            proof {
                json::lemma_element_is_smaller(node@, "floating_nodes"@, i as int);
            }
            if let Some(found) = find_focused_window_inner(&nodes[i], true) {
                return Some(found);
            }
            i += 1;
        }
    }
    if node.bool_at("focused") == Some(true) && is_window_node(node) {
        types::node_to_wm_client(node, floating)
    } else {
        None
    }
}

/// Collects windows with proper workspace information by traversing
/// the tree depth-first, tracking the current workspace and output context.
pub fn collect_windows_with_context(
    node: &Json,
    found: &mut Vec<WmClient>,
    current_workspace: &WmWorkspace,
    current_output: i32,
    is_floating: bool,
)
    ensures
        model::clients(final(found)@) == model::clients(old(found)@) + windows(
            node@,
            current_workspace@,
            current_output,
            is_floating,
            0,
        ),
{
    collect_windows_recursive(node, found, current_workspace, current_output, is_floating, 0);
}

fn collect_windows_recursive(
    node: &Json,
    found: &mut Vec<WmClient>,
    current_workspace: &WmWorkspace,
    current_output: i32,
    is_floating: bool,
    depth: u32,
)
    requires
        depth <= MAX_TREE_DEPTH + 1,
    ensures
        model::clients(final(found)@) == model::clients(old(found)@) + windows(
            node@,
            current_workspace@,
            current_output,
            is_floating,
            depth as nat,
        ),
    decreases MAX_TREE_DEPTH + 1 - depth, 2nat,
{
    if depth > MAX_TREE_DEPTH {
        return;
    }
    proof {
        reveal_strlit("workspace");
        reveal_strlit("output");
        reveal_strlit("floating_con");
        reveal_strlit("con");
        assert("workspace"@.len() != "con"@.len());
        assert("output"@.len() != "con"@.len());
        assert("floating_con"@.len() != "con"@.len());
    }
    if node.text_is("type", "workspace") {
        if has_internal_name(node) {
            return;
        }
        let ws = WmWorkspace {
            id: node.i64_or_zero("num") as i32,
            name: node.text_or_empty("name"),
        };
        recurse_children(node, found, &ws, current_output, false, depth);
        return;
    }
    if node.text_is("type", "output") {
        if has_internal_name(node) {
            return;
        }
        recurse_children(node, found, current_workspace, current_output, false, depth);
        return;
    }
    if node.text_is("type", "floating_con") {
        recurse_children(node, found, current_workspace, current_output, true, depth);
        return;
    }
    if is_window_node(node) {
        if let Some(client) = types::node_to_wm_client(node, is_floating) {
            let placed = client.with_workspace(current_workspace.clone()).with_monitor_id(
                current_output,
            );
            found.push(placed);
        }
    }
    assert(model::clients(found@) == model::clients(old(found)@) + own_window(
        node@,
        current_workspace@,
        current_output,
        is_floating,
    ));
    recurse_children(node, found, current_workspace, current_output, is_floating, depth);
}

fn recurse_children(
    node: &Json,
    found: &mut Vec<WmClient>,
    ws: &WmWorkspace,
    output: i32,
    is_floating: bool,
    depth: u32,
)
    requires
        depth <= MAX_TREE_DEPTH,
    ensures
        model::clients(final(found)@) == model::clients(old(found)@) + windows_among(
            node@.elements_at("nodes"@),
            ws@,
            output,
            is_floating,
            depth as nat + 1,
        ) + windows_among(
            node@.elements_at("floating_nodes"@),
            ws@,
            output,
            true,
            depth as nat + 1,
        ),
    decreases MAX_TREE_DEPTH + 1 - depth, 1nat,
{
    if let Some(nodes) = node.array_at("nodes") {
        collect_among(nodes, found, ws, output, is_floating, depth + 1);
    }
    if let Some(nodes) = node.array_at("floating_nodes") {
        // Children of floating_nodes are floating.
        collect_among(nodes, found, ws, output, true, depth + 1);
    }
}

fn collect_among(
    nodes: &Vec<Json>,
    found: &mut Vec<WmClient>,
    ws: &WmWorkspace,
    output: i32,
    is_floating: bool,
    depth: u32,
)
    requires
        depth <= MAX_TREE_DEPTH + 1,
    ensures
        model::clients(final(found)@) == model::clients(old(found)@) + windows_among(
            json::views(nodes@),
            ws@,
            output,
            is_floating,
            depth as nat,
        ),
    decreases MAX_TREE_DEPTH + 1 - depth, 3nat,
{
    let ghost start = model::clients(found@);
    let ghost elements = json::views(nodes@);
    let mut i: usize = 0;
    while i < nodes.len()
        invariant
            i <= nodes@.len(),
            depth <= MAX_TREE_DEPTH + 1,
            elements == json::views(nodes@),
            model::clients(found@) == start + windows_among(
                elements.take(i as int),
                ws@,
                output,
                is_floating,
                depth as nat,
            ),
        decreases nodes@.len() - i,
    {
        assert(elements.take(i as int + 1).drop_last() == elements.take(i as int));
        collect_windows_recursive(&nodes[i], found, ws, output, is_floating, depth);
        i += 1;
    }
    assert(elements.take(i as int) == elements);
}

/// Collects all client windows from the tree root.
pub fn collect_clients_from_tree(tree: &Json) -> (r: Vec<WmClient>)
    ensures
        model::clients(r@) == windows_on(
            tree@.elements_at("nodes"@),
            tree@.elements_at("nodes"@).len() as int,
        ),
{
    let mut found: Vec<WmClient> = Vec::new();
    let default_ws = WmWorkspace::default();
    let ghost elements = tree@.elements_at("nodes"@);
    if let Some(nodes) = tree.array_at("nodes") {
        let mut outputs: usize = 0;
        let mut i: usize = 0;
        while i < nodes.len()
            invariant
                i <= nodes@.len(),
                elements == json::views(nodes@),
                outputs == user_outputs(elements, i as int),
                outputs <= i,
                default_ws@ == WmWorkspaceView::empty(),
                model::clients(found@) == windows_on(elements, i as int),
            decreases nodes@.len() - i,
        {
            let child = &nodes[i];
            if child.text_is("type", "output") && !has_internal_name(child) {
                collect_windows_with_context(child, &mut found, &default_ws, outputs as i32, false);
                outputs += 1;
            }
            i += 1;
        }
    }
    found
}

/// Turns Sway's list of outputs into a monitor list, active ones only.
pub fn monitors_from_outputs(outputs: &Vec<Json>) -> (r: Vec<WmMonitor>)
    ensures
        model::monitors(r@) == active_monitors(json::views(outputs@)),
{
    let ghost all = json::views(outputs@);
    let mut out: Vec<WmMonitor> = Vec::new();
    let mut i: usize = 0;
    while i < outputs.len()
        invariant
            i <= outputs@.len(),
            all == json::views(outputs@),
            model::monitors(out@) == active_monitors(all.take(i as int)),
            out@.len() <= i,
        decreases outputs@.len() - i,
    {
        assert(all.take(i as int + 1).drop_last() == all.take(i as int));
        if outputs[i].bool_at("active") == Some(true) {
            let monitor = types::output_to_wm_monitor(&outputs[i], out.len() as i32);
            out.push(monitor);
        }
        i += 1;
    }
    assert(all.take(i as int) == all);
    out
}

/// Parses Sway outputs list into monitor list, filtering active only. A reply
/// that is no JSON array is an error.
pub fn parse_monitors(reply: &[u8]) -> (r: Result<Vec<WmMonitor>, DockError>)
    ensures
        match (r, json::json_text(reply@)) {
            (Ok(monitors), Some(JsonView::Array(outputs))) => model::monitors(monitors@)
                == active_monitors(outputs),
            (Err(DockError::Json(_)), Some(JsonView::Array(_))) => false,
            (Err(DockError::Json(_)), _) => true,
            _ => false,
        },
{
    match json::parse_json_array(reply) {
        Ok(outputs) => Ok(monitors_from_outputs(&outputs)),
        Err(e) => Err(DockError::Json(e)),
    }
}

/// All of the windows are on the output.
pub open spec fn all_on(found: Seq<WmClientView>, output: i32) -> bool {
    forall|i: int| 0 <= i < found.len() ==> (#[trigger] found[i]).monitor_id == output
}

proof fn lemma_all_on_both(a: Seq<WmClientView>, b: Seq<WmClientView>, output: i32)
    requires
        all_on(a, output),
        all_on(b, output),
    ensures
        all_on(a + b, output),
{
    assert forall|i: int| 0 <= i < (a + b).len() implies (#[trigger] (a + b)[i]).monitor_id
        == output by {
        if i < a.len() {
            assert((a + b)[i] == a[i]);
        } else {
            assert((a + b)[i] == b[i - a.len()]);
        }
    }
}

/// Every window that is collected for an output carries the number of that
/// output.
pub proof fn windows_are_on_their_output(
    node: JsonView,
    ws: WmWorkspaceView,
    output: i32,
    floating: bool,
    depth: nat,
)
    ensures
        all_on(windows(node, ws, output, floating, depth), output),
    decreases MAX_TREE_DEPTH + 1 - depth, 0nat, 0nat,
{
    if depth <= MAX_TREE_DEPTH {
        if let Some((ws, floating)) = inherited(node, ws, floating) {
            let own = own_window(node, ws, output, floating);
            let tiled = windows_among(
                node.elements_at("nodes"@),
                ws,
                output,
                floating,
                depth + 1,
            );
            let floats = windows_among(
                node.elements_at("floating_nodes"@),
                ws,
                output,
                true,
                depth + 1,
            );
            lemma_windows_among_output(
                node.elements_at("nodes"@),
                ws,
                output,
                floating,
                depth + 1,
            );
            lemma_windows_among_output(
                node.elements_at("floating_nodes"@),
                ws,
                output,
                true,
                depth + 1,
            );
            lemma_all_on_both(own, tiled, output);
            lemma_all_on_both(own + tiled, floats, output);
        }
    }
}

proof fn lemma_windows_among_output(
    nodes: Seq<JsonView>,
    ws: WmWorkspaceView,
    output: i32,
    floating: bool,
    depth: nat,
)
    ensures
        all_on(windows_among(nodes, ws, output, floating, depth), output),
    decreases MAX_TREE_DEPTH + 1 - depth, 1nat, nodes.len(),
{
    if nodes.len() > 0 {
        lemma_windows_among_output(nodes.drop_last(), ws, output, floating, depth);
        windows_are_on_their_output(nodes.last(), ws, output, floating, depth);
        lemma_all_on_both(
            windows_among(nodes.drop_last(), ws, output, floating, depth),
            windows(nodes.last(), ws, output, floating, depth),
            output,
        );
    }
}

/// Monitors are numbered from zero, in the order of their outputs.
pub proof fn monitors_are_numbered_in_order(outputs: Seq<JsonView>)
    ensures
        active_monitors(outputs).len() <= outputs.len(),
        forall|i: int|
            0 <= i < active_monitors(outputs).len() ==> (#[trigger] active_monitors(outputs)[i]).id
                == i as i32,
    decreases outputs.len(),
{
    if outputs.len() > 0 {
        monitors_are_numbered_in_order(outputs.drop_last());
    }
}

/// All of the windows are on outputs with a number below `bound`.
pub open spec fn all_below(found: Seq<WmClientView>, bound: int) -> bool {
    forall|i: int|
        0 <= i < found.len() ==> 0 <= (#[trigger] found[i]).monitor_id && found[i].monitor_id
            < bound
}

proof fn lemma_windows_on_numbers(nodes: Seq<JsonView>, n: int)
    requires
        0 <= n <= nodes.len(),
        user_outputs(nodes, n) <= i32::MAX,
    ensures
        all_below(windows_on(nodes, n), user_outputs(nodes, n)),
    decreases n,
{
    if n > 0 {
        lemma_user_outputs(nodes, n - 1);
        lemma_windows_on_numbers(nodes, n - 1);
        let node = nodes[n - 1];
        if is_user_output(node) {
            let number = user_outputs(nodes, n - 1) as i32;
            let before = windows_on(nodes, n - 1);
            let here = windows(node, WmWorkspaceView::empty(), number, false, 0);
            windows_are_on_their_output(node, WmWorkspaceView::empty(), number, false, 0);
            let all = before + here;
            assert forall|i: int| 0 <= i < all.len() implies 0 <= (#[trigger] all[i]).monitor_id
                && all[i].monitor_id < user_outputs(nodes, n) by {
                if i < before.len() {
                    assert(all[i] == before[i]);
                } else {
                    assert(all[i] == here[i - before.len()]);
                }
            }
            assert(windows_on(nodes, n) == all);
        }
    }
}

proof fn lemma_user_outputs(nodes: Seq<JsonView>, n: int)
    ensures
        0 <= user_outputs(nodes, n) <= user_outputs(nodes, n + 1),
    decreases n,
{
    if n > 0 {
        lemma_user_outputs(nodes, n - 1);
    }
}

/// The monitor of every window is one of the monitors, where the tree has as
/// many outputs as there are active ones.
pub proof fn windows_are_on_a_monitor(nodes: Seq<JsonView>, outputs: Seq<JsonView>, i: int)
    requires
        user_outputs(nodes, nodes.len() as int) == active_monitors(outputs).len(),
        active_monitors(outputs).len() <= i32::MAX,
        0 <= i < windows_on(nodes, nodes.len() as int).len(),
    ensures
        exists|k: int|
            0 <= k < active_monitors(outputs).len() && (#[trigger] active_monitors(outputs)[k]).id
                == windows_on(nodes, nodes.len() as int)[i].monitor_id,
{
    lemma_windows_on_numbers(nodes, nodes.len() as int);
    monitors_are_numbered_in_order(outputs);
    let k = windows_on(nodes, nodes.len() as int)[i].monitor_id as int;
    assert(active_monitors(outputs)[k].id == k);
}

/// Nothing below a workspace or an output that Sway keeps to itself is
/// collected, such as what is on the scratchpad.
pub proof fn internal_nodes_are_skipped(
    node: JsonView,
    ws: WmWorkspaceView,
    output: i32,
    floating: bool,
    depth: nat,
)
    requires
        is_internal(node),
        node.text_or_empty("type"@) == "workspace"@ || node.text_or_empty("type"@) == "output"@,
    ensures
        windows(node, ws, output, floating, depth) == Seq::<WmClientView>::empty(),
{
}

/// One step down the tree: to one of the tiled children, or of the floating ones.
pub struct Step {
    pub floating: bool,
    pub index: int,
}

/// The children that steps of one kind lead to.
pub open spec fn children(node: JsonView, floating: bool) -> Seq<JsonView> {
    if floating {
        node.elements_at("floating_nodes"@)
    } else {
        node.elements_at("nodes"@)
    }
}

/// There are nodes all along `path`, which begins at `node`.
pub open spec fn leads(node: JsonView, path: Seq<Step>) -> bool
    decreases path.len(),
{
    if path.len() == 0 {
        true
    } else {
        &&& 0 <= path[0].index < children(node, path[0].floating).len()
        &&& leads(children(node, path[0].floating)[path[0].index], path.skip(1))
    }
}

/// The node at the end of `path`, which begins at `node`.
pub open spec fn node_at(node: JsonView, path: Seq<Step>) -> JsonView
    decreases path.len(),
{
    if path.len() == 0 {
        node
    } else {
        node_at(children(node, path[0].floating)[path[0].index], path.skip(1))
    }
}

/// The node after the first `k` steps of `path`.
pub open spec fn on_the_way(node: JsonView, path: Seq<Step>, k: int) -> JsonView {
    node_at(node, path.take(k))
}

/// The `type` of a node.
pub open spec fn kind(node: JsonView) -> Seq<char> {
    node.text_or_empty("type"@)
}

/// `node` is a workspace or an output with a name that begins with two
/// underscores.
pub open spec fn is_kept_by_sway(node: JsonView) -> bool {
    let name = node.text_or_empty("name"@);
    (kind(node) == "workspace"@ || kind(node) == "output"@) && name.len() >= 2 && name[0] == '_'
        && name[1] == '_'
}

/// `node` is a container with an id, a process and a class or window properties.
pub open spec fn shows_window(node: JsonView) -> bool {
    &&& kind(node) == "con"@
    &&& node.i64_at("id"@) is Some
    &&& node.i64_or_zero("pid"@) > 0
    &&& node.text_or_empty("app_id"@).len() > 0 || node.get("window_properties"@) is Some
}

/// A window is to be found at the end of `path`, no deeper than the greatest
/// depth, and nothing on the way there is kept by Sway to itself.
pub open spec fn is_listed_at(node: JsonView, path: Seq<Step>, depth: nat) -> bool {
    &&& leads(node, path)
    &&& depth + path.len() <= 128
    &&& forall|k: int|
        0 <= k <= path.len() ==> !is_kept_by_sway(#[trigger] on_the_way(node, path, k))
    &&& shows_window(node_at(node, path))
}

/// What `client` tells of itself is what the fields of `node` hold.
pub open spec fn is_of_window(client: WmClientView, node: JsonView) -> bool {
    &&& node.i64_at("id"@) is Some
    &&& client.id == number::int_text(node.i64_at("id"@)->0 as int)
    &&& node.text_or_empty("app_id"@).len() > 0 ==> client.class == node.text_or_empty("app_id"@)
    &&& node.text_or_empty("app_id"@).len() == 0 && node.get("window_properties"@) is Some
        ==> client.class == node.get("window_properties"@)->0.text_or_empty("class"@)
    &&& client.initial_class.len() == 0
    &&& client.title == node.text_or_empty("name"@)
    &&& client.pid == node.i64_or_zero("pid"@) as i32
    &&& client.fullscreen <==> node.i64_or_zero("fullscreen_mode"@) > 0
}

/// `workspace` is the last workspace on the way along `path`, or the one given
/// where there is none.
pub open spec fn is_last_workspace(
    workspace: WmWorkspaceView,
    node: JsonView,
    path: Seq<Step>,
    given: WmWorkspaceView,
) -> bool {
    &&& (forall|k: int|
        0 <= k <= path.len() ==> kind(#[trigger] on_the_way(node, path, k)) != "workspace"@)
        ==> workspace == given
    &&& forall|k: int| #[trigger] is_last_workspace_at(node, path, k) ==> workspace.id
        == on_the_way(node, path, k).i64_or_zero("num"@) as i32 && workspace.name == on_the_way(
        node,
        path,
        k,
    ).text_or_empty("name"@)
}

/// The node after `k` steps is a workspace, and none behind it is.
pub open spec fn is_last_workspace_at(node: JsonView, path: Seq<Step>, k: int) -> bool {
    &&& 0 <= k <= path.len()
    &&& kind(on_the_way(node, path, k)) == "workspace"@
    &&& forall|l: int|
        k < l <= path.len() ==> kind(#[trigger] on_the_way(node, path, l)) != "workspace"@
}

/// What the first `k` steps lead to floats: by the step, as a floating container,
/// or as given.
pub open spec fn floats_from(node: JsonView, path: Seq<Step>, k: int, given: bool) -> bool {
    ||| k == 0 && given
    ||| k > 0 && path[k - 1].floating
    ||| kind(on_the_way(node, path, k)) == "floating_con"@
}

/// Something on the way along `path` floats, and behind it comes no workspace or
/// output.
pub open spec fn floats(node: JsonView, path: Seq<Step>, given: bool) -> bool {
    exists|k: int|
        0 <= k <= path.len() && #[trigger] floats_from(node, path, k, given)
            && has_no_place_between(node, path, k)
}

/// From the node after `k` steps to the last but one there is no workspace and no
/// output.
pub open spec fn has_no_place_between(node: JsonView, path: Seq<Step>, k: int) -> bool {
    forall|j: int|
        k <= j < path.len() ==> kind(#[trigger] on_the_way(node, path, j)) != "workspace"@ && kind(
            on_the_way(node, path, j),
        ) != "output"@
}

/// `client` is the window at the end of `path`, with the workspace and the output
/// that it is on.
pub open spec fn describes(
    client: WmClientView,
    node: JsonView,
    path: Seq<Step>,
    ws: WmWorkspaceView,
    output: i32,
    floating: bool,
    depth: nat,
) -> bool {
    &&& is_listed_at(node, path, depth)
    &&& is_of_window(client, node_at(node, path))
    &&& is_last_workspace(client.workspace, node, path, ws)
    &&& client.floating == floats(node, path, floating)
    &&& client.monitor_id == output
}

/// The step `a` comes before the step `b`: tiled children come first, each kind in
/// its order.
pub open spec fn steps_before(a: Step, b: Step) -> bool {
    (!a.floating && b.floating) || (a.floating == b.floating && a.index < b.index)
}

/// The paths `a` and `b` are the same for `k` steps, and there `a` ends, or goes
/// to an earlier child.
pub open spec fn parts_before(a: Seq<Step>, b: Seq<Step>, k: int) -> bool {
    &&& 0 <= k <= a.len()
    &&& k < b.len()
    &&& a.take(k) == b.take(k)
    &&& k == a.len() || steps_before(a[k], b[k])
}

/// The path `a` comes before the path `b` where the tree is walked depth first.
pub open spec fn precedes(a: Seq<Step>, b: Seq<Step>) -> bool {
    exists|k: int| #[trigger] parts_before(a, b, k)
}

/// Each path comes before all that follow it.
pub open spec fn in_tree_order(paths: Seq<Seq<Step>>) -> bool {
    forall|i: int, j: int|
        0 <= i < j < paths.len() ==> #[trigger] precedes(paths[i], paths[j])
}

proof fn lemma_after_a_step(node: JsonView, path: Seq<Step>, k: int)
    requires
        0 < k <= path.len(),
    ensures
        on_the_way(node, path, k) == on_the_way(
            children(node, path[0].floating)[path[0].index],
            path.skip(1),
            k - 1,
        ),
{
    assert(path.take(k).skip(1) == path.skip(1).take(k - 1));
    assert(path.take(k)[0] == path[0]);
}

proof fn lemma_way_from_the_child(node: JsonView, path: Seq<Step>)
    requires
        path.len() > 0,
    ensures
        on_the_way(node, path, 0) == node,
        forall|k: int|
            0 <= k < path.len() ==> #[trigger] on_the_way(
                children(node, path[0].floating)[path[0].index],
                path.skip(1),
                k,
            ) == on_the_way(node, path, k + 1),
        forall|k: int|
            0 < k <= path.len() ==> #[trigger] on_the_way(node, path, k) == on_the_way(
                children(node, path[0].floating)[path[0].index],
                path.skip(1),
                k - 1,
            ),
{
    let child = children(node, path[0].floating)[path[0].index];
    assert(path.take(0).len() == 0);
    assert forall|k: int| 0 <= k < path.len() implies #[trigger] on_the_way(child, path.skip(1), k)
        == on_the_way(node, path, k + 1) by {
        lemma_after_a_step(node, path, k + 1);
    }
    assert forall|k: int| 0 < k <= path.len() implies #[trigger] on_the_way(node, path, k)
        == on_the_way(child, path.skip(1), k - 1) by {
        lemma_after_a_step(node, path, k);
    }
}

proof fn lemma_kept_by_sway(node: JsonView, ws: WmWorkspaceView, floating: bool)
    ensures
        is_kept_by_sway(node) <==> inherited(node, ws, floating) is None,
        is_window(node) && node.i64_at("id"@) is Some <==> shows_window(node),
{
    reveal_strlit("__");
    let name = node.text_or_empty("name"@);
    if name.len() >= 2 {
        assert(name.take(2)[0] == name[0] && name.take(2)[1] == name[1]);
        if name[0] == '_' && name[1] == '_' {
            assert(name.take(2) == "__"@);
        }
    }
}

proof fn lemma_listed_from_the_child(
    node: JsonView,
    path: Seq<Step>,
    ws: WmWorkspaceView,
    floating: bool,
    depth: nat,
)
    requires
        path.len() > 0,
    ensures
        is_listed_at(node, path, depth) <==> {
            &&& inherited(node, ws, floating) is Some
            &&& 0 <= path[0].index < children(node, path[0].floating).len()
            &&& is_listed_at(
                children(node, path[0].floating)[path[0].index],
                path.skip(1),
                depth + 1,
            )
        },
{
    let child = children(node, path[0].floating)[path[0].index];
    lemma_way_from_the_child(node, path);
    lemma_kept_by_sway(node, ws, floating);
    if is_listed_at(node, path, depth) {
        assert(!is_kept_by_sway(on_the_way(node, path, 0)));
        assert forall|k: int| 0 <= k <= path.skip(1).len() implies !is_kept_by_sway(
            #[trigger] on_the_way(child, path.skip(1), k),
        ) by {
            assert(!is_kept_by_sway(on_the_way(node, path, k + 1)));
        }
    }
}

proof fn lemma_workspace_from_the_child(
    workspace: WmWorkspaceView,
    node: JsonView,
    path: Seq<Step>,
    ws: WmWorkspaceView,
    floating: bool,
)
    requires
        path.len() > 0,
        inherited(node, ws, floating) matches Some(next) && is_last_workspace(
            workspace,
            children(node, path[0].floating)[path[0].index],
            path.skip(1),
            next.0,
        ),
    ensures
        is_last_workspace(workspace, node, path, ws),
{
    let child = children(node, path[0].floating)[path[0].index];
    let rest = path.skip(1);
    lemma_way_from_the_child(node, path);
    reveal_strlit("workspace");
    reveal_strlit("output");
    reveal_strlit("floating_con");
    if forall|k: int|
        0 <= k <= path.len() ==> kind(#[trigger] on_the_way(node, path, k)) != "workspace"@ {
        assert(kind(on_the_way(node, path, 0)) != "workspace"@);
        assert forall|k: int| 0 <= k <= rest.len() implies kind(
            #[trigger] on_the_way(child, rest, k),
        ) != "workspace"@ by {
            assert(kind(on_the_way(node, path, k + 1)) != "workspace"@);
        }
    }
    assert forall|k: int| #[trigger] is_last_workspace_at(node, path, k) implies workspace.id
        == on_the_way(node, path, k).i64_or_zero("num"@) as i32 && workspace.name == on_the_way(
        node,
        path,
        k,
    ).text_or_empty("name"@) by {
        assert forall|l: int| k - 1 < l <= rest.len() && 0 <= l implies kind(
            #[trigger] on_the_way(child, rest, l),
        ) != "workspace"@ by {
            assert(kind(on_the_way(node, path, l + 1)) != "workspace"@);
        }
        if k > 0 {
            assert(is_last_workspace_at(child, rest, k - 1));
        }
    }
}

proof fn lemma_floating_from_the_child(
    node: JsonView,
    path: Seq<Step>,
    ws: WmWorkspaceView,
    floating: bool,
)
    requires
        path.len() > 0,
        inherited(node, ws, floating) is Some,
    ensures
        inherited(node, ws, floating) matches Some(next) && floats(node, path, floating)
            == floats(
            children(node, path[0].floating)[path[0].index],
            path.skip(1),
            path[0].floating || next.1,
        ),
{
    let child = children(node, path[0].floating)[path[0].index];
    let rest = path.skip(1);
    let next = inherited(node, ws, floating)->0;
    let given = path[0].floating || next.1;
    lemma_way_from_the_child(node, path);
    reveal_strlit("workspace");
    reveal_strlit("output");
    reveal_strlit("floating_con");
    if floats(node, path, floating) {
        let k = choose|k: int|
            0 <= k <= path.len() && #[trigger] floats_from(node, path, k, floating)
                && has_no_place_between(node, path, k);
        let m = if k == 0 {
            0
        } else {
            k - 1
        };
        assert forall|j: int| m <= j < rest.len() implies kind(
            #[trigger] on_the_way(child, rest, j),
        ) != "workspace"@ && kind(on_the_way(child, rest, j)) != "output"@ by {
            assert(kind(on_the_way(node, path, j + 1)) != "workspace"@);
        }
        if k == 0 {
            assert(kind(on_the_way(node, path, 0)) != "workspace"@);
        }
        assert(floats_from(child, rest, m, given));
    }
    if floats(child, rest, given) {
        let m = choose|k: int|
            0 <= k <= rest.len() && #[trigger] floats_from(child, rest, k, given)
                && has_no_place_between(child, rest, k);
        let k = if m == 0 && !path[0].floating && kind(child) != "floating_con"@ {
            0
        } else {
            m + 1
        };
        assert(rest.take(0).len() == 0);
        assert(on_the_way(child, rest, 0) == child);
        assert forall|j: int| k <= j < path.len() implies kind(
            #[trigger] on_the_way(node, path, j),
        ) != "workspace"@ && kind(on_the_way(node, path, j)) != "output"@ by {
            if j > 0 {
                assert(kind(on_the_way(child, rest, j - 1)) != "workspace"@);
            }
        }
        assert(floats_from(node, path, k, floating));
    }
}

proof fn lemma_described_from_the_child(
    client: WmClientView,
    node: JsonView,
    path: Seq<Step>,
    ws: WmWorkspaceView,
    output: i32,
    floating: bool,
    depth: nat,
)
    requires
        path.len() > 0,
        0 <= path[0].index < children(node, path[0].floating).len(),
        inherited(node, ws, floating) matches Some(next) && describes(
            client,
            children(node, path[0].floating)[path[0].index],
            path.skip(1),
            next.0,
            output,
            path[0].floating || next.1,
            depth + 1,
        ),
    ensures
        describes(client, node, path, ws, output, floating, depth),
{
    lemma_listed_from_the_child(node, path, ws, floating, depth);
    lemma_workspace_from_the_child(client.workspace, node, path, ws, floating);
    lemma_floating_from_the_child(node, path, ws, floating);
}

proof fn lemma_own_window(
    node: JsonView,
    ws: WmWorkspaceView,
    output: i32,
    floating: bool,
    depth: nat,
)
    requires
        depth <= MAX_TREE_DEPTH,
    ensures
        inherited(node, ws, floating) matches Some(next) ==> {
            let own = own_window(node, next.0, output, next.1);
            &&& own.len() <= 1
            &&& own.len() == 1 <==> is_listed_at(node, Seq::empty(), depth)
            &&& own.len() == 1 ==> describes(
                own[0],
                node,
                Seq::empty(),
                ws,
                output,
                floating,
                depth,
            )
        },
        inherited(node, ws, floating) is None ==> !is_listed_at(node, Seq::empty(), depth),
{
    let path = Seq::<Step>::empty();
    assert(path.take(0) == path);
    assert(on_the_way(node, path, 0) == node);
    lemma_kept_by_sway(node, ws, floating);
    reveal_strlit("workspace");
    reveal_strlit("output");
    reveal_strlit("floating_con");
    reveal_strlit("con");
    assert("workspace"@.len() != "con"@.len());
    assert("output"@.len() != "con"@.len());
    assert("floating_con"@.len() != "con"@.len());
    if let Some(next) = inherited(node, ws, floating) {
        if shows_window(node) {
            let own = own_window(node, next.0, output, next.1);
            assert(own.len() == 1);
            assert(is_listed_at(node, path, depth));
            assert(is_of_window(own[0], node));
            assert(kind(on_the_way(node, path, 0)) != "workspace"@);
            assert forall|k: int| #[trigger] is_last_workspace_at(node, path, k) implies false by {
                assert(k == 0);
            }
            assert(is_last_workspace(own[0].workspace, node, path, ws));
            assert(has_no_place_between(node, path, 0));
            assert(floats_from(node, path, 0, floating) == floating);
            if floats(node, path, floating) {
                let k = choose|k: int|
                    0 <= k <= path.len() && #[trigger] floats_from(node, path, k, floating)
                        && has_no_place_between(node, path, k);
                assert(k == 0);
            }
            assert(own[0].floating == floats(node, path, floating));
        }
    }
}

/// `path` begins at one of `nodes`, which steps of the kind `by` lead to.
pub open spec fn starts_among(nodes: Seq<JsonView>, by: bool, path: Seq<Step>) -> bool {
    path.len() > 0 && path[0].floating == by && 0 <= path[0].index < nodes.len()
}

proof fn lemma_places_among(
    nodes: Seq<JsonView>,
    by: bool,
    ws: WmWorkspaceView,
    output: i32,
    floating: bool,
    depth: nat,
) -> (paths: Seq<Seq<Step>>)
    ensures
        paths.len() == windows_among(nodes, ws, output, floating, depth).len(),
        forall|i: int|
            0 <= i < paths.len() ==> starts_among(nodes, by, #[trigger] paths[i]) && describes(
                windows_among(nodes, ws, output, floating, depth)[i],
                nodes[paths[i][0].index],
                paths[i].skip(1),
                ws,
                output,
                floating,
                depth,
            ),
        forall|path: Seq<Step>| #[trigger]
            starts_among(nodes, by, path) && is_listed_at(
                nodes[path[0].index],
                path.skip(1),
                depth,
            ) ==> paths.contains(path),
        in_tree_order(paths),
    decreases MAX_TREE_DEPTH + 1 - depth, 1nat, nodes.len(),
{
    if nodes.len() == 0 {
        Seq::empty()
    } else {
        let fewer = nodes.drop_last();
        let n = nodes.len() - 1;
        let before = lemma_places_among(fewer, by, ws, output, floating, depth);
        let here = windows_have_their_places(nodes.last(), ws, output, floating, depth);
        let step = Step { floating: by, index: n };
        let below = here.map_values(|path: Seq<Step>| seq![step] + path);
        let paths = before + below;
        let all = windows_among(nodes, ws, output, floating, depth);
        let first = windows_among(fewer, ws, output, floating, depth);
        assert forall|i: int| 0 <= i < paths.len() implies starts_among(
            nodes,
            by,
            #[trigger] paths[i],
        ) && describes(
            all[i],
            nodes[paths[i][0].index],
            paths[i].skip(1),
            ws,
            output,
            floating,
            depth,
        ) by {
            if i < before.len() {
                assert(paths[i] == before[i]);
                assert(starts_among(fewer, by, before[i]));
            } else {
                let k = i - before.len();
                assert(paths[i] == seq![step] + here[k]);
                assert(paths[i].skip(1) == here[k]);
                assert(all[i] == windows(nodes.last(), ws, output, floating, depth)[k]);
            }
        }
        assert forall|path: Seq<Step>| #[trigger] starts_among(nodes, by, path) && is_listed_at(
            nodes[path[0].index],
            path.skip(1),
            depth,
        ) implies paths.contains(path) by {
            if path[0].index < n {
                assert(starts_among(fewer, by, path));
                let k = choose|k: int| 0 <= k < before.len() && before[k] == path;
                assert(paths[k] == path);
            } else {
                assert(here.contains(path.skip(1)));
                let k = choose|k: int| 0 <= k < here.len() && here[k] == path.skip(1);
                assert(path == seq![step] + here[k]);
                assert(paths[before.len() + k] == path);
            }
        }
        assert forall|i: int, j: int| 0 <= i < j < paths.len() implies #[trigger] precedes(
            paths[i],
            paths[j],
        ) by {
            if j < before.len() {
                assert(paths[i] == before[i] && paths[j] == before[j]);
                assert(precedes(before[i], before[j]));
            } else if i < before.len() {
                assert(paths[i] == before[i]);
                assert(starts_among(fewer, by, before[i]));
                assert(paths[j] == seq![step] + here[j - before.len()]);
                lemma_first_steps_differ(paths[i], paths[j]);
            } else {
                let a = here[i - before.len()];
                let b = here[j - before.len()];
                assert(paths[i] == seq![step] + a && paths[j] == seq![step] + b);
                assert(precedes(a, b));
                lemma_same_first_step(step, a, b);
            }
        }
        paths
    }
}

proof fn lemma_first_steps_differ(a: Seq<Step>, b: Seq<Step>)
    requires
        b.len() > 0,
        a.len() > 0 ==> steps_before(a[0], b[0]),
    ensures
        precedes(a, b),
{
    assert(a.take(0) == b.take(0));
    assert(parts_before(a, b, 0));
}

proof fn lemma_same_first_step(step: Step, a: Seq<Step>, b: Seq<Step>)
    requires
        precedes(a, b),
    ensures
        precedes(seq![step] + a, seq![step] + b),
{
    let k = choose|k: int| #[trigger] parts_before(a, b, k);
    let longer_a = seq![step] + a;
    let longer_b = seq![step] + b;
    assert(longer_a.take(k + 1) == seq![step] + a.take(k));
    assert(longer_b.take(k + 1) == seq![step] + b.take(k));
    assert(parts_before(longer_a, longer_b, k + 1));
}

/// The windows at and below a node are those at the places where one is to be
/// found: each of them once, in the order of the tree, on the last workspace on
/// the way to it, on the given output, and floating where something on the way
/// floats on that workspace. The result tells the place of each.
pub proof fn windows_have_their_places(
    node: JsonView,
    ws: WmWorkspaceView,
    output: i32,
    floating: bool,
    depth: nat,
) -> (paths: Seq<Seq<Step>>)
    ensures
        paths.len() == windows(node, ws, output, floating, depth).len(),
        forall|i: int|
            0 <= i < paths.len() ==> describes(
                windows(node, ws, output, floating, depth)[i],
                node,
                #[trigger] paths[i],
                ws,
                output,
                floating,
                depth,
            ),
        forall|path: Seq<Step>| #[trigger]
            is_listed_at(node, path, depth) ==> paths.contains(path),
        in_tree_order(paths),
    decreases MAX_TREE_DEPTH + 1 - depth, 0nat, 0nat,
{
    if depth > MAX_TREE_DEPTH {
        Seq::empty()
    } else if inherited(node, ws, floating) is None {
        lemma_kept_by_sway(node, ws, floating);
        assert forall|path: Seq<Step>| #[trigger] is_listed_at(node, path, depth) implies false by {
            assert(path.take(0).len() == 0);
            assert(on_the_way(node, path, 0) == node);
        }
        Seq::empty()
    } else {
        let next = inherited(node, ws, floating)->0;
        let own = own_window(node, next.0, output, next.1);
        lemma_own_window(node, ws, output, floating, depth);
        let mine: Seq<Seq<Step>> = if own.len() == 1 {
            seq![Seq::empty()]
        } else {
            Seq::empty()
        };
        let tiled = lemma_places_among(
            children(node, false),
            false,
            next.0,
            output,
            next.1,
            depth + 1,
        );
        let above = lemma_places_among(
            children(node, true),
            true,
            next.0,
            output,
            true,
            depth + 1,
        );
        let tiled_windows = windows_among(
            children(node, false),
            next.0,
            output,
            next.1,
            depth + 1,
        );
        let floating_windows = windows_among(
            children(node, true),
            next.0,
            output,
            true,
            depth + 1,
        );
        let all = windows(node, ws, output, floating, depth);
        assert(all == own + tiled_windows + floating_windows);
        let paths = mine + tiled + above;
        assert forall|i: int| 0 <= i < paths.len() implies describes(
            all[i],
            node,
            #[trigger] paths[i],
            ws,
            output,
            floating,
            depth,
        ) by {
            if i < mine.len() {
                assert(paths[i] == Seq::<Step>::empty());
                assert(all[i] == own[0]);
            } else if i < mine.len() + tiled.len() {
                let k = i - mine.len();
                assert(paths[i] == tiled[k]);
                assert(all[i] == tiled_windows[k]);
                assert(starts_among(children(node, false), false, tiled[k]));
                lemma_described_from_the_child(
                    all[i],
                    node,
                    paths[i],
                    ws,
                    output,
                    floating,
                    depth,
                );
            } else {
                let k = i - mine.len() - tiled.len();
                assert(paths[i] == above[k]);
                assert(all[i] == floating_windows[k]);
                assert(starts_among(children(node, true), true, above[k]));
                lemma_described_from_the_child(
                    all[i],
                    node,
                    paths[i],
                    ws,
                    output,
                    floating,
                    depth,
                );
            }
        }
        assert forall|path: Seq<Step>| #[trigger] is_listed_at(
            node,
            path,
            depth,
        ) implies paths.contains(path) by {
            if path.len() == 0 {
                assert(path == Seq::<Step>::empty());
                assert(paths[0] == path);
            } else {
                lemma_listed_from_the_child(node, path, ws, floating, depth);
                if path[0].floating {
                    assert(starts_among(children(node, true), true, path));
                    let k = choose|k: int| 0 <= k < above.len() && above[k] == path;
                    assert(paths[mine.len() + tiled.len() + k] == path);
                } else {
                    assert(starts_among(children(node, false), false, path));
                    let k = choose|k: int| 0 <= k < tiled.len() && tiled[k] == path;
                    assert(paths[mine.len() + k] == path);
                }
            }
        }
        assert forall|i: int, j: int| 0 <= i < j < paths.len() implies #[trigger] precedes(
            paths[i],
            paths[j],
        ) by {
            if j < mine.len() + tiled.len() {
                assert(paths[j] == tiled[j - mine.len()]);
                assert(starts_among(children(node, false), false, tiled[j - mine.len()]));
                if i < mine.len() {
                    lemma_first_steps_differ(paths[i], paths[j]);
                } else {
                    assert(paths[i] == tiled[i - mine.len()]);
                    assert(precedes(tiled[i - mine.len()], tiled[j - mine.len()]));
                }
            } else {
                let l = j - mine.len() - tiled.len();
                assert(paths[j] == above[l]);
                assert(starts_among(children(node, true), true, above[l]));
                if i < mine.len() {
                    lemma_first_steps_differ(paths[i], paths[j]);
                } else if i < mine.len() + tiled.len() {
                    assert(paths[i] == tiled[i - mine.len()]);
                    assert(starts_among(children(node, false), false, tiled[i - mine.len()]));
                    lemma_first_steps_differ(paths[i], paths[j]);
                } else {
                    assert(paths[i] == above[i - mine.len() - tiled.len()]);
                    assert(precedes(above[i - mine.len() - tiled.len()], above[l]));
                }
            }
        }
        paths
    }
}

/// Below a node that holds no workspace, every window carries the workspace given.
pub proof fn windows_keep_the_workspace_given(
    node: JsonView,
    ws: WmWorkspaceView,
    output: i32,
    floating: bool,
    depth: nat,
)
    requires
        forall|path: Seq<Step>| #[trigger]
            leads(node, path) ==> kind(node_at(node, path)) != "workspace"@,
    ensures
        forall|i: int|
            0 <= i < windows(node, ws, output, floating, depth).len() ==> (
            #[trigger] windows(node, ws, output, floating, depth)[i]).workspace == ws,
{
    let all = windows(node, ws, output, floating, depth);
    let paths = windows_have_their_places(node, ws, output, floating, depth);
    assert forall|i: int| 0 <= i < all.len() implies (#[trigger] all[i]).workspace == ws by {
        let path = paths[i];
        assert forall|k: int| 0 <= k <= path.len() implies kind(
            #[trigger] on_the_way(node, path, k),
        ) != "workspace"@ by {
            lemma_leads_part_of_the_way(node, path, k);
        }
    }
}

/// Every window at or below a workspace, tiled or floating, carries the number and
/// the name of that workspace, where it holds no other workspace.
pub proof fn windows_carry_their_workspace(
    node: JsonView,
    ws: WmWorkspaceView,
    output: i32,
    floating: bool,
    depth: nat,
)
    requires
        kind(node) == "workspace"@,
        forall|path: Seq<Step>| #[trigger]
            leads(node, path) && path.len() > 0 ==> kind(node_at(node, path)) != "workspace"@,
    ensures
        forall|i: int|
            0 <= i < windows(node, ws, output, floating, depth).len() ==> {
                let client = #[trigger] windows(node, ws, output, floating, depth)[i];
                &&& client.workspace.id == node.i64_or_zero("num"@) as i32
                &&& client.workspace.name == node.text_or_empty("name"@)
            },
{
    let all = windows(node, ws, output, floating, depth);
    let paths = windows_have_their_places(node, ws, output, floating, depth);
    assert forall|i: int| 0 <= i < all.len() implies (#[trigger] all[i]).workspace.id
        == node.i64_or_zero("num"@) as i32 && all[i].workspace.name == node.text_or_empty(
        "name"@,
    ) by {
        let path = paths[i];
        assert(path.take(0).len() == 0);
        assert(on_the_way(node, path, 0) == node);
        assert forall|k: int| 0 < k <= path.len() implies kind(
            #[trigger] on_the_way(node, path, k),
        ) != "workspace"@ by {
            lemma_leads_part_of_the_way(node, path, k);
        }
        assert(is_last_workspace_at(node, path, 0));
    }
}

proof fn lemma_leads_part_of_the_way(node: JsonView, path: Seq<Step>, k: int)
    requires
        leads(node, path),
        0 <= k <= path.len(),
    ensures
        leads(node, path.take(k)),
    decreases path.len(),
{
    if k > 0 {
        let child = children(node, path[0].floating)[path[0].index];
        lemma_leads_part_of_the_way(child, path.skip(1), k - 1);
        assert(path.take(k).skip(1) == path.skip(1).take(k - 1));
        assert(path.take(k)[0] == path[0]);
    }
}

/// `node` is an output, and Sway does not keep it to itself.
pub open spec fn is_users(node: JsonView) -> bool {
    kind(node) == "output"@ && !is_kept_by_sway(node)
}

/// How many of the first `n` of `nodes` are outputs of the user.
pub open spec fn outputs_before(nodes: Seq<JsonView>, n: int) -> nat {
    nodes.take(n).filter(|node: JsonView| is_users(node)).len()
}

/// Where a window is: on which of the nodes below the root, and where below that.
pub struct Place {
    pub output: int,
    pub path: Seq<Step>,
}

/// A window is to be found at `place`, below one of the first `n` of `nodes`.
pub open spec fn is_listed_on(nodes: Seq<JsonView>, n: int, place: Place) -> bool {
    &&& 0 <= place.output < n
    &&& is_users(nodes[place.output])
    &&& is_listed_at(nodes[place.output], place.path, 0)
}

/// `client` is the window at `place`, on the monitor with the number of the
/// output among those of the user.
pub open spec fn describes_on(client: WmClientView, nodes: Seq<JsonView>, place: Place) -> bool {
    describes(
        client,
        nodes[place.output],
        place.path,
        WmWorkspaceView { id: 0, name: Seq::empty() },
        outputs_before(nodes, place.output) as i32,
        false,
        0,
    )
}

/// The place `a` comes before the place `b`.
pub open spec fn place_precedes(a: Place, b: Place) -> bool {
    a.output < b.output || (a.output == b.output && precedes(a.path, b.path))
}

proof fn lemma_outputs_before(nodes: Seq<JsonView>, n: int)
    requires
        0 <= n <= nodes.len(),
    ensures
        outputs_before(nodes, n) == user_outputs(nodes, n),
    decreases n,
{
    reveal(Seq::filter);
    let users = |node: JsonView| is_users(node);
    if n > 0 {
        lemma_outputs_before(nodes, n - 1);
        lemma_kept_by_sway(nodes[n - 1], WmWorkspaceView::empty(), false);
        assert(nodes.take(n).drop_last() == nodes.take(n - 1));
        assert(nodes.take(n).last() == nodes[n - 1]);
        lemma_users(nodes[n - 1]);
    } else {
        assert(nodes.take(0).len() == 0);
    }
}

proof fn lemma_users(node: JsonView)
    ensures
        is_users(node) == is_user_output(node),
{
    lemma_kept_by_sway(node, WmWorkspaceView::empty(), false);
    reveal_strlit("output");
    reveal_strlit("workspace");
    assert("output"@.len() != "workspace"@.len());
}

proof fn lemma_places_on(nodes: Seq<JsonView>, n: int) -> (places: Seq<Place>)
    requires
        0 <= n <= nodes.len(),
    ensures
        places.len() == windows_on(nodes, n).len(),
        forall|i: int|
            0 <= i < places.len() ==> is_listed_on(nodes, n, #[trigger] places[i])
                && describes_on(windows_on(nodes, n)[i], nodes, places[i]),
        forall|place: Place| #[trigger] is_listed_on(nodes, n, place) ==> places.contains(place),
        forall|i: int, j: int|
            0 <= i < j < places.len() ==> #[trigger] place_precedes(places[i], places[j]),
    decreases n,
{
    if n == 0 {
        Seq::empty()
    } else {
        let before = lemma_places_on(nodes, n - 1);
        let node = nodes[n - 1];
        lemma_users(node);
        if !is_users(node) {
            assert forall|i: int| 0 <= i < before.len() implies is_listed_on(
                nodes,
                n,
                #[trigger] before[i],
            ) && describes_on(windows_on(nodes, n)[i], nodes, before[i]) by {
                assert(is_listed_on(nodes, n - 1, before[i]));
            }
            assert forall|place: Place| #[trigger] is_listed_on(
                nodes,
                n,
                place,
            ) implies before.contains(place) by {
                assert(is_listed_on(nodes, n - 1, place));
            }
            before
        } else {
            lemma_outputs_before(nodes, n - 1);
            let ws = WmWorkspaceView::empty();
            assert(ws == (WmWorkspaceView { id: 0, name: Seq::empty() }));
            let number = user_outputs(nodes, n - 1) as i32;
            let here = windows_have_their_places(node, ws, number, false, 0);
            let last = here.map_values(|path: Seq<Step>| Place { output: n - 1, path });
            let places = before + last;
            let all = windows_on(nodes, n);
            assert forall|i: int| 0 <= i < places.len() implies is_listed_on(
                nodes,
                n,
                #[trigger] places[i],
            ) && describes_on(all[i], nodes, places[i]) by {
                if i < before.len() {
                    assert(places[i] == before[i]);
                    assert(is_listed_on(nodes, n - 1, before[i]));
                    assert(all[i] == windows_on(nodes, n - 1)[i]);
                } else {
                    let k = i - before.len();
                    assert(places[i] == (Place { output: n - 1, path: here[k] }));
                    assert(all[i] == windows(node, ws, number, false, 0)[k]);
                }
            }
            assert forall|place: Place| #[trigger] is_listed_on(
                nodes,
                n,
                place,
            ) implies places.contains(place) by {
                if place.output < n - 1 {
                    assert(is_listed_on(nodes, n - 1, place));
                    let k = choose|k: int| 0 <= k < before.len() && before[k] == place;
                    assert(places[k] == place);
                } else {
                    let k = choose|k: int| 0 <= k < here.len() && here[k] == place.path;
                    assert(here.contains(place.path));
                    assert(places[before.len() + k] == place);
                }
            }
            assert forall|i: int, j: int| 0 <= i < j < places.len() implies #[trigger]
                place_precedes(places[i], places[j]) by {
                if j < before.len() {
                    assert(places[i] == before[i] && places[j] == before[j]);
                    assert(place_precedes(before[i], before[j]));
                } else if i < before.len() {
                    assert(places[i] == before[i]);
                    assert(is_listed_on(nodes, n - 1, before[i]));
                } else {
                    assert(precedes(here[i - before.len()], here[j - before.len()]));
                }
            }
            places
        }
    }
}

/// The clients of a tree are the windows at all the places where one is to be
/// found on an output of the user: each once, in the order of the tree, on the
/// last workspace on the way to it, and on the monitor with the number of its
/// output. The result tells the place of each.
pub proof fn clients_have_their_places(tree: Json, r: Vec<WmClient>) -> (places: Seq<Place>)
    requires
        call_ensures(collect_clients_from_tree, (&tree,), r),
    ensures
        ({
            let nodes = tree@.elements_at("nodes"@);
            &&& places.len() == r@.len()
            &&& forall|i: int|
                0 <= i < places.len() ==> is_listed_on(
                    nodes,
                    nodes.len() as int,
                    #[trigger] places[i],
                ) && describes_on(r@[i]@, nodes, places[i])
            &&& forall|place: Place| #[trigger]
                is_listed_on(nodes, nodes.len() as int, place) ==> places.contains(place)
            &&& forall|i: int, j: int|
                0 <= i < j < places.len() ==> #[trigger] place_precedes(places[i], places[j])
        }),
{
    let nodes = tree@.elements_at("nodes"@);
    let places = lemma_places_on(nodes, nodes.len() as int);
    let all = model::clients(r@);
    assert(all == windows_on(nodes, nodes.len() as int));
    assert(all.len() == r@.len());
    assert forall|i: int| 0 <= i < places.len() implies is_listed_on(
        nodes,
        nodes.len() as int,
        #[trigger] places[i],
    ) && describes_on(r@[i]@, nodes, places[i]) by {
        assert(all[i] == r@[i]@);
    }
    places
}

/// `node` is a window that has the focus.
pub open spec fn has_focus(node: JsonView) -> bool {
    node.bool_at("focused"@) == Some(true) && shows_window(node)
}

/// Something on the way along `path` floats.
pub open spec fn floats_anywhere(node: JsonView, path: Seq<Step>, given: bool) -> bool {
    exists|k: int| 0 <= k <= path.len() && #[trigger] floats_from(node, path, k, given)
}

/// The paths `a` and `b` are the same for `k` steps, and there `b` ends, or goes to
/// a later child.
pub open spec fn parts_first(a: Seq<Step>, b: Seq<Step>, k: int) -> bool {
    &&& 0 <= k <= b.len()
    &&& k < a.len()
    &&& a.take(k) == b.take(k)
    &&& k == b.len() || steps_before(a[k], b[k])
}

/// The path `a` is reached before the path `b` where what is below a node comes
/// before the node.
pub open spec fn comes_first(a: Seq<Step>, b: Seq<Step>) -> bool {
    exists|k: int| #[trigger] parts_first(a, b, k)
}

/// `client` is the window with focus at the end of `path`, and of all windows with
/// focus that one comes first.
pub open spec fn is_first_with_focus(
    client: WmClientView,
    node: JsonView,
    path: Seq<Step>,
    floating: bool,
) -> bool {
    &&& leads(node, path)
    &&& has_focus(node_at(node, path))
    &&& is_of_window(client, node_at(node, path))
    &&& client.floating == floats_anywhere(node, path, floating)
    &&& types::is_named_by(client.workspace, node_at(node, path))
    &&& client.monitor_id == 0
    &&& forall|other: Seq<Step>| #[trigger]
        leads(node, other) && has_focus(node_at(node, other)) ==> other == path || comes_first(
            path,
            other,
        )
}

/// Neither `node` nor anything below it is a window with focus.
pub open spec fn has_no_focus(node: JsonView) -> bool {
    forall|path: Seq<Step>| #[trigger] leads(node, path) ==> !has_focus(node_at(node, path))
}

/// `client` is the window with focus at the end of `path`, which begins among the
/// children from `from` on, and of all windows with focus there that one comes
/// first.
pub open spec fn is_first_among(
    client: WmClientView,
    nodes: Seq<JsonView>,
    by: bool,
    floating: bool,
    from: int,
    path: Seq<Step>,
) -> bool {
    &&& starts_among(nodes, by, path)
    &&& from <= path[0].index
    &&& is_first_with_focus(client, nodes[path[0].index], path.skip(1), floating)
    &&& forall|k: int| from <= k < path[0].index ==> has_no_focus(#[trigger] nodes[k])
}

proof fn lemma_floats_anywhere_from_the_child(node: JsonView, path: Seq<Step>, given: bool)
    requires
        path.len() > 0,
    ensures
        floats_anywhere(node, path, given) == floats_anywhere(
            children(node, path[0].floating)[path[0].index],
            path.skip(1),
            path[0].floating || given || kind(node) == "floating_con"@,
        ),
{
    let child = children(node, path[0].floating)[path[0].index];
    let rest = path.skip(1);
    let next = path[0].floating || given || kind(node) == "floating_con"@;
    lemma_way_from_the_child(node, path);
    if floats_anywhere(node, path, given) {
        let k = choose|k: int| 0 <= k <= path.len() && #[trigger] floats_from(node, path, k, given);
        if k == 0 {
            assert(floats_from(child, rest, 0, next));
        } else {
            assert(floats_from(child, rest, k - 1, next));
        }
    }
    if floats_anywhere(child, rest, next) {
        let m = choose|k: int| 0 <= k <= rest.len() && #[trigger] floats_from(child, rest, k, next);
        assert(rest.take(0).len() == 0);
        if m == 0 && !path[0].floating && kind(child) != "floating_con"@ {
            assert(floats_from(node, path, 0, given));
        } else {
            assert(floats_from(node, path, m + 1, given));
        }
    }
}

proof fn lemma_focus_among(parent: JsonView, by: bool, floating: bool, from: int) -> (path: Seq<Step>)
    requires
        0 <= from <= children(parent, by).len(),
    ensures
        ({
            let key = if by {
                "floating_nodes"@
            } else {
                "nodes"@
            };
            let nodes = children(parent, by);
            match focused_in(parent, key, floating, from) {
                Some(client) => is_first_among(client, nodes, by, floating, from, path),
                None => forall|k: int| from <= k < nodes.len() ==> has_no_focus(#[trigger] nodes[k]),
            }
        }),
    decreases parent, 0nat, children(parent, by).len() - from,
{
    let key = if by {
        "floating_nodes"@
    } else {
        "nodes"@
    };
    let nodes = children(parent, by);
    assert(nodes == parent.elements_at(key));
    if from >= nodes.len() {
        Seq::empty()
    } else {
        json::lemma_element_is_smaller(parent, key, from);
        let here = lemma_focus(nodes[from], floating);
        let later = lemma_focus_among(parent, by, floating, from + 1);
        if focused_window(nodes[from], floating) is Some {
            let path = seq![Step { floating: by, index: from }] + here;
            assert(path.skip(1) == here);
            path
        } else {
            later
        }
    }
}

proof fn lemma_below_comes_first(
    client: WmClientView,
    node: JsonView,
    by: bool,
    given: bool,
    path: Seq<Step>,
)
    requires
        is_first_among(
            client,
            children(node, by),
            by,
            by || given || kind(node) == "floating_con"@,
            0,
            path,
        ),
        by ==> forall|k: int|
            0 <= k < children(node, false).len() ==> has_no_focus(
                #[trigger] children(node, false)[k],
            ),
    ensures
        is_first_with_focus(client, node, path, given),
{
    let child = children(node, by)[path[0].index];
    lemma_floats_anywhere_from_the_child(node, path, given);
    assert forall|other: Seq<Step>| #[trigger] leads(node, other) && has_focus(
        node_at(node, other),
    ) implies other == path || comes_first(path, other) by {
        if other.len() == 0 {
            assert(path.take(0) == other.take(0));
            assert(parts_first(path, other, 0));
        } else if other[0].floating == by && other[0].index == path[0].index {
            let rest = path.skip(1);
            let other_rest = other.skip(1);
            assert(leads(child, other_rest) && has_focus(node_at(child, other_rest)));
            assert(path == seq![path[0]] + rest);
            assert(other == seq![path[0]] + other_rest);
            if other_rest != rest {
                let k = choose|k: int| #[trigger] parts_first(rest, other_rest, k);
                assert(path.take(k + 1) == seq![path[0]] + rest.take(k));
                assert(other.take(k + 1) == seq![path[0]] + other_rest.take(k));
                assert(parts_first(path, other, k + 1));
            }
        } else {
            let beside = children(node, other[0].floating)[other[0].index];
            assert(leads(beside, other.skip(1)) && has_focus(node_at(beside, other.skip(1))));
            assert(!has_no_focus(beside));
            assert(steps_before(path[0], other[0]));
            assert(path.take(0) == other.take(0));
            assert(parts_first(path, other, 0));
        }
    }
}

proof fn lemma_focus(node: JsonView, floating: bool) -> (path: Seq<Step>)
    ensures
        match focused_window(node, floating) {
            Some(client) => is_first_with_focus(client, node, path, floating),
            None => has_no_focus(node),
        },
    decreases node, 1nat, 0int,
{
    let next = floating || kind(node) == "floating_con"@;
    let tiled = lemma_focus_among(node, false, next, 0);
    let above = lemma_focus_among(node, true, true, 0);
    lemma_kept_by_sway(node, WmWorkspaceView::empty(), floating);
    if let Some(client) = focused_in(node, "nodes"@, next, 0) {
        lemma_below_comes_first(client, node, false, floating, tiled);
        tiled
    } else if let Some(client) = focused_in(node, "floating_nodes"@, true, 0) {
        lemma_below_comes_first(client, node, true, floating, above);
        above
    } else {
        let path = Seq::<Step>::empty();
        assert forall|other: Seq<Step>| #[trigger] leads(node, other) && has_focus(
            node_at(node, other),
        ) implies other == path by {
            if other.len() > 0 {
                let beside = children(node, other[0].floating)[other[0].index];
                assert(leads(beside, other.skip(1)) && has_focus(node_at(beside, other.skip(1))));
                assert(!has_no_focus(beside));
            }
        }
        assert(path.take(0) == path);
        assert(on_the_way(node, path, 0) == node);
        if has_focus(node) {
            assert(floats_from(node, path, 0, floating) == next);
            if floats_anywhere(node, path, floating) {
                let k = choose|k: int|
                    0 <= k <= path.len() && #[trigger] floats_from(node, path, k, floating);
                assert(k == 0);
            }
        } else {
            assert(has_no_focus(node)) by {
                assert forall|other: Seq<Step>| #[trigger] leads(node, other) implies !has_focus(
                    node_at(node, other),
                ) by {
                    if has_focus(node_at(node, other)) {
                        assert(other == path);
                    }
                }
            }
        }
        path
    }
}

/// The focused window is one that has the focus, the first of those where what is
/// below a node comes before the node, so that no other lies below it. It floats
/// where something on the way to it does. There is none only where no window has
/// the focus.
pub proof fn focused_window_has_the_focus(tree: Json, r: Option<WmClient>) -> (path: Seq<Step>)
    requires
        call_ensures(find_focused_window, (&tree,), r),
    ensures
        match r {
            Some(client) => is_first_with_focus(client@, tree@, path, false),
            None => has_no_focus(tree@),
        },
{
    lemma_focus(tree@, false)
}

/// One monitor is listed for each active output, in their order, with what the
/// fields of that output hold.
pub proof fn monitors_are_the_active_outputs(outputs: Vec<Json>, r: Vec<WmMonitor>, k: int)
    requires
        call_ensures(monitors_from_outputs, (&outputs,), r),
        0 <= k < r@.len(),
    ensures
        r@.len() == json::views(outputs@).filter(
            |output: JsonView| output.bool_at("active"@) == Some(true),
        ).len(),
        types::is_of_output(
            r@[k]@,
            json::views(outputs@).filter(
                |output: JsonView| output.bool_at("active"@) == Some(true),
            )[k],
        ),
        r@[k].id == k as i32,
{
    let all = json::views(outputs@);
    lemma_active_outputs(all);
    assert(model::monitors(r@)[k] == r@[k]@);
    monitors_are_numbered_in_order(all);
    let active = all.filter(|output: JsonView| output.bool_at("active"@) == Some(true));
    assert(active_monitors(all)[k] == types::output_monitor(active[k], k as i32));
    types::monitors_show_their_output(active[k], k as i32);
}

proof fn lemma_active_outputs(outputs: Seq<JsonView>)
    ensures
        ({
            let active = outputs.filter(
                |output: JsonView| output.bool_at("active"@) == Some(true),
            );
            &&& active_monitors(outputs).len() == active.len()
            &&& forall|k: int|
                0 <= k < active.len() ==> #[trigger] active_monitors(outputs)[k]
                    == types::output_monitor(active[k], k as i32)
        }),
    decreases outputs.len(),
{
    reveal(Seq::filter);
    if outputs.len() > 0 {
        lemma_active_outputs(outputs.drop_last());
    }
}

/// A monitor has the focus exactly where its output has, so that with one focused
/// output no two monitors have it.
pub proof fn focus_is_that_of_the_output(outputs: Seq<JsonView>, k: int)
    requires
        0 <= k < active_monitors(outputs).len(),
    ensures
        ({
            let active = outputs.filter(
                |output: JsonView| output.bool_at("active"@) == Some(true),
            );
            &&& active.len() == active_monitors(outputs).len()
            &&& active_monitors(outputs)[k].focused <==> active[k].bool_at("focused"@) == Some(true)
        }),
        forall|i: int, j: int|
            0 <= i < j < active_monitors(outputs).len() && (
            #[trigger] active_monitors(outputs)[i]).focused && (
            #[trigger] active_monitors(outputs)[j]).focused ==> exists|a: int, b: int|
                0 <= a < b < outputs.len() && (#[trigger] outputs[a]).bool_at("focused"@) == Some(
                    true,
                ) && (#[trigger] outputs[b]).bool_at("focused"@) == Some(true),
{
    let active = outputs.filter(|output: JsonView| output.bool_at("active"@) == Some(true));
    lemma_active_outputs(outputs);
    assert forall|i: int, j: int|
        0 <= i < j < active_monitors(outputs).len() && (
        #[trigger] active_monitors(outputs)[i]).focused && (
        #[trigger] active_monitors(outputs)[j]).focused implies exists|a: int, b: int|
        0 <= a < b < outputs.len() && (#[trigger] outputs[a]).bool_at("focused"@) == Some(true) && (
        #[trigger] outputs[b]).bool_at("focused"@) == Some(true) by {
        let (a, b) = lemma_filtered_in_order(
            outputs,
            |output: JsonView| output.bool_at("active"@) == Some(true),
            i,
            j,
        );
        assert(outputs[a] == active[i] && outputs[b] == active[j]);
    }
}

proof fn lemma_filtered_in_order(
    s: Seq<JsonView>,
    keep: spec_fn(JsonView) -> bool,
    i: int,
    j: int,
) -> (places: (int, int))
    requires
        0 <= i < j < s.filter(keep).len(),
    ensures
        0 <= places.0 < places.1 < s.len(),
        s[places.0] == s.filter(keep)[i],
        s[places.1] == s.filter(keep)[j],
    decreases s.len(),
{
    reveal(Seq::filter);
    let n = s.len() - 1;
    let before = s.drop_last().filter(keep);
    if j < before.len() {
        lemma_filtered_in_order(s.drop_last(), keep, i, j)
    } else {
        assert(i < before.len());
        let a = lemma_filtered_place(s.drop_last(), keep, i);
        (a, n)
    }
}

proof fn lemma_filtered_place(s: Seq<JsonView>, keep: spec_fn(JsonView) -> bool, i: int) -> (a: int)
    requires
        0 <= i < s.filter(keep).len(),
    ensures
        0 <= a < s.len(),
        s[a] == s.filter(keep)[i],
    decreases s.len(),
{
    reveal(Seq::filter);
    let before = s.drop_last().filter(keep);
    if i < before.len() {
        lemma_filtered_place(s.drop_last(), keep, i)
    } else {
        s.len() - 1
    }
}

} // verus!
