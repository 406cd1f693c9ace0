//! Sway's event stream.

use vstd::prelude::*;
use crate::compositor::types::{WmEvent, WmEventView};
use crate::error::{DockError, IpcError, IpcErrorKind};
use crate::json;
use crate::json::{Json, JsonView};
use crate::number;

verus! {

/// i3 IPC event type for output events.
pub const EVENT_OUTPUT: u32 = 0x8000_0007;

/// i3 IPC event type for workspace events.
pub const EVENT_WORKSPACE: u32 = 0x8000_0000;

/// What a workspace event tells: the workspace that a change of focus led to.
/// Nothing where the change is another one, or where the event names no
/// current workspace with a number.
pub open spec fn workspace_event(event: JsonView) -> Option<WmEventView> {
    if event.text_at("change"@) != Some("focus"@) {
        None
    } else {
        match event.get("current"@) {
            Some(current) => match current.i64_at("num"@) {
                Some(num) => Some(
                    WmEventView::WorkspaceChanged {
                        id: num as i32,
                        name: current.text_or_empty("name"@),
                    },
                ),
                None => None,
            },
            None => None,
        }
    }
}

/// The id of the container that a window event is about, empty where it names
/// none.
pub open spec fn container_id(event: JsonView) -> Seq<char> {
    match event.get("container"@) {
        Some(container) => match container.i64_at("id"@) {
            Some(id) => number::int_text(id as int),
            None => Seq::empty(),
        },
        None => Seq::empty(),
    }
}

/// What an event that is not about an output tells.
pub open spec fn event_of(msg_type: u32, event: JsonView) -> Option<WmEventView> {
    if msg_type == EVENT_WORKSPACE {
        workspace_event(event)
    } else {
        let change = event.text_or_empty("change"@);
        if change == "focus"@ || change == "new"@ || change == "close"@ {
            Some(WmEventView::ActiveWindowChanged(container_id(event)))
        } else {
            None
        }
    }
}

/// The payload with which to subscribe to window, output and workspace events.
pub fn subscription_payload() -> (r: String)
    ensures
        r@ == "[\"window\",\"output\",\"workspace\"]"@,
{
    "[\"window\",\"output\",\"workspace\"]".to_owned()
}

/// Pure parser for Sway workspace event JSON. Returns
/// [`WmEvent::WorkspaceChanged`] for `change == "focus"` with a non-null
/// `current` workspace; returns `None` for any other change type or when
/// `current` is missing or null.
pub fn parse_workspace_event(event: &Json) -> (r: Option<WmEvent>)
    ensures
        match r {
            Some(e) => workspace_event(event@) == Some(e@),
            None => workspace_event(event@) is None,
        },
{
    if !event.text_is("change", "focus") {
        return None;
    }
    assert(event@.text_at("change"@) == Some("focus"@)) by {
        reveal_strlit("focus");
        assert(event@.text_or_empty("change"@).len() == 5);
    }
    let current = match event.get("current") {
        Some(current) => current,
        None => return None,
    };
    if current.is_null() {
        return None;
    }
    match current.i64_at("num") {
        Some(num) => Some(
            WmEvent::WorkspaceChanged { id: num as i32, name: current.text_or_empty("name") },
        ),
        None => None,
    }
}

/// What an event tells, where it tells something: workspace events the
/// workspace with focus, window events on `focus`, `new` and `close` the
/// window.
pub fn event_from_json(msg_type: u32, event: &Json) -> (r: Option<WmEvent>)
    ensures
        match r {
            Some(e) => event_of(msg_type, event@) == Some(e@),
            None => event_of(msg_type, event@) is None,
        },
{
    if msg_type == EVENT_WORKSPACE {
        return parse_workspace_event(event);
    }
    if event.text_is("change", "focus") || event.text_is("change", "new") || event.text_is(
        "change",
        "close",
    ) {
        let id = match event.get("container") {
            Some(container) => match container.i64_at("id") {
                Some(id) => number::i64_text(id),
                None => String::new(),
            },
            None => String::new(),
        };
        return Some(WmEvent::ActiveWindowChanged(id));
    }
    None
}

/// What a message from the event stream tells. `Ok(None)` is a message to pass
/// over: the next one is to be read. The payload of an output event is not
/// looked at.
pub fn event_from_message(msg_type: u32, body: &[u8]) -> (r: Result<Option<WmEvent>, IpcError>)
    ensures
        if msg_type == EVENT_OUTPUT {
            r matches Ok(Some(e)) && e@ == WmEventView::MonitorChanged
        } else {
            match (r, json::json_text(body@)) {
                (Ok(Some(e)), Some(event)) => event_of(msg_type, event) == Some(e@),
                (Ok(None), Some(event)) => event_of(msg_type, event) is None,
                (Err(e), None) => e.kind == IpcErrorKind::InvalidData,
                _ => false,
            }
        },
{
    if msg_type == EVENT_OUTPUT {
        return Ok(Some(WmEvent::MonitorChanged));
    }
    match json::parse_json(body) {
        Ok(event) => Ok(event_from_json(msg_type, &event)),
        Err(e) => Err(IpcError::new(IpcErrorKind::InvalidData, e.to_string())),
    }
}

/// Whether the answer to a subscription is a success.
pub open spec fn subscribed(reply: JsonView) -> bool {
    reply.bool_at("success"@) == Some(true)
}

/// Why a subscription failed.
pub open spec fn subscription_failure(reply: JsonView) -> Seq<char> {
    match reply.text_at("error"@) {
        Some(error) => error,
        None => "Sway event subscription failed"@,
    }
}

/// Checks the answer to a subscription.
pub fn subscription_outcome(reply: &Json) -> (r: Result<(), IpcError>)
    ensures
        match r {
            Ok(_) => subscribed(reply@),
            Err(e) => !subscribed(reply@) && e.is(
                IpcErrorKind::Other,
                subscription_failure(reply@),
            ),
        },
{
    if reply.bool_at("success") == Some(true) {
        return Ok(());
    }
    let message = match reply.text_at("error") {
        Some(error) => error.to_owned(),
        None => "Sway event subscription failed".to_owned(),
    };
    Err(IpcError::new(IpcErrorKind::Other, message))
}

/// Checks the answer to a subscription, as it came over the socket.
pub fn check_subscription(reply: &[u8]) -> (r: Result<(), DockError>)
    ensures
        match (r, json::json_text(reply@)) {
            (Ok(_), Some(v)) => subscribed(v),
            (Err(DockError::Ipc(e)), Some(v)) => !subscribed(v) && e.is(
                IpcErrorKind::Other,
                subscription_failure(v),
            ),
            (Err(DockError::Json(_)), None) => true,
            _ => false,
        },
{
    match json::parse_json(reply) {
        Ok(v) => match subscription_outcome(&v) {
            Ok(_) => Ok(()),
            Err(e) => Err(DockError::Ipc(e)),
        },
        Err(e) => Err(DockError::Json(e)),
    }
}

/// A workspace event tells something exactly where the focus changed to a workspace
/// with a number, and then tells that number and the name.
pub proof fn focus_changes_tell_the_workspace(event: Json, r: Option<WmEvent>)
    requires
        call_ensures(parse_workspace_event, (&event,), r),
    ensures
        r is Some <==> event@.text_at("change"@) == Some("focus"@) && event@.get("current"@) is Some
            && event@.get("current"@)->0.i64_at("num"@) is Some,
        r is Some ==> (r->0 matches WmEvent::WorkspaceChanged { id, name } && id
            == event@.get("current"@)->0.i64_at("num"@)->0 as i32 && name@
            == event@.get("current"@)->0.text_or_empty("name"@)),
{
}

/// A window event tells of its container exactly where that got the focus, opened or
/// closed, and names it by its id where it has one.
pub proof fn window_changes_tell_the_container(msg_type: u32, event: Json, r: Option<WmEvent>)
    requires
        call_ensures(event_from_json, (msg_type, &event), r),
        msg_type != 0x8000_0000,
    ensures
        r is Some <==> event@.text_or_empty("change"@) == "focus"@ || event@.text_or_empty(
            "change"@,
        ) == "new"@ || event@.text_or_empty("change"@) == "close"@,
        r is Some ==> (r->0 matches WmEvent::ActiveWindowChanged(id) && match event@.get(
            "container"@,
        ) {
            Some(container) => match container.i64_at("id"@) {
                Some(n) => id@ == number::int_text(n as int),
                None => id@.len() == 0,
            },
            None => id@.len() == 0,
        }),
{
}

/// An output event tells of the monitors whatever it holds, and a workspace event is
/// read as one.
pub proof fn messages_are_read_by_their_type(
    body: &[u8],
    output: Result<Option<WmEvent>, IpcError>,
    event: Json,
    by_type: Option<WmEvent>,
    workspace: Option<WmEvent>,
)
    requires
        call_ensures(event_from_message, (0x8000_0007u32, body), output),
        call_ensures(event_from_json, (0x8000_0000u32, &event), by_type),
        call_ensures(parse_workspace_event, (&event,), workspace),
    ensures
        output matches Ok(Some(e)) && e@ == WmEventView::MonitorChanged,
        by_type is Some <==> workspace is Some,
        by_type is Some ==> by_type->0@ == workspace->0@,
{
}

/// A subscription succeeded exactly where the answer says so.
pub proof fn answer_tells_whether_subscribed(reply: Json, r: Result<(), IpcError>)
    requires
        call_ensures(subscription_outcome, (&reply,), r),
    ensures
        r is Ok <==> reply@.bool_at("success"@) == Some(true),
        r matches Err(e) ==> {
            &&& e.kind == IpcErrorKind::Other
            &&& reply@.text_at("error"@) matches Some(error) ==> e.message@ == error
            &&& reply@.text_at("error"@) is None ==> e.message@
                == "Sway event subscription failed"@
        },
{
}

} // verus!
