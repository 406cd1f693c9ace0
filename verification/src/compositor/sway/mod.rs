//! Sway, spoken to over the i3 IPC protocol.
//!
//! The functions here say what to send and what an answer means. Sending and
//! receiving is up to the caller.

pub mod events;
pub mod ipc;
pub mod tree;
pub mod types;

use vstd::prelude::*;
use crate::compositor;
use crate::compositor::types as model;
use crate::compositor::types::{WmClient, WmMonitor};
use crate::error::{DockError, IpcError, IpcErrorKind};
use crate::json;
use crate::json::{Json, JsonView};
use crate::number;
use crate::text;

verus! {

/// Sway compositor backend using the i3-compatible IPC protocol.
#[derive(Debug)]
pub struct SwayBackend {
    pub socket_path: String,
}

/// A container id is at least one digit and nothing else.
pub open spec fn valid_con_id(id: Seq<char>) -> bool {
    id.len() > 0 && number::all_digits(id)
}

/// A command on the container `id`.
pub open spec fn container_command(id: Seq<char>, what: Seq<char>) -> Seq<char> {
    "[con_id="@ + id + "] "@ + what
}

/// `r` is the command on the container `id`, or the error for an invalid id.
pub open spec fn command_for(r: Result<String, DockError>, id: Seq<char>, what: Seq<char>) -> bool {
    match r {
        Ok(command) => valid_con_id(id) && command@ == container_command(id, what),
        Err(DockError::Ipc(e)) => !valid_con_id(id) && e.is(
            IpcErrorKind::InvalidInput,
            "invalid Sway container id: "@ + id,
        ),
        Err(_) => false,
    }
}

/// Validates that a Sway container ID is numeric.
pub fn validate_con_id(id: &str) -> (r: Result<&str, DockError>)
    ensures
        match r {
            Ok(same) => valid_con_id(id@) && same@ == id@,
            Err(DockError::Ipc(e)) => !valid_con_id(id@) && e.is(
                IpcErrorKind::InvalidInput,
                "invalid Sway container id: "@ + id@,
            ),
            Err(_) => false,
        },
{
    let chars = text::chars_of(id);
    let mut valid = chars.len() > 0;
    let mut i: usize = 0;
    while i < chars.len()
        invariant
            i <= chars@.len(),
            chars@ == id@,
            valid == (chars@.len() > 0 && number::all_digits(chars@.take(i as int))),
        decreases chars@.len() - i,
    {
        let c = chars[i];
        let ghost next = chars@.take(i as int + 1);
        assert(next == chars@.take(i as int).push(c));
        assert(forall|k: int| 0 <= k < i ==> next[k] == chars@.take(i as int)[k]);
        assert(next[i as int] == c);
        valid = valid && '0' <= c && c <= '9';
        i += 1;
    }
    assert(chars@.take(i as int) == id@);
    if valid {
        Ok(id)
    } else {
        let mut message = "invalid Sway container id: ".to_owned();
        message.append(id);
        Err(DockError::Ipc(IpcError::new(IpcErrorKind::InvalidInput, message)))
    }
}

fn command_on(id: &str, what: &str) -> (r: Result<String, DockError>)
    ensures
        command_for(r, id@, what@),
{
    let id = match validate_con_id(id) {
        Ok(id) => id,
        Err(e) => return Err(e),
    };
    let mut command = "[con_id=".to_owned();
    command.append(id);
    command.append("] ");
    command.append(what);
    Ok(command)
}

/// Sway refused a command.
pub open spec fn refused(results: Seq<JsonView>) -> bool {
    results.len() > 0 && results[0].bool_at("success"@) == Some(false)
}

/// Why Sway refused a command.
pub open spec fn refusal(results: Seq<JsonView>) -> Seq<char> {
    match results[0].text_at("error"@) {
        Some(error) => error,
        None => "unknown error"@,
    }
}

/// Checks the results of a command. Sway answers with one object for each
/// part of it; the first decides.
pub fn command_outcome(results: &Vec<Json>) -> (r: Result<(), IpcError>)
    ensures
        match r {
            Ok(_) => !refused(json::views(results@)),
            Err(e) => refused(json::views(results@)) && e.is(
                IpcErrorKind::Other,
                refusal(json::views(results@)),
            ),
        },
{
    if results.len() > 0 && results[0].bool_at("success") == Some(false) {
        let message = match results[0].text_at("error") {
            Some(error) => error.to_owned(),
            None => "unknown error".to_owned(),
        };
        return Err(IpcError::new(IpcErrorKind::Other, message));
    }
    Ok(())
}

/// Checks the answer to a command, as it came over the socket.
pub fn check_command_reply(reply: &[u8]) -> (r: Result<(), DockError>)
    ensures
        match (r, json::json_text(reply@)) {
            (Ok(_), Some(JsonView::Array(results))) => !refused(results),
            (Err(DockError::Ipc(e)), Some(JsonView::Array(results))) => refused(results) && e.is(
                IpcErrorKind::Other,
                refusal(results),
            ),
            (Err(DockError::Json(_)), Some(JsonView::Array(_))) => false,
            (Err(DockError::Json(_)), _) => true,
            _ => false,
        },
{
    match json::parse_json_array(reply) {
        Ok(results) => match command_outcome(&results) {
            Ok(_) => Ok(()),
            Err(e) => Err(DockError::Ipc(e)),
        },
        Err(e) => Err(DockError::Json(e)),
    }
}

impl SwayBackend {
    /// A backend for the socket that the environment variable `SWAYSOCK` names.
    pub fn new(swaysock: Option<String>) -> (r: Result<SwayBackend, DockError>)
        ensures
            match (r, swaysock) {
                (Ok(backend), Some(path)) => backend.socket_path == path,
                (Err(DockError::EnvNotSet(name)), None) => name@ == "SWAYSOCK"@,
                _ => false,
            },
    {
        match swaysock {
            Some(path) => Ok(SwayBackend { socket_path: path }),
            None => Err(DockError::EnvNotSet("SWAYSOCK".to_owned())),
        }
    }

    /// The windows in the answer to [`ipc::MSG_GET_TREE`].
    pub fn list_clients(&self, reply: &[u8]) -> (r: Result<Vec<WmClient>, DockError>)
        ensures
            match (r, json::json_text(reply@)) {
                (Ok(found), Some(root)) => model::clients(found@) == tree::windows_on(
                    root.elements_at("nodes"@),
                    root.elements_at("nodes"@).len() as int,
                ),
                (Err(DockError::Json(_)), None) => true,
                _ => false,
            },
    {
        match json::parse_json(reply) {
            Ok(root) => Ok(tree::collect_clients_from_tree(&root)),
            Err(e) => Err(DockError::Json(e)),
        }
    }

    /// The monitors in the answer to [`ipc::MSG_GET_OUTPUTS`]. An answer that is
    /// no JSON array is an error.
    pub fn list_monitors(&self, reply: &[u8]) -> (r: Result<Vec<WmMonitor>, DockError>)
        ensures
            match (r, json::json_text(reply@)) {
                (Ok(monitors), Some(JsonView::Array(outputs))) => model::monitors(monitors@)
                    == tree::active_monitors(outputs),
                (Err(DockError::Json(_)), Some(JsonView::Array(_))) => false,
                (Err(DockError::Json(_)), _) => true,
                _ => false,
            },
    {
        tree::parse_monitors(reply)
    }

    /// The window with focus in the answer to [`ipc::MSG_GET_TREE`].
    pub fn get_active_window(&self, reply: &[u8]) -> (r: Result<WmClient, DockError>)
        ensures
            match (r, json::json_text(reply@)) {
                (Ok(client), Some(root)) => tree::focused_window(root, false) == Some(client@),
                (Err(DockError::Ipc(e)), Some(root)) => tree::focused_window(root, false) is None
                    && e.is(IpcErrorKind::NotFound, "no focused window"@),
                (Err(DockError::Json(_)), None) => true,
                _ => false,
            },
    {
        match json::parse_json(reply) {
            Ok(root) => match tree::find_focused_window(&root) {
                Some(client) => Ok(client),
                None => Err(
                    DockError::Ipc(
                        IpcError::new(IpcErrorKind::NotFound, "no focused window".to_owned()),
                    ),
                ),
            },
            Err(e) => Err(DockError::Json(e)),
        }
    }

    /// Sway does not expose the cursor position.
    pub fn get_cursor_position(&self) -> (r: Option<(i32, i32)>)
        ensures
            r is None,
    {
        None
    }

    /// The command that gives a window the focus.
    pub fn focus_window(&self, id: &str) -> (r: Result<String, DockError>)
        ensures
            command_for(r, id@, "focus"@),
    {
        command_on(id, "focus")
    }

    /// The command that closes a window.
    pub fn close_window(&self, id: &str) -> (r: Result<String, DockError>)
        ensures
            command_for(r, id@, "kill"@),
    {
        command_on(id, "kill")
    }

    /// The command that toggles whether a window floats.
    pub fn toggle_floating(&self, id: &str) -> (r: Result<String, DockError>)
        ensures
            command_for(r, id@, "floating toggle"@),
    {
        command_on(id, "floating toggle")
    }

    /// The command that toggles whether a window fills the screen.
    pub fn toggle_fullscreen(&self, id: &str) -> (r: Result<String, DockError>)
        ensures
            command_for(r, id@, "fullscreen toggle"@),
    {
        command_on(id, "fullscreen toggle")
    }

    /// The command that moves a window to a workspace.
    pub fn move_to_workspace(&self, id: &str, workspace: i32) -> (r: Result<String, DockError>)
        ensures
            command_for(
                r,
                id@,
                "move to workspace number "@ + number::int_text(workspace as int),
            ),
    {
        let mut what = "move to workspace number ".to_owned();
        what.append(number::i64_text(workspace as i64).as_str());
        command_on(id, what.as_str())
    }

    /// The command that switches to a workspace.
    pub fn focus_workspace(&self, workspace: i32) -> (r: String)
        ensures
            r@ == "workspace number "@ + number::int_text(workspace as int),
    {
        let mut command = "workspace number ".to_owned();
        command.append(number::i64_text(workspace as i64).as_str());
        command
    }

    /// The command for a special workspace. Sway has one, the scratchpad,
    /// whatever the name.
    pub fn toggle_special_workspace(&self, _name: &str) -> (r: String)
        ensures
            r@ == "scratchpad show"@,
    {
        "scratchpad show".to_owned()
    }

    /// Sway manages its own stacking: there is no command to raise a window.
    pub fn raise_active(&self) -> (r: Option<String>)
        ensures
            r is None,
    {
        None
    }

    /// The command that has Sway launch `cmd`.
    pub fn exec(&self, cmd: &str) -> (r: String)
        ensures
            r@ == "exec "@ + compositor::sanitized(cmd@),
    {
        let mut command = "exec ".to_owned();
        command.append(compositor::sanitize_exec_command(cmd).as_str());
        command
    }

    /// Whether this compositor supports cursor position queries.
    pub fn supports_cursor_position(&self) -> (r: bool)
        ensures
            !r,
    {
        false
    }
}

/// The command built for a valid container id names that container and no
/// other: the id is the text between `=` and the first `]`, and holds digits
/// only.
pub proof fn container_command_names_one_container(id: Seq<char>, what: Seq<char>)
    requires
        valid_con_id(id),
    ensures
        text::index_of(container_command(id, what), ']') == Some(8 + id.len() as int),
        container_command(id, what).subrange(8, 8 + id.len() as int) == id,
{
    reveal_strlit("[con_id=");
    reveal_strlit("] ");
    let command = container_command(id, what);
    assert(command.subrange(8, 8 + id.len() as int) == id);
    text::lemma_index_from(command, ']', 0);
    assert forall|i: int| 0 <= i < 8 + id.len() implies command[i] != ']' by {
        if i >= 8 {
            assert(number::is_digit(id[i - 8]));
        }
    }
    assert(command[8 + id.len() as int] == ']');
}

/// A container id is accepted exactly where it is made of digits, at least one, and
/// comes back as it is.
pub proof fn container_ids_are_digits(id: &str, r: Result<&str, DockError>)
    requires
        call_ensures(validate_con_id, (id,), r),
    ensures
        r is Ok <==> id@.len() > 0 && forall|i: int|
            0 <= i < id@.len() ==> '0' <= #[trigger] id@[i] <= '9',
        r matches Ok(same) ==> same@ == id@,
{
    if id@.len() > 0 && forall|i: int| 0 <= i < id@.len() ==> '0' <= #[trigger] id@[i] <= '9' {
        assert(number::all_digits(id@));
    }
    if r is Ok {
        assert forall|i: int| 0 <= i < id@.len() implies '0' <= #[trigger] id@[i] <= '9' by {
            assert(number::is_digit(id@[i]));
        }
    }
}

/// A command is refused exactly where the first of its results says so, with the
/// error that it gives.
pub proof fn first_result_decides(results: Vec<Json>, r: Result<(), IpcError>)
    requires
        call_ensures(command_outcome, (&results,), r),
    ensures
        r is Err <==> results@.len() > 0 && results@[0]@.bool_at("success"@) == Some(false),
        r matches Err(e) ==> {
            &&& e.kind == IpcErrorKind::Other
            &&& results@[0]@.text_at("error"@) matches Some(error) ==> e.message@ == error
            &&& results@[0]@.text_at("error"@) is None ==> e.message@ == "unknown error"@
        },
{
    let views = json::views(results@);
    assert(views.len() == results@.len());
    if results@.len() > 0 {
        assert(views[0] == results@[0]@);
    }
}

/// The answers to queries are read as the tree, or the list of outputs, that they
/// hold.
pub proof fn answers_are_read_as_what_they_hold(
    backend: SwayBackend,
    reply: &[u8],
    root: Json,
    clients: Result<Vec<WmClient>, DockError>,
    from_tree: Vec<WmClient>,
    active: Result<WmClient, DockError>,
    focused: Option<WmClient>,
    monitors: Result<Vec<WmMonitor>, DockError>,
    parsed: Result<Vec<WmMonitor>, DockError>,
)
    requires
        call_ensures(json::parse_json, (reply,), Ok(root)),
        call_ensures(SwayBackend::list_clients, (&backend, reply), clients),
        call_ensures(tree::collect_clients_from_tree, (&root,), from_tree),
        call_ensures(SwayBackend::get_active_window, (&backend, reply), active),
        call_ensures(tree::find_focused_window, (&root,), focused),
        call_ensures(SwayBackend::list_monitors, (&backend, reply), monitors),
        call_ensures(tree::parse_monitors, (reply,), parsed),
    ensures
        clients is Ok && model::clients(clients->Ok_0@) == model::clients(from_tree@),
        active is Ok <==> focused is Some,
        active is Ok ==> active->Ok_0@ == focused->0@,
        monitors is Ok <==> parsed is Ok,
        monitors is Ok ==> model::monitors(monitors->Ok_0@) == model::monitors(parsed->Ok_0@),
{
}

/// A command on a container with a valid id is the same for every container but for
/// the id, and one on a workspace but for the number.
pub proof fn commands_name_what_they_are_on(
    backend: SwayBackend,
    one: &str,
    other: &str,
    number: i32,
    focus: (Result<String, DockError>, Result<String, DockError>),
    close: (Result<String, DockError>, Result<String, DockError>),
    move_to: (Result<String, DockError>, Result<String, DockError>),
    switch: String,
)
    requires
        valid_con_id(one@),
        valid_con_id(other@),
        call_ensures(SwayBackend::focus_window, (&backend, one), focus.0),
        call_ensures(SwayBackend::focus_window, (&backend, other), focus.1),
        call_ensures(SwayBackend::close_window, (&backend, one), close.0),
        call_ensures(SwayBackend::close_window, (&backend, other), close.1),
        call_ensures(SwayBackend::move_to_workspace, (&backend, one, number), move_to.0),
        call_ensures(SwayBackend::move_to_workspace, (&backend, other, number), move_to.1),
        call_ensures(SwayBackend::focus_workspace, (&backend, number), switch),
    ensures
        same_but_for_the_id(focus, one@, other@, "focus"@),
        same_but_for_the_id(close, one@, other@, "kill"@),
        same_but_for_the_id(
            move_to,
            one@,
            other@,
            "move to workspace number "@ + number::int_text(number as int),
        ),
        switch@ == "workspace number "@ + number::int_text(number as int),
{
}

/// Both commands were made, and read `what` behind the ids of their containers.
pub open spec fn same_but_for_the_id(
    commands: (Result<String, DockError>, Result<String, DockError>),
    one: Seq<char>,
    other: Seq<char>,
    what: Seq<char>,
) -> bool {
    &&& commands.0 matches Ok(first) && first@ == "[con_id="@ + one + "] "@ + what
    &&& commands.1 matches Ok(second) && second@ == "[con_id="@ + other + "] "@ + what
}

/// A command is launched sanitized behind `exec`; floating and fullscreen are toggled
/// on the container; and the scratchpad is the one special workspace, whatever the
/// name.
pub proof fn commands_are_sanitized_and_toggles_name_the_container(
    backend: SwayBackend,
    cmd: &str,
    id: &str,
    name: &str,
    other: &str,
    launched: String,
    float: Result<String, DockError>,
    fill: Result<String, DockError>,
    special: String,
    other_special: String,
)
    requires
        valid_con_id(id@),
        call_ensures(SwayBackend::exec, (&backend, cmd), launched),
        call_ensures(SwayBackend::toggle_floating, (&backend, id), float),
        call_ensures(SwayBackend::toggle_fullscreen, (&backend, id), fill),
        call_ensures(SwayBackend::toggle_special_workspace, (&backend, name), special),
        call_ensures(SwayBackend::toggle_special_workspace, (&backend, other), other_special),
    ensures
        launched@ == seq!['e', 'x', 'e', 'c', ' '] + compositor::sanitized(cmd@),
        float matches Ok(command) && command@ == "[con_id="@ + id@ + "] floating toggle"@,
        fill matches Ok(command) && command@ == "[con_id="@ + id@ + "] fullscreen toggle"@,
        special@ == other_special@,
{
    reveal_strlit("exec ");
    assert("exec "@ == seq!['e', 'x', 'e', 'c', ' ']);
    reveal_strlit("] ");
    reveal_strlit("floating toggle");
    reveal_strlit("fullscreen toggle");
    reveal_strlit("] floating toggle");
    reveal_strlit("] fullscreen toggle");
    assert("] floating toggle"@ == "] "@ + "floating toggle"@);
    assert("] fullscreen toggle"@ == "] "@ + "fullscreen toggle"@);
    assert("[con_id="@ + id@ + ("] "@ + "floating toggle"@) == "[con_id="@ + id@ + "] "@
        + "floating toggle"@);
    assert("[con_id="@ + id@ + ("] "@ + "fullscreen toggle"@) == "[con_id="@ + id@ + "] "@
        + "fullscreen toggle"@);
}

} // verus!
