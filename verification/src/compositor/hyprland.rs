//! The Hyprland backend.
//!
//! The functions here say what to send and what an answer means. Sending and
//! receiving is up to the caller.

use vstd::prelude::*;
use vstd::utf8::{decode_utf8, valid_utf8};
use crate::compositor;
use crate::compositor::types::{WmClient, WmClientView, WmEvent, WmEventView, WmMonitor, WmMonitorView, WmWorkspace, WmWorkspaceView};
use crate::encoding;
use crate::error::DockError;
use crate::hyprland::events::{HyprEvent, HyprEventView};
use crate::hyprland::ipc;
use crate::hyprland::types::{HyprClient, HyprMonitor};
use crate::json;
use crate::json::{Json, JsonView};
use crate::number;
use crate::number::Double;
use crate::text;

verus! {

/// Which `dispatch` payload syntax the running Hyprland accepts.
///
/// On a session with a Lua configuration the payload is evaluated as Lua, so
/// the legacy textual dispatchers fail there, and the Lua forms fail on a
/// classic session. Which one a session speaks is only discoverable by trying,
/// so the backend probes on first dispatch and remembers the answer.
#[derive(Clone, Copy, PartialEq, Eq, Debug, Structural)]
pub enum DispatchSyntax {
    Unknown,
    Legacy,
    Lua,
}

/// Classification of Hyprland's textual reply to a `dispatch` command.
#[derive(Clone, Copy, PartialEq, Eq, Debug, Structural)]
pub enum DispatchReply {
    /// "ok": dispatched.
    Accepted,
    /// The dispatcher itself was rejected: classic sessions answer
    /// "Invalid dispatcher" for Lua payloads, Lua sessions answer with a
    /// Lua evaluation error ("error: …") for legacy payloads. Worth
    /// retrying in the other syntax.
    WrongSyntax,
    /// Syntax accepted but the dispatch didn't apply. Not retried:
    /// the target is gone, not the grammar.
    Failed,
}

/// What a reply says.
pub open spec fn classified(reply: Seq<char>) -> DispatchReply {
    let t = text::trim(reply);
    if t == "ok"@ {
        DispatchReply::Accepted
    } else if text::starts_with(t, "Invalid dispatcher"@) || text::starts_with(t, "error:"@) {
        DispatchReply::WrongSyntax
    } else {
        DispatchReply::Failed
    }
}

/// Says what a reply means.
pub fn classify_dispatch_reply(reply: &str) -> (r: DispatchReply)
    ensures
        r == classified(reply@),
{
    let t = text::trimmed_text(reply);
    if text::same_text(t.as_str(), "ok") {
        DispatchReply::Accepted
    } else if text::text_begins_with(t.as_str(), "Invalid dispatcher") || text::text_begins_with(
        t.as_str(),
        "error:",
    ) {
        DispatchReply::WrongSyntax
    } else {
        DispatchReply::Failed
    }
}

/// A character inside a Lua string literal.
pub open spec fn lua_escaped_char(c: char) -> Seq<char> {
    if c == '\\' {
        seq!['\\', '\\']
    } else if c == '"' {
        seq!['\\', '"']
    } else if c == '\n' {
        seq!['\\', 'n']
    } else if c == '\r' {
        seq!['\\', 'r']
    } else {
        seq![c]
    }
}

/// A text inside a Lua string literal.
pub open spec fn lua_escaped(s: Seq<char>) -> Seq<char>
    decreases s.len(),
{
    if s.len() == 0 {
        Seq::empty()
    } else {
        lua_escaped_char(s[0]) + lua_escaped(s.skip(1))
    }
}

/// How Lua reads the inside of a string literal: up to its closing quote, with
/// the escapes undone. None where the literal is malformed: an unescaped line
/// end, or an unknown escape.
pub open spec fn lua_literal(s: Seq<char>) -> Option<Seq<char>>
    decreases s.len(),
{
    if s.len() == 0 {
        None
    } else if s[0] == '"' {
        if s.len() == 1 {
            Some(Seq::empty())
        } else {
            None
        }
    } else if s[0] == '\n' || s[0] == '\r' {
        None
    } else if s[0] == '\\' {
        if s.len() < 2 {
            None
        } else {
            match (lua_unescaped(s[1]), lua_literal(s.skip(2))) {
                (Some(c), Some(rest)) => Some(seq![c] + rest),
                _ => None,
            }
        }
    } else {
        match lua_literal(s.skip(1)) {
            Some(rest) => Some(seq![s[0]] + rest),
            None => None,
        }
    }
}

/// What an escape stands for.
pub open spec fn lua_unescaped(c: char) -> Option<char> {
    if c == '\\' || c == '"' {
        Some(c)
    } else if c == 'n' {
        Some('\n')
    } else if c == 'r' {
        Some('\r')
    } else {
        None
    }
}

/// An escaped text between quotes is one literal, and reads as the text: it
/// can neither end the literal early nor change on the way.
pub proof fn lua_escape_round_trip(s: Seq<char>)
    ensures
        lua_literal(lua_escaped(s).push('"')) == Some(s),
    decreases s.len(),
{
    let literal = lua_escaped(s).push('"');
    if s.len() == 0 {
        assert(literal == seq!['"']);
        assert(s == Seq::<char>::empty());
    } else {
        lua_escape_round_trip(s.skip(1));
        let head = lua_escaped_char(s[0]);
        let tail = lua_escaped(s.skip(1)).push('"');
        assert(literal == head + tail);
        assert(literal.skip(head.len() as int) == tail);
        assert(seq![s[0]] + s.skip(1) == s);
    }
}

/// Escapes a string for embedding in a double-quoted Lua string literal.
pub fn lua_string_escape(s: &str) -> (r: String)
    ensures
        r@ == lua_escaped(s@),
{
    let chars = text::chars_of(s);
    let mut out = String::new();
    let mut i: usize = 0;
    assert(s@.skip(0) == s@);
    while i < chars.len()
        invariant
            i <= chars@.len(),
            chars@ == s@,
            out@ + lua_escaped(s@.skip(i as int)) == lua_escaped(s@),
        decreases chars@.len() - i,
    {
        let c = chars[i];
        let ghost before = out@;
        let ghost rest = s@.skip(i as int);
        assert(rest[0] == c);
        assert(rest.skip(1) == s@.skip(i as int + 1));
        if c == '\\' {
            out.push('\\');
            out.push('\\');
        } else if c == '"' {
            out.push('\\');
            out.push('"');
        } else if c == '\n' {
            out.push('\\');
            out.push('n');
        } else if c == '\r' {
            out.push('\\');
            out.push('r');
        } else {
            out.push(c);
        }
        assert(out@ == before + lua_escaped_char(c));
        i += 1;
        assert(out@ + lua_escaped(s@.skip(i as int)) == lua_escaped(s@));
    }
    assert(s@.skip(i as int) == Seq::<char>::empty());
    assert(out@ == lua_escaped(s@));
    out
}

/// A dispatcher in both syntaxes.
#[derive(Debug, Clone)]
pub struct Dispatcher {
    pub legacy: String,
    pub lua: String,
}

impl Dispatcher {
    /// The dispatcher reads so in the two syntaxes.
    pub open spec fn reads(self, legacy: Seq<char>, lua: Seq<char>) -> bool {
        self.legacy@ == legacy && self.lua@ == lua
    }
}

/// One attempt at a dispatch, to be sent to the compositor.
#[derive(Debug)]
pub struct Attempt {
    /// What is dispatched.
    pub payload: String,
    /// The syntax that it is in.
    pub syntax: DispatchSyntax,
    /// The payload in the other syntax, while that has not been tried.
    pub fallback: Option<String>,
    /// What was dispatched first.
    pub command: String,
}

/// What follows from the reply to an attempt.
#[derive(Debug)]
pub enum DispatchOutcome {
    /// The dispatch is through.
    Done,
    /// Send this next.
    Retry(Attempt),
    /// Neither syntax was accepted.
    Rejected(DockError),
}

/// The syntax that is not `syntax`.
pub open spec fn other_syntax(syntax: DispatchSyntax) -> DispatchSyntax {
    if syntax == DispatchSyntax::Lua {
        DispatchSyntax::Legacy
    } else {
        DispatchSyntax::Lua
    }
}

/// The syntax to try first.
pub open spec fn preferred(syntax: DispatchSyntax) -> DispatchSyntax {
    if syntax == DispatchSyntax::Lua {
        DispatchSyntax::Lua
    } else {
        DispatchSyntax::Legacy
    }
}

/// The payload in a syntax.
pub open spec fn payload_in(d: Dispatcher, syntax: DispatchSyntax) -> Seq<char> {
    if syntax == DispatchSyntax::Lua {
        d.lua@
    } else {
        d.legacy@
    }
}

impl Attempt {
    /// The first attempt at `d` in a session that is known to speak `cached`.
    pub open spec fn is_first(self, d: Dispatcher, cached: DispatchSyntax) -> bool {
        &&& self.syntax == preferred(cached)
        &&& self.payload@ == payload_in(d, self.syntax)
        &&& self.command@ == self.payload@
        &&& self.fallback matches Some(p) && p@ == payload_in(d, other_syntax(self.syntax))
    }

    /// What to send to the compositor.
    pub fn request(&self) -> (r: String)
        ensures
            r@ == "dispatch "@ + self.payload@,
    {
        let mut out = "dispatch ".to_owned();
        out.append(self.payload.as_str());
        out
    }
}

/// `outcome` is what follows from `reply` to `attempt`, and `after` what is
/// then known of the session of which `before` was known.
pub open spec fn follows(
    attempt: Attempt,
    reply: Seq<char>,
    before: DispatchSyntax,
    outcome: DispatchOutcome,
    after: DispatchSyntax,
) -> bool {
    if classified(reply) != DispatchReply::WrongSyntax {
        outcome is Done && after == attempt.syntax
    } else {
        &&& after == before
        &&& match (attempt.fallback, outcome) {
            (Some(payload), DispatchOutcome::Retry(next)) => {
                &&& next.payload@ == payload@
                &&& next.syntax == other_syntax(attempt.syntax)
                &&& next.fallback is None
                &&& next.command@ == attempt.command@
            },
            (
                None,
                DispatchOutcome::Rejected(DockError::DispatchRejected { command, reply: shown }),
            ) => command@ == attempt.command@ && shown@ == text::trim(reply),
            _ => false,
        }
    }
}

/// Hyprland compositor backend.
#[derive(Debug)]
pub struct HyprlandBackend {
    pub dispatch_syntax: DispatchSyntax,
}

impl HyprlandBackend {
    /// A backend for the instance with this signature, the value of
    /// `HYPRLAND_INSTANCE_SIGNATURE`.
    pub fn new(signature: Option<&str>) -> (r: Result<HyprlandBackend, DockError>)
        ensures
            match (r, signature) {
                (Ok(backend), Some(_)) => backend.dispatch_syntax == DispatchSyntax::Unknown,
                (Err(DockError::EnvNotSet(name)), None) => name@
                    == "HYPRLAND_INSTANCE_SIGNATURE"@,
                _ => false,
            },
    {
        match ipc::instance_signature(signature) {
            Ok(_) => Ok(HyprlandBackend { dispatch_syntax: DispatchSyntax::Unknown }),
            Err(e) => Err(e),
        }
    }

    /// Begins a dispatch: the attempt to send first.
    ///
    /// It is in the syntax that the session is known to speak, or in the legacy
    /// one while that is unknown.
    pub fn dispatch(&self, d: &Dispatcher) -> (r: Attempt)
        ensures
            r.is_first(*d, self.dispatch_syntax),
    {
        if self.dispatch_syntax == DispatchSyntax::Lua {
            Attempt {
                payload: d.lua.clone(),
                syntax: DispatchSyntax::Lua,
                fallback: Some(d.legacy.clone()),
                command: d.lua.clone(),
            }
        } else {
            Attempt {
                payload: d.legacy.clone(),
                syntax: DispatchSyntax::Legacy,
                fallback: Some(d.lua.clone()),
                command: d.legacy.clone(),
            }
        }
    }

    /// Takes the reply to an attempt.
    ///
    /// A reply that the syntax is wrong leads to the other syntax, once. Any
    /// other reply ends the dispatch, and the syntax is remembered, so that
    /// from then on one round-trip is enough. A reply that the dispatch did not
    /// apply counts as success: the window may simply have closed under the
    /// click.
    pub fn on_reply_text(&mut self, attempt: Attempt, reply: &str) -> (r: DispatchOutcome)
        ensures
            follows(
                attempt,
                reply@,
                old(self).dispatch_syntax,
                r,
                final(self).dispatch_syntax,
            ),
    {
        match classify_dispatch_reply(reply) {
            DispatchReply::Accepted | DispatchReply::Failed => {
                self.dispatch_syntax = attempt.syntax;
                DispatchOutcome::Done
            },
            DispatchReply::WrongSyntax => match attempt.fallback {
                Some(payload) => {
                    let syntax = if attempt.syntax == DispatchSyntax::Lua {
                        DispatchSyntax::Legacy
                    } else {
                        DispatchSyntax::Lua
                    };
                    DispatchOutcome::Retry(
                        Attempt { payload, syntax, fallback: None, command: attempt.command },
                    )
                },
                None => DispatchOutcome::Rejected(
                    DockError::DispatchRejected {
                        command: attempt.command,
                        reply: text::trimmed_text(reply),
                    },
                ),
            },
        }
    }

    /// Takes the reply to an attempt, as it came over the socket.
    pub fn on_reply(&mut self, attempt: Attempt, reply: &[u8]) -> (r: DispatchOutcome)
        ensures
            follows(
                attempt,
                encoding::lossy_text(reply@),
                old(self).dispatch_syntax,
                r,
                final(self).dispatch_syntax,
            ),
            valid_utf8(reply@) ==> follows(
                attempt,
                decode_utf8(reply@),
                old(self).dispatch_syntax,
                r,
                final(self).dispatch_syntax,
            ),
    {
        let reply = encoding::utf8_lossy(reply);
        self.on_reply_text(attempt, reply.as_str())
    }

    /// The dispatcher that gives a window the focus.
    pub fn focus_window(&self, id: &str) -> (r: Dispatcher)
        ensures
            r.reads(
                "focuswindow address:"@ + id@,
                "hl.dsp.focus({ window = \"address:"@ + id@ + "\" })"@,
            ),
    {
        Dispatcher {
            legacy: text::concat("focuswindow address:", id),
            lua: text::concat3("hl.dsp.focus({ window = \"address:", id, "\" })"),
        }
    }

    /// The dispatcher that closes a window.
    pub fn close_window(&self, id: &str) -> (r: Dispatcher)
        ensures
            r.reads(
                "closewindow address:"@ + id@,
                "hl.dsp.window.close({ window = \"address:"@ + id@ + "\" })"@,
            ),
    {
        Dispatcher {
            legacy: text::concat("closewindow address:", id),
            lua: text::concat3("hl.dsp.window.close({ window = \"address:", id, "\" })"),
        }
    }

    /// The dispatcher that toggles whether a window floats.
    pub fn toggle_floating(&self, id: &str) -> (r: Dispatcher)
        ensures
            r.reads(
                "togglefloating address:"@ + id@,
                "hl.dsp.window.float({ window = \"address:"@ + id@ + "\" })"@,
            ),
    {
        Dispatcher {
            legacy: text::concat("togglefloating address:", id),
            lua: text::concat3("hl.dsp.window.float({ window = \"address:", id, "\" })"),
        }
    }

    /// The dispatcher that toggles whether a window fills the screen.
    pub fn toggle_fullscreen(&self, id: &str) -> (r: Dispatcher)
        ensures
            r.reads(
                "fullscreen address:"@ + id@,
                "hl.dsp.window.fullscreen({ window = \"address:"@ + id@ + "\" })"@,
            ),
    {
        Dispatcher {
            legacy: text::concat("fullscreen address:", id),
            lua: text::concat3("hl.dsp.window.fullscreen({ window = \"address:", id, "\" })"),
        }
    }

    /// The dispatcher that moves a window to a workspace.
    pub fn move_to_workspace(&self, id: &str, workspace: i32) -> (r: Dispatcher)
        ensures
            r.reads(
                "movetoworkspace "@ + number::int_text(workspace as int) + ",address:"@ + id@,
                "hl.dsp.window.move({ workspace = "@ + number::int_text(workspace as int)
                    + ", window = \"address:"@ + id@ + "\" })"@,
            ),
    {
        let number = number::i64_text(workspace as i64);
        let mut legacy = text::concat3("movetoworkspace ", number.as_str(), ",address:");
        legacy.append(id);
        let mut lua = text::concat3(
            "hl.dsp.window.move({ workspace = ",
            number.as_str(),
            ", window = \"address:",
        );
        lua.append(id);
        lua.append("\" })");
        Dispatcher { legacy, lua }
    }

    /// The dispatcher that switches to a workspace.
    pub fn focus_workspace(&self, workspace: i32) -> (r: Dispatcher)
        ensures
            r.reads(
                "workspace "@ + number::int_text(workspace as int),
                "hl.dsp.focus({ workspace = "@ + number::int_text(workspace as int) + " })"@,
            ),
    {
        let number = number::i64_text(workspace as i64);
        Dispatcher {
            legacy: text::concat("workspace ", number.as_str()),
            lua: text::concat3("hl.dsp.focus({ workspace = ", number.as_str(), " })"),
        }
    }

    /// The dispatcher that toggles a special workspace.
    pub fn toggle_special_workspace(&self, name: &str) -> (r: Dispatcher)
        ensures
            r.reads(
                "togglespecialworkspace "@ + name@,
                "hl.dsp.workspace.toggle_special(\""@ + lua_escaped(name@) + "\")"@,
            ),
    {
        Dispatcher {
            legacy: text::concat("togglespecialworkspace ", name),
            lua: text::concat3(
                "hl.dsp.workspace.toggle_special(\"",
                lua_string_escape(name).as_str(),
                "\")",
            ),
        }
    }

    /// The dispatcher that raises the active window.
    pub fn raise_active(&self) -> (r: Dispatcher)
        ensures
            r.reads("bringactivetotop"@, "hl.dsp.window.bring_to_top()"@),
    {
        Dispatcher {
            legacy: "bringactivetotop".to_owned(),
            lua: "hl.dsp.window.bring_to_top()".to_owned(),
        }
    }

    /// The dispatcher that launches a command.
    pub fn exec(&self, cmd: &str) -> (r: Dispatcher)
        ensures
            r.reads(
                "exec "@ + compositor::sanitized(cmd@),
                "hl.dsp.exec_cmd(\""@ + lua_escaped(compositor::sanitized(cmd@)) + "\")"@,
            ),
    {
        let sanitized = compositor::sanitize_exec_command(cmd);
        Dispatcher {
            legacy: text::concat("exec ", sanitized.as_str()),
            lua: text::concat3(
                "hl.dsp.exec_cmd(\"",
                lua_string_escape(sanitized.as_str()).as_str(),
                "\")",
            ),
        }
    }

    /// The cursor position in the answer to `j/cursorpos`.
    pub fn get_cursor_position(&self, reply: &[u8]) -> (r: Option<(i32, i32)>)
        ensures
            r == (match json::json_text(reply@) {
                Some(value) => cursor_position(value),
                None => None,
            }),
    {
        match json::parse_json(reply) {
            Ok(value) => cursor_from_json(&value),
            Err(_) => None,
        }
    }

    /// Whether this compositor supports cursor position queries.
    pub fn supports_cursor_position(&self) -> (r: bool)
        ensures
            r,
    {
        true
    }
}

/// A dispatch takes at most two round-trips: after a second attempt nothing is
/// sent.
pub proof fn at_most_two_round_trips(
    d: Dispatcher,
    first: Attempt,
    reply: Seq<char>,
    second: Attempt,
    second_reply: Seq<char>,
    cached: DispatchSyntax,
    outcome: DispatchOutcome,
    after: DispatchSyntax,
)
    requires
        first.is_first(d, cached),
        follows(first, reply, cached, DispatchOutcome::Retry(second), cached),
        follows(second, second_reply, cached, outcome, after),
    ensures
        !(outcome is Retry),
{
}

/// Steady state is one round-trip: what a reply confirmed is what the next
/// dispatch tries first.
pub proof fn confirmed_syntax_is_tried_first(
    attempt: Attempt,
    reply: Seq<char>,
    cached: DispatchSyntax,
    after: DispatchSyntax,
    d: Dispatcher,
    next: Attempt,
)
    requires
        attempt.syntax != DispatchSyntax::Unknown,
        follows(attempt, reply, cached, DispatchOutcome::Done, after),
        next.is_first(d, after),
    ensures
        next.syntax == attempt.syntax,
        next.payload@ == payload_in(d, attempt.syntax),
{
}

/// A dispatch is rejected only where the session rejects both syntaxes, and
/// nothing is then concluded about which one it speaks. The error names what
/// was sent first.
pub proof fn rejected_only_in_both_syntaxes(
    d: Dispatcher,
    first: Attempt,
    reply: Seq<char>,
    outcome: DispatchOutcome,
    second: Attempt,
    second_reply: Seq<char>,
    cached: DispatchSyntax,
    after_first: DispatchSyntax,
    after: DispatchSyntax,
    error: DockError,
)
    requires
        first.is_first(d, cached),
        follows(first, reply, cached, outcome, after_first),
        follows(second, second_reply, after_first, DispatchOutcome::Rejected(error), after),
        outcome == DispatchOutcome::Retry(second),
    ensures
        classified(reply) == DispatchReply::WrongSyntax,
        classified(second_reply) == DispatchReply::WrongSyntax,
        second.payload@ == payload_in(d, other_syntax(preferred(cached))),
        after == cached,
        error matches DockError::DispatchRejected { command, .. } && command@ == payload_in(
            d,
            preferred(cached),
        ),
{
}

/// The coordinates in an answer that has both.
pub open spec fn cursor_position(value: JsonView) -> Option<(i32, i32)> {
    match (value.i64_at("x"@), value.i64_at("y"@)) {
        (Some(x), Some(y)) => Some((x as i32, y as i32)),
        _ => None,
    }
}

/// The cursor position in an answer.
pub fn cursor_from_json(value: &Json) -> (r: Option<(i32, i32)>)
    ensures
        r == cursor_position(value@),
{
    let x: i64 = match value.i64_at("x") {
        Some(x) => x,
        None => return None,
    };
    let y: i64 = match value.i64_at("y") {
        Some(y) => y,
        None => return None,
    };
    Some((x as i32, y as i32))
}

/// The event in the terms of every compositor.
pub open spec fn wm_event(event: HyprEventView) -> WmEventView {
    match event {
        HyprEventView::ActiveWindowV2(address) => WmEventView::ActiveWindowChanged(address),
        HyprEventView::MonitorChanged => WmEventView::MonitorChanged,
        HyprEventView::WorkspaceV2 { id, name } => WmEventView::WorkspaceChanged { id, name },
        HyprEventView::Other(line) => WmEventView::Other(line),
    }
}

/// Maps a low-level [`HyprEvent`] to the high-level cross-compositor
/// [`WmEvent`].
pub fn map_hypr_event(event: HyprEvent) -> (r: WmEvent)
    ensures
        r@ == wm_event(event@),
{
    match event {
        HyprEvent::ActiveWindowV2(address) => WmEvent::ActiveWindowChanged(address),
        HyprEvent::MonitorChanged => WmEvent::MonitorChanged,
        HyprEvent::WorkspaceV2 { id, name } => WmEvent::WorkspaceChanged { id, name },
        HyprEvent::Other(line) => WmEvent::Other(line),
    }
}

/// Converts a Hyprland client to a compositor-neutral [`WmClient`].
///
/// Not carried over, as docks and drawers need none of it: mapped, hidden, at,
/// size, initial_title, xwayland, pinned, fake_fullscreen, fullscreen_mode,
/// grouped, swallowing.
pub fn to_wm_client(c: HyprClient) -> (r: WmClient)
    ensures
        r@ == (WmClientView {
            id: c.address@,
            class: c.class@,
            initial_class: c.initial_class@,
            title: c.title@,
            pid: c.pid,
            workspace: WmWorkspaceView { id: c.workspace.id, name: c.workspace.name@ },
            floating: c.floating,
            monitor_id: c.monitor,
            fullscreen: c.fullscreen != 0,
        }),
{
    WmClient {
        id: c.address,
        class: c.class,
        initial_class: c.initial_class,
        title: c.title,
        pid: c.pid,
        workspace: WmWorkspace { id: c.workspace.id, name: c.workspace.name },
        floating: c.floating,
        monitor_id: c.monitor,
        fullscreen: c.fullscreen != 0,
    }
}

/// A transform that exchanges width and height: by a quarter turn, either way,
/// flipped or not.
pub open spec fn is_quarter_turn(transform: i32) -> bool {
    transform == 1 || transform == 3 || transform == 5 || transform == 7
}

/// The width and height of a monitor once it is turned.
pub open spec fn turned_size(m: HyprMonitor) -> (i32, i32) {
    if is_quarter_turn(m.transform) {
        (m.height, m.width)
    } else {
        (m.width, m.height)
    }
}

/// The scale of a monitor, one where what it reports is not positive.
pub open spec fn effective_scale(m: HyprMonitor) -> Double {
    if m.scale.positive() {
        m.scale
    } else {
        Double { bits: number::ONE_BITS }
    }
}

/// The pixel size of a monitor once it is turned, and the scale by which to
/// divide it for the logical size.
pub fn logical_size_inputs(m: &HyprMonitor) -> (r: ((i32, i32), Double))
    ensures
        r.0 == turned_size(*m),
        r.1 == effective_scale(*m),
        r.1.positive(),
{
    let size: (i32, i32) = if m.transform == 1 || m.transform == 3 || m.transform == 5
        || m.transform == 7 {
        (m.height, m.width)
    } else {
        (m.width, m.height)
    };
    let scale = if m.scale.is_positive() {
        m.scale
    } else {
        Double::one()
    };
    (size, scale)
}

/// Converts a Hyprland monitor to a compositor-neutral [`WmMonitor`].
///
/// Hyprland reports native pixel dimensions (before transform or scale), but
/// cursor coordinates use the logical layout space (after transform and
/// scale). `width` and `height` are the logical dimensions: the size of
/// [`logical_size_inputs`] divided by its scale and rounded.
pub fn to_wm_monitor(m: HyprMonitor, width: i32, height: i32) -> (r: WmMonitor)
    ensures
        r@ == (WmMonitorView {
            id: m.id,
            name: m.name@,
            width,
            height,
            x: m.x,
            y: m.y,
            scale: effective_scale(m),
            focused: m.focused,
            active_workspace: WmWorkspaceView {
                id: m.active_workspace.id,
                name: m.active_workspace.name@,
            },
        }),
{
    let (_, scale) = logical_size_inputs(&m);
    WmMonitor {
        id: m.id,
        name: m.name,
        width,
        height,
        x: m.x,
        y: m.y,
        scale,
        focused: m.focused,
        active_workspace: WmWorkspace { id: m.active_workspace.id, name: m.active_workspace.name },
    }
}

/// A reply says that a dispatch was accepted where it is `ok` but for white space,
/// that the syntax is wrong where it names an invalid dispatcher or an error, and
/// that the dispatch failed in all other cases.
pub proof fn replies_are_told_apart(
    reply: &str,
    t: Seq<char>,
    before: Seq<char>,
    behind: Seq<char>,
    r: DispatchReply,
)
    requires
        call_ensures(classify_dispatch_reply, (reply,), r),
        text::is_trimmed(t, reply@, before, behind),
    ensures
        r == DispatchReply::Accepted <==> t == seq!['o', 'k'],
        r == DispatchReply::WrongSyntax <==> "Invalid dispatcher"@.is_prefix_of(t)
            || "error:"@.is_prefix_of(t),
{
    text::trimmed_text_is_unique(t, reply@, before, behind);
    reveal_strlit("ok");
    reveal_strlit("Invalid dispatcher");
    reveal_strlit("error:");
    assert("ok"@ == seq!['o', 'k']);
    assert("ok"@.len() == 2 && "Invalid dispatcher"@.len() == 18 && "error:"@.len() == 6);
    let invalid = "Invalid dispatcher"@;
    let error = "error:"@;
    if text::starts_with(t, invalid) {
        assert(invalid.is_prefix_of(t));
    }
    if text::starts_with(t, error) {
        assert(error.is_prefix_of(t));
    }
    if invalid.is_prefix_of(t) {
        assert(t.take(invalid.len() as int) == invalid);
    }
    if error.is_prefix_of(t) {
        assert(t.take(error.len() as int) == error);
    }
}

/// A window keeps what Hyprland reports of it, each under its own name.
pub proof fn windows_keep_what_is_reported(c: HyprClient, r: WmClient)
    requires
        call_ensures(to_wm_client, (c,), r),
    ensures
        r.id@ == c.address@,
        r.class@ == c.class@,
        r.initial_class@ == c.initial_class@,
        r.title@ == c.title@,
        r.pid == c.pid,
        r.workspace.id == c.workspace.id,
        r.workspace.name@ == c.workspace.name@,
        r.floating == c.floating,
        r.monitor_id == c.monitor,
        r.fullscreen <==> c.fullscreen != 0,
{
    assert(r@.id == r.id@ && r@.class == r.class@ && r@.initial_class == r.initial_class@
        && r@.title == r.title@);
    assert(r@.workspace == r.workspace@);
    assert(r.workspace@.name == r.workspace.name@ && r.workspace@.id == r.workspace.id);
}

/// A monitor keeps what Hyprland reports of it, but for its size, which is the
/// logical one.
pub proof fn monitors_keep_what_is_reported(m: HyprMonitor, width: i32, height: i32, r: WmMonitor)
    requires
        call_ensures(to_wm_monitor, (m, width, height), r),
    ensures
        r.id == m.id,
        r.name@ == m.name@,
        r.width == width,
        r.height == height,
        r.x == m.x,
        r.y == m.y,
        r.focused == m.focused,
        r.active_workspace.id == m.active_workspace.id,
        r.active_workspace.name@ == m.active_workspace.name@,
        m.scale.positive() ==> r.scale == m.scale,
        !m.scale.positive() ==> r.scale.bits == number::ONE_BITS,
{
    assert(r@.name == r.name@ && r@.active_workspace == r.active_workspace@);
    assert(r.active_workspace@.name == r.active_workspace.name@ && r.active_workspace@.id
        == r.active_workspace.id);
}

/// A quarter turn exchanges width and height, and nothing else does. The scale is
/// the one reported, or one where that is not positive.
pub proof fn quarter_turns_exchange_the_sides(m: HyprMonitor, r: ((i32, i32), Double))
    requires
        call_ensures(logical_size_inputs, (&m,), r),
    ensures
        0 <= m.transform < 8 && m.transform % 2 == 1 ==> r.0 == (m.height, m.width),
        0 <= m.transform < 8 && m.transform % 2 == 0 ==> r.0 == (m.width, m.height),
        !(0 <= m.transform < 8) ==> r.0 == (m.width, m.height),
        m.scale.positive() ==> r.1 == m.scale,
        !m.scale.positive() ==> r.1.bits == number::ONE_BITS,
{
}

/// An event keeps what it carries.
pub proof fn events_keep_what_they_carry(event: HyprEvent, r: WmEvent)
    requires
        call_ensures(map_hypr_event, (event,), r),
    ensures
        match event {
            HyprEvent::ActiveWindowV2(address) => r matches WmEvent::ActiveWindowChanged(id)
                && id@ == address@,
            HyprEvent::MonitorChanged => r is MonitorChanged,
            HyprEvent::WorkspaceV2 { id, name } => r matches WmEvent::WorkspaceChanged {
                id: number,
                name: called,
            } && number == id && called@ == name@,
            HyprEvent::Other(line) => r matches WmEvent::Other(same) && same@ == line@,
        },
{
}

/// The cursor is where both of its coordinates say, and nowhere where one is
/// missing.
pub proof fn cursor_has_both_coordinates(value: Json, r: Option<(i32, i32)>)
    requires
        call_ensures(cursor_from_json, (&value,), r),
    ensures
        r is Some <==> value@.i64_at("x"@) is Some && value@.i64_at("y"@) is Some,
        r matches Some((x, y)) ==> x == value@.i64_at("x"@)->0 as i32 && y
            == value@.i64_at("y"@)->0 as i32,
{
}

/// Escaping goes character by character: a backslash, a quote and the two line ends
/// become two characters, any other stays.
pub proof fn escaping_goes_character_by_character(a: Seq<char>, b: Seq<char>, c: char)
    ensures
        lua_escaped(a + b) == lua_escaped(a) + lua_escaped(b),
        c != '\\' && c != '"' && c != '\n' && c != '\r' ==> lua_escaped(seq![c]) == seq![c],
        lua_escaped(seq!['\\']) == seq!['\\', '\\'],
        lua_escaped(seq!['"']) == seq!['\\', '"'],
        lua_escaped(seq!['\n']) == seq!['\\', 'n'],
        lua_escaped(seq!['\r']) == seq!['\\', 'r'],
    decreases a.len(),
{
    lemma_escaped_single(c);
    lemma_escaped_single('\\');
    lemma_escaped_single('"');
    lemma_escaped_single('\n');
    lemma_escaped_single('\r');
    if a.len() == 0 {
        assert(a + b == b);
        assert(lua_escaped(a) + lua_escaped(b) == lua_escaped(b));
    } else {
        assert((a + b).skip(1) == a.skip(1) + b);
        assert((a + b)[0] == a[0]);
        escaping_goes_character_by_character(a.skip(1), b, c);
        assert(lua_escaped_char(a[0]) + (lua_escaped(a.skip(1)) + lua_escaped(b))
            == lua_escaped_char(a[0]) + lua_escaped(a.skip(1)) + lua_escaped(b));
    }
}

proof fn lemma_escaped_single(c: char)
    ensures
        lua_escaped(seq![c]) == lua_escaped_char(c),
{
    assert(seq![c].skip(1).len() == 0);
    assert(lua_escaped(seq![c].skip(1)) == Seq::<char>::empty());
    assert(lua_escaped_char(c) + Seq::<char>::empty() == lua_escaped_char(c));
}

/// A dispatch is first tried in the syntax that the session is known to speak, and
/// in the legacy one while that is not known; the other is kept for a second try.
pub proof fn known_syntax_is_tried_first(b: HyprlandBackend, d: Dispatcher, r: Attempt)
    requires
        call_ensures(HyprlandBackend::dispatch, (&b, &d), r),
    ensures
        b.dispatch_syntax == DispatchSyntax::Lua ==> r.syntax == DispatchSyntax::Lua && r.payload@
            == d.lua@ && r.fallback is Some && r.fallback->0@ == d.legacy@,
        b.dispatch_syntax != DispatchSyntax::Lua ==> r.syntax == DispatchSyntax::Legacy
            && r.payload@ == d.legacy@ && r.fallback is Some && r.fallback->0@ == d.lua@,
        r.command@ == r.payload@,
{
}

/// A reply that the syntax is wrong leads to the other syntax, with what was kept
/// for it, and leaves open which one the session speaks. Any other reply settles
/// it: the session speaks the syntax of the attempt.
pub proof fn wrong_syntax_leads_to_the_other(
    attempt: Attempt,
    reply: Seq<char>,
    before: DispatchSyntax,
    outcome: DispatchOutcome,
    after: DispatchSyntax,
)
    requires
        follows(attempt, reply, before, outcome, after),
    ensures
        classified(reply) == DispatchReply::WrongSyntax ==> after == before,
        classified(reply) != DispatchReply::WrongSyntax ==> after == attempt.syntax
            && outcome is Done,
        classified(reply) == DispatchReply::WrongSyntax && attempt.fallback is Some ==> (
        outcome matches DispatchOutcome::Retry(next) && next.payload@ == attempt.fallback->0@
            && next.syntax != attempt.syntax && next.fallback is None),
        classified(reply) == DispatchReply::WrongSyntax && attempt.fallback is None
            ==> outcome is Rejected,
{
}

/// A command on a window names that window whatever its id: the legacy form ends
/// with the id, and but for the id it is the same for every window; so is the Lua
/// form, in which the id stands before the closing quote.
pub proof fn commands_name_their_window(
    b: HyprlandBackend,
    one: &str,
    other: &str,
    focus: (Dispatcher, Dispatcher),
    close: (Dispatcher, Dispatcher),
    float: (Dispatcher, Dispatcher),
    fill: (Dispatcher, Dispatcher),
)
    requires
        call_ensures(HyprlandBackend::focus_window, (&b, one), focus.0),
        call_ensures(HyprlandBackend::focus_window, (&b, other), focus.1),
        call_ensures(HyprlandBackend::close_window, (&b, one), close.0),
        call_ensures(HyprlandBackend::close_window, (&b, other), close.1),
        call_ensures(HyprlandBackend::toggle_floating, (&b, one), float.0),
        call_ensures(HyprlandBackend::toggle_floating, (&b, other), float.1),
        call_ensures(HyprlandBackend::toggle_fullscreen, (&b, one), fill.0),
        call_ensures(HyprlandBackend::toggle_fullscreen, (&b, other), fill.1),
    ensures
        differ_by_id(focus, one@, other@),
        differ_by_id(close, one@, other@),
        differ_by_id(float, one@, other@),
        differ_by_id(fill, one@, other@),
{
    lemma_differ_by_id(
        focus,
        one@,
        other@,
        "focuswindow address:"@,
        "hl.dsp.focus({ window = \"address:"@,
        "\" })"@,
    );
    lemma_differ_by_id(
        close,
        one@,
        other@,
        "closewindow address:"@,
        "hl.dsp.window.close({ window = \"address:"@,
        "\" })"@,
    );
    lemma_differ_by_id(
        float,
        one@,
        other@,
        "togglefloating address:"@,
        "hl.dsp.window.float({ window = \"address:"@,
        "\" })"@,
    );
    lemma_differ_by_id(
        fill,
        one@,
        other@,
        "fullscreen address:"@,
        "hl.dsp.window.fullscreen({ window = \"address:"@,
        "\" })"@,
    );
}

/// The two commands are the same but for the ids of their windows.
pub open spec fn differ_by_id(
    commands: (Dispatcher, Dispatcher),
    one: Seq<char>,
    other: Seq<char>,
) -> bool {
    &&& exists|before: Seq<char>|
        commands.0.legacy@ == #[trigger] (before + one) && commands.1.legacy@ == before + other
    &&& exists|before: Seq<char>, after: Seq<char>|
        commands.0.lua@ == #[trigger] (before + one + after) && commands.1.lua@ == before + other
            + after && after.len() > 0 && after[0] == '"'
}

proof fn lemma_differ_by_id(
    commands: (Dispatcher, Dispatcher),
    one: Seq<char>,
    other: Seq<char>,
    legacy: Seq<char>,
    lua: Seq<char>,
    end: Seq<char>,
)
    requires
        commands.0.reads(legacy + one, lua + one + end),
        commands.1.reads(legacy + other, lua + other + end),
        end == "\" })"@,
    ensures
        differ_by_id(commands, one, other),
{
    reveal_strlit("\" })");
    assert(end[0] == '"');
    assert(commands.0.legacy@ == legacy + one);
    assert(commands.0.lua@ == lua + one + end);
}

/// A command is launched sanitized, in both syntaxes: the legacy form is `exec` with
/// the command behind it, and in the Lua form the literal reads as the command.
pub proof fn commands_are_launched_sanitized(b: HyprlandBackend, cmd: &str, r: Dispatcher)
    requires
        call_ensures(HyprlandBackend::exec, (&b, cmd), r),
    ensures
        r.legacy@ == seq!['e', 'x', 'e', 'c', ' '] + compositor::sanitized(cmd@),
        exists|literal: Seq<char>|
            r.lua@ == #[trigger] ("hl.dsp.exec_cmd(\""@ + literal + ")"@) && lua_literal(literal)
                == Some(compositor::sanitized(cmd@)),
{
    let command = compositor::sanitized(cmd@);
    reveal_strlit("exec ");
    reveal_strlit("\")");
    reveal_strlit(")");
    assert("exec "@ == seq!['e', 'x', 'e', 'c', ' ']);
    lua_escape_round_trip(command);
    let literal = lua_escaped(command).push('"');
    assert("\")"@ == seq!['"'] + ")"@);
    assert("hl.dsp.exec_cmd(\""@ + lua_escaped(command) + "\")"@ == "hl.dsp.exec_cmd(\""@ + literal
        + ")"@);
}

/// A command on a workspace names it by its number, whatever that is, and is the same
/// for every workspace but for the number; a move also ends with the window.
pub proof fn commands_name_their_workspace(
    b: HyprlandBackend,
    id: &str,
    one: i32,
    other: i32,
    moves: (Dispatcher, Dispatcher),
    switches: (Dispatcher, Dispatcher),
)
    requires
        call_ensures(HyprlandBackend::move_to_workspace, (&b, id, one), moves.0),
        call_ensures(HyprlandBackend::move_to_workspace, (&b, id, other), moves.1),
        call_ensures(HyprlandBackend::focus_workspace, (&b, one), switches.0),
        call_ensures(HyprlandBackend::focus_workspace, (&b, other), switches.1),
    ensures
        exists|before: Seq<char>, after: Seq<char>|
            {
                &&& moves.0.legacy@ == #[trigger] (before + number::int_text(one as int) + after)
                    + id@
                &&& moves.1.legacy@ == before + number::int_text(other as int) + after + id@
            },
        exists|before: Seq<char>, after: Seq<char>|
            {
                &&& moves.0.lua@ == #[trigger] (before + number::int_text(one as int) + after) + id@
                    + "\" })"@
                &&& moves.1.lua@ == before + number::int_text(other as int) + after + id@ + "\" })"@
            },
        exists|before: Seq<char>|
            {
                &&& switches.0.legacy@ == #[trigger] (before + number::int_text(one as int))
                &&& switches.1.legacy@ == before + number::int_text(other as int)
            },
        exists|before: Seq<char>, after: Seq<char>|
            {
                &&& switches.0.lua@ == #[trigger] (before + number::int_text(one as int) + after)
                &&& switches.1.lua@ == before + number::int_text(other as int) + after
            },
{
    let first = number::int_text(one as int);
    assert(moves.0.legacy@ == ("movetoworkspace "@ + first + ",address:"@) + id@);
    assert(moves.0.lua@ == ("hl.dsp.window.move({ workspace = "@ + first
        + ", window = \"address:"@) + id@ + "\" })"@);
    assert(switches.0.legacy@ == "workspace "@ + first);
    assert(switches.0.lua@ == "hl.dsp.focus({ workspace = "@ + first + " })"@);
}

/// A special workspace is toggled by its name, whatever that holds: the legacy form
/// ends with it, and in the Lua form the literal reads as it.
pub proof fn special_workspaces_are_named(b: HyprlandBackend, name: &str, r: Dispatcher)
    requires
        call_ensures(HyprlandBackend::toggle_special_workspace, (&b, name), r),
    ensures
        r.legacy@ == "togglespecialworkspace "@ + name@,
        exists|literal: Seq<char>|
            r.lua@ == #[trigger] ("hl.dsp.workspace.toggle_special(\""@ + literal + ")"@)
                && lua_literal(literal) == Some(name@),
{
    reveal_strlit("\")");
    reveal_strlit(")");
    lua_escape_round_trip(name@);
    let literal = lua_escaped(name@).push('"');
    assert("\")"@ == seq!['"'] + ")"@);
    assert("hl.dsp.workspace.toggle_special(\""@ + lua_escaped(name@) + "\")"@
        == "hl.dsp.workspace.toggle_special(\""@ + literal + ")"@);
}

} // verus!
