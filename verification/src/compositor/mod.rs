//! Compositor-neutral view of the window manager: which one is running, and
//! what the backends for Hyprland, Sway and the rest have in common.

pub mod hyprland;
pub mod null;
pub mod sway;
pub mod traits;
pub mod types;

use vstd::prelude::*;
use crate::compositor::hyprland::HyprlandBackend;
use crate::compositor::null::NullCompositor;
use crate::compositor::sway::SwayBackend;
use crate::error::DockError;
use crate::launch::LaunchMode;
use crate::text;

pub use traits::{Compositor, WmEventStream};
pub use types::{WmClient, WmClientView, WmEvent, WmEventView, WmMonitor, WmMonitorView, WmWorkspace, WmWorkspaceView};

verus! {

/// `c` has a meaning of its own to a shell or to the compositor: it chains,
/// pipes or substitutes commands, or begins a new one.
pub open spec fn is_forbidden(c: char) -> bool {
    c == ';' || c == '`' || c == '$' || c == '|' || c == '&' || c == '\n' || c == '\r'
}

/// `cmd` without the forbidden characters.
pub open spec fn sanitized(cmd: Seq<char>) -> Seq<char> {
    cmd.filter(|c: char| !is_forbidden(c))
}

/// Sanitizes a command string before passing to compositor exec.
///
/// Strips characters that could be used for command injection via
/// compositor IPC (semicolons chain commands, newlines start new commands,
/// backticks/dollar signs enable substitution).
pub fn sanitize_exec_command(cmd: &str) -> (r: String)
    ensures
        r@ == sanitized(cmd@),
{
    let chars = text::chars_of(cmd);
    let ghost kept = |c: char| !is_forbidden(c);
    let mut out = String::new();
    let mut i: usize = 0;
    while i < chars.len()
        invariant
            i <= chars@.len(),
            kept == (|c: char| !is_forbidden(c)),
            out@ == chars@.take(i as int).filter(kept),
        decreases chars@.len() - i,
    {
        let c = chars[i];
        proof {
            let next = chars@.take(i as int + 1);
            assert(next.drop_last() == chars@.take(i as int));
            reveal(Seq::filter);
        }
        if !(c == ';' || c == '`' || c == '$' || c == '|' || c == '&' || c == '\n' || c == '\r') {
            out.push(c);
        }
        i += 1;
    }
    assert(chars@.take(i as int) == cmd@);
    out
}

/// No forbidden character gets through, and a command without any is left as
/// it is.
pub proof fn sanitized_is_clean(cmd: Seq<char>)
    ensures
        forall|i: int| 0 <= i < sanitized(cmd).len() ==> !is_forbidden(#[trigger] sanitized(cmd)[i]),
        (forall|i: int| 0 <= i < cmd.len() ==> !is_forbidden(#[trigger] cmd[i])) ==> sanitized(cmd)
            == cmd,
    decreases cmd.len(),
{
    reveal(Seq::filter);
    if cmd.len() > 0 {
        let front = cmd.drop_last();
        sanitized_is_clean(front);
        assert(forall|i: int| 0 <= i < front.len() ==> #[trigger] front[i] == cmd[i]);
        assert(cmd == front.push(cmd.last()));
    } else {
        assert(sanitized(cmd) == cmd);
    }
}

/// Sanitizing twice is the same as once.
pub proof fn sanitizing_is_idempotent(cmd: Seq<char>)
    ensures
        sanitized(sanitized(cmd)) == sanitized(cmd),
{
    sanitized_is_clean(cmd);
    sanitized_is_clean(sanitized(cmd));
}

/// Supported compositor backends.
#[derive(Debug, Clone, Copy, PartialEq, Eq, Structural)]
pub enum CompositorKind {
    Hyprland,
    Sway,
}

/// CLI `--wm` flag values. `Uwsm` is a launch wrapper that falls through
/// to auto-detection of the actual compositor.
#[derive(Debug, Clone, Copy, PartialEq, Eq, Structural)]
pub enum WmOverride {
    /// Force the Hyprland backend regardless of environment.
    Hyprland,
    /// Force the Sway backend regardless of environment.
    Sway,
    /// Universal Wayland Session Manager: launch wrapper, not a compositor.
    /// Detection falls through to the `HYPRLAND_INSTANCE_SIGNATURE` / `SWAYSOCK`
    /// env vars as usual.
    Uwsm,
}

/// The compositor that runs, if one of the two does. An override decides; else
/// the environment does, and Hyprland comes first.
pub open spec fn detected(
    wm_override: Option<WmOverride>,
    hyprland_set: bool,
    sway_set: bool,
) -> Option<CompositorKind> {
    match wm_override {
        Some(WmOverride::Hyprland) => Some(CompositorKind::Hyprland),
        Some(WmOverride::Sway) => Some(CompositorKind::Sway),
        _ => if hyprland_set {
            Some(CompositorKind::Hyprland)
        } else if sway_set {
            Some(CompositorKind::Sway)
        } else {
            None
        },
    }
}

/// The launch mode after detection: an override of `Uwsm` turns uwsm on.
pub open spec fn mode_after(wm_override: Option<WmOverride>, mode: LaunchMode) -> LaunchMode {
    if wm_override == Some(WmOverride::Uwsm) {
        LaunchMode { uwsm: true }
    } else {
        mode
    }
}

/// Auto-detect the running compositor from environment variables: whether
/// `HYPRLAND_INSTANCE_SIGNATURE` is set, and whether `SWAYSOCK` is.
/// Pass `wm_override` to force a specific backend (from `--wm` flag).
pub fn detect(
    wm_override: Option<WmOverride>,
    hyprland_set: bool,
    sway_set: bool,
    mode: &mut LaunchMode,
) -> (r: Result<CompositorKind, DockError>)
    ensures
        match r {
            Ok(kind) => detected(wm_override, hyprland_set, sway_set) == Some(kind),
            Err(DockError::NoCompositorDetected) => detected(
                wm_override,
                hyprland_set,
                sway_set,
            ) is None,
            Err(_) => false,
        },
        *final(mode) == mode_after(wm_override, *old(mode)),
{
    match wm_override {
        Some(WmOverride::Hyprland) => return Ok(CompositorKind::Hyprland),
        Some(WmOverride::Sway) => return Ok(CompositorKind::Sway),
        Some(WmOverride::Uwsm) => mode.set_uwsm_mode(true),
        None => {},
    }
    if hyprland_set {
        Ok(CompositorKind::Hyprland)
    } else if sway_set {
        Ok(CompositorKind::Sway)
    } else {
        Err(DockError::NoCompositorDetected)
    }
}

/// A compositor backend.
#[derive(Debug)]
pub enum Backend {
    Hyprland(HyprlandBackend),
    Sway(SwayBackend),
    Null(NullCompositor),
}

/// `r` is the backend for `kind`, or the error for a variable that is not set.
pub open spec fn is_created(
    r: Result<Backend, DockError>,
    kind: CompositorKind,
    signature: Option<&str>,
    swaysock: Option<&str>,
) -> bool {
    match (kind, r) {
        (CompositorKind::Hyprland, Ok(Backend::Hyprland(b))) => signature is Some
            && b.dispatch_syntax == hyprland::DispatchSyntax::Unknown,
        (CompositorKind::Hyprland, Err(DockError::EnvNotSet(name))) => signature is None && name@
            == "HYPRLAND_INSTANCE_SIGNATURE"@,
        (CompositorKind::Sway, Ok(Backend::Sway(b))) => swaysock matches Some(path)
            && b.socket_path@ == path@,
        (CompositorKind::Sway, Err(DockError::EnvNotSet(name))) => swaysock is None && name@
            == "SWAYSOCK"@,
        _ => false,
    }
}

/// Create a compositor backend for the given kind. The arguments are the values
/// of `HYPRLAND_INSTANCE_SIGNATURE` and `SWAYSOCK`.
pub fn create(kind: CompositorKind, signature: Option<&str>, swaysock: Option<&str>) -> (r: Result<
    Backend,
    DockError,
>)
    ensures
        is_created(r, kind, signature, swaysock),
{
    match kind {
        CompositorKind::Hyprland => match HyprlandBackend::new(signature) {
            Ok(b) => Ok(Backend::Hyprland(b)),
            Err(e) => Err(e),
        },
        CompositorKind::Sway => {
            let socket = match swaysock {
                Some(path) => Some(path.to_owned()),
                None => None,
            };
            match SwayBackend::new(socket) {
                Ok(b) => Ok(Backend::Sway(b)),
                Err(e) => Err(e),
            }
        },
    }
}

/// Detects and creates the compositor backend. Docks and notification daemons
/// need one, and exit where this fails.
pub fn init_or_exit(
    wm_override: Option<WmOverride>,
    signature: Option<&str>,
    swaysock: Option<&str>,
    mode: &mut LaunchMode,
) -> (r: Result<Backend, DockError>)
    ensures
        match detected(wm_override, signature is Some, swaysock is Some) {
            Some(kind) => is_created(r, kind, signature, swaysock),
            None => r matches Err(DockError::NoCompositorDetected),
        },
        *final(mode) == mode_after(wm_override, *old(mode)),
{
    match detect(wm_override, signature.is_some(), swaysock.is_some(), mode) {
        Ok(kind) => create(kind, signature, swaysock),
        Err(e) => Err(e),
    }
}

/// Detects and creates the compositor backend, falling back to
/// [`NullCompositor`] on failure. Drawers use this, so that they can run on any
/// compositor with graceful feature degradation.
pub fn init_or_null(
    wm_override: Option<WmOverride>,
    signature: Option<&str>,
    swaysock: Option<&str>,
    mode: &mut LaunchMode,
) -> (r: Backend)
    ensures
        match detected(wm_override, signature is Some, swaysock is Some) {
            Some(CompositorKind::Hyprland) => if signature is Some {
                is_created(Ok(r), CompositorKind::Hyprland, signature, swaysock)
            } else {
                r is Null
            },
            Some(CompositorKind::Sway) => if swaysock is Some {
                is_created(Ok(r), CompositorKind::Sway, signature, swaysock)
            } else {
                r is Null
            },
            None => r is Null,
        },
        *final(mode) == mode_after(wm_override, *old(mode)),
{
    match init_or_exit(wm_override, signature, swaysock, mode) {
        Ok(backend) => backend,
        Err(_) => Backend::Null(NullCompositor),
    }
}

/// Sanitizing takes out semicolons, backticks, dollar signs, bars, ampersands, line
/// feeds and carriage returns, and leaves all else as it is, in order.
pub proof fn sanitizing_takes_out_only_what_is_forbidden(a: Seq<char>, c: char, b: Seq<char>)
    ensures
        sanitized(a + b) == sanitized(a) + sanitized(b),
        seq![';', '`', '$', '|', '&', '\n', '\r'].contains(c) ==> sanitized(seq![c]).len() == 0,
        !seq![';', '`', '$', '|', '&', '\n', '\r'].contains(c) ==> sanitized(seq![c]) == seq![c],
{
    Seq::filter_distributes_over_add(a, b, |c: char| !is_forbidden(c));
    let forbidden = seq![';', '`', '$', '|', '&', '\n', '\r'];
    assert(forbidden[0] == ';' && forbidden[1] == '`' && forbidden[2] == '$' && forbidden[3] == '|'
        && forbidden[4] == '&' && forbidden[5] == '\n' && forbidden[6] == '\r');
    assert(forbidden.contains(c) == is_forbidden(c));
    reveal_with_fuel(Seq::filter, 2);
    assert(seq![c].drop_last() == Seq::<char>::empty());
    assert(Seq::<char>::empty().push(c) == seq![c]);
}

/// An override of a compositor decides, whatever the environment holds. Else the
/// environment does, Hyprland before Sway, and uwsm makes no difference to it.
pub proof fn overrides_decide_before_the_environment(
    wm_override: Option<WmOverride>,
    hyprland_set: bool,
    sway_set: bool,
    mode: LaunchMode,
)
    ensures
        detected(Some(WmOverride::Hyprland), hyprland_set, sway_set) == Some(
            CompositorKind::Hyprland,
        ),
        detected(Some(WmOverride::Sway), hyprland_set, sway_set) == Some(CompositorKind::Sway),
        detected(None, true, sway_set) == Some(CompositorKind::Hyprland),
        detected(None, false, true) == Some(CompositorKind::Sway),
        detected(None, false, false) is None,
        detected(Some(WmOverride::Uwsm), hyprland_set, sway_set) == detected(
            None,
            hyprland_set,
            sway_set,
        ),
        wm_override == Some(WmOverride::Uwsm) ==> mode_after(wm_override, mode).uwsm,
        wm_override != Some(WmOverride::Uwsm) ==> mode_after(wm_override, mode) == mode,
{
}

/// A backend is for the compositor that was asked for, and there is one exactly
/// where its variable is set.
pub proof fn backends_are_for_the_kind_asked_for(
    kind: CompositorKind,
    signature: Option<&str>,
    swaysock: Option<&str>,
    r: Result<Backend, DockError>,
)
    requires
        call_ensures(create, (kind, signature, swaysock), r),
    ensures
        kind == CompositorKind::Hyprland ==> (r is Ok <==> signature is Some),
        kind == CompositorKind::Sway ==> (r is Ok <==> swaysock is Some),
        r matches Ok(Backend::Hyprland(b)) ==> kind == CompositorKind::Hyprland,
        r matches Ok(Backend::Sway(b)) ==> kind == CompositorKind::Sway && b.socket_path@
            == swaysock->0@,
        !(r matches Ok(Backend::Null(_))),
{
}

} // verus!
