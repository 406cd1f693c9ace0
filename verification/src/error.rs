//! The crate's error type.

use vstd::prelude::*;
use crate::number;
use crate::text;

verus! {

/// What sort of I/O failure an [`IpcError`] reports, as the standard library
/// sorts them.
#[derive(Debug, Clone, Copy, PartialEq, Eq, Structural)]
pub enum IpcErrorKind {
    NotFound,
    PermissionDenied,
    ConnectionRefused,
    ConnectionReset,
    HostUnreachable,
    NetworkUnreachable,
    ConnectionAborted,
    NotConnected,
    AddrInUse,
    AddrNotAvailable,
    NetworkDown,
    BrokenPipe,
    AlreadyExists,
    WouldBlock,
    NotADirectory,
    IsADirectory,
    DirectoryNotEmpty,
    ReadOnlyFilesystem,
    StaleNetworkFileHandle,
    InvalidInput,
    InvalidData,
    TimedOut,
    WriteZero,
    StorageFull,
    NotSeekable,
    QuotaExceeded,
    FileTooLarge,
    ResourceBusy,
    ExecutableFileBusy,
    Deadlock,
    CrossesDevices,
    TooManyLinks,
    InvalidFilename,
    ArgumentListTooLong,
    Interrupted,
    Unsupported,
    UnexpectedEof,
    OutOfMemory,
    Other,
}

/// An I/O failure: on a socket of the compositor, or on a file.
#[derive(Debug, Clone)]
pub struct IpcError {
    pub kind: IpcErrorKind,
    pub message: String,
    /// The number under which the operating system reported the failure, where
    /// it comes from there.
    pub code: Option<i32>,
}

impl IpcError {
    /// The failure is of the given kind and carries the given message. It does
    /// not come from the operating system.
    pub open spec fn is(self, kind: IpcErrorKind, message: Seq<char>) -> bool {
        self.kind == kind && self.message@ == message && self.code is None
    }

    /// A failure that does not come from the operating system.
    pub fn new(kind: IpcErrorKind, message: String) -> (r: IpcError)
        ensures
            r.is(kind, message@),
    {
        IpcError { kind, message, code: None }
    }
}

/// Unified error type for fallible operations.
#[derive(Debug)]
pub enum DockError {
    /// Underlying compositor IPC I/O failure (socket connect, read, write).
    Ipc(IpcError),
    /// The JSON returned by a compositor IPC query didn't parse into the
    /// expected type.
    Json(serde_json::Error),
    /// A `.desktop` file was malformed.
    DesktopEntry { path: String, message: String },
    /// Icon lookup failed: no file matched the requested icon name.
    IconNotFound(String),
    /// An expected data directory (XDG or install-time) wasn't found.
    DataDirNotFound(String),
    /// Single-instance lock file is already held by another live process.
    LockFileHeld { path: String, pid: u32 },
    /// A required environment variable was unset.
    EnvNotSet(String),
    /// A `--wm` override specified a backend this library doesn't implement.
    UnsupportedCompositor(String),
    /// Neither Hyprland nor Sway env vars are set, and no override was given.
    NoCompositorDetected,
    /// The compositor rejected a dispatcher in both syntaxes it might speak.
    DispatchRejected { command: String, reply: String },
}

impl DockError {
    /// `text` is how this error reads.
    pub open spec fn reads(self, text: Seq<char>) -> bool {
        match self {
            DockError::Ipc(e) => text == "compositor IPC error: "@ + e.message@,
            DockError::Json(e) => exists|shown: String|
                #[trigger] vstd::string::to_string_from_display_ensures(&e, shown) && text
                    == "JSON parse error: "@ + shown@,
            DockError::DesktopEntry { path, message } => text == "desktop entry parse error in "@
                + path@ + ": "@ + message@,
            DockError::IconNotFound(name) => text == "icon not found for '"@ + name@ + "'"@,
            DockError::DataDirNotFound(name) => text == "data directory not found for '"@ + name@
                + "'"@,
            DockError::LockFileHeld { path, pid } => text == "lock file already held: "@ + path@
                + " (pid "@ + number::nat_text(pid as nat) + ")"@,
            DockError::EnvNotSet(name) => text == "environment variable not set: "@ + name@,
            DockError::UnsupportedCompositor(name) => text == "unsupported compositor: "@ + name@,
            DockError::NoCompositorDetected => text
                == "no compositor detected (set HYPRLAND_INSTANCE_SIGNATURE or SWAYSOCK)"@,
            DockError::DispatchRejected { command, reply } => text == "dispatch rejected: '"@
                + command@ + "': "@ + reply@,
        }
    }

    /// How this error reads.
    pub fn message(&self) -> (r: String)
        ensures
            self.reads(r@),
    {
        match self {
            DockError::Ipc(e) => text::concat("compositor IPC error: ", e.message.as_str()),
            DockError::Json(e) => text::concat("JSON parse error: ", e.to_string().as_str()),
            DockError::DesktopEntry { path, message } => {
                let mut s = text::concat("desktop entry parse error in ", path.as_str());
                s.append(": ");
                s.append(message.as_str());
                s
            },
            DockError::IconNotFound(name) => {
                let mut s = text::concat("icon not found for '", name.as_str());
                s.append("'");
                s
            },
            DockError::DataDirNotFound(name) => {
                let mut s = text::concat("data directory not found for '", name.as_str());
                s.append("'");
                s
            },
            DockError::LockFileHeld { path, pid } => {
                let mut s = text::concat("lock file already held: ", path.as_str());
                s.append(" (pid ");
                s.append(number::u64_text(*pid as u64).as_str());
                s.append(")");
                s
            },
            DockError::EnvNotSet(name) => text::concat("environment variable not set: ", name.as_str()),
            DockError::UnsupportedCompositor(name) => text::concat(
                "unsupported compositor: ",
                name.as_str(),
            ),
            DockError::NoCompositorDetected =>
                "no compositor detected (set HYPRLAND_INSTANCE_SIGNATURE or SWAYSOCK)".to_owned(),
            DockError::DispatchRejected { command, reply } => {
                let mut s = text::concat("dispatch rejected: '", command.as_str());
                s.append("': ");
                s.append(reply.as_str());
                s
            },
        }
    }
}

impl DockError {
    /// An error reads as a fixed text with what it carries in its place.
    pub proof fn errors_show_what_they_carry(self, r: String)
        requires
            call_ensures(DockError::message, (&self,), r),
        ensures
            match self {
                DockError::Ipc(e) => r@ == "compositor IPC error: "@ + e.message@,
                DockError::Json(_) => "JSON parse error: "@.is_prefix_of(r@),
                DockError::DesktopEntry { path, message } => r@ == "desktop entry parse error in "@
                    + path@ + seq![':', ' '] + message@,
                DockError::IconNotFound(name) => r@ == "icon not found for "@ + seq!['\''] + name@
                    + seq!['\''],
                DockError::DataDirNotFound(name) => r@ == "data directory not found for "@ + seq![
                    '\'',
                ] + name@ + seq!['\''],
                DockError::LockFileHeld { path, pid } => r@ == "lock file already held: "@ + path@
                    + " (pid "@ + number::int_text(pid as int) + seq![')'],
                DockError::EnvNotSet(name) => r@ == "environment variable not set: "@ + name@,
                DockError::UnsupportedCompositor(name) => r@ == "unsupported compositor: "@ + name@,
                DockError::NoCompositorDetected => "no compositor detected"@.is_prefix_of(r@),
                DockError::DispatchRejected { command, reply } => r@ == "dispatch rejected: "@
                    + seq!['\''] + command@ + seq!['\'', ':', ' '] + reply@,
            },
    {
        reveal_strlit(": ");
        reveal_strlit("'");
        reveal_strlit(")");
        reveal_strlit("': ");
        reveal_strlit("icon not found for '");
        reveal_strlit("icon not found for ");
        reveal_strlit("data directory not found for '");
        reveal_strlit("data directory not found for ");
        reveal_strlit("dispatch rejected: '");
        reveal_strlit("dispatch rejected: ");
        reveal_strlit("no compositor detected (set HYPRLAND_INSTANCE_SIGNATURE or SWAYSOCK)");
        reveal_strlit("no compositor detected");
        assert(": "@ == seq![':', ' ']);
        assert("'"@ == seq!['\'']);
        assert(")"@ == seq![')']);
        assert("': "@ == seq!['\'', ':', ' ']);
        assert("icon not found for '"@ == "icon not found for "@ + seq!['\'']);
        assert("data directory not found for '"@ == "data directory not found for "@ + seq!['\'']);
        assert("dispatch rejected: '"@ == "dispatch rejected: "@ + seq!['\'']);
        assert("no compositor detected"@.is_prefix_of(
            "no compositor detected (set HYPRLAND_INSTANCE_SIGNATURE or SWAYSOCK)"@,
        ));
    }
}

} // verus!
