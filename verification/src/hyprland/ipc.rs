//! Hyprland's sockets.

use vstd::prelude::*;
use crate::error::DockError;
use crate::path;

verus! {

/// The directory of the sockets under the runtime directory, where there is
/// such a directory.
pub open spec fn runtime_candidate(runtime_dir: Seq<char>) -> Option<Seq<char>> {
    if runtime_dir.len() > 0 {
        Some(path::join(runtime_dir, "hypr"@))
    } else {
        None
    }
}

/// The directory with the sockets of one instance. Without a directory under
/// the runtime directory it lies in `/tmp`.
pub open spec fn socket_dir(signature: Seq<char>, candidate: Option<Seq<char>>) -> Seq<char> {
    path::join(
        match candidate {
            Some(dir) => dir,
            None => "/tmp/hypr"@,
        },
        signature,
    )
}

/// `r` is the socket `name`, or the error for a missing signature.
pub open spec fn is_socket(
    r: Result<String, DockError>,
    signature: Option<&str>,
    candidate: Option<&str>,
    name: Seq<char>,
) -> bool {
    match (r, signature) {
        (Ok(socket), Some(his)) => socket@ == path::join(
            socket_dir(
                his@,
                match candidate {
                    Some(dir) => Some(dir@),
                    None => None,
                },
            ),
            name,
        ),
        (Err(DockError::EnvNotSet(variable)), None) => variable@
            == "HYPRLAND_INSTANCE_SIGNATURE"@,
        _ => false,
    }
}

/// The directory that holds the sockets where it exists, as `XDG_RUNTIME_DIR`
/// has it (empty where that is not set).
pub fn hypr_dir_candidate(runtime_dir: &str) -> (r: Option<String>)
    ensures
        match r {
            Some(dir) => runtime_candidate(runtime_dir@) == Some(dir@),
            None => runtime_candidate(runtime_dir@) is None,
        },
{
    if runtime_dir.is_empty() {
        None
    } else {
        Some(path::join_path(runtime_dir, "hypr"))
    }
}

/// Returns the value of `HYPRLAND_INSTANCE_SIGNATURE`, an error where it is not
/// set.
pub fn instance_signature(signature: Option<&str>) -> (r: Result<String, DockError>)
    ensures
        match (r, signature) {
            (Ok(s), Some(his)) => s@ == his@,
            (Err(DockError::EnvNotSet(variable)), None) => variable@
                == "HYPRLAND_INSTANCE_SIGNATURE"@,
            _ => false,
        },
{
    match signature {
        Some(his) => Ok(his.to_owned()),
        None => Err(DockError::EnvNotSet("HYPRLAND_INSTANCE_SIGNATURE".to_owned())),
    }
}

fn socket_path(signature: Option<&str>, candidate: Option<&str>, name: &str) -> (r: Result<
    String,
    DockError,
>)
    ensures
        is_socket(r, signature, candidate, name@),
{
    let his = match instance_signature(signature) {
        Ok(his) => his,
        Err(e) => return Err(e),
    };
    let dir = match candidate {
        Some(dir) => dir,
        None => "/tmp/hypr",
    };
    let instance = path::join_path(dir, his.as_str());
    Ok(path::join_path(instance.as_str(), name))
}

/// Returns the path to the Hyprland command socket. `candidate` is the
/// directory of [`hypr_dir_candidate`], where it exists.
pub fn command_socket_path(signature: Option<&str>, candidate: Option<&str>) -> (r: Result<
    String,
    DockError,
>)
    ensures
        is_socket(r, signature, candidate, ".socket.sock"@),
{
    socket_path(signature, candidate, ".socket.sock")
}

/// Returns the path to the Hyprland event socket (socket2). `candidate` is the
/// directory of [`hypr_dir_candidate`], where it exists.
pub fn event_socket_path(signature: Option<&str>, candidate: Option<&str>) -> (r: Result<
    String,
    DockError,
>)
    ensures
        is_socket(r, signature, candidate, ".socket2.sock"@),
{
    socket_path(signature, candidate, ".socket2.sock")
}

/// Both sockets of an instance lie in the directory of its signature, one for
/// commands and one for events; that directory is below the one for sockets, or
/// below `/tmp/hypr` where there is none.
pub proof fn sockets_lie_with_their_instance(
    signature: &str,
    candidate: Option<&str>,
    dir: Seq<char>,
    commands: Result<String, DockError>,
    events: Result<String, DockError>,
)
    requires
        call_ensures(command_socket_path, (Some(signature), candidate), commands),
        call_ensures(event_socket_path, (Some(signature), candidate), events),
        dir == if candidate is Some {
            candidate->0@
        } else {
            "/tmp/hypr"@
        },
        dir.len() > 0 && dir.last() != '/',
        signature@.len() > 0 && signature@[0] != '/' && signature@.last() != '/',
    ensures
        commands is Ok && commands->Ok_0@ == dir + seq!['/'] + signature@ + "/.socket.sock"@,
        events is Ok && events->Ok_0@ == dir + seq!['/'] + signature@ + "/.socket2.sock"@,
{
    reveal_strlit("/.socket.sock");
    reveal_strlit("/.socket2.sock");
    reveal_strlit(".socket.sock");
    reveal_strlit(".socket2.sock");
    let instance = dir.push('/') + signature@;
    assert(path::join(dir, signature@) == instance);
    assert(instance.last() == signature@.last());
    assert(instance == dir + seq!['/'] + signature@);
    assert("/.socket.sock"@ == seq!['/'] + ".socket.sock"@);
    assert("/.socket2.sock"@ == seq!['/'] + ".socket2.sock"@);
    assert(instance.push('/') + ".socket.sock"@ == instance + (seq!['/'] + ".socket.sock"@));
    assert(instance.push('/') + ".socket2.sock"@ == instance + (seq!['/'] + ".socket2.sock"@));
}

/// Without a signature there is no socket. The directory for sockets is below the
/// runtime directory, where that is known.
pub proof fn sockets_need_a_signature(
    candidate: Option<&str>,
    runtime_dir: &str,
    commands: Result<String, DockError>,
    events: Result<String, DockError>,
    found: Option<String>,
)
    requires
        call_ensures(command_socket_path, (None, candidate), commands),
        call_ensures(event_socket_path, (None, candidate), events),
        call_ensures(hypr_dir_candidate, (runtime_dir,), found),
    ensures
        commands is Err,
        events is Err,
        found is Some <==> runtime_dir@.len() > 0,
        runtime_dir@.len() > 0 && runtime_dir@.last() != '/' ==> found is Some && found->0@
            == runtime_dir@ + seq!['/', 'h', 'y', 'p', 'r'],
{
    reveal_strlit("hypr");
    assert(runtime_dir@.push('/') + "hypr"@ == runtime_dir@ + seq!['/', 'h', 'y', 'p', 'r']);
}

} // verus!
