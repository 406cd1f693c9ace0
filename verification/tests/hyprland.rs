//! The Hyprland backend: events, dispatching, windows and monitors.

use nwg_common::compositor::hyprland::{
    classify_dispatch_reply, cursor_from_json, logical_size_inputs, lua_string_escape,
    map_hypr_event, to_wm_client, to_wm_monitor, DispatchOutcome, DispatchReply, DispatchSyntax,
    HyprlandBackend,
};
use nwg_common::compositor::{WmEvent, WmMonitor};
use nwg_common::error::{DockError, IpcErrorKind};
use nwg_common::hyprland::events::{parse_event, socket_closed, EventBuffer, HyprEvent};
use nwg_common::hyprland::ipc::{
    command_socket_path, event_socket_path, hypr_dir_candidate, instance_signature,
};
use nwg_common::hyprland::types::{HyprClient, HyprMonitor, WorkspaceRef};
use nwg_common::json::parse_json;
use nwg_common::number::Double;

fn test_hypr_monitor(w: i32, h: i32, scale: f64, transform: i32) -> HyprMonitor {
    HyprMonitor {
        width: w,
        height: h,
        scale: Double { bits: scale.to_bits() },
        transform,
        name: "DP-1".into(),
        active_workspace: WorkspaceRef::default(),
        ..Default::default()
    }
}

/// Converts a monitor, with the division that its logical size takes.
fn convert(m: HyprMonitor) -> WmMonitor {
    let ((width, height), scale) = logical_size_inputs(&m);
    let scale = f64::from_bits(scale.bits);
    let width = (width as f64 / scale).round() as i32;
    let height = (height as f64 / scale).round() as i32;
    to_wm_monitor(m, width, height)
}

fn backend() -> HyprlandBackend {
    HyprlandBackend::new(Some("sig")).unwrap()
}

#[test]
fn parse_active_window() {
    match parse_event("activewindowv2>>0x5678abcd") {
        HyprEvent::ActiveWindowV2(addr) => assert_eq!(addr, "0x5678abcd"),
        other => panic!("expected ActiveWindowV2, got {:?}", other),
    }
}

#[test]
fn parse_monitor_added() {
    assert!(matches!(
        parse_event("monitoraddedv2>>DP-1,1920x1080@60"),
        HyprEvent::MonitorChanged
    ));
}

#[test]
fn parse_monitor_removed() {
    assert!(matches!(
        parse_event("monitorremoved>>HDMI-A-1"),
        HyprEvent::MonitorChanged
    ));
}

#[test]
fn parse_other_event() {
    assert!(matches!(parse_event("workspace>>2"), HyprEvent::Other(_)));
}

/// Regression: closing a non-focused window must propagate as a window-change
/// signal, not get swallowed as `Other`. Without this the dock keeps showing
/// a button for an app that is no longer running.
#[test]
fn parse_close_window_yields_address() {
    match parse_event("closewindow>>0xdeadbeef") {
        HyprEvent::ActiveWindowV2(addr) => assert_eq!(addr, "0xdeadbeef"),
        other => panic!("expected ActiveWindowV2, got {:?}", other),
    }
}

/// Companion to the close case — a new window must trigger the same signal.
#[test]
fn parse_open_window_extracts_first_field() {
    match parse_event("openwindow>>0xabc123,1,Alacritty,Terminal") {
        HyprEvent::ActiveWindowV2(addr) => assert_eq!(addr, "0xabc123"),
        other => panic!("expected ActiveWindowV2, got {:?}", other),
    }
}

/// movewindow events change which workspace a client is on, which can
/// affect which clients should appear in the dock under workspace filters.
#[test]
fn parse_move_window_extracts_address() {
    match parse_event("movewindow>>0xfeed,2") {
        HyprEvent::ActiveWindowV2(addr) => assert_eq!(addr, "0xfeed"),
        other => panic!("expected ActiveWindowV2, got {:?}", other),
    }
}

#[test]
fn parse_movewindow_v2_extracts_address() {
    match parse_event("movewindowv2>>0xfeed,3,workspace-3") {
        HyprEvent::ActiveWindowV2(addr) => assert_eq!(addr, "0xfeed"),
        other => panic!("expected ActiveWindowV2, got {:?}", other),
    }
}

#[test]
fn classify_ok() {
    assert_eq!(classify_dispatch_reply("ok"), DispatchReply::Accepted);
    assert_eq!(classify_dispatch_reply("ok\n"), DispatchReply::Accepted);
}

#[test]
fn classify_wrong_syntax_on_classic_session() {
    // Classic session rejecting a Lua-form payload.
    assert_eq!(
        classify_dispatch_reply("Invalid dispatcher"),
        DispatchReply::WrongSyntax
    );
}

#[test]
fn classify_wrong_syntax_on_lua_session() {
    // Lua session rejecting a legacy payload: the payload is evaluated
    // as Lua and fails to parse.
    let reply = "error: [string \"return hl.dispatch(focuswindow address:0xdead...\"]:1: ')' expected near 'address'\n\n → Note: dispatch in lua is a shorthand for hl.dispatch(...), your syntax might need to be updated.";
    assert_eq!(classify_dispatch_reply(reply), DispatchReply::WrongSyntax);
}

#[test]
fn classify_semantic_failure_not_retried() {
    // Right syntax, missing target — classic and Lua flavors.
    assert_eq!(
        classify_dispatch_reply("No such window found"),
        DispatchReply::Failed
    );
    assert_eq!(
        classify_dispatch_reply("warning: =[C]:-1: hl.focus: window not found"),
        DispatchReply::Failed
    );
}

#[test]
fn lua_escape_passthrough() {
    assert_eq!(
        lua_string_escape("firefox --new-window"),
        "firefox --new-window"
    );
}

#[test]
fn lua_escape_quotes_backslashes_newlines() {
    assert_eq!(lua_string_escape("a\"b\\c\nd\re"), "a\\\"b\\\\c\\nd\\re");
}

#[test]
fn to_wm_monitor_no_transform_no_scale() {
    let wm = convert(test_hypr_monitor(2560, 1440, 1.0, 0));
    assert_eq!(wm.width, 2560);
    assert_eq!(wm.height, 1440);
}

#[test]
fn to_wm_monitor_scaled() {
    // 4K at 1.5x scale → logical 2560×1440
    let wm = convert(test_hypr_monitor(3840, 2160, 1.5, 0));
    assert_eq!(wm.width, 2560);
    assert_eq!(wm.height, 1440);
}

#[test]
fn to_wm_monitor_rotated_90() {
    // 2560×1600 native, rotated 90° → logical 1600×2560
    let wm = convert(test_hypr_monitor(2560, 1600, 1.0, 1));
    assert_eq!(wm.width, 1600);
    assert_eq!(wm.height, 2560);
}

#[test]
fn to_wm_monitor_rotated_270() {
    let wm = convert(test_hypr_monitor(2560, 1600, 1.0, 3));
    assert_eq!(wm.width, 1600);
    assert_eq!(wm.height, 2560);
}

#[test]
fn to_wm_monitor_rotated_and_scaled() {
    // 3840×2160 native, rotated 90°, scale 1.5 → logical 1440×2560
    let wm = convert(test_hypr_monitor(3840, 2160, 1.5, 1));
    assert_eq!(wm.width, 1440);
    assert_eq!(wm.height, 2560);
}

#[test]
fn to_wm_monitor_180_no_swap() {
    // 180° rotation doesn't swap dimensions
    let wm = convert(test_hypr_monitor(2560, 1440, 1.0, 2));
    assert_eq!(wm.width, 2560);
    assert_eq!(wm.height, 1440);
}

#[test]
fn to_wm_monitor_flipped_rotated_90() {
    let wm = convert(test_hypr_monitor(2560, 1600, 1.0, 5));
    assert_eq!(wm.width, 1600);
    assert_eq!(wm.height, 2560);
}

#[test]
fn to_wm_monitor_flipped_rotated_270() {
    let wm = convert(test_hypr_monitor(2560, 1600, 1.0, 7));
    assert_eq!(wm.width, 1600);
    assert_eq!(wm.height, 2560);
}

#[test]
fn to_wm_monitor_zero_scale_falls_back() {
    let wm = convert(test_hypr_monitor(1920, 1080, 0.0, 0));
    assert_eq!(wm.width, 1920);
    assert_eq!(wm.height, 1080);
}

#[test]
fn workspace_v2_event_maps_to_workspace_changed() {
    // Exercises the production mapping function directly so the test
    // can't drift from the WmEventStream impl (the impl just calls
    // map_hypr_event + wraps in Ok).
    let mapped = map_hypr_event(HyprEvent::WorkspaceV2 {
        id: 3,
        name: "chat".into(),
    });
    assert_eq!(
        mapped,
        WmEvent::WorkspaceChanged {
            id: 3,
            name: "chat".into(),
        }
    );
}

#[test]
fn parse_workspace_v2() {
    assert_eq!(
        parse_event("workspacev2>>3,chat"),
        HyprEvent::WorkspaceV2 { id: 3, name: "chat".into() }
    );
    assert_eq!(
        parse_event("workspacev2>>5,5"),
        HyprEvent::WorkspaceV2 { id: 5, name: "5".into() }
    );
    assert_eq!(
        parse_event("workspacev2>> -7 , a,b "),
        HyprEvent::WorkspaceV2 { id: -7, name: "a,b".into() }
    );
    assert_eq!(
        parse_event("workspacev2>>3"),
        HyprEvent::WorkspaceV2 { id: 3, name: String::new() }
    );
    for other in ["workspacev2>>notanint,chat", "workspacev2>>,3", "workspacev2>>2147483648,x"] {
        assert_eq!(parse_event(other), HyprEvent::Other(other.to_string()));
    }
}

#[test]
fn parse_trims_addresses() {
    assert_eq!(
        parse_event("activewindowv2>> 0x1 \r"),
        HyprEvent::ActiveWindowV2("0x1".into())
    );
    assert_eq!(parse_event("closewindow>>"), HyprEvent::ActiveWindowV2(String::new()));
}

#[test]
fn other_events_map_to_their_kind() {
    assert_eq!(
        map_hypr_event(HyprEvent::ActiveWindowV2("0x1".into())),
        WmEvent::ActiveWindowChanged("0x1".into())
    );
    assert_eq!(map_hypr_event(HyprEvent::MonitorChanged), WmEvent::MonitorChanged);
    assert_eq!(map_hypr_event(HyprEvent::Other("x".into())), WmEvent::Other("x".into()));
}

#[test]
fn buffer_hands_out_lines_in_order() {
    let mut buffer = EventBuffer::new();
    assert_eq!(buffer.next_event().unwrap(), None);
    buffer.feed(b"\n\nopenwindow>>0x1,1\nmonitorrem");
    assert_eq!(
        buffer.next_event().unwrap(),
        Some(HyprEvent::ActiveWindowV2("0x1".into()))
    );
    assert_eq!(buffer.next_event().unwrap(), None);
    assert_eq!(buffer.remainder, "monitorrem");
    buffer.feed_text("oved>>DP-1\nx\n");
    assert_eq!(buffer.next_event().unwrap(), Some(HyprEvent::MonitorChanged));
    assert_eq!(buffer.next_event().unwrap(), Some(HyprEvent::Other("x".into())));
    assert_eq!(buffer.next_event().unwrap(), None);
}

#[test]
fn buffer_replaces_invalid_bytes() {
    let mut buffer = EventBuffer::new();
    buffer.feed(b"a\xffb\n");
    assert_eq!(
        buffer.next_event().unwrap(),
        Some(HyprEvent::Other("a\u{fffd}b".into()))
    );
}

#[test]
fn buffer_limit_counts_bytes() {
    let mut buffer = EventBuffer::new();
    buffer.feed(&vec![b'x'; 65536]);
    assert_eq!(buffer.next_event().unwrap(), None);
    buffer.feed(b"y");
    let err = buffer.next_event().unwrap_err();
    assert_eq!(err.kind, IpcErrorKind::InvalidData);
    assert_eq!(err.message, "event line too long (exceeds 64KB)");

    let mut wide = EventBuffer::new();
    wide.feed_text(&"\u{20ac}".repeat(21846));
    assert!(wide.next_event().is_err());
}

#[test]
fn stream_gives_its_lines_however_it_is_cut() {
    let stream = b"activewindowv2>>0x1\n\nworkspacev2>>2,b\n\n\nx\nmonitorremoved>>DP-1\nrest";
    let expected = vec![
        HyprEvent::ActiveWindowV2("0x1".into()),
        HyprEvent::WorkspaceV2 { id: 2, name: "b".into() },
        HyprEvent::Other("x".into()),
        HyprEvent::MonitorChanged,
    ];
    for size in 1..=stream.len() {
        let mut buffer = EventBuffer::new();
        let mut events = Vec::new();
        for read in stream.chunks(size) {
            buffer.on_read(read).unwrap();
            while let Some(event) = buffer.next_event().unwrap() {
                events.push(event);
            }
        }
        assert_eq!(events, expected, "reads of {} bytes", size);
        let err = buffer.on_read(b"").unwrap_err();
        assert_eq!(err.kind, IpcErrorKind::ConnectionReset);
        assert_eq!(buffer.remainder, "rest");
    }
}

#[test]
fn buffer_keeps_multibyte_text() {
    let mut buffer = EventBuffer::new();
    buffer.feed("openwindow>>0x2,1,caf\u{e9}\u{20ac}\nz>>\u{1f600}\n".as_bytes());
    assert_eq!(
        buffer.next_event().unwrap(),
        Some(HyprEvent::ActiveWindowV2("0x2".into()))
    );
    assert_eq!(
        buffer.next_event().unwrap(),
        Some(HyprEvent::Other("z>>\u{1f600}".into()))
    );
}

#[test]
fn closed_socket_is_a_reset() {
    let err = socket_closed();
    assert_eq!(err.kind, IpcErrorKind::ConnectionReset);
    assert_eq!(err.message, "Hyprland event socket closed");
}

#[test]
fn sockets_of_an_instance() {
    assert_eq!(hypr_dir_candidate("/run/user/1000").unwrap(), "/run/user/1000/hypr");
    assert_eq!(hypr_dir_candidate(""), None);
    assert_eq!(
        event_socket_path(Some("abc"), Some("/run/user/1000/hypr")).unwrap(),
        "/run/user/1000/hypr/abc/.socket2.sock"
    );
    assert_eq!(
        command_socket_path(Some("abc"), None).unwrap(),
        "/tmp/hypr/abc/.socket.sock"
    );
    match event_socket_path(None, None) {
        Err(DockError::EnvNotSet(name)) => assert_eq!(name, "HYPRLAND_INSTANCE_SIGNATURE"),
        other => panic!("unexpected {:?}", other),
    }
    assert_eq!(instance_signature(Some("abc")).unwrap(), "abc");
    assert!(instance_signature(None).is_err());
}

#[test]
fn backend_starts_without_knowledge() {
    assert_eq!(backend().dispatch_syntax, DispatchSyntax::Unknown);
    assert!(matches!(HyprlandBackend::new(None), Err(DockError::EnvNotSet(_))));
    assert!(backend().supports_cursor_position());
}

#[test]
fn accepted_legacy_is_remembered() {
    let mut b = backend();
    let d = b.focus_workspace(3);
    let attempt = b.dispatch(&d);
    assert_eq!(attempt.request(), "dispatch workspace 3");
    assert!(matches!(b.on_reply(attempt, b"ok\n"), DispatchOutcome::Done));
    assert_eq!(b.dispatch_syntax, DispatchSyntax::Legacy);
}

#[test]
fn wrong_syntax_leads_to_the_other() {
    let mut b = backend();
    let d = b.focus_workspace(3);
    let attempt = b.dispatch(&d);
    let next = match b.on_reply(attempt, b"error: unexpected") {
        DispatchOutcome::Retry(next) => next,
        other => panic!("unexpected {:?}", other),
    };
    assert_eq!(next.request(), "dispatch hl.dsp.focus({ workspace = 3 })");
    assert_eq!(b.dispatch_syntax, DispatchSyntax::Unknown);
    assert!(matches!(b.on_reply(next, b"ok"), DispatchOutcome::Done));
    assert_eq!(b.dispatch_syntax, DispatchSyntax::Lua);

    // From then on Lua comes first, and legacy is the way back.
    let attempt = b.dispatch(&d);
    assert_eq!(attempt.syntax, DispatchSyntax::Lua);
    let next = match b.on_reply(attempt, b"Invalid dispatcher") {
        DispatchOutcome::Retry(next) => next,
        other => panic!("unexpected {:?}", other),
    };
    assert_eq!(next.payload, "workspace 3");
    assert!(matches!(b.on_reply(next, b"No such window found"), DispatchOutcome::Done));
    assert_eq!(b.dispatch_syntax, DispatchSyntax::Legacy);
}

#[test]
fn both_syntaxes_rejected() {
    let mut b = backend();
    let d = b.raise_active();
    let attempt = b.dispatch(&d);
    let next = match b.on_reply(attempt, b"Invalid dispatcher") {
        DispatchOutcome::Retry(next) => next,
        other => panic!("unexpected {:?}", other),
    };
    match b.on_reply(next, b"  error: no \n") {
        DispatchOutcome::Rejected(DockError::DispatchRejected { command, reply }) => {
            assert_eq!(command, "bringactivetotop");
            assert_eq!(reply, "error: no");
        }
        other => panic!("unexpected {:?}", other),
    }
    assert_eq!(b.dispatch_syntax, DispatchSyntax::Unknown);
}

#[test]
fn reply_that_is_not_utf8_is_a_failed_dispatch() {
    let mut b = backend();
    let d = b.raise_active();
    let attempt = b.dispatch(&d);
    assert!(matches!(b.on_reply(attempt, b"\xff"), DispatchOutcome::Done));
}

#[test]
fn dispatchers_in_both_syntaxes() {
    let b = backend();
    let d = b.focus_window("0x1");
    assert_eq!(d.legacy, "focuswindow address:0x1");
    assert_eq!(d.lua, r#"hl.dsp.focus({ window = "address:0x1" })"#);
    let d = b.close_window("0x1");
    assert_eq!(d.legacy, "closewindow address:0x1");
    assert_eq!(d.lua, r#"hl.dsp.window.close({ window = "address:0x1" })"#);
    let d = b.toggle_floating("0x1");
    assert_eq!(d.legacy, "togglefloating address:0x1");
    assert_eq!(d.lua, r#"hl.dsp.window.float({ window = "address:0x1" })"#);
    let d = b.toggle_fullscreen("0x1");
    assert_eq!(d.legacy, "fullscreen address:0x1");
    assert_eq!(d.lua, r#"hl.dsp.window.fullscreen({ window = "address:0x1" })"#);
    let d = b.move_to_workspace("0x1", -2);
    assert_eq!(d.legacy, "movetoworkspace -2,address:0x1");
    assert_eq!(
        d.lua,
        r#"hl.dsp.window.move({ workspace = -2, window = "address:0x1" })"#
    );
    let d = b.toggle_special_workspace("a\"b");
    assert_eq!(d.legacy, "togglespecialworkspace a\"b");
    assert_eq!(d.lua, r#"hl.dsp.workspace.toggle_special("a\"b")"#);
    let d = b.raise_active();
    assert_eq!(d.legacy, "bringactivetotop");
    assert_eq!(d.lua, "hl.dsp.window.bring_to_top()");
    let d = b.exec("say \"hi\"; ls");
    assert_eq!(d.legacy, "exec say \"hi\" ls");
    assert_eq!(d.lua, r#"hl.dsp.exec_cmd("say \"hi\" ls")"#);
}

#[test]
fn cursor_position_replies() {
    let b = backend();
    assert_eq!(b.get_cursor_position(br#"{"x": 10, "y": -20}"#), Some((10, -20)));
    assert_eq!(b.get_cursor_position(br#"{"x": 10}"#), None);
    assert_eq!(b.get_cursor_position(br#"{"x": 1.5, "y": 2}"#), None);
    assert_eq!(b.get_cursor_position(b"10, 20"), None);
    let value = parse_json(br#"{"y": 2, "x": 1}"#).unwrap();
    assert_eq!(cursor_from_json(&value), Some((1, 2)));
}

#[test]
fn client_conversion() {
    let c = HyprClient {
        address: "0x1234".into(),
        class: "firefox".into(),
        initial_class: "Firefox".into(),
        title: "Mozilla".into(),
        pid: 77,
        workspace: WorkspaceRef { id: 2, name: "two".into() },
        floating: true,
        monitor: 1,
        fullscreen: 2,
        ..Default::default()
    };
    let wm = to_wm_client(c);
    assert_eq!(wm.id, "0x1234");
    assert_eq!(wm.class, "firefox");
    assert_eq!(wm.initial_class, "Firefox");
    assert_eq!(wm.title, "Mozilla");
    assert_eq!(wm.pid, 77);
    assert_eq!((wm.workspace.id, wm.workspace.name.as_str()), (2, "two"));
    assert!(wm.floating && wm.fullscreen);
    assert_eq!(wm.monitor_id, 1);
    assert!(!to_wm_client(HyprClient::default()).fullscreen);
}

#[test]
fn scale_that_is_not_positive_is_one() {
    for scale in [0.0, -0.0, -1.5, f64::NAN, f64::NEG_INFINITY] {
        let (_, used) = logical_size_inputs(&test_hypr_monitor(1, 1, scale, 0));
        assert_eq!(f64::from_bits(used.bits), 1.0);
    }
    for scale in [0.5, 5e-324, f64::INFINITY] {
        let (_, used) = logical_size_inputs(&test_hypr_monitor(1, 1, scale, 0));
        assert_eq!(f64::from_bits(used.bits), scale);
    }
}

#[test]
fn chunks_do_not_matter() {
    let all = "openwindow>>0x1,1\n\nworkspacev2>>3,chat\nrest";
    for size in [1, 2, 7, 100] {
        let mut buffer = EventBuffer::new();
        let mut events = Vec::new();
        for chunk in all.as_bytes().chunks(size) {
            buffer.feed(chunk);
            while let Some(event) = buffer.next_event().unwrap() {
                events.push(event);
            }
        }
        assert_eq!(
            events,
            vec![
                HyprEvent::ActiveWindowV2("0x1".into()),
                HyprEvent::WorkspaceV2 { id: 3, name: "chat".into() },
            ]
        );
        assert_eq!(buffer.remainder, "rest");
    }
}
