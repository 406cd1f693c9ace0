//! Launching commands.

use nwg_common::desktop::entry::strip_field_codes;
use nwg_common::launch::{
    child_failed, extract_env_prefix, finished_children, launch, launch_command,
    launch_desktop_entry, launch_shell_command, launch_terminal_via_compositor,
    launch_via_compositor, launch_via_uwsm, plan_direct, plan_uwsm, prepend_theme, reaper_ends,
    split_at_white_space, split_command, ChildState, LaunchAction, LaunchMode, ReaperEvent,
};

const UWSM: LaunchMode = LaunchMode { uwsm: true };
const PLAIN: LaunchMode = LaunchMode { uwsm: false };

fn strings(v: &[&str]) -> Vec<String> {
    v.iter().map(|s| s.to_string()).collect()
}

#[test]
fn uwsm_empty_command_returns_early() {
    assert!(launch_via_uwsm("").is_none());
    assert!(launch_via_uwsm("   ").is_none());
}

#[test]
fn uwsm_mode_toggle() {
    let mut mode = LaunchMode::default();
    assert!(!mode.uwsm);
    mode.set_uwsm_mode(true);
    assert!(mode.uwsm);
    mode.set_uwsm_mode(false);
    assert!(!mode.uwsm);
}

#[test]
fn shell_command_empty_is_noop() {
    assert!(launch_shell_command("").is_none());
    assert!(launch_shell_command("   ").is_none());
}

#[test]
fn shell_command_handles_nested_quotes() {
    let cmd = r#"sh -c "echo 'hello world' > '/tmp/out'""#;
    let plan = launch_shell_command(cmd).unwrap();
    assert_eq!(plan.program, "sh");
    assert_eq!(plan.args, strings(&["-c", cmd]));
    assert!(plan.env.is_empty());
    assert_eq!(plan.label, cmd);
}

#[test]
fn shell_command_handles_complex_quoting() {
    let cmd = r#"  printf '%s\n' "arg with spaces" "another 'nested' arg" > '/tmp/out' "#;
    let plan = launch_shell_command(cmd).unwrap();
    assert_eq!(plan.args, strings(&["-c", cmd.trim()]));
}

#[test]
fn split_command_quoted_args() {
    let parts = split_command(r#"sh -c "printf 'Hello World'""#);
    assert_eq!(parts, vec!["sh", "-c", "printf 'Hello World'"]);
}

#[test]
fn split_command_simple() {
    let parts = split_command("firefox --new-window");
    assert_eq!(parts, vec!["firefox", "--new-window"]);
}

#[test]
fn split_command_env_prefix() {
    let parts = split_command("GTK_THEME=Adwaita:dark firefox");
    assert_eq!(parts, vec!["GTK_THEME=Adwaita:dark", "firefox"]);
}

#[test]
fn split_command_unbalanced_falls_back() {
    // Unbalanced quotes — should fall back to split_whitespace
    let parts = split_command("sh -c \"unterminated");
    assert!(!parts.is_empty()); // doesn't panic, returns something
}

#[test]
fn split_command_empty() {
    let parts = split_command("");
    assert!(parts.is_empty());
}

#[test]
fn extract_env_prefix_splits_correctly() {
    let elements: Vec<String> = vec!["GTK_THEME=Adwaita:dark", "firefox", "--new-window"]
        .into_iter()
        .map(String::from)
        .collect();
    let (env, cmd) = extract_env_prefix(&elements);
    assert_eq!(env, vec![("GTK_THEME", "Adwaita:dark")]);
    assert_eq!(cmd, &["firefox", "--new-window"]);
}

#[test]
fn extract_env_prefix_no_env() {
    let elements: Vec<String> = vec!["firefox", "--new-window"]
        .into_iter()
        .map(String::from)
        .collect();
    let (env, cmd) = extract_env_prefix(&elements);
    assert!(env.is_empty());
    assert_eq!(cmd, &["firefox", "--new-window"]);
}

#[test]
fn extract_env_prefix_rejects_digit_start() {
    let elements: Vec<String> = vec!["1VAR=bad", "firefox"]
        .into_iter()
        .map(String::from)
        .collect();
    let (env, cmd) = extract_env_prefix(&elements);
    assert!(env.is_empty());
    assert_eq!(cmd, &["1VAR=bad", "firefox"]);
}

#[test]
fn prepend_theme_empty_prefix() {
    assert_eq!(prepend_theme("firefox", ""), "firefox");
}

#[test]
fn prepend_theme_with_prefix() {
    assert_eq!(
        prepend_theme("firefox", "GTK_THEME=Adwaita:dark"),
        "GTK_THEME=Adwaita:dark firefox"
    );
}

#[test]
fn launch_desktop_entry_empty_exec_is_noop() {
    // An Exec line of field codes only launches nothing.
    assert!(strip_field_codes("%u").is_empty());
    assert!(strip_field_codes("%F").is_empty());
}

#[test]
fn unbalanced_quotes_split_at_white_space() {
    assert_eq!(
        split_command("sh -c \"unterminated  x"),
        strings(&["sh", "-c", "\"unterminated", "x"])
    );
    assert_eq!(split_at_white_space("\ta \u{3000}b\n"), strings(&["a", "b"]));
}

#[test]
fn assignments_without_a_command() {
    let elements = strings(&["A=1", "_B2=", "C=x=y"]);
    let (env, cmd) = extract_env_prefix(&elements);
    assert_eq!(env, vec![("A", "1"), ("_B2", ""), ("C", "x=y")]);
    assert!(cmd.is_empty());
    assert!(plan_direct(&elements).is_none());
    assert!(plan_uwsm("A=1 _B2= C=x=y", &elements).is_none());
}

#[test]
fn assignments_behind_the_command_are_arguments() {
    let elements = strings(&["A=1", "env", "B=2", "app"]);
    let (env, cmd) = extract_env_prefix(&elements);
    assert_eq!(env, vec![("A", "1")]);
    assert_eq!(cmd, &["env", "B=2", "app"]);
    assert_eq!(env.len() + cmd.len(), elements.len());
}

#[test]
fn direct_launch_of_a_command() {
    let plan = launch_command("GTK_THEME=Adwaita:dark firefox 'new window'").unwrap();
    assert_eq!(plan.program, "firefox");
    assert_eq!(plan.args, strings(&["new window"]));
    assert_eq!(plan.env, vec![("GTK_THEME".to_string(), "Adwaita:dark".to_string())]);
    assert_eq!(plan.label, "firefox new window");
    assert!(launch_command("").is_none());
}

#[test]
fn uwsm_launch_of_a_command() {
    let plan = launch_via_uwsm(" A=1 firefox -x ").unwrap();
    assert_eq!(plan.program, "uwsm");
    assert_eq!(plan.args, strings(&["app", "--", "firefox", "-x"]));
    assert_eq!(plan.env, vec![("A".to_string(), "1".to_string())]);
    assert_eq!(plan.label, "A=1 firefox -x");
}

#[test]
fn launch_by_class() {
    assert_eq!(launch("slack", Some("slack -s")).unwrap().args, strings(&["-s"]));
    assert_eq!(launch("slack", None).unwrap().program, "slack");
}

#[test]
fn launch_in_a_session() {
    match launch_via_compositor(" firefox ", PLAIN) {
        LaunchAction::Compositor(cmd) => assert_eq!(cmd, " firefox "),
        other => panic!("unexpected {:?}", other),
    }
    match launch_via_compositor("firefox", UWSM) {
        LaunchAction::Uwsm(cmd) => assert_eq!(cmd, "firefox"),
        other => panic!("unexpected {:?}", other),
    }
    assert!(matches!(launch_via_compositor(" \t", UWSM), LaunchAction::Nothing));
    match launch_terminal_via_compositor("htop", "foot", PLAIN) {
        LaunchAction::Compositor(cmd) => assert_eq!(cmd, "foot -e htop"),
        other => panic!("unexpected {:?}", other),
    }
}

#[test]
fn launch_of_a_desktop_entry() {
    match launch_desktop_entry("htop %u", true, "foot", "GTK_THEME=X", PLAIN) {
        LaunchAction::Compositor(cmd) => assert_eq!(cmd, "foot -e GTK_THEME=X htop"),
        other => panic!("unexpected {:?}", other),
    }
    match launch_desktop_entry("\"my app\" %F", false, "foot", "", UWSM) {
        LaunchAction::Uwsm(cmd) => assert_eq!(cmd, "\"my app\""),
        other => panic!("unexpected {:?}", other),
    }
    assert!(matches!(
        launch_desktop_entry("%u", true, "foot", "GTK_THEME=X", PLAIN),
        LaunchAction::Nothing
    ));
}

#[test]
fn children_are_reaped_when_they_end() {
    let states = vec![
        ChildState::Running,
        ChildState::Exited { success: true },
        ChildState::Running,
        ChildState::Lost,
    ];
    assert_eq!(finished_children(&states), vec![1, 3]);
    assert!(finished_children(&vec![]).is_empty());
    assert!(child_failed(ChildState::Lost));
    assert!(child_failed(ChildState::Exited { success: false }));
    assert!(!child_failed(ChildState::Exited { success: true }));
    assert!(!child_failed(ChildState::Running));
    assert!(reaper_ends(ReaperEvent::Disconnected, 0));
    assert!(!reaper_ends(ReaperEvent::Disconnected, 1));
    assert!(!reaper_ends(ReaperEvent::Timeout, 0));
    assert!(!reaper_ends(ReaperEvent::Job, 0));
}
