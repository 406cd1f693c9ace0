//! Command lines of processes.

use nwg_common::process::{
    cmdline_path, dump_args, handle_dump_args, parse_cmdline_bytes, DumpArgsRequest,
};

#[test]
fn join_split_round_trip_with_spaces() {
    let args = vec!["cmd".to_string(), "arg with spaces".to_string()];
    let joined = shell_words::join(&args);
    let split = shell_words::split(&joined).unwrap();
    assert_eq!(split, args);
}

#[test]
fn join_split_round_trip_nested_quotes() {
    // Simulates a power bar command with nested quotes
    let args = vec![
        "nwg-drawer".to_string(),
        "-c".to_string(),
        r#"nwg-dialog -p exit -c "loginctl terminate-user \"\"""#.to_string(),
    ];
    let joined = shell_words::join(&args);
    let split = shell_words::split(&joined).unwrap();
    assert_eq!(split, args);
}

#[test]
fn join_split_round_trip_empty_arg() {
    // An argument that is an empty string should survive the round trip
    let args = vec!["cmd".to_string(), "".to_string(), "last".to_string()];
    let joined = shell_words::join(&args);
    let split = shell_words::split(&joined).unwrap();
    assert_eq!(split, args);
}

#[test]
fn parse_cmdline_bytes_basic() {
    let data = b"cmd\0--flag\0value\0";
    assert_eq!(parse_cmdline_bytes(data), vec!["cmd", "--flag", "value"]);
}

#[test]
fn parse_cmdline_bytes_empty_middle_arg() {
    // Empty argument between two others (e.g. -c "")
    let data = b"cmd\0\0last\0";
    assert_eq!(parse_cmdline_bytes(data), vec!["cmd", "", "last"]);
}

#[test]
fn parse_cmdline_bytes_no_trailing_null() {
    // Some edge cases may lack the trailing null
    let data = b"cmd\0arg";
    assert_eq!(parse_cmdline_bytes(data), vec!["cmd", "arg"]);
}

#[test]
fn parse_cmdline_bytes_empty() {
    assert!(parse_cmdline_bytes(b"").is_empty());
}

#[test]
fn parse_cmdline_bytes_not_utf8() {
    assert_eq!(parse_cmdline_bytes(b"cmd\0\xff\0"), vec!["cmd", "\u{fffd}"]);
}

#[test]
fn dump_args_splits_back() {
    let line = dump_args(b"cmd\0arg with spaces\0\0it's\0").unwrap();
    assert_eq!(
        shell_words::split(&line).unwrap(),
        vec!["cmd", "arg with spaces", "", "it's"]
    );
    assert_eq!(dump_args(b"cmd\0-x\0").unwrap(), "cmd -x");
}

#[test]
fn dump_args_of_nothing() {
    assert_eq!(dump_args(b""), None);
}

#[test]
fn cmdline_of_a_process() {
    assert_eq!(cmdline_path(0), "/proc/0/cmdline");
    assert_eq!(cmdline_path(4294967295), "/proc/4294967295/cmdline");
}

fn request(args: &[&str]) -> DumpArgsRequest {
    handle_dump_args(&args.iter().map(|a| Some(a.to_string())).collect())
}

#[test]
fn dump_args_flag() {
    assert_eq!(request(&["app", "-x"]), DumpArgsRequest::Absent);
    assert_eq!(request(&["app", "--dump-args", "+12"]), DumpArgsRequest::Pid(12));
    assert_eq!(request(&["app", "--dump-args"]), DumpArgsRequest::Invalid);
    assert_eq!(request(&["app", "--dump-args", "x"]), DumpArgsRequest::Invalid);
    assert_eq!(request(&["app", "--dump-args", "-1"]), DumpArgsRequest::Invalid);
    assert_eq!(request(&["app", "--dump-args", "4294967296"]), DumpArgsRequest::Invalid);
    assert_eq!(
        handle_dump_args(&vec![None, Some("--dump-args".to_string()), None]),
        DumpArgsRequest::Invalid
    );
}

#[test]
fn multibyte_arguments_are_kept() {
    let data = "caf\u{e9}\0--\u{20ac}\0".as_bytes();
    assert_eq!(parse_cmdline_bytes(data), vec!["caf\u{e9}", "--\u{20ac}"]);
    assert_eq!(parse_cmdline_bytes(b"a\xff\0b\0"), vec!["a\u{fffd}", "b"]);
    assert_eq!(dump_args(b""), None);
    assert_eq!(dump_args(b"\0").unwrap(), "''");
}
