//! Text, numbers, paths, JSON values and errors.

use nwg_common::config::paths::{
    cache_dir, config_dir, data_probe, data_search_dirs, find_data_home, load_text_lines, temp_dir,
};
use nwg_common::json::{parse_json, parse_json_array, Json};
use nwg_common::number::{i64_text, to_i32, to_u32, u64_text, Double};
use nwg_common::path::{
    absolute, file_name_of, join_path, parent_of, replace_extension, same_path,
};
use nwg_common::text;
use nwg_common::error::{IpcError, IpcErrorKind};
use nwg_common::DockError;

fn chars(s: &str) -> Vec<char> {
    s.chars().collect()
}

fn strings(v: &[&str]) -> Vec<String> {
    v.iter().map(|s| s.to_string()).collect()
}

#[test]
fn white_space_is_that_of_unicode() {
    for code in 0..=0x10ffffu32 {
        if let Some(c) = char::from_u32(code) {
            assert_eq!(text::is_space(c), c.is_whitespace(), "{:x}", code);
        }
    }
}

#[test]
fn trimming_agrees_with_std() {
    for s in ["", " ", "a", " a ", "\u{3000}a b\u{a0}\n", "\u{200b}a"] {
        let all = chars(s);
        assert_eq!(text::string_of(text::trimmed(&all)), s.trim());
        let once = chars(s.trim());
        assert_eq!(text::string_of(text::trimmed(&once)), s.trim());
    }
}

#[test]
fn words_agree_with_std() {
    for s in ["", "  ", "a", " a  b\t\u{3000}c ", "x y"] {
        let all = chars(s);
        let words = text::strings_of(&text::split_words(&all));
        assert_eq!(words, s.split_whitespace().collect::<Vec<&str>>());
    }
}

#[test]
fn searching_agrees_with_std() {
    for (s, p) in [("abcabc", "ca"), ("aaa", "aa"), ("abc", ""), ("", "a"), ("ab", "abc")] {
        assert_eq!(text::text_contains(s, p), s.contains(p));
        assert_eq!(text::find_text(&chars(s), &chars(p)), s.find(p));
        assert_eq!(text::text_begins_with(s, p), s.starts_with(p));
        assert_eq!(text::text_finishes_with(s, p), s.ends_with(p));
    }
    assert_eq!(text::replace_char("a-b-c", '-', ' '), "a b c");
}

#[test]
fn lines_end_with_or_without_a_return() {
    assert_eq!(text::split_lines(b"a\r\nb\n\nc\r"), vec![&b"a"[..], b"b", b"", b"c\r"]);
    assert!(text::split_lines(b"").is_empty());
    assert_eq!(text::split_lines(b"\n"), vec![&b""[..]]);
}

#[test]
fn numbers_as_text() {
    assert_eq!(u64_text(0), "0");
    assert_eq!(u64_text(u64::MAX), "18446744073709551615");
    assert_eq!(i64_text(-5), "-5");
    assert_eq!(i64_text(i64::MIN), "-9223372036854775808");
    for n in [0, 7, -7, i32::MAX, i32::MIN] {
        assert_eq!(to_i32(&chars(&i64_text(n as i64))), Some(n));
    }
}

#[test]
fn text_as_numbers_agrees_with_std() {
    for s in [
        "", "+", "-", "0", "-0", "+7", "007", "2147483647", "2147483648", "-2147483648",
        "-2147483649", "4294967295", "4294967296", "1 ", "0x1", "--1", "99999999999999999999",
    ] {
        assert_eq!(to_i32(&chars(s)), s.parse::<i32>().ok(), "{}", s);
        assert_eq!(to_u32(&chars(s)), s.parse::<u32>().ok(), "{}", s);
    }
}

#[test]
fn positive_doubles() {
    for x in [0.0, -0.0, 1.0, -1.0, f64::NAN, -f64::NAN, f64::INFINITY, f64::MIN_POSITIVE, 5e-324] {
        assert_eq!(Double { bits: x.to_bits() }.is_positive(), x > 0.0);
    }
    assert_eq!(Double::one().bits, 1.0f64.to_bits());
}

#[test]
fn paths_agree_with_std() {
    let all = [
        "", "/", ".", "..", "a", "a/", "/a", "/a/b", "/a/b/", "a//b", "a/./b", "./a", "/.", "a/.",
        "a/..", "/a/../b", "//a", "a.tar.gz", "/a.b/c", ".hidden", "a.", "/a/b/.",
    ];
    for p in all {
        let std_path = std::path::Path::new(p);
        assert_eq!(
            parent_of(p).as_deref(),
            std_path.parent().map(|d| d.to_str().unwrap()),
            "parent of {:?}",
            p
        );
        assert_eq!(
            file_name_of(p).as_deref(),
            std_path.file_name().map(|d| d.to_str().unwrap()),
            "name of {:?}",
            p
        );
        assert_eq!(absolute(p), std_path.is_absolute());
        assert_eq!(
            replace_extension(p, "tmp"),
            std_path.with_extension("tmp").to_str().unwrap(),
            "extension of {:?}",
            p
        );
        for q in all {
            assert_eq!(same_path(p, q), std_path == std::path::Path::new(q), "{:?} {:?}", p, q);
            assert_eq!(join_path(p, q), std_path.join(q).to_str().unwrap(), "{:?} {:?}", p, q);
        }
    }
}

#[test]
fn joined_names_have_their_parent() {
    let joined = join_path("/a/b", "c.css");
    assert_eq!(parent_of(&joined).unwrap(), "/a/b");
    assert_eq!(file_name_of(&joined).unwrap(), "c.css");
}

#[test]
fn json_values_keep_their_layers() {
    let value = parse_json(
        r#"{"n": null, "b": true, "i": -3, "d": 1.5, "big": 18446744073709551615,
            "t": "x\ny", "a": [1, [2], {}], "o": {"k": "v"}}"#
            .as_bytes(),
    )
    .unwrap();
    assert!(value.get("n").unwrap().is_null());
    assert_eq!(value.get("b").unwrap().as_bool(), Some(true));
    assert_eq!(value.get("i").unwrap().as_i64(), Some(-3));
    assert_eq!(value.get("d").unwrap().as_i64(), None);
    assert_eq!(value.get("d").unwrap().as_double().unwrap().bits, 1.5f64.to_bits());
    assert_eq!(value.get("i").unwrap().as_double().unwrap().bits, (-3.0f64).to_bits());
    assert_eq!(value.get("big").unwrap().as_i64(), None);
    assert_eq!(value.get("t").unwrap().as_str(), Some("x\ny"));
    let items = value.get("a").unwrap().as_array().unwrap();
    assert_eq!(items.len(), 3);
    assert_eq!(items[1].as_array().unwrap()[0].as_i64(), Some(2));
    assert_eq!(value.get("o").unwrap().get("k").unwrap().as_str(), Some("v"));
    assert!(value.get("missing").is_none());
    assert!(items[0].get("k").is_none());
    assert_eq!(value.clone().get("o").unwrap().get("k").unwrap().as_str(), Some("v"));
    assert!(Json::default().is_null());
}

#[test]
fn later_json_fields_replace_earlier_ones() {
    let value = parse_json(br#"{"k": 1, "k": 2}"#).unwrap();
    assert_eq!(value.get("k").unwrap().as_i64(), Some(2));
}

#[test]
fn json_that_is_none() {
    assert!(parse_json(b"{").is_err());
    assert!(parse_json(b"").is_err());
    assert!(parse_json(b"1 2").is_err());
    assert!(parse_json(b"\"\xff\"").is_err());
    assert!(parse_json_array(b"{}").is_err());
    assert_eq!(parse_json_array(b"[1, {}]").unwrap().len(), 2);
}

#[test]
fn how_errors_read() {
    let json = parse_json(b"{").unwrap_err();
    let json_text = json.to_string();
    let ipc = IpcError::new(IpcErrorKind::Other, "broken pipe".to_string());
    assert_eq!(DockError::Ipc(ipc).message(), "compositor IPC error: broken pipe");
    assert_eq!(DockError::Json(json).message(), format!("JSON parse error: {}", json_text));
    assert_eq!(
        DockError::DesktopEntry { path: "/a.desktop".into(), message: "bad".into() }.message(),
        "desktop entry parse error in /a.desktop: bad"
    );
    assert_eq!(DockError::IconNotFound("x".into()).message(), "icon not found for 'x'");
    assert_eq!(
        DockError::DataDirNotFound("x".into()).message(),
        "data directory not found for 'x'"
    );
    assert_eq!(
        DockError::LockFileHeld { path: "/l".into(), pid: 7 }.message(),
        "lock file already held: /l (pid 7)"
    );
    assert_eq!(DockError::EnvNotSet("X".into()).message(), "environment variable not set: X");
    assert_eq!(
        DockError::UnsupportedCompositor("x".into()).message(),
        "unsupported compositor: x"
    );
    assert_eq!(
        DockError::DispatchRejected { command: "c".into(), reply: "r".into() }.message(),
        "dispatch rejected: 'c': r"
    );
    assert_eq!(
        DockError::NoCompositorDetected.message(),
        "no compositor detected (set HYPRLAND_INSTANCE_SIGNATURE or SWAYSOCK)"
    );
}

#[test]
fn config_directories() {
    assert_eq!(config_dir("dock", Some("/x"), Some("/h")), "/x/dock");
    assert_eq!(config_dir("dock", None, Some("/h")), "/h/.config/dock");
    assert_eq!(config_dir("dock", None, None), "/tmp/dock");
    assert_eq!(temp_dir(Some("/1"), Some("/2"), Some("/3")), "/1");
    assert_eq!(temp_dir(None, Some("/2"), Some("/3")), "/2");
    assert_eq!(temp_dir(None, None, Some("/3")), "/3");
    assert_eq!(temp_dir(None, None, None), "/tmp");
    assert_eq!(cache_dir(Some("/c".into()), Some("/f".into())), Some("/c".to_string()));
    assert_eq!(cache_dir(None, Some("/f".into())), Some("/f".to_string()));
    assert_eq!(cache_dir(None, None), None);
    // An empty XDG variable counts as one that is not set.
    assert_eq!(cache_dir(Some("".into()), Some("/f".into())), Some("/f".to_string()));
    assert_eq!(config_dir("dock", Some(""), Some("/h")), "/h/.config/dock");
    assert_eq!(config_dir("dock", Some(""), None), "/tmp/dock");
}

#[test]
fn data_directories_are_searched_in_order() {
    assert_eq!(
        data_search_dirs(None, Some("/h"), None),
        strings(&["/h/.local/share", "/usr/local/share", "/usr/share"])
    );
    assert_eq!(
        data_search_dirs(Some("/d"), Some("/h"), Some("/a:/b")),
        strings(&["/d", "/a", "/b"])
    );
    assert_eq!(data_search_dirs(None, None, Some("/a")), strings(&["/a"]));
    assert_eq!(
        data_search_dirs(Some(""), Some("/h"), Some("")),
        data_search_dirs(None, Some("/h"), None)
    );
    assert_eq!(data_probe("/usr/share", "nwg-drawer"), "/usr/share/nwg-drawer");
    let dirs = vec![("/a".to_string(), false), ("/b".to_string(), true), ("/c".to_string(), true)];
    assert_eq!(find_data_home(&dirs), Some("/b".to_string()));
    assert_eq!(find_data_home(&vec![("/a".to_string(), false)]), None);
}

#[test]
fn text_lines_are_trimmed_and_not_blank() {
    assert_eq!(load_text_lines(" a \n\n\t\r\nb"), strings(&["a", "b"]));
    assert!(load_text_lines("").is_empty());
}
