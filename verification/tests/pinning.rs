//! The pinned list and its file.

use nwg_common::path::parent_of;
use nwg_common::pinning::{is_pinned, load_pinned, pin_item, save_pinned, temp_path, unpin_item};

fn strings(v: &[&str]) -> Vec<String> {
    v.iter().map(|s| s.to_string()).collect()
}

#[test]
fn pin_unpin_roundtrip() {
    let mut pinned = Vec::new();
    assert!(pin_item(&mut pinned, "firefox"));
    assert!(!pin_item(&mut pinned, "firefox")); // already pinned
    assert!(is_pinned(&pinned, "firefox"));
    assert!(unpin_item(&mut pinned, "firefox"));
    assert!(!is_pinned(&pinned, "firefox"));
}

#[test]
fn duplicate_pin_rejected() {
    let mut pinned = Vec::new();
    assert!(pin_item(&mut pinned, "firefox"));
    assert!(!pin_item(&mut pinned, "firefox"));
    assert_eq!(pinned.len(), 1);
}

#[test]
fn is_pinned_case_insensitive() {
    let pinned = vec!["slack".to_string()];
    assert!(is_pinned(&pinned, "Slack"));
    assert!(is_pinned(&pinned, "SLACK"));
    assert!(is_pinned(&pinned, "slack"));
}

#[test]
fn unpin_case_insensitive() {
    let mut pinned = vec!["slack".to_string(), "firefox".to_string()];
    assert!(unpin_item(&mut pinned, "Slack"));
    assert!(!is_pinned(&pinned, "slack"));
    assert_eq!(pinned.len(), 1); // only "firefox" remains
}

#[test]
fn pin_rejects_case_insensitive_duplicate() {
    let mut pinned = Vec::new();
    assert!(pin_item(&mut pinned, "slack"));
    assert!(!pin_item(&mut pinned, "Slack"));
    assert_eq!(pinned.len(), 1); // "Slack" rejected as duplicate of "slack"
}

#[test]
fn save_load_roundtrip() {
    let pinned = vec!["firefox".to_string(), "alacritty".to_string()];
    let content = save_pinned(&pinned);
    assert_eq!(content, "firefox\nalacritty\n");
    assert_eq!(load_pinned(Some(&content)), pinned);
}

#[test]
fn empty_file_loads_empty() {
    let pinned: Vec<String> = vec![];
    let content = save_pinned(&pinned);
    assert_eq!(content, "");
    assert!(load_pinned(Some(&content)).is_empty());
}

#[test]
fn whitespace_only_lines_filtered() {
    let loaded = load_pinned(Some("firefox\n\n   \nalacritty\n  \ngimp\n"));
    assert_eq!(loaded, vec!["firefox", "alacritty", "gimp"]);
}

#[test]
fn large_pin_list_roundtrip() {
    let pinned: Vec<String> = (0..500).map(|i| format!("app-{}", i)).collect();
    let loaded = load_pinned(Some(&save_pinned(&pinned)));
    assert_eq!(loaded.len(), 500);
    assert_eq!(loaded, pinned);
}

#[test]
fn load_nonexistent_file_returns_empty() {
    assert!(load_pinned(None).is_empty());
}

#[test]
fn ids_are_trimmed() {
    let mut pinned = Vec::new();
    assert!(pin_item(&mut pinned, "  Firefox\n"));
    assert_eq!(pinned, strings(&["Firefox"]));
    assert!(is_pinned(&pinned, "\tfirefox "));
    assert!(!is_pinned(&pinned, "fire fox"));
    assert!(unpin_item(&mut pinned, " FIREFOX"));
    assert!(pinned.is_empty());
    assert!(!unpin_item(&mut pinned, "firefox"));
}

#[test]
fn only_ascii_letters_lose_their_case() {
    let pinned = strings(&["\u{c4}pfel"]);
    assert!(is_pinned(&pinned, "\u{c4}PFEL"));
    assert!(!is_pinned(&pinned, "\u{e4}pfel"));
}

#[test]
fn unpinning_undoes_pinning() {
    let before = strings(&["a", "b"]);
    let mut pinned = before.clone();
    assert!(pin_item(&mut pinned, "c"));
    assert!(is_pinned(&pinned, "a"));
    assert!(unpin_item(&mut pinned, "C"));
    assert_eq!(pinned, before);
}

#[test]
fn unpinning_removes_every_copy() {
    let mut pinned = strings(&["x", "A", "y", "a"]);
    assert!(unpin_item(&mut pinned, "a"));
    assert_eq!(pinned, strings(&["x", "y"]));
}

#[test]
fn empty_items_are_not_saved() {
    assert_eq!(save_pinned(&strings(&["", "a", "", "b"])), "a\nb\n");
}

#[test]
fn the_file_is_replaced_through_another() {
    assert_eq!(temp_path("/cache/nwg-dock-pinned"), "/cache/nwg-dock-pinned.tmp");
    assert_eq!(temp_path("/cache/pinned.txt"), "/cache/pinned.tmp");
    assert_eq!(parent_of(&temp_path("/cache/a.b/pinned")), parent_of("/cache/a.b/pinned"));
}
