//! Watching stylesheets and their imports.

use std::collections::BTreeMap;

use nwg_common::config::imports::{direct_imports, ImportWalk, MAX_IMPORT_GRAPH_SIZE};
use nwg_common::config::watch::{
    begin_rebind, compute_canonical_pair, compute_watched_dirs, compute_watched_set,
    css_priority_offset, drain_step, initial_paths, is_content_change, on_tick, provider_source,
    should_signal, watch_outcome, BuildWatchError, ChangeKind, ChannelState, CssBinding, CssLayer,
    CssRebindError, DrainResult, ProviderSource, TickAction,
};
use nwg_common::error::{IpcError, IpcErrorKind};
use nwg_common::path::PathSet;
use notify::event::{
    AccessKind, AccessMode, CreateKind, DataChange, ModifyKind, RemoveKind,
};
use notify::EventKind;

fn kind(kind: &EventKind) -> ChangeKind {
    match kind {
        EventKind::Any => ChangeKind::Any,
        EventKind::Access(_) => ChangeKind::Access,
        EventKind::Create(_) => ChangeKind::Create,
        EventKind::Modify(_) => ChangeKind::Modify,
        EventKind::Remove(_) => ChangeKind::Remove,
        EventKind::Other => ChangeKind::Other,
    }
}

fn content_change(event: &EventKind) -> bool {
    is_content_change(kind(event))
}

fn strings(v: &[&str]) -> Vec<String> {
    v.iter().map(|s| s.to_string()).collect()
}

/// Files in memory: what each canonical path holds, where it can be read.
struct Files(BTreeMap<String, Option<String>>);

impl Files {
    fn new(files: &[(&str, &str)]) -> Files {
        Files(files.iter().map(|(p, c)| (p.to_string(), Some(c.to_string()))).collect())
    }

    /// The path without `.` segments, and with `/alias` as the link to `/real`
    /// that it is, if there is such a file.
    fn canonical(&self, path: &str) -> Option<String> {
        let clean = path.replace("/./", "/").replace("/alias/", "/real/");
        if self.0.contains_key(&clean) {
            Some(clean)
        } else {
            None
        }
    }

    /// Walks along the imports of `main`.
    fn discover(&self, main: &str) -> Vec<String> {
        let canonical = self.canonical(main);
        let mut walk = ImportWalk::start(main, canonical.as_deref());
        while let Some(file) = walk.next_file() {
            let content = match self.canonical(&file) {
                Some(file) => match &self.0[&file] {
                    Some(content) => content,
                    None => continue,
                },
                None => continue,
            };
            let targets = direct_imports(&file, content).unwrap_or_default();
            let found: Vec<(String, String)> = targets
                .into_iter()
                .filter_map(|t| self.canonical(&t).map(|c| (t, c)))
                .collect();
            walk.take_imports(&found);
        }
        walk.into_imports()
    }
}

#[test]
fn watched_set_contains_main_css_when_no_imports() {
    let main = "/home/user/.config/dock/style.css".to_string();
    let set = compute_watched_set(&main, &[]);
    assert_eq!(set.len(), 1);
    assert!(set.contains(&main));
}

#[test]
fn watched_set_contains_main_and_all_imports() {
    let main = "/home/user/.config/dock/style.css".to_string();
    let imports = vec![
        "/home/user/.local/share/theme/base16.css".to_string(),
        "/home/user/.config/dock/extras.css".to_string(),
    ];
    let set = compute_watched_set(&main, &imports);
    assert_eq!(set.len(), 3);
    assert!(set.contains(&main));
    for imp in &imports {
        assert!(set.contains(imp));
    }
}

#[test]
fn watched_set_equality_is_order_independent() {
    let main = "/style.css".to_string();
    let a = "/a.css".to_string();
    let b = "/b.css".to_string();
    let set1 = compute_watched_set(&main, &[a.clone(), b.clone()]);
    let set2 = compute_watched_set(&main, &[b.clone(), a.clone()]);
    assert_eq!(set1, set2);
}

#[test]
fn watched_set_differs_when_import_added_or_removed() {
    let main = "/style.css".to_string();
    let a = "/a.css".to_string();
    let b = "/b.css".to_string();
    let before = compute_watched_set(&main, std::slice::from_ref(&a));
    let after_added = compute_watched_set(&main, &[a.clone(), b.clone()]);
    let after_removed = compute_watched_set(&main, &[]);
    assert_ne!(before, after_added);
    assert_ne!(before, after_removed);
    assert_ne!(after_added, after_removed);
}

#[test]
fn watched_dirs_collapses_shared_parent() {
    // Two imports under the same directory should produce one
    // notify watch, not two — notify subscribes to a dir, not a
    // file, and double-watching the same dir wastes file handles.
    let main = "/home/user/style.css".to_string();
    let imports = vec![
        "/home/user/a.css".to_string(),
        "/home/user/b.css".to_string(),
    ];
    let dirs = compute_watched_dirs(&main, &imports);
    assert_eq!(dirs.len(), 1);
    assert!(dirs.contains("/home/user"));
}

#[test]
fn watched_dirs_includes_all_distinct_parents() {
    let main = "/home/user/.config/dock/style.css".to_string();
    let imports = vec![
        "/home/user/.local/share/theme/base16.css".to_string(),
        "/home/user/.cache/dock/colors.css".to_string(),
    ];
    let dirs = compute_watched_dirs(&main, &imports);
    assert_eq!(dirs.len(), 3);
    assert!(dirs.contains("/home/user/.config/dock"));
    assert!(dirs.contains("/home/user/.local/share/theme"));
    assert!(dirs.contains("/home/user/.cache/dock"));
}

#[test]
fn is_content_change_accepts_create_modify_remove() {
    assert!(content_change(&EventKind::Create(CreateKind::File)));
    assert!(content_change(&EventKind::Modify(ModifyKind::Data(
        DataChange::Any
    ))));
    assert!(content_change(&EventKind::Remove(RemoveKind::File)));
}

#[test]
fn is_content_change_rejects_access_events() {
    // These are the kinds our own reload cycle generates when we
    // open the CSS file to reload it. They must NOT count as
    // content changes, otherwise we self-trigger a reload loop.
    assert!(!content_change(&EventKind::Access(AccessKind::Open(
        AccessMode::Any
    ))));
    assert!(!content_change(&EventKind::Access(AccessKind::Close(
        AccessMode::Read
    ))));
    assert!(!content_change(&EventKind::Access(AccessKind::Read)));
}

#[test]
fn is_content_change_rejects_any_and_other() {
    assert!(!content_change(&EventKind::Any));
    assert!(!content_change(&EventKind::Other));
}

#[test]
fn discover_no_file_returns_empty() {
    assert!(Files::new(&[]).discover("/nonexistent/path/style.css").is_empty());
}

#[test]
fn discover_file_without_imports_returns_empty() {
    let files = Files::new(&[("/t/style.css", "window { color: red; }")]);
    assert!(files.discover("/t/style.css").is_empty());
}

#[test]
fn discover_relative_import_resolved_and_existing() {
    let files = Files::new(&[("/t/theme.css", ""), ("/t/style.css", "@import \"theme.css\";")]);
    assert_eq!(files.discover("/t/style.css"), strings(&["/t/theme.css"]));
}

#[test]
fn discover_dot_segment_import_canonicalized() {
    let files = Files::new(&[("/t/theme.css", ""), ("/t/style.css", "@import \"./theme.css\";")]);
    assert_eq!(files.discover("/t/style.css"), strings(&["/t/theme.css"]));
}

#[test]
fn discover_skips_nonexistent_imports() {
    let files = Files::new(&[("/t/style.css", "@import \"missing-theme.css\";")]);
    assert!(files.discover("/t/style.css").is_empty());
}

#[test]
fn discover_skips_http_imports() {
    let files = Files::new(&[("/t/style.css", "@import \"https://example.com/theme.css\";")]);
    assert!(files.discover("/t/style.css").is_empty());
}

#[test]
fn discover_tracks_changing_import_set_across_rewrites() {
    let saved = |content: &str| -> (Vec<String>, PathSet) {
        let files = Files::new(&[
            ("/t/theme-a.css", ""),
            ("/t/theme-b.css", ""),
            ("/t/style.css", content),
        ]);
        let imports = files.discover("/t/style.css");
        let watched = compute_watched_set("/t/style.css", &imports);
        (imports, watched)
    };

    // Initial state: imports theme-a.
    let (a, set_a) = saved("@import \"theme-a.css\";");
    // The main CSS is edited to import theme-b instead.
    let (b, set_b) = saved("@import \"theme-b.css\";");
    // Then to import both.
    let (both, set_both) = saved("@import \"theme-a.css\"; @import \"theme-b.css\";");
    // Then to drop all imports.
    let (none, set_none) = saved("window { color: red; }");

    // Every transition must surface as a set change so the rebuild guard fires.
    assert_ne!(set_a, set_b);
    assert_ne!(set_a, set_both);
    assert_ne!(set_a, set_none);
    assert_ne!(set_b, set_both);
    assert_ne!(set_b, set_none);
    assert_ne!(set_both, set_none);

    let all = [a, b, both, none];
    for (i, before) in all.iter().enumerate() {
        let binding =
            CssBinding::new("/t/style.css".into(), "/t/style.css".into(), before, true);
        for (j, after) in all.iter().enumerate() {
            assert_eq!(binding.needs_rebuild(after), i != j);
        }
    }
}

#[test]
fn self_import_dedupes_to_single_entry() {
    let files = Files::new(&[("/t/style.css", "@import \"/t/style.css\";")]);
    let imports = files.discover("/t/style.css");
    let watched = compute_watched_set("/t/style.css", &imports);
    assert_eq!(watched.len(), 1);
    assert!(watched.contains("/t/style.css"));
}

#[test]
fn mutual_import_produces_bounded_set() {
    let files = Files::new(&[
        ("/t/a.css", "@import \"/t/b.css\";"),
        ("/t/b.css", "@import \"/t/a.css\";"),
    ]);
    let imports = files.discover("/t/a.css");
    assert_eq!(compute_watched_set("/t/a.css", &imports).len(), 2);
}

#[test]
fn nested_imports_are_recursively_discovered() {
    let files = Files::new(&[
        ("/t/style.css", "@import \"/t/a.css\";"),
        ("/t/a.css", "@import \"/t/b.css\";"),
        ("/t/b.css", ""),
    ]);
    let imports = files.discover("/t/style.css");
    let watched = compute_watched_set("/t/style.css", &imports);
    assert_eq!(watched.len(), 3);
    assert!(watched.contains("/t/a.css"));
    assert!(watched.contains("/t/b.css"));
}

#[test]
fn deep_import_chain_fully_discovered() {
    let files = Files::new(&[
        ("/t/style.css", "@import \"/t/a.css\";"),
        ("/t/a.css", "@import \"/t/b.css\";"),
        ("/t/b.css", "@import \"/t/c.css\";"),
        ("/t/c.css", "@import \"/t/d.css\";"),
        ("/t/d.css", ""),
    ]);
    let imports = files.discover("/t/style.css");
    assert_eq!(imports, strings(&["/t/a.css", "/t/b.css", "/t/c.css", "/t/d.css"]));
    assert_eq!(compute_watched_set("/t/style.css", &imports).len(), 5);
}

#[test]
fn diamond_import_graph_visits_shared_node_once() {
    let files = Files::new(&[
        ("/t/style.css", "@import \"/t/a.css\";\n@import \"/t/b.css\";"),
        ("/t/a.css", "@import \"/t/c.css\";"),
        ("/t/b.css", "@import \"/t/c.css\";"),
        ("/t/c.css", ""),
    ]);
    let imports = files.discover("/t/style.css");
    assert_eq!(compute_watched_set("/t/style.css", &imports).len(), 4);
    assert_eq!(imports.iter().filter(|p| *p == "/t/c.css").count(), 1);
}

#[test]
fn multi_hop_cycle_terminates() {
    let files = Files::new(&[
        ("/t/style.css", "@import \"/t/a.css\";"),
        ("/t/a.css", "@import \"/t/b.css\";"),
        ("/t/b.css", "@import \"/t/a.css\";"),
    ]);
    let imports = files.discover("/t/style.css");
    assert_eq!(compute_watched_set("/t/style.css", &imports).len(), 3);
}

#[test]
fn import_graph_size_is_capped() {
    let chain_len = MAX_IMPORT_GRAPH_SIZE + 5;
    let mut files = Files::new(&[("/t/style.css", "@import \"/t/f0.css\";")]);
    for i in 0..chain_len {
        let content = format!("@import \"/t/f{}.css\";", i + 1);
        files.0.insert(format!("/t/f{}.css", i), Some(content));
    }
    assert_eq!(files.discover("/t/style.css").len(), MAX_IMPORT_GRAPH_SIZE);
}

#[test]
fn discover_extracts_valid_import_from_garbage_content() {
    let files = Files::new(&[
        ("/t/theme.css", ""),
        (
            "/t/style.css",
            "{ unclosed brace\n\
             nonsense garbage  ::: nope\n\
             @import \"/t/theme.css\";\n\
             @;;; @@ garbage\n\
             window { not really css",
        ),
    ]);
    assert_eq!(files.discover("/t/style.css"), strings(&["/t/theme.css"]));
}

#[test]
fn discover_non_utf8_main_returns_empty_without_panic() {
    let mut files = Files::new(&[]);
    files.0.insert("/t/style.css".to_string(), None);
    assert!(files.discover("/t/style.css").is_empty());
}

#[test]
fn unreadable_node_skips_children_without_panic() {
    let mut files = Files::new(&[
        ("/t/style.css", "@import \"/t/a.css\";"),
        ("/t/b.css", ""),
    ]);
    files.0.insert("/t/a.css".to_string(), None);
    assert_eq!(files.discover("/t/style.css"), strings(&["/t/a.css"]));
}

#[test]
fn discovery_uses_as_referenced_base_dir_for_symlinked_parent() {
    let files = Files::new(&[
        ("/real/style.css", "@import \"theme.css\";"),
        ("/real/theme.css", ""),
    ]);
    assert_eq!(files.discover("/alias/style.css"), strings(&["/real/theme.css"]));
}

#[test]
fn imports_are_relative_to_the_referenced_path() {
    let mut walk = ImportWalk::start("/alias/style.css", Some("/real/style.css"));
    assert_eq!(walk.next_file().unwrap(), "/alias/style.css");
    assert_eq!(
        direct_imports("/alias/style.css", "@import 'sub/theme.css';").unwrap(),
        strings(&["/alias/sub/theme.css"])
    );
    walk.take_imports(&vec![(
        "/alias/sub/theme.css".to_string(),
        "/real/sub/theme.css".to_string(),
    )]);
    assert_eq!(walk.next_file().unwrap(), "/alias/sub/theme.css");
    assert_eq!(walk.next_file(), None);
    assert!(!walk.is_capped());
    assert_eq!(walk.into_imports(), strings(&["/real/sub/theme.css"]));
    assert_eq!(direct_imports("/", "@import 'x.css';"), None);
}

#[test]
fn wide_import_list_is_capped() {
    let mut walk = ImportWalk::start("/m.css", Some("/m.css"));
    walk.next_file();
    let many: Vec<(String, String)> =
        (0..40).map(|i| (format!("/{}.css", i), format!("/{}.css", i))).collect();
    walk.take_imports(&many);
    assert!(walk.is_capped());
    assert_eq!(walk.next_file(), None);
    assert_eq!(walk.into_imports().len(), 32);
}

fn watched_style() -> PathSet {
    let mut watched = PathSet::new();
    watched.insert("/tmp/style.css");
    watched
}

fn modify() -> EventKind {
    EventKind::Modify(ModifyKind::Data(DataChange::Any))
}

#[test]
fn handler_sends_on_modify_to_watched_path() {
    let paths = strings(&["/tmp/style.css"]);
    assert!(should_signal(kind(&modify()), &paths, &watched_style()));
}

#[test]
fn handler_sends_on_create_and_remove_of_watched_path() {
    let paths = strings(&["/tmp/style.css"]);
    let create = EventKind::Create(CreateKind::File);
    let remove = EventKind::Remove(RemoveKind::File);
    assert!(should_signal(kind(&create), &paths, &watched_style()));
    assert!(should_signal(kind(&remove), &paths, &watched_style()));
}

#[test]
fn handler_ignores_access_events_on_watched_path() {
    let paths = strings(&["/tmp/style.css"]);
    let access = EventKind::Access(AccessKind::Open(AccessMode::Any));
    assert!(!should_signal(kind(&access), &paths, &watched_style()));
}

#[test]
fn handler_ignores_modify_on_unwatched_path() {
    let paths = strings(&["/tmp/gdk-pixbuf-glycin-tmp.XYZ"]);
    assert!(!should_signal(kind(&modify()), &paths, &watched_style()));
}

#[test]
fn handler_sends_when_any_event_path_matches() {
    let paths = strings(&["/tmp/unrelated.tmp", "/tmp/style.css"]);
    assert!(should_signal(kind(&modify()), &paths, &watched_style()));
}

#[test]
fn rebind_error_display_includes_path() {
    let io_err = CssRebindError::Io {
        path: "/tmp/style.css".to_string(),
        source: IpcError::new(IpcErrorKind::NotFound, "no such file".to_string()),
    };
    let msg = io_err.message();
    assert!(
        msg.contains("/tmp/style.css"),
        "Display must include the path: {msg}"
    );
    assert_eq!(msg, "cannot read new CSS file '/tmp/style.css': no such file");

    let setup_err = CssRebindError::WatcherSetup {
        path: "/tmp/alt.css".to_string(),
        message: "inotify limit reached".to_string(),
    };
    let msg2 = setup_err.message();
    assert!(
        msg2.contains("/tmp/alt.css"),
        "Display must include the path: {msg2}"
    );
    assert_eq!(
        msg2,
        "failed to set up CSS file watcher for '/tmp/alt.css': inotify limit reached"
    );
}

#[test]
fn watcher_setup_fails_on_the_first_directory() {
    assert!(watch_outcome(None, &vec![("/a".to_string(), None)]).is_ok());
    let dirs = vec![
        ("/a".to_string(), None),
        ("/b".to_string(), Some("gone".to_string())),
        ("/c".to_string(), Some("full".to_string())),
    ];
    let err = watch_outcome(None, &dirs).unwrap_err();
    assert!(matches!(err, BuildWatchError::WatchFailed { .. }));
    assert_eq!(err.message(), "failed to watch directory '/b': gone");
    let err = watch_outcome(Some("no inotify".to_string()), &dirs).unwrap_err();
    assert!(matches!(err, BuildWatchError::CreateFailed(_)));
    assert_eq!(err.message(), "failed to create notify watcher: no inotify");
}

#[test]
fn canonical_pair_resolves_existing_path() {
    let (as_ref, canonical) =
        compute_canonical_pair("/alias/./style.css", Ok("/real".to_string())).unwrap();
    assert_eq!(as_ref, "/alias/./style.css");
    assert_eq!(canonical, "/real/style.css");
}

#[test]
fn canonical_pair_returns_err_for_missing_parent() {
    let gone = IpcError::new(IpcErrorKind::NotFound, "gone".to_string());
    let err = compute_canonical_pair("/never-created/style.css", Err(gone)).unwrap_err();
    assert_eq!(err.kind, IpcErrorKind::NotFound);
    assert_eq!(err.message, "gone");
    let err = compute_canonical_pair("/", Ok("/".to_string())).unwrap_err();
    assert_eq!(err.kind, IpcErrorKind::NotFound);
    assert_eq!(err.message, "path '/' has no parent directory to canonicalize");
    let err = compute_canonical_pair("/a/..", Ok("/a".to_string())).unwrap_err();
    assert_eq!(err.message, "path '/a/..' has no file-name component");
}

#[test]
fn binding_follows_a_rebind() {
    let mut binding = CssBinding::new("/s.css".into(), "/r/s.css".into(), &[], true);
    assert!(!binding.needs_rebuild(&[]));
    let import = strings(&["/r/a.css"]);
    assert!(binding.needs_rebuild(&import));
    binding.rebuilt(&import, false);
    assert!(binding.needs_rebuild(&import));
    binding.rebuilt(&import, true);
    assert!(!binding.needs_rebuild(&import));

    let failed = BuildWatchError::CreateFailed("full".to_string());
    let err = binding
        .finish_rebind("/n.css", "/n.css".into(), "/n.css".into(), &[], Err(failed))
        .unwrap_err();
    assert_eq!(
        err.message(),
        "failed to set up CSS file watcher for '/n.css': failed to create notify watcher: full"
    );
    assert_eq!(binding.as_referenced(), "/s.css");
    assert_eq!(binding.canonical(), "/r/s.css");
    assert!(!binding.needs_rebuild(&import));

    binding.finish_rebind("/n.css", "/n.css".into(), "/x/n.css".into(), &[], Ok(())).unwrap();
    assert_eq!(binding.as_referenced(), "/n.css");
    assert_eq!(binding.canonical(), "/x/n.css");
    assert!(binding.needs_rebuild(&import));
}

#[test]
fn binding_without_a_watcher_is_dormant() {
    let binding = CssBinding::new("/s.css".into(), "/s.css".into(), &[], false);
    assert!(binding.needs_rebuild(&[]));
}

#[test]
fn rebind_begins_with_the_paths() {
    let pair = ("/a".to_string(), "/b".to_string());
    assert_eq!(begin_rebind("/a", Ok(pair.clone())).unwrap(), pair);
    let denied = IpcError {
        kind: IpcErrorKind::PermissionDenied,
        message: "Permission denied (os error 13)".to_string(),
        code: Some(13),
    };
    match begin_rebind("/a", compute_canonical_pair("/a", Err(denied))) {
        Err(CssRebindError::Io { path, source }) => {
            assert_eq!(path, "/a");
            assert_eq!(source.kind, IpcErrorKind::PermissionDenied);
            assert_eq!(source.message, "Permission denied (os error 13)");
            assert_eq!(source.code, Some(13));
        }
        other => panic!("unexpected {:?}", other),
    }
    assert_eq!(initial_paths("/s", Ok(pair.clone())), pair);
    let gone = IpcError::new(IpcErrorKind::NotFound, "gone".to_string());
    assert_eq!(initial_paths("/s", Err(gone)), ("/s".to_string(), "/s".to_string()));
}

#[test]
fn pending_messages_are_one_change() {
    let mut changed = false;
    for _ in 0..3 {
        let (next, end) = drain_step(changed, ChannelState::Message);
        assert_eq!(end, None);
        changed = next;
    }
    assert_eq!(drain_step(changed, ChannelState::Empty), (true, Some(DrainResult::Changed)));
    assert_eq!(drain_step(false, ChannelState::Empty), (false, Some(DrainResult::Empty)));
    assert_eq!(
        drain_step(true, ChannelState::Disconnected).1,
        Some(DrainResult::Disconnected)
    );
}

#[test]
fn ticks_of_the_reload_timer() {
    assert_eq!(on_tick(true, DrainResult::Changed), TickAction::Reload);
    assert_eq!(on_tick(true, DrainResult::Empty), TickAction::Idle);
    assert_eq!(on_tick(true, DrainResult::Disconnected), TickAction::Stop);
    assert_eq!(on_tick(false, DrainResult::Changed), TickAction::Stop);
}

#[test]
fn layers_are_ordered() {
    assert_eq!(css_priority_offset(CssLayer::Embedded), 0);
    assert_eq!(css_priority_offset(CssLayer::Override), 1);
    assert_eq!(css_priority_offset(CssLayer::User), 2);
    assert_eq!(provider_source(true), ProviderSource::File);
    assert_eq!(provider_source(false), ProviderSource::Nothing);
}

#[test]
fn path_sets_go_by_components() {
    let mut set = PathSet::new();
    assert!(set.insert("/a//b/./c/"));
    assert!(!set.insert("/a/b/c"));
    assert!(set.contains("/a/b/c/."));
    assert!(!set.contains("a/b/c"));
    assert!(!set.contains("/a/b/../b/c"));
    assert_eq!(set.to_vec(), strings(&["/a//b/./c/"]));
}
