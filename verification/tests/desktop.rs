//! Desktop entries, categories, directories, icons and preferred apps.

use nwg_common::desktop::cache::IconCache;
use nwg_common::desktop::categories::{assign_categories, assign_category, default_categories};
use nwg_common::desktop::dirs::{
    get_app_dirs, is_desktop_file, list_desktop_files, matches_exactly, matches_file,
    matches_stem, search_desktop_dirs, search_desktop_names, DirFile, FileMatch,
};
use nwg_common::desktop::entry::{
    apply_key_value, desktop_list_contains, parse_desktop_entry, parse_keypair,
    strip_field_codes, DesktopEntry,
};
use nwg_common::desktop::icons::{
    desktop_file_candidates, fuzzy_search_allowed, get_exec, get_icon, get_name, icon_source,
    image_icon, names_gimp, paths_for, IconSource,
};
use nwg_common::desktop::preferred_apps::{
    find_preferred_app, load_preferred_apps, matches_suffix, preferred_apps_from_json,
};
use nwg_common::json::Json;

fn strings(v: &[&str]) -> Vec<String> {
    v.iter().map(|s| s.to_string()).collect()
}

fn pair(a: &str, b: &str) -> (String, String) {
    (a.to_string(), b.to_string())
}

#[test]
fn assigns_known_category() {
    assert_eq!(assign_category("Network;WebBrowser;"), "Network");
    assert_eq!(assign_category("Development;IDE;"), "Development");
}

#[test]
fn assigns_other_for_unknown() {
    assert_eq!(assign_category("FooBar;Baz;"), "Other");
    assert_eq!(assign_category(""), "Other");
}

#[test]
fn assigns_secondary_categories() {
    assert_eq!(assign_category("Science;Math;"), "Office");
    assert_eq!(assign_category("Education;"), "Office");
    assert_eq!(assign_category("Settings;DesktopSettings;"), "System");
    assert_eq!(assign_category("Audio;Player;"), "AudioVideo");
    assert_eq!(assign_category("PackageManager;"), "System");
}

#[test]
fn multi_category_assignment() {
    let cats = assign_categories("Development;Network;");
    assert!(cats.contains(&"Development"));
    assert!(cats.contains(&"Network"));
    assert_eq!(cats.len(), 2);
}

#[test]
fn multi_category_dedup() {
    // Audio and AudioVideo both map to AudioVideo — should appear once
    let cats = assign_categories("Audio;AudioVideo;");
    assert_eq!(cats, vec!["AudioVideo"]);
}

#[test]
fn parse_basic_entry() {
    let desktop = "[Desktop Entry]\n\
        Name=Firefox\n\
        Comment=Web Browser\n\
        Icon=firefox\n\
        Exec=firefox %u\n\
        Categories=Network;WebBrowser;\n\
        Terminal=false\n";
    let entry = parse_desktop_entry("firefox", desktop.as_bytes(), "", "");
    assert_eq!(entry.name, "Firefox");
    assert_eq!(entry.icon, "firefox");
    assert_eq!(entry.exec_line, "firefox %u");
    assert!(!entry.terminal);
    assert!(!entry.no_display);
}

#[test]
fn stops_at_non_desktop_entry_section() {
    let desktop = "[Desktop Entry]\n\
        Name=App\n\
        Icon=app\n\
        [Desktop Action New]\n\
        Name=Should Not Parse\n";
    let entry = parse_desktop_entry("app", desktop.as_bytes(), "", "");
    assert_eq!(entry.name, "App");
}

#[test]
fn hidden_sets_no_display() {
    let desktop = "[Desktop Entry]\n\
        Name=Hidden\n\
        Hidden=true\n";
    let entry = parse_desktop_entry("hidden", desktop.as_bytes(), "", "");
    assert!(entry.no_display);
}

#[test]
fn whitespace_handling() {
    let desktop = "[Desktop Entry]\n\
        Name  =  Spaced App  \n\
        Icon = spaced-icon \n";
    let entry = parse_desktop_entry("spaced", desktop.as_bytes(), "", "");
    assert_eq!(entry.name, "Spaced App");
    assert_eq!(entry.icon, "spaced-icon");
}

#[test]
fn missing_name_returns_empty() {
    let desktop = "[Desktop Entry]\n\
        Icon=myicon\n\
        Exec=myapp --start\n";
    let entry = parse_desktop_entry("myapp", desktop.as_bytes(), "", "");
    assert_eq!(entry.name, "");
    assert_eq!(entry.icon, "myicon");
    assert_eq!(entry.exec_line, "myapp --start");
}

#[test]
fn nodisplay_true() {
    let desktop = "[Desktop Entry]\n\
        Name=Hidden App\n\
        NoDisplay=true\n";
    let entry = parse_desktop_entry("hidden-app", desktop.as_bytes(), "", "");
    assert!(entry.no_display);
}

#[test]
fn only_show_in_matching() {
    // No desktop is named, so "Unity;MATE;" won't contain a match.
    let desktop = "[Desktop Entry]\n\
        Name=Unity Only\n\
        OnlyShowIn=Unity;MATE;\n";
    let entry = parse_desktop_entry("unity-only", desktop.as_bytes(), "", "");
    assert!(entry.no_display);
}

#[test]
fn not_show_in_matching() {
    // No desktop is named, so NotShowIn=GNOME; hides nothing.
    let desktop = "[Desktop Entry]\n\
        Name=Not GNOME\n\
        NotShowIn=GNOME;\n";
    let entry = parse_desktop_entry("not-gnome", desktop.as_bytes(), "", "");
    assert!(!entry.no_display);
}

#[test]
fn exec_quotes_preserved() {
    let desktop = "[Desktop Entry]\n\
        Name=Browser\n\
        Exec=\"firefox\" %u\n";
    let entry = parse_desktop_entry("firefox", desktop.as_bytes(), "", "");
    assert_eq!(entry.exec_line, "\"firefox\" %u");
}

#[test]
fn exec_complex_quotes_preserved() {
    let desktop = "[Desktop Entry]\n\
        Name=ShellCmd\n\
        Exec=sh -c \"printf 'Hello World'\"\n";
    let entry = parse_desktop_entry("shellcmd", desktop.as_bytes(), "", "");
    assert_eq!(entry.exec_line, "sh -c \"printf 'Hello World'\"");
}

#[test]
fn malformed_lines_skipped() {
    let desktop = "[Desktop Entry]\n\
        NoEquals\n\
        =ValueOnly\n\
        \n\
        Name=Test\n";
    let entry = parse_desktop_entry("test", desktop.as_bytes(), "", "");
    assert_eq!(entry.name, "Test");
    // The other malformed lines should not cause any fields to be set
    assert_eq!(entry.icon, "");
    assert_eq!(entry.exec_line, "");
}

#[test]
fn terminal_flag_parsing() {
    let desktop_true = "[Desktop Entry]\n\
        Name=Term App\n\
        Terminal=true\n";
    let entry = parse_desktop_entry("term", desktop_true.as_bytes(), "", "");
    assert!(entry.terminal);

    let desktop_false = "[Desktop Entry]\n\
        Name=GUI App\n\
        Terminal=false\n";
    let entry = parse_desktop_entry("gui", desktop_false.as_bytes(), "", "");
    assert!(!entry.terminal);
}

#[test]
fn locale_name_fallback() {
    let desktop = "[Desktop Entry]\n\
        Name=English\n\
        Name[zz]=Zzz\n";
    let entry = parse_desktop_entry("loc", desktop.as_bytes(), "", "");
    // The locale is not "zz", so name_loc falls back to the base Name value.
    assert_eq!(entry.name_loc, "English");
}

#[test]
fn startup_wm_class_parsed() {
    let desktop = "[Desktop Entry]\n\
        Name=Slack\n\
        Icon=slack\n\
        StartupWMClass=Slack\n";
    let entry = parse_desktop_entry("slack", desktop.as_bytes(), "", "");
    assert_eq!(entry.startup_wm_class, "Slack");
}

#[test]
fn missing_startup_wm_class_is_empty() {
    let desktop = "[Desktop Entry]\n\
        Name=Simple\n\
        Icon=simple\n";
    let entry = parse_desktop_entry("simple", desktop.as_bytes(), "", "");
    assert!(entry.startup_wm_class.is_empty());
}

#[test]
fn strip_field_codes_basic() {
    assert_eq!(strip_field_codes("firefox %u"), "firefox");
    assert_eq!(strip_field_codes("code %F"), "code");
    assert_eq!(strip_field_codes("gimp"), "gimp");
}

#[test]
fn strip_field_codes_preserves_quotes() {
    assert_eq!(strip_field_codes(r#""firefox" %u"#), r#""firefox""#);
    assert_eq!(
        strip_field_codes(r#"sh -c "echo hello" %u"#),
        r#"sh -c "echo hello""#
    );
}

#[test]
fn strip_field_codes_no_space_before_percent() {
    assert_eq!(strip_field_codes("firefox%u"), "firefox");
}

#[test]
fn strip_field_codes_preserves_args_after_code() {
    assert_eq!(strip_field_codes("foo %U --new-window"), "foo --new-window");
    assert_eq!(
        strip_field_codes("bar %f --flag %F --other"),
        "bar --flag --other"
    );
}

#[test]
fn strip_field_codes_literal_percent() {
    assert_eq!(
        strip_field_codes(r#"sh -c "printf '100%%'""#),
        r#"sh -c "printf '100%'""#
    );
}

#[test]
fn strip_field_codes_preserves_inner_whitespace() {
    assert_eq!(
        strip_field_codes(r#"sh -c "printf 'a  b'" %u"#),
        r#"sh -c "printf 'a  b'""#
    );
}

#[test]
fn strip_field_codes_trims_whitespace() {
    assert_eq!(strip_field_codes("  firefox  "), "firefox");
    assert_eq!(strip_field_codes(""), "");
}

#[test]
fn default_categories_are_the_standard_ones() {
    let categories = default_categories();
    let names: Vec<&str> = categories.iter().map(|c| c.name.as_str()).collect();
    assert_eq!(
        names,
        vec![
            "AudioVideo",
            "Development",
            "Game",
            "Graphics",
            "Network",
            "Office",
            "System",
            "Utility",
            "Other"
        ]
    );
    assert_eq!(categories[0].display_name, "Audio & Video");
    assert_eq!(categories[0].icon, "applications-multimedia");
    assert_eq!(categories[8].icon, "applications-other");
}

#[test]
fn category_names_are_trimmed_and_kept_in_order() {
    assert_eq!(
        assign_categories(" Video ; Game;Education;Office"),
        vec!["AudioVideo", "Game", "Office"]
    );
    assert_eq!(assign_categories("HardwareSettings;game"), vec!["System"]);
    assert_eq!(assign_categories("Other"), vec!["Other"]);
}

#[test]
fn keypair_is_split_at_first_equals() {
    assert_eq!(parse_keypair("Exec = env A=1 app"), Some(pair("Exec", "env A=1 app")));
    assert_eq!(parse_keypair("a="), Some(pair("a", "")));
    assert_eq!(parse_keypair(" =b"), Some(pair("", "b")));
    assert_eq!(parse_keypair("=b"), None);
    assert_eq!(parse_keypair("none"), None);
}

#[test]
fn desktop_lists_hold_whole_names() {
    assert!(desktop_list_contains("GNOME;Hyprland;", "Hyprland"));
    assert!(!desktop_list_contains("GNOME;Hyprland;", "Hypr"));
    assert!(!desktop_list_contains("GNOME;Hyprland;", ""));
    assert!(!desktop_list_contains("", "GNOME"));
}

#[test]
fn show_in_lists_with_a_desktop() {
    let only = b"Name=A\nOnlyShowIn=Hyprland;sway;\n";
    assert!(!parse_desktop_entry("a", only, "", "sway").no_display);
    assert!(parse_desktop_entry("a", only, "", "GNOME").no_display);
    let not = b"Name=A\nNotShowIn=Hyprland;\n";
    assert!(parse_desktop_entry("a", not, "", "Hyprland").no_display);
    assert!(!parse_desktop_entry("a", not, "", "sway").no_display);
}

#[test]
fn hidden_entry_stays_hidden() {
    let content = b"NoDisplay=true\nHidden=false\nNoDisplay=false\nOnlyShowIn=sway;\n";
    assert!(parse_desktop_entry("a", content, "", "sway").no_display);
}

#[test]
fn localized_fields_are_read() {
    let content = "Name=Files\nComment=Browse\nName[pl]=Pliki\nComment[de]=Dateien\n".as_bytes();
    let entry = parse_desktop_entry("files", content, "pl_PL.UTF-8", "");
    assert_eq!(entry.desktop_id, "files");
    assert_eq!(entry.name, "Files");
    assert_eq!(entry.name_loc, "Pliki");
    assert_eq!(entry.comment_loc, "Browse");
    let entry = parse_desktop_entry("files", content, "de", "");
    assert_eq!(entry.name_loc, "Files");
    assert_eq!(entry.comment_loc, "Dateien");
}

#[test]
fn lines_that_are_not_text_are_passed_over() {
    let entry = parse_desktop_entry("a", b"Name=\xff\xfe\r\nIcon=i\r\nCategories=Game;\r\n", "", "");
    assert_eq!(entry.name, "");
    assert_eq!(entry.icon, "i");
    assert_eq!(entry.category, "Game;");
}

#[test]
fn empty_values_change_nothing() {
    let entry = parse_desktop_entry("a", b"Name=First\nName=\nName=  \n", "", "");
    assert_eq!(entry.name, "First");
}

#[test]
fn later_keys_replace_earlier_ones() {
    let entry = parse_desktop_entry("a", b"Name=First\nTerminal=true\nName=Second\nTerminal=no", "", "");
    assert_eq!(entry.name, "Second");
    assert!(!entry.terminal);
}

#[test]
fn single_keys_are_applied() {
    let mut entry = DesktopEntry::default();
    apply_key_value(&mut entry, "Comment", "c", "", "");
    apply_key_value(&mut entry, "StartupWMClass", "w", "", "");
    apply_key_value(&mut entry, "Exec", "e", "", "");
    apply_key_value(&mut entry, "Unknown", "u", "", "");
    assert_eq!(entry.comment, "c");
    assert_eq!(entry.startup_wm_class, "w");
    assert_eq!(entry.exec_line, "e");
    assert_eq!(entry.name, "");
    assert_eq!(entry.comment_loc, "");
}

#[test]
fn field_codes_next_to_text() {
    assert_eq!(strip_field_codes("a %u%f b"), "a b");
    assert_eq!(strip_field_codes("--file=%f x"), "--file= x");
    assert_eq!(strip_field_codes("50% %z"), "50% %z");
    assert_eq!(strip_field_codes("100%"), "100%");
    assert_eq!(strip_field_codes("%%f"), "%f");
}

#[test]
fn app_dirs_from_the_environment() {
    assert_eq!(
        get_app_dirs("/home/u", None, None),
        strings(&[
            "/home/u/.local/share/applications",
            "/usr/local/share/applications",
            "/usr/share/applications",
            "/home/u/.local/share/flatpak/exports/share/applications",
            "/var/lib/flatpak/exports/share/applications",
        ])
    );
    assert_eq!(
        get_app_dirs("", Some("/data"), Some("/data/:/usr/share:/usr/share/")),
        strings(&[
            "/data/applications",
            "/usr/share/applications",
            ".local/share/flatpak/exports/share/applications",
            "/var/lib/flatpak/exports/share/applications",
        ])
    );
}

#[test]
fn empty_variables_are_not_set() {
    assert_eq!(
        get_app_dirs("/home/u", Some(""), Some("")),
        get_app_dirs("/home/u", None, None)
    );
}

#[test]
fn desktop_files_by_extension() {
    let names = strings(&["a.desktop", ".desktop", "b.desktop.bak", "c.DESKTOP", "d.x.desktop"]);
    assert_eq!(
        list_desktop_files("/apps", &names),
        strings(&["/apps/a.desktop", "/apps/d.x.desktop"])
    );
    assert!(is_desktop_file("\u{fffd}.desktop"));
    assert!(!is_desktop_file("desktop"));
}

fn file(name: &str) -> DirFile {
    DirFile { name: name.to_string(), is_dir: false, content: None }
}

fn file_with(name: &str, content: &str) -> DirFile {
    DirFile { name: name.to_string(), is_dir: false, content: Some(content.to_string()) }
}

fn directory(name: &str) -> DirFile {
    DirFile { name: name.to_string(), is_dir: true, content: None }
}

#[test]
fn closer_names_win_over_earlier_directories() {
    let dirs = vec![
        vec![file("my-gimp-tool.desktop"), file("GIMP.desktop")],
        vec![file("org.gnu.gimp.desktop")],
    ];
    assert_eq!(search_desktop_dirs("gimp", &dirs), Some((1, 0)));
    let dirs = vec![vec![file("my-gimp-tool.desktop"), file("GIMP.desktop")]];
    assert_eq!(search_desktop_dirs("gimp", &dirs), Some((0, 1)));
    assert_eq!(search_desktop_dirs("gimp tool", &dirs), Some((0, 0)));
    assert_eq!(search_desktop_dirs("krita", &dirs), None);
    let dirs = vec![vec![directory("gimp.desktop")]];
    assert_eq!(search_desktop_dirs("gimp", &dirs), None);
}

#[test]
fn files_match_by_name() {
    let matches = |how, app_id, name| matches_file(how, app_id, &file(name));
    assert!(matches(FileMatch::Qualified, "nautilus", "org.gnome.nautilus.desktop"));
    assert!(!matches(FileMatch::Qualified, "nautilus", "nautilus.desktop"));
    assert!(matches(FileMatch::Exact, "Stra\u{df}e", "STRASSE.desktop"));
    assert!(!matches(FileMatch::Exact, "gimp", "gimp-2.desktop"));
    assert!(matches(FileMatch::Within, "gimp 2", "my.GIMP.desktop"));
    assert!(!matches(FileMatch::Within, "gimp-2", "my.GIMP.desktop"));
    assert!(matches(FileMatch::Unversioned, "gimp-2.9.9", "gimp.desktop"));
    assert!(matches(FileMatch::Unversioned, "gimp-2.9.9", "org.gimp.GIMP.desktop"));
    assert!(!matches(FileMatch::Unversioned, "gimp-2.9.9", "mygimp.desktop"));
    assert!(!matches(FileMatch::Unversioned, "gimp", "gimp.desktop"));
    assert!(matches_exactly("A.DESKTOP", "A"));
    assert!(!matches_exactly("AA.DESKTOP", "A"));
    assert!(matches_stem("A.DESKTOP", "A"));
    assert!(matches_stem("B.A.DESKTOP", "A"));
    assert!(!matches_stem("BA.DESKTOP", "A"));
}

#[test]
fn contents_are_searched_for_the_window_class() {
    let dirs = vec![
        vec![directory("x"), file_with("a.desktop", "Name=x\nStartupWMClass=Other\n")],
        vec![file_with("b.desktop", "Name=x\nStartupWMClass=Slack\n")],
    ];
    assert_eq!(search_desktop_dirs("Slack", &dirs), Some((1, 0)));
    assert_eq!(search_desktop_dirs("Slack beta", &dirs), Some((1, 0)));
    assert_eq!(search_desktop_dirs("slack", &dirs), None);
    assert_eq!(search_desktop_names("Slack", &dirs), None);
    assert_eq!(search_desktop_names("B", &dirs), Some((1, 0)));
    assert_eq!(search_desktop_dirs("B", &dirs), Some((1, 0)));
}

#[test]
fn versioned_window_class_finds_its_file() {
    let dirs = vec![vec![file_with("gimp.desktop", "[Desktop Entry]\nName=GIMP\n")]];
    assert_eq!(search_desktop_dirs("gimp-2.9.9", &dirs), Some((0, 0)));
    let dirs = vec![vec![file("other.desktop"), file("org.gimp.GIMP.desktop")]];
    assert_eq!(search_desktop_dirs("gimp-2.9.9", &dirs), Some((0, 1)));
    // The file that names the class is closer.
    let dirs = vec![vec![
        file("gimp.desktop"),
        file_with("painter.desktop", "StartupWMClass=gimp-2.9.9\n"),
    ]];
    assert_eq!(search_desktop_dirs("gimp-2.9.9", &dirs), Some((0, 1)));
    let dirs = vec![vec![directory("gimp.desktop")]];
    assert_eq!(search_desktop_dirs("gimp-2.9.9", &dirs), None);
}

fn entry(name: &str, name_loc: &str, icon: &str, exec_line: &str) -> DesktopEntry {
    DesktopEntry {
        name: name.to_string(),
        name_loc: name_loc.to_string(),
        icon: icon.to_string(),
        exec_line: exec_line.to_string(),
        ..DesktopEntry::default()
    }
}

#[test]
fn icons_commands_and_names_of_entries() {
    let full = entry("Files", "Pliki", "files-icon", "nautilus %U");
    let bare = entry("", "", "", "");
    let base = entry("Files", "", "", "");
    assert_eq!(get_icon("nautilus", Some(&full)).unwrap(), "files-icon");
    assert_eq!(get_icon("nautilus", Some(&bare)), None);
    assert_eq!(get_icon("nautilus", None), None);
    assert_eq!(get_icon("Gimp-2.10", None).unwrap(), "gimp");
    assert_eq!(get_exec("nautilus", Some(&full)).unwrap(), "nautilus");
    assert_eq!(get_exec("nautilus", Some(&bare)).unwrap(), "nautilus");
    assert_eq!(get_exec("Gimp-2.10", Some(&bare)).unwrap(), "gimp");
    assert_eq!(get_exec("nautilus", None), None);
    assert_eq!(get_name("nautilus", Some(&full)), "Pliki");
    assert_eq!(get_name("nautilus", Some(&base)), "Files");
    assert_eq!(get_name("nautilus", Some(&bare)), "nautilus");
    assert_eq!(get_name("nautilus", None), "nautilus");
    assert!(names_gimp("GIMP-2.10"));
    assert!(!names_gimp("gimp"));
}

#[test]
fn candidates_under_both_spellings() {
    assert_eq!(
        desktop_file_candidates("My-App", &strings(&["/a", "/b"])),
        strings(&[
            "/a/My-App.desktop",
            "/a/my-app.desktop",
            "/a/My App.desktop",
            "/a/my app.desktop",
            "/b/My-App.desktop",
            "/b/my-app.desktop",
            "/b/My App.desktop",
            "/b/my app.desktop",
        ])
    );
    assert_eq!(
        desktop_file_candidates("my app", &strings(&["/a"]))[2],
        "/a/my-app.desktop"
    );
    assert_eq!(
        paths_for(&strings(&["x", "y"]), &strings(&["/a/"])),
        strings(&["/a/x.desktop", "/a/y.desktop"])
    );
    assert!(fuzzy_search_allowed("gimp"));
    assert!(!fuzzy_search_allowed("/usr/bin/gimp"));
}

#[test]
fn icons_from_files_and_themes() {
    match icon_source("/opt/app/icon.png") {
        IconSource::File(file) => assert_eq!(file, "/opt/app/icon.png"),
        other => panic!("unexpected {:?}", other),
    }
    match icon_source("firefox") {
        IconSource::Named { theme_names, files } => {
            assert_eq!(theme_names, strings(&["firefox"]));
            assert_eq!(
                files,
                strings(&[
                    "/usr/share/pixmaps/firefox.svg",
                    "/usr/share/pixmaps/firefox.png",
                    "/usr/share/pixmaps/firefox.xpm",
                ])
            );
        }
        other => panic!("unexpected {:?}", other),
    }
    match icon_source("app.svg") {
        IconSource::Named { theme_names, files } => {
            assert_eq!(theme_names, strings(&["app", "app.svg"]));
            assert_eq!(files[0], "/usr/share/pixmaps/app.svg");
        }
        other => panic!("unexpected {:?}", other),
    }
    match icon_source("a/b.png") {
        IconSource::Named { theme_names, files } => {
            assert_eq!(theme_names, strings(&["a/b", "a/b.png"]));
            assert_eq!(files[1], "/usr/share/pixmaps/a/b.png");
        }
        other => panic!("unexpected {:?}", other),
    }
    assert_eq!(image_icon("app", Some("own".to_string())), "own");
    assert_eq!(image_icon("app", None), "app");
}

#[test]
fn preferred_apps_from_json_text() {
    let apps = load_preferred_apps(r#"{"*.pdf": "zathura", "n": 1, "*.mp4": "mpv"}"#).unwrap();
    assert_eq!(apps.len(), 2);
    assert!(apps.contains(&pair("*.pdf", "zathura")));
    assert!(apps.contains(&pair("*.mp4", "mpv")));
    assert_eq!(load_preferred_apps("{}"), None);
    assert_eq!(load_preferred_apps(r#"{"n": 1}"#), None);
    assert_eq!(load_preferred_apps("[]"), None);
    assert_eq!(load_preferred_apps("{"), None);
    assert_eq!(preferred_apps_from_json(&Json::Null), None);
}

#[test]
fn preferred_app_by_suffix() {
    let apps = vec![pair("*.PDF", "zathura"), pair(".mp4", "mpv"), pair("**.pdf", "other")];
    assert_eq!(find_preferred_app("/home/u/Doc.pdf", &apps).unwrap(), "zathura");
    assert_eq!(find_preferred_app("/home/u/VIDEO.MP4", &apps).unwrap(), "mpv");
    assert_eq!(find_preferred_app("/home/u/pdf", &apps), None);
    assert_eq!(find_preferred_app("/home/u/x", &vec![pair("*", "any")]).unwrap(), "any");
    assert!(matches_suffix("a.pdf", ".pdf"));
    assert!(!matches_suffix("pdf", ".pdf"));
}

#[test]
fn stripping_keeps_quotes_and_arguments() {
    let line = r#"sh -c "echo 'a %% b' %f" --x=%U 'y z' %i"#;
    let plain = |s: &str| -> String {
        s.chars().filter(|c| !c.is_whitespace() && !"%fFuUdDnNickvm".contains(*c)).collect()
    };
    assert_eq!(plain(&strip_field_codes(line)), plain(line));
    assert_eq!(strip_field_codes(line), r#"sh -c "echo 'a % b' " --x= 'y z'"#);
}

#[test]
fn icons_are_cached_by_name_and_size() {
    let mut cache: IconCache<u32> = IconCache::new();
    assert_eq!(cache.get("firefox", 32, 32), None);
    cache.insert("firefox", 32, 32, 1);
    cache.insert("firefox", 48, 48, 2);
    cache.insert("gimp", 32, 32, 3);
    assert_eq!(cache.get("firefox", 32, 32), Some(&1));
    assert_eq!(cache.get("firefox", 48, 48), Some(&2));
    assert_eq!(cache.get("firefox", 32, 48), None);
    assert_eq!(cache.get("gimp", 32, 32), Some(&3));
    cache.insert("gimp", 32, 32, 4);
    assert_eq!(cache.get("gimp", 32, 32), Some(&4));
    cache.clear();
    assert_eq!(cache.get("firefox", 32, 32), None);
}
