//! Stylesheet imports: comments, directives and paths.

use nwg_common::config::css::{
    is_unwatchable_url, parse_css_imports, resolve_import_path, strip_css_comments,
    take_import_path,
};

#[test]
fn strip_comments_none() {
    assert_eq!(
        strip_css_comments("window { color: red; }"),
        "window { color: red; }"
    );
}

#[test]
fn strip_single_comment() {
    assert_eq!(strip_css_comments("a /* b */ c"), "a  c");
}

#[test]
fn strip_multiple_comments() {
    assert_eq!(strip_css_comments("/* one */ middle /* two */"), " middle ");
}

#[test]
fn strip_comment_containing_import_directive() {
    // The whole point: a commented-out @import must not be matched later.
    assert!(!strip_css_comments("/* @import \"fake.css\"; */ real").contains("@import"));
}

#[test]
fn strip_unterminated_comment_consumes_rest() {
    assert_eq!(strip_css_comments("before /* oops"), "before ");
}

#[test]
fn strip_empty_input() {
    assert_eq!(strip_css_comments(""), "");
}

#[test]
fn strip_adjacent_comments() {
    assert_eq!(strip_css_comments("/*a*//*b*/c"), "c");
}

#[test]
fn take_double_quoted_path() {
    let (p, rest) = take_import_path("\"theme.css\"; window { }").unwrap();
    assert_eq!(p, "theme.css");
    assert_eq!(rest, "; window { }");
}

#[test]
fn take_single_quoted_path() {
    let (p, rest) = take_import_path("'theme.css'").unwrap();
    assert_eq!(p, "theme.css");
    assert_eq!(rest, "");
}

#[test]
fn take_url_double_quoted() {
    let (p, rest) = take_import_path("url(\"theme.css\") screen;").unwrap();
    assert_eq!(p, "theme.css");
    // The trailing media query / semicolon is left to the caller.
    assert!(rest.contains("screen"));
}

#[test]
fn take_url_single_quoted() {
    let (p, _) = take_import_path("url('theme.css')").unwrap();
    assert_eq!(p, "theme.css");
}

#[test]
fn take_url_unquoted() {
    let (p, _) = take_import_path("url(theme.css)").unwrap();
    assert_eq!(p, "theme.css");
}

#[test]
fn take_url_with_inner_whitespace() {
    let (p, _) = take_import_path("url(  theme.css  )").unwrap();
    assert_eq!(p, "theme.css");
}

#[test]
fn take_unterminated_quote_returns_none() {
    assert!(take_import_path("\"unterminated").is_none());
}

#[test]
fn take_non_import_returns_none() {
    assert!(take_import_path("window { color: red; }").is_none());
}

#[test]
fn take_empty_returns_none() {
    assert!(take_import_path("").is_none());
}

#[test]
fn parse_no_imports() {
    assert!(parse_css_imports("window { color: red; }").is_empty());
}

#[test]
fn parse_single_double_quoted() {
    assert_eq!(
        parse_css_imports("@import \"theme.css\";\nwindow { }"),
        vec!["theme.css"]
    );
}

#[test]
fn parse_single_single_quoted() {
    assert_eq!(parse_css_imports("@import 'theme.css';"), vec!["theme.css"]);
}

#[test]
fn parse_url_forms() {
    assert_eq!(
        parse_css_imports("@import url(\"a.css\"); @import url('b.css'); @import url(c.css);"),
        vec!["a.css", "b.css", "c.css"]
    );
}

#[test]
fn parse_multiple_mixed_imports() {
    let css = r#"
        @import "one.css";
        @import 'two.css';
        @import url("three.css");
        window { color: red; }
    "#;
    assert_eq!(
        parse_css_imports(css),
        vec!["one.css", "two.css", "three.css"]
    );
}

#[test]
fn parse_ignores_commented_imports() {
    let css = r#"
        /* @import "fake.css"; */
        @import "real.css";
    "#;
    assert_eq!(parse_css_imports(css), vec!["real.css"]);
}

#[test]
fn parse_import_with_media_query_suffix() {
    // CSS permits a media query after @import — we keep the path, drop
    // the media query. GTK doesn't honor media queries anyway.
    let css = r#"@import "print.css" print;"#;
    assert_eq!(parse_css_imports(css), vec!["print.css"]);
}

#[test]
fn parse_malformed_continues_past() {
    // A broken @import shouldn't prevent finding later good ones.
    let css = r#"
        @import "unterminated
        @import "good.css";
    "#;
    let imports = parse_css_imports(css);
    assert!(imports.contains(&"good.css".to_string()));
}

#[test]
fn parse_path_with_spaces_in_quotes() {
    // Users with spaces in their paths should still work via quoting.
    assert_eq!(
        parse_css_imports("@import \"my themes/base16.css\";"),
        vec!["my themes/base16.css"]
    );
}

#[test]
fn parse_empty_string_paths_skipped() {
    assert!(parse_css_imports("@import \"\"; @import ' ';").is_empty());
}

#[test]
fn parse_real_world_tinty_example() {
    // BlueInGreen68's reported stylesheet.
    let css = r#"
        /* Color scheme */
        @import "/home/blueingreen68/.local/share/tinted-theming/tinty/base16-nwg-dock-themes-file.css";

        window {
          border-width: 3px;
          border-style: solid;
        }
    "#;
    assert_eq!(
        parse_css_imports(css),
        vec![
            "/home/blueingreen68/.local/share/tinted-theming/tinty/base16-nwg-dock-themes-file.css"
        ]
    );
}

#[test]
fn resolve_absolute_path_unchanged() {
    let base = "/home/user/.config/nwg-dock-hyprland";
    assert_eq!(
        resolve_import_path("/abs/path/theme.css", base).unwrap(),
        "/abs/path/theme.css"
    );
}

#[test]
fn resolve_relative_path_against_base() {
    let base = "/home/user/.config/nwg-dock-hyprland";
    assert_eq!(
        resolve_import_path("theme.css", base).unwrap(),
        "/home/user/.config/nwg-dock-hyprland/theme.css"
    );
}

#[test]
fn resolve_nested_relative_path() {
    let base = "/home/user/.config/nwg-dock-hyprland";
    assert_eq!(
        resolve_import_path("themes/dark.css", base).unwrap(),
        "/home/user/.config/nwg-dock-hyprland/themes/dark.css"
    );
}

#[test]
fn resolve_http_is_none() {
    assert!(resolve_import_path("http://example.com/style.css", "/tmp").is_none());
}

#[test]
fn resolve_https_is_none() {
    assert!(resolve_import_path("https://example.com/style.css", "/tmp").is_none());
}

#[test]
fn resolve_data_url_is_none() {
    assert!(resolve_import_path("data:text/css,body{}", "/tmp").is_none());
}

#[test]
fn resolve_file_url_is_none() {
    // Could be supported later by stripping the scheme; today we skip.
    assert!(resolve_import_path("file:///etc/passwd", "/tmp").is_none());
}

#[test]
fn resolve_empty_is_none() {
    assert!(resolve_import_path("", "/tmp").is_none());
}

#[test]
fn resolve_whitespace_only_is_none() {
    assert!(resolve_import_path("   \t\n", "/tmp").is_none());
}

#[test]
fn comment_marks_may_overlap() {
    assert_eq!(strip_css_comments("/*/ still inside */x"), "x");
    assert_eq!(strip_css_comments("a/**/b"), "ab");
    assert_eq!(strip_css_comments("a */ b"), "a */ b");
}

#[test]
fn strings_with_comment_marks_are_kept() {
    let css = "@import \"a/*b*/c.css\";";
    assert_eq!(strip_css_comments(css), css);
    assert_eq!(parse_css_imports(css), vec!["a/*b*/c.css"]);
    let css = "x { content: '/*'; } /* gone */ y { content: \"'*/\"; }";
    assert_eq!(
        strip_css_comments(css),
        "x { content: '/*'; }  y { content: \"'*/\"; }"
    );
}

#[test]
fn unclosed_string_ends_with_its_line() {
    assert_eq!(
        strip_css_comments("a \"b /* c\nd /* e */ f"),
        "a \"b /* c\nd  f"
    );
    assert_eq!(strip_css_comments("'open /* kept"), "'open /* kept");
}

#[test]
fn quotes_in_comments_open_no_string() {
    assert_eq!(strip_css_comments("/* don't */ x /* it's \" */ y"), " x  y");
    assert_eq!(strip_css_comments("/* ' */'/*'/**/"), "'/*'");
}

#[test]
fn escaped_quotes_close_no_string() {
    let css = "a{content:\"\\\"\";}/*@import \"b.css\";*/";
    assert_eq!(strip_css_comments(css), "a{content:\"\\\"\";}");
    assert!(parse_css_imports(css).is_empty());
    assert_eq!(strip_css_comments("'\\\\'/*x*/'/*'"), "'\\\\''/*'");
    assert_eq!(strip_css_comments(".a\\\"b{} /* \" */c"), ".a\\\"b{} c");
    assert_eq!(strip_css_comments("\"open\\"), "\"open\\");
    assert_eq!(
        parse_css_imports("@import \"a\\\"b.css\"; @import \"c.css\";"),
        vec!["a\\", "c.css"]
    );
}

#[test]
fn quotes_in_plain_urls_open_no_string() {
    let css = "a{b:url(it's.png)}/*@import 'b.css';*/";
    assert_eq!(strip_css_comments(css), "a{b:url(it's.png)}");
    assert!(parse_css_imports(css).is_empty());
    assert_eq!(
        parse_css_imports("a{b:url( it's.png)} @import 'b.css'; @import url(it's.css); @import 'c';"),
        vec!["b.css", "it's.css", "c"]
    );
    // The URL ends with its line, and with its parenthesis.
    assert_eq!(strip_css_comments("url(a\n'/*'"), "url(a\n'/*'");
    assert_eq!(strip_css_comments("url(a)'/*'"), "url(a)'/*'");
    assert_eq!(strip_css_comments("url('/*')/**/"), "url('/*')");
    assert_eq!(strip_css_comments("url(a/*b*/c)"), "url(ac)");
}

#[test]
fn imports_in_strings_are_none() {
    assert!(parse_css_imports("\"@import 'x.css'\"").is_empty());
    assert_eq!(
        parse_css_imports("a{content:'@import \"x.css\";'} @import \"y.css\";"),
        vec!["y.css"]
    );
    // A quote that nothing closes hides nothing.
    assert_eq!(
        parse_css_imports("@import \"unclosed @import 'good.css';"),
        vec!["good.css"]
    );
    assert_eq!(
        parse_css_imports("@import url(foo\n@import \"x.css\"; ) @import 'z.css';"),
        vec!["foo\n@import \"x.css\";", "z.css"]
    );
    assert_eq!(parse_css_imports("@import url(foo @import 'x.css';"), vec!["x.css"]);
}

#[test]
fn take_keeps_rest_of_multibyte_text() {
    let (p, rest) = take_import_path("\"gr\u{fc}n.css\" \u{2192} rest").unwrap();
    assert_eq!(p, "gr\u{fc}n.css");
    assert_eq!(rest, " \u{2192} rest");
}

#[test]
fn take_quoted_path_over_lines_is_none() {
    assert!(take_import_path("\"a\nb\"").is_none());
    assert!(take_import_path("url(\"a\nb\")").is_none());
    let (p, _) = take_import_path("url(a\nb)").unwrap();
    assert_eq!(p, "a\nb");
}

#[test]
fn take_url_needs_parenthesis() {
    assert!(take_import_path("url theme.css").is_none());
    assert!(take_import_path("url(theme.css").is_none());
    let (p, rest) = take_import_path("url ( 'x.css' ) ;").unwrap();
    assert_eq!(p, "x.css");
    assert_eq!(rest, " ;");
    let (p, rest) = take_import_path("url('x.css';").unwrap();
    assert_eq!(p, "x.css");
    assert_eq!(rest, ";");
}

#[test]
fn urls_are_not_watched() {
    for url in ["http://x", "https://x", "data:x", "file://x"] {
        assert!(is_unwatchable_url(url));
    }
    assert!(!is_unwatchable_url("ftp://x"));
    assert!(!is_unwatchable_url("HTTP://x"));
}

#[test]
fn resolve_trims_and_joins() {
    assert_eq!(resolve_import_path("  a.css\t", "/base/").unwrap(), "/base/a.css");
    assert_eq!(resolve_import_path("../a.css", "").unwrap(), "../a.css");
}
