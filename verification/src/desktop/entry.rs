//! `.desktop` file parsing.

use vstd::prelude::*;
use vstd::utf8::{decode_utf8, valid_utf8};
use crate::encoding;
use crate::text;

verus! {

/// A parsed XDG `.desktop` file entry.
#[derive(Debug, Clone)]
pub struct DesktopEntry {
    /// The file's desktop ID (basename without `.desktop` suffix).
    pub desktop_id: String,
    /// The base `Name=` field.
    pub name: String,
    /// Locale-specific name (e.g. `Name[pl]=…`), if the user's locale matched.
    pub name_loc: String,
    /// The base `Comment=` field.
    pub comment: String,
    /// Locale-specific comment, if any.
    pub comment_loc: String,
    /// The `Icon=` field (name or absolute path).
    pub icon: String,
    /// The `Exec=` field (with `%U`/`%f`/etc. field codes still present).
    pub exec_line: String,
    /// Raw `Categories=` field (semicolon-separated, possibly empty).
    pub category: String,
    /// `Terminal=true` flag: launch in a terminal emulator.
    pub terminal: bool,
    /// `NoDisplay=true` flag: entry is hidden from launchers.
    pub no_display: bool,
    /// `StartupWMClass=`, used to match compositor window class to desktop ID
    /// when they differ.
    pub startup_wm_class: String,
}

/// What a `.desktop` file entry holds.
#[verifier::ext_equal]
pub struct DesktopEntryView {
    pub desktop_id: Seq<char>,
    pub name: Seq<char>,
    pub name_loc: Seq<char>,
    pub comment: Seq<char>,
    pub comment_loc: Seq<char>,
    pub icon: Seq<char>,
    pub exec_line: Seq<char>,
    pub category: Seq<char>,
    pub terminal: bool,
    pub no_display: bool,
    pub startup_wm_class: Seq<char>,
}

impl View for DesktopEntry {
    type V = DesktopEntryView;

    open spec fn view(&self) -> DesktopEntryView {
        DesktopEntryView {
            desktop_id: self.desktop_id@,
            name: self.name@,
            name_loc: self.name_loc@,
            comment: self.comment@,
            comment_loc: self.comment_loc@,
            icon: self.icon@,
            exec_line: self.exec_line@,
            category: self.category@,
            terminal: self.terminal,
            no_display: self.no_display,
            startup_wm_class: self.startup_wm_class@,
        }
    }
}

impl DesktopEntryView {
    /// An entry with nothing but a desktop ID.
    pub open spec fn empty(id: Seq<char>) -> DesktopEntryView {
        DesktopEntryView {
            desktop_id: id,
            name: Seq::empty(),
            name_loc: Seq::empty(),
            comment: Seq::empty(),
            comment_loc: Seq::empty(),
            icon: Seq::empty(),
            exec_line: Seq::empty(),
            category: Seq::empty(),
            terminal: false,
            no_display: false,
            startup_wm_class: Seq::empty(),
        }
    }
}

impl Default for DesktopEntry {
    fn default() -> (r: DesktopEntry)
        ensures
            r@ == DesktopEntryView::empty(Seq::empty()),
    {
        DesktopEntry {
            desktop_id: String::new(),
            name: String::new(),
            name_loc: String::new(),
            comment: String::new(),
            comment_loc: String::new(),
            icon: String::new(),
            exec_line: String::new(),
            category: String::new(),
            terminal: false,
            no_display: false,
            startup_wm_class: String::new(),
        }
    }
}

/// A line at its first `=`: the key and the value, both trimmed. A line that
/// has none, or begins with it, is no pair.
pub open spec fn keypair(line: Seq<char>) -> Option<(Seq<char>, Seq<char>)> {
    match text::index_of(line, '=') {
        Some(k) => if k == 0 {
            None
        } else {
            Some((text::trim(line.take(k)), text::trim(line.skip(k + 1))))
        },
        None => None,
    }
}

/// `desktop` is one of the names between the semicolons of `list`.
pub open spec fn list_contains(list: Seq<char>, desktop: Seq<char>) -> bool {
    desktop.len() > 0 && text::split(list, ';').contains(desktop)
}

/// The language of a locale such as `pl_PL.UTF-8`.
pub open spec fn language(locale: Seq<char>) -> Seq<char> {
    text::before(locale, '_')
}

/// The key under which the name, or the comment, stands for a locale.
pub open spec fn localized(key: Seq<char>, locale: Seq<char>) -> Seq<char> {
    key + "["@ + language(locale) + "]"@
}

/// `entry` after one key with its value.
pub open spec fn applied(
    entry: DesktopEntryView,
    key: Seq<char>,
    value: Seq<char>,
    locale: Seq<char>,
    current_desktop: Seq<char>,
) -> DesktopEntryView {
    if key == "Name"@ {
        DesktopEntryView { name: value, ..entry }
    } else if key == "Comment"@ {
        DesktopEntryView { comment: value, ..entry }
    } else if key == "Icon"@ {
        DesktopEntryView { icon: value, ..entry }
    } else if key == "Categories"@ {
        DesktopEntryView { category: value, ..entry }
    } else if key == "Terminal"@ {
        DesktopEntryView { terminal: value == "true"@, ..entry }
    } else if key == "NoDisplay"@ || key == "Hidden"@ {
        DesktopEntryView { no_display: entry.no_display || value == "true"@, ..entry }
    } else if key == "OnlyShowIn"@ {
        DesktopEntryView {
            no_display: entry.no_display || !list_contains(value, current_desktop),
            ..entry
        }
    } else if key == "NotShowIn"@ {
        DesktopEntryView {
            no_display: entry.no_display || list_contains(value, current_desktop),
            ..entry
        }
    } else if key == "Exec"@ {
        DesktopEntryView { exec_line: value, ..entry }
    } else if key == "StartupWMClass"@ {
        DesktopEntryView { startup_wm_class: value, ..entry }
    } else if key == localized("Name"@, locale) {
        DesktopEntryView { name_loc: value, ..entry }
    } else if key == localized("Comment"@, locale) {
        DesktopEntryView { comment_loc: value, ..entry }
    } else {
        entry
    }
}

/// The line begins a section other than that of the entry.
pub open spec fn ends_entry(line: Seq<char>) -> bool {
    line.len() > 0 && line[0] == '[' && line != "[Desktop Entry]"@
}

/// `entry` after the lines from index `from` on. A line that is not UTF-8 is
/// passed over, as is one that is no pair, or has no value.
pub open spec fn read_from(
    lines: Seq<Seq<u8>>,
    from: int,
    entry: DesktopEntryView,
    locale: Seq<char>,
    current_desktop: Seq<char>,
) -> DesktopEntryView
    decreases lines.len() - from,
{
    if from < 0 || from >= lines.len() {
        entry
    } else if !valid_utf8(lines[from]) {
        read_from(lines, from + 1, entry, locale, current_desktop)
    } else {
        let line = decode_utf8(lines[from]);
        if ends_entry(line) {
            entry
        } else {
            let next = match keypair(line) {
                Some((key, value)) => if value.len() > 0 {
                    applied(entry, key, value, locale, current_desktop)
                } else {
                    entry
                },
                None => entry,
            };
            read_from(lines, from + 1, next, locale, current_desktop)
        }
    }
}

/// `entry` with the base name and comment where the locale has none.
pub open spec fn with_fallbacks(entry: DesktopEntryView) -> DesktopEntryView {
    DesktopEntryView {
        name_loc: if entry.name_loc.len() == 0 {
            entry.name
        } else {
            entry.name_loc
        },
        comment_loc: if entry.comment_loc.len() == 0 {
            entry.comment
        } else {
            entry.comment_loc
        },
        ..entry
    }
}

/// The entry in a `.desktop` file.
pub open spec fn entry_of(
    id: Seq<char>,
    content: Seq<u8>,
    locale: Seq<char>,
    current_desktop: Seq<char>,
) -> DesktopEntryView {
    with_fallbacks(
        read_from(
            text::byte_lines(content),
            0,
            DesktopEntryView::empty(id),
            locale,
            current_desktop,
        ),
    )
}

/// Returns true if the semicolon-separated desktop list contains the given desktop name.
pub fn desktop_list_contains(list: &str, desktop: &str) -> (r: bool)
    ensures
        r == list_contains(list@, desktop@),
{
    let list_chars = text::chars_of(list);
    let desktop_chars = text::chars_of(desktop);
    if desktop_chars.len() == 0 {
        return false;
    }
    let items = text::split_chars(list_chars.as_slice(), ';');
    let ghost all = text::split(list@, ';');
    assert(text::slices(items@).len() == items@.len());
    let mut i: usize = 0;
    while i < items.len()
        invariant
            i <= items@.len(),
            items@.len() == all.len(),
            text::slices(items@) == all,
            all == text::split(list@, ';'),
            desktop_chars@ == desktop@,
            desktop@.len() > 0,
            forall|k: int| 0 <= k < i ==> all[k] != desktop@,
        decreases items@.len() - i,
    {
        assert(all[i as int] == items@[i as int]@);
        if text::same(items[i], desktop_chars.as_slice()) {
            return true;
        }
        i += 1;
    }
    false
}

/// Splits a line at the first `=` into (key, value), both trimmed.
pub fn parse_keypair(s: &str) -> (r: Option<(String, String)>)
    ensures
        match r {
            Some((key, value)) => keypair(s@) == Some((key@, value@)),
            None => keypair(s@) is None,
        },
{
    let chars = text::chars_of(s);
    match text::find_char(chars.as_slice(), '=') {
        Some(k) => {
            if k == 0 {
                return None;
            }
            let key = text::trimmed(text::take(chars.as_slice(), k));
            let value = text::trimmed(text::skip(chars.as_slice(), k + 1));
            Some((text::string_of(key), text::string_of(value)))
        },
        None => None,
    }
}

fn localized_key(key: &str, locale: &str) -> (r: String)
    ensures
        r@ == localized(key@, locale@),
{
    let chars = text::chars_of(locale);
    let mut out = key.to_owned();
    out.append("[");
    out.append(text::string_of(text::text_before(chars.as_slice(), '_')).as_str());
    out.append("]");
    out
}

/// Applies a single key-value pair from a .desktop file to the entry. The
/// locale is the value of `LANG`.
pub fn apply_key_value(
    entry: &mut DesktopEntry,
    key: &str,
    value: &str,
    locale: &str,
    current_desktop: &str,
)
    ensures
        final(entry)@ == applied(old(entry)@, key@, value@, locale@, current_desktop@),
{
    if text::same_text(key, "Name") {
        entry.name = value.to_owned();
    } else if text::same_text(key, "Comment") {
        entry.comment = value.to_owned();
    } else if text::same_text(key, "Icon") {
        entry.icon = value.to_owned();
    } else if text::same_text(key, "Categories") {
        entry.category = value.to_owned();
    } else if text::same_text(key, "Terminal") {
        entry.terminal = text::same_text(value, "true");
    } else if text::same_text(key, "NoDisplay") || text::same_text(key, "Hidden") {
        if !entry.no_display {
            entry.no_display = text::same_text(value, "true");
        }
    } else if text::same_text(key, "OnlyShowIn") {
        if !entry.no_display {
            entry.no_display = !desktop_list_contains(value, current_desktop);
        }
    } else if text::same_text(key, "NotShowIn") {
        if !entry.no_display {
            entry.no_display = desktop_list_contains(value, current_desktop);
        }
    } else if text::same_text(key, "Exec") {
        // Quotes stay: splitting happens at launch time.
        entry.exec_line = value.to_owned();
    } else if text::same_text(key, "StartupWMClass") {
        entry.startup_wm_class = value.to_owned();
    } else if text::same_text(key, localized_key("Name", locale).as_str()) {
        entry.name_loc = value.to_owned();
    } else if text::same_text(key, localized_key("Comment", locale).as_str()) {
        entry.comment_loc = value.to_owned();
    }
}

/// Parses a .desktop entry from the content of its file. `locale` is the value
/// of `LANG`, and `current_desktop` that of `XDG_CURRENT_DESKTOP`, each empty
/// where the variable is not set.
pub fn parse_desktop_entry(id: &str, content: &[u8], locale: &str, current_desktop: &str) -> (r:
    DesktopEntry)
    ensures
        r@ == entry_of(id@, content@, locale@, current_desktop@),
{
    let mut entry = DesktopEntry { desktop_id: id.to_owned(), ..DesktopEntry::default() };
    let lines = text::split_lines(content);
    let ghost all = text::byte_lines(content@);
    let ghost whole = read_from(all, 0, entry@, locale@, current_desktop@);
    assert(text::slices(lines@).len() == lines@.len());
    let mut i: usize = 0;
    while i < lines.len()
        invariant_except_break
            i <= lines@.len(),
            text::slices(lines@) == all,
            lines@.len() == all.len(),
            whole == read_from(all, i as int, entry@, locale@, current_desktop@),
        ensures
            whole == entry@,
        decreases lines@.len() - i,
    {
        assert(all[i as int] == lines@[i as int]@);
        if let Some(line) = encoding::utf8_text(lines[i]) {
            // Stop at sections other than that of the entry.
            if text::text_begins_with(line.as_str(), "[") && !text::same_text(
                line.as_str(),
                "[Desktop Entry]",
            ) {
                proof {
                    lemma_bracket(line@);
                }
                break;
            }
            proof {
                lemma_bracket(line@);
            }
            if let Some((key, value)) = parse_keypair(line.as_str()) {
                if !value.as_str().is_empty() {
                    apply_key_value(
                        &mut entry,
                        key.as_str(),
                        value.as_str(),
                        locale,
                        current_desktop,
                    );
                }
            }
        }
        i += 1;
    }
    // Without a localized name, the base name serves.
    if entry.name_loc.as_str().is_empty() {
        entry.name_loc = entry.name.clone();
    }
    if entry.comment_loc.as_str().is_empty() {
        entry.comment_loc = entry.comment.clone();
    }
    entry
}

proof fn lemma_bracket(line: Seq<char>)
    ensures
        text::starts_with(line, "["@) == (line.len() > 0 && line[0] == '['),
{
    reveal_strlit("[");
    assert("["@ == seq!['[']);
    if line.len() > 0 && line[0] == '[' {
        assert(line.take(1) == seq!['[']);
    }
    if text::starts_with(line, "["@) {
        assert(line.take(1)[0] == '[');
    }
}

/// `c` behind a `%` is a field code.
pub open spec fn is_field_code(c: char) -> bool {
    c == 'f' || c == 'F' || c == 'u' || c == 'U' || c == 'd' || c == 'D' || c == 'n' || c == 'N'
        || c == 'i' || c == 'c' || c == 'k' || c == 'v' || c == 'm'
}

/// `done`, and behind it `s` from index `from` on with its field codes
/// dropped. A code that stands between spaces, or between a space and the end,
/// takes the space before it along. Two percent signs stand for one; any other
/// percent sign stays.
pub open spec fn stripped_from(s: Seq<char>, from: int, done: Seq<char>) -> Seq<char>
    decreases s.len() - from,
{
    if from < 0 || from >= s.len() {
        done
    } else if s[from] != '%' {
        stripped_from(s, from + 1, done.push(s[from]))
    } else if from + 1 < s.len() && s[from + 1] == '%' {
        stripped_from(s, from + 2, done.push('%'))
    } else if from + 1 < s.len() && is_field_code(s[from + 1]) {
        let alone = done.len() > 0 && done.last() == ' ' && (from + 2 >= s.len() || s[from + 2]
            == ' ');
        stripped_from(
            s,
            from + 2,
            if alone {
                done.drop_last()
            } else {
                done
            },
        )
    } else {
        stripped_from(s, from + 1, done.push('%'))
    }
}

/// The command without its field codes, trimmed.
pub open spec fn stripped(line: Seq<char>) -> Seq<char> {
    text::trim(stripped_from(line, 0, Seq::empty()))
}

/// Strips desktop field codes (%u, %F, %%, etc.) from an Exec command.
/// The single-letter codes that freedesktop knows are
/// removed and `%%` is collapsed to a literal `%`. Arguments after field codes
/// are preserved. Quotes are preserved: shell splitting happens at launch time.
pub fn strip_field_codes(line: &str) -> (r: String)
    ensures
        r@ == stripped(line@),
{
    let chars = text::chars_of(line);
    let n: usize = chars.len();
    let mut out: Vec<char> = Vec::new();
    let mut i: usize = 0;
    while i < n
        invariant
            i <= n,
            n == chars@.len(),
            chars@ == line@,
            stripped_from(line@, 0, Seq::empty()) == stripped_from(line@, i as int, out@),
        decreases n - i,
    {
        let c = chars[i];
        if c != '%' {
            out.push(c);
            i += 1;
        } else if n - i > 1 && chars[i + 1] == '%' {
            out.push('%');
            i += 2;
        } else if n - i > 1 && field_code(chars[i + 1]) {
            i += 2;
            if out.len() > 0 && out[out.len() - 1] == ' ' && (i == n || chars[i] == ' ') {
                let ghost before = out@;
                out.pop();
                assert(out@ == before.drop_last());
            }
        } else {
            out.push('%');
            i += 1;
        }
    }
    text::string_of(text::trimmed(out.as_slice()))
}

fn field_code(c: char) -> (r: bool)
    ensures
        r == is_field_code(c),
{
    c == 'f' || c == 'F' || c == 'u' || c == 'U' || c == 'd' || c == 'D' || c == 'n' || c == 'N'
        || c == 'i' || c == 'c' || c == 'k' || c == 'v' || c == 'm'
}

proof fn lemma_stripped_from_plain(s: Seq<char>, from: int, done: Seq<char>)
    requires
        0 <= from <= s.len(),
        !s.contains('%'),
    ensures
        stripped_from(s, from, done) == done + s.skip(from),
    decreases s.len() - from,
{
    if from < s.len() {
        assert(s.contains(s[from]));
        lemma_stripped_from_plain(s, from + 1, done.push(s[from]));
        assert(done.push(s[from]) + s.skip(from + 1) == done + s.skip(from));
    } else {
        assert(done + s.skip(from) == done);
    }
}

/// A command without a percent sign is only trimmed.
pub proof fn plain_command_is_only_trimmed(line: Seq<char>)
    requires
        !line.contains('%'),
    ensures
        stripped(line) == text::trim(line),
{
    lemma_stripped_from_plain(line, 0, Seq::empty());
    assert(Seq::<char>::empty() + line.skip(0) == line);
}

/// `c` plays no part in field codes, nor at the ends of a command: it is neither
/// white space, nor a percent sign, nor the letter of a code. Quotes are such
/// characters.
pub open spec fn is_plain(c: char) -> bool {
    !text::is_white_space(c) && c != '%' && !is_field_code(c)
}

/// The plain characters of `s`, in order.
pub open spec fn plain(s: Seq<char>) -> Seq<char> {
    s.filter(|c: char| is_plain(c))
}

proof fn lemma_plain_push(s: Seq<char>, c: char)
    ensures
        plain(s.push(c)) == (if is_plain(c) {
            plain(s).push(c)
        } else {
            plain(s)
        }),
{
    reveal(Seq::filter);
    assert(s.push(c).drop_last() == s);
}

proof fn lemma_plain_skip(s: Seq<char>, from: int)
    requires
        0 <= from < s.len(),
    ensures
        plain(s.skip(from)) == (if is_plain(s[from]) {
            seq![s[from]] + plain(s.skip(from + 1))
        } else {
            plain(s.skip(from + 1))
        }),
{
    let first = seq![s[from]];
    Seq::filter_distributes_over_add(first, s.skip(from + 1), |c: char| is_plain(c));
    assert(s.skip(from) == first + s.skip(from + 1));
    lemma_plain_push(Seq::empty(), s[from]);
    assert(Seq::<char>::empty().push(s[from]) == first);
    assert(plain(Seq::empty()) == Seq::<char>::empty()) by {
        reveal(Seq::filter);
    }
    assert(plain(first) == (if is_plain(s[from]) {
        first
    } else {
        Seq::<char>::empty()
    }));
    assert(Seq::<char>::empty() + plain(s.skip(from + 1)) == plain(s.skip(from + 1)));
}

proof fn lemma_plain_stripped(s: Seq<char>, from: int, done: Seq<char>)
    requires
        0 <= from <= s.len(),
    ensures
        plain(stripped_from(s, from, done)) == plain(done) + plain(s.skip(from)),
    decreases s.len() - from,
{
    if from == s.len() {
        reveal(Seq::filter);
        assert(plain(done) + plain(s.skip(from)) == plain(done));
    } else {
        lemma_plain_skip(s, from);
        if s[from] != '%' {
            lemma_plain_push(done, s[from]);
            lemma_plain_stripped(s, from + 1, done.push(s[from]));
            assert(plain(done).push(s[from]) + plain(s.skip(from + 1)) == plain(done) + (seq![
                s[from],
            ] + plain(s.skip(from + 1))));
        } else if from + 1 < s.len() && s[from + 1] == '%' {
            lemma_plain_skip(s, from + 1);
            lemma_plain_push(done, '%');
            lemma_plain_stripped(s, from + 2, done.push('%'));
        } else if from + 1 < s.len() && is_field_code(s[from + 1]) {
            lemma_plain_skip(s, from + 1);
            let alone = done.len() > 0 && done.last() == ' ' && (from + 2 >= s.len() || s[from + 2]
                == ' ');
            if alone {
                lemma_plain_push(done.drop_last(), ' ');
                assert(done.drop_last().push(' ') == done);
                lemma_plain_stripped(s, from + 2, done.drop_last());
            } else {
                lemma_plain_stripped(s, from + 2, done);
            }
        } else {
            lemma_plain_push(done, '%');
            lemma_plain_stripped(s, from + 1, done.push('%'));
        }
    }
}

proof fn lemma_plain_trim_start(s: Seq<char>)
    ensures
        plain(text::trim_start(s)) == plain(s),
    decreases s.len(),
{
    if s.len() > 0 && text::is_white_space(s[0]) {
        lemma_plain_skip(s, 0);
        assert(s.skip(0) == s);
        lemma_plain_trim_start(s.skip(1));
    }
}

proof fn lemma_plain_trim_end(s: Seq<char>)
    ensures
        plain(text::trim_end(s)) == plain(s),
    decreases s.len(),
{
    if s.len() > 0 && text::is_white_space(s.last()) {
        lemma_plain_push(s.drop_last(), s.last());
        assert(s.drop_last().push(s.last()) == s);
        lemma_plain_trim_end(s.drop_last());
    }
}

/// Stripping field codes keeps every quote and every other plain character, in
/// order: what stands behind a code is preserved.
pub proof fn plain_characters_are_kept(line: Seq<char>)
    ensures
        plain(stripped(line)) == plain(line),
        is_plain('"') && is_plain('\''),
{
    lemma_plain_stripped(line, 0, Seq::empty());
    assert(plain(Seq::empty()) == Seq::<char>::empty()) by {
        reveal(Seq::filter);
    }
    assert(line.skip(0) == line);
    assert(Seq::<char>::empty() + plain(line) == plain(line));
    let done = stripped_from(line, 0, Seq::empty());
    lemma_plain_trim_start(done);
    lemma_plain_trim_end(text::trim_start(done));
}

/// An entry that is hidden stays hidden, whatever lines follow.
pub proof fn hidden_stays_hidden(
    lines: Seq<Seq<u8>>,
    from: int,
    entry: DesktopEntryView,
    locale: Seq<char>,
    current_desktop: Seq<char>,
)
    requires
        entry.no_display,
    ensures
        read_from(lines, from, entry, locale, current_desktop).no_display,
    decreases lines.len() - from,
{
    if 0 <= from < lines.len() {
        if !valid_utf8(lines[from]) {
            hidden_stays_hidden(lines, from + 1, entry, locale, current_desktop);
        } else {
            let line = decode_utf8(lines[from]);
            if !ends_entry(line) {
                let next = match keypair(line) {
                    Some((key, value)) => if value.len() > 0 {
                        applied(entry, key, value, locale, current_desktop)
                    } else {
                        entry
                    },
                    None => entry,
                };
                hidden_stays_hidden(lines, from + 1, next, locale, current_desktop);
            }
        }
    }
}

/// What follows the first line of another section has no influence.
pub proof fn other_sections_are_ignored(
    lines: Seq<Seq<u8>>,
    header: Seq<u8>,
    rest: Seq<Seq<u8>>,
    from: int,
    entry: DesktopEntryView,
    locale: Seq<char>,
    current_desktop: Seq<char>,
)
    requires
        0 <= from <= lines.len(),
        valid_utf8(header),
        ends_entry(decode_utf8(header)),
    ensures
        read_from(lines.push(header) + rest, from, entry, locale, current_desktop) == read_from(
            lines,
            from,
            entry,
            locale,
            current_desktop,
        ),
    decreases lines.len() - from,
{
    let all = lines.push(header) + rest;
    if from == lines.len() {
        assert(all[from] == header);
    } else {
        assert(all[from] == lines[from]);
        if !valid_utf8(lines[from]) {
            other_sections_are_ignored(
                lines,
                header,
                rest,
                from + 1,
                entry,
                locale,
                current_desktop,
            );
        } else {
            let line = decode_utf8(lines[from]);
            if !ends_entry(line) {
                let next = match keypair(line) {
                    Some((key, value)) => if value.len() > 0 {
                        applied(entry, key, value, locale, current_desktop)
                    } else {
                        entry
                    },
                    None => entry,
                };
                other_sections_are_ignored(
                    lines,
                    header,
                    rest,
                    from + 1,
                    next,
                    locale,
                    current_desktop,
                );
            }
        }
    }
}

/// An entry with a name has a name for the locale, and likewise a comment.
pub proof fn localized_fields_fall_back(
    id: Seq<char>,
    content: Seq<u8>,
    locale: Seq<char>,
    current_desktop: Seq<char>,
)
    ensures
        ({
            let entry = entry_of(id, content, locale, current_desktop);
            &&& entry.name_loc.len() == 0 ==> entry.name.len() == 0
            &&& entry.comment_loc.len() == 0 ==> entry.comment.len() == 0
        }),
{
}

/// A line is a key and a value around its first `=`, each trimmed. It is no pair
/// where it has none, or begins with it.
pub proof fn pairs_part_at_the_first_equals_sign(line: Seq<char>, a: Seq<char>, b: Seq<char>)
    ensures
        a.len() > 0 && !a.contains('=') && line == a + seq!['='] + b ==> keypair(line) == Some(
            (text::trim(a), text::trim(b)),
        ),
        a.len() == 0 && line == a + seq!['='] + b ==> keypair(line) is None,
        !line.contains('=') ==> keypair(line) is None,
{
    text::first_separator_splits(line, '=', a, b);
    text::lemma_index_from(line, '=', 0);
    if a.len() == 0 && line == a + seq!['='] + b {
        assert(line[0] == '=');
    }
    if !line.contains('=') {
        if let Some(k) = text::index_of(line, '=') {
            assert(line.contains(line[k]));
        }
    }
    if a.len() > 0 && !a.contains('=') && line == a + seq!['='] + b {
        let k = text::index_of(line, '=')->0;
        assert(line[a.len() as int] == '=');
        if k < a.len() {
            assert(line[k] == a[k] && a.contains(a[k]));
        }
        assert(line.take(k) == a && line.skip(k + 1) == b);
    }
}

/// A desktop is in a list where it is in what stands before a semicolon or in what
/// stands behind it; a list without one holds just what it is. No list holds the
/// empty name.
pub proof fn desktop_lists_part_at_semicolons(a: Seq<char>, b: Seq<char>, desktop: Seq<char>)
    ensures
        list_contains(a + seq![';'] + b, desktop) <==> list_contains(a, desktop) || list_contains(
            b,
            desktop,
        ),
        !a.contains(';') ==> (list_contains(a, desktop) <==> desktop.len() > 0 && a == desktop),
        desktop.len() == 0 ==> !list_contains(a, desktop),
{
    text::separators_part_the_pieces(a, ';', b);
    assert(a + seq![';'] + b == a.push(';') + b);
    let first = text::split(a, ';');
    let second = text::split(b, ';');
    let all = first + second;
    if first.contains(desktop) {
        let i = choose|i: int| 0 <= i < first.len() && first[i] == desktop;
        assert(all[i] == desktop);
    }
    if second.contains(desktop) {
        let i = choose|i: int| 0 <= i < second.len() && second[i] == desktop;
        assert(all[first.len() + i] == desktop);
    }
    if all.contains(desktop) {
        let i = choose|i: int| 0 <= i < all.len() && all[i] == desktop;
        if i < first.len() {
            assert(first[i] == desktop);
        } else {
            assert(second[i - first.len()] == desktop);
        }
    }
    if !a.contains(';') && a == desktop {
        assert(first[0] == a);
    }
}

/// The line at index `k` is read: no line from `from` up to it begins another
/// section.
pub open spec fn is_read(lines: Seq<Seq<u8>>, from: int, k: int) -> bool {
    &&& from <= k < lines.len()
    &&& valid_utf8(lines[k])
    &&& forall|j: int| from <= j <= k ==> !begins_other_section(#[trigger] lines[j])
}

/// The line is the header of a section other than that of the entry.
pub open spec fn begins_other_section(line: Seq<u8>) -> bool {
    let chars = decode_utf8(line);
    valid_utf8(line) && chars.len() > 0 && chars[0] == '[' && chars != "[Desktop Entry]"@
}

/// The line at index `k` is read, and gives the key a value.
pub open spec fn says(
    lines: Seq<Seq<u8>>,
    from: int,
    k: int,
    key: Seq<char>,
    value: Seq<char>,
) -> bool {
    &&& is_read(lines, from, k)
    &&& keypair(decode_utf8(lines[k])) == Some((key, value))
    &&& value.len() > 0
}

/// The line at index `k` is the last that gives the key a value.
pub open spec fn says_last(
    lines: Seq<Seq<u8>>,
    from: int,
    k: int,
    key: Seq<char>,
    value: Seq<char>,
) -> bool {
    &&& says(lines, from, k, key, value)
    &&& forall|l: int, other: Seq<char>| k < l ==> !#[trigger] says(lines, from, l, key, other)
}

/// No line gives the key a value.
pub open spec fn is_unsaid(lines: Seq<Seq<u8>>, from: int, key: Seq<char>) -> bool {
    forall|l: int, other: Seq<char>| !#[trigger] says(lines, from, l, key, other)
}

/// `held` is the value that the last line with the key gives, and empty where none
/// does.
pub open spec fn is_last_said(held: Seq<char>, lines: Seq<Seq<u8>>, key: Seq<char>) -> bool {
    &&& is_unsaid(lines, 0, key) ==> held.len() == 0
    &&& forall|k: int, value: Seq<char>| #[trigger]
        says_last(lines, 0, k, key, value) ==> held == value
}

/// A line hides the entry.
pub open spec fn hides(key: Seq<char>, value: Seq<char>, current_desktop: Seq<char>) -> bool {
    ||| (key == "NoDisplay"@ || key == "Hidden"@) && value == "true"@
    ||| key == "OnlyShowIn"@ && !list_contains(value, current_desktop)
    ||| key == "NotShowIn"@ && list_contains(value, current_desktop)
}

proof fn lemma_says_further_on(
    lines: Seq<Seq<u8>>,
    from: int,
    k: int,
    key: Seq<char>,
    value: Seq<char>,
)
    requires
        0 <= from < lines.len(),
    ensures
        says(lines, from, k, key, value) && k > from ==> says(lines, from + 1, k, key, value),
        says(lines, from + 1, k, key, value) && !begins_other_section(lines[from]) ==> says(
            lines,
            from,
            k,
            key,
            value,
        ),
{
    if says(lines, from + 1, k, key, value) && !begins_other_section(lines[from]) {
        assert forall|j: int| from <= j <= k implies !begins_other_section(#[trigger] lines[j]) by {
            if j > from {
                assert(!begins_other_section(lines[j]));
            }
        }
    }
}

proof fn lemma_last_value<A>(
    lines: Seq<Seq<u8>>,
    from: int,
    entry: DesktopEntryView,
    locale: Seq<char>,
    current_desktop: Seq<char>,
    key: Seq<char>,
    get: spec_fn(DesktopEntryView) -> A,
    set: spec_fn(Seq<char>) -> A,
)
    requires
        0 <= from <= lines.len(),
        forall|e: DesktopEntryView, k: Seq<char>, v: Seq<char>|
            get(#[trigger] applied(e, k, v, locale, current_desktop)) == if k == key {
                set(v)
            } else {
                get(e)
            },
    ensures
        is_unsaid(lines, from, key) ==> get(
            read_from(lines, from, entry, locale, current_desktop),
        ) == get(entry),
        forall|k: int, value: Seq<char>| #[trigger]
            says_last(lines, from, k, key, value) ==> get(
                read_from(lines, from, entry, locale, current_desktop),
            ) == set(value),
    decreases lines.len() - from,
{
    let done = read_from(lines, from, entry, locale, current_desktop);
    if from < lines.len() {
        let line = decode_utf8(lines[from]);
        if valid_utf8(lines[from]) && ends_entry(line) {
            assert(begins_other_section(lines[from]));
            assert forall|k: int, value: Seq<char>| #[trigger] says_last(
                lines,
                from,
                k,
                key,
                value,
            ) implies get(done) == set(value) by {
                assert(!begins_other_section(lines[from]));
            }
        } else {
            assert(!begins_other_section(lines[from]));
            let next = if valid_utf8(lines[from]) {
                match keypair(line) {
                    Some((k, v)) => if v.len() > 0 {
                        applied(entry, k, v, locale, current_desktop)
                    } else {
                        entry
                    },
                    None => entry,
                }
            } else {
                entry
            };
            assert(done == read_from(lines, from + 1, next, locale, current_desktop));
            lemma_last_value(
                lines,
                from + 1,
                next,
                locale,
                current_desktop,
                key,
                get,
                set,
            );
            if is_unsaid(lines, from, key) {
                assert forall|l: int, other: Seq<char>| !#[trigger] says(
                    lines,
                    from + 1,
                    l,
                    key,
                    other,
                ) by {
                    lemma_says_further_on(lines, from, l, key, other);
                    assert(!says(lines, from, l, key, other));
                }
                if get(next) != get(entry) {
                    let (k, v) = keypair(line)->0;
                    assert(says(lines, from, from, k, v));
                }
            }
            assert forall|k: int, value: Seq<char>| #[trigger] says_last(
                lines,
                from,
                k,
                key,
                value,
            ) implies get(done) == set(value) by {
                assert forall|l: int, other: Seq<char>| k < l implies !#[trigger] says(
                    lines,
                    from + 1,
                    l,
                    key,
                    other,
                ) by {
                    lemma_says_further_on(lines, from, l, key, other);
                    assert(!says(lines, from, l, key, other));
                }
                lemma_says_further_on(lines, from, k, key, value);
                if k > from {
                    assert(says_last(lines, from + 1, k, key, value));
                } else {
                    assert forall|l: int, other: Seq<char>| !#[trigger] says(
                        lines,
                        from + 1,
                        l,
                        key,
                        other,
                    ) by {
                        lemma_says_further_on(lines, from, l, key, other);
                        if says(lines, from + 1, l, key, other) {
                            assert(l > from);
                            assert(!says(lines, from, l, key, other));
                        }
                    }
                    assert(is_unsaid(lines, from + 1, key));
                }
            }
        }
    }
}

proof fn lemma_hidden(
    lines: Seq<Seq<u8>>,
    from: int,
    entry: DesktopEntryView,
    locale: Seq<char>,
    current_desktop: Seq<char>,
)
    requires
        0 <= from <= lines.len(),
    ensures
        read_from(lines, from, entry, locale, current_desktop).no_display <==> entry.no_display
            || exists|k: int, key: Seq<char>, value: Seq<char>| #[trigger]
            says(lines, from, k, key, value) && hides(key, value, current_desktop),
    decreases lines.len() - from,
{
    if from < lines.len() {
        let line = decode_utf8(lines[from]);
        if valid_utf8(lines[from]) && ends_entry(line) {
            assert(begins_other_section(lines[from]));
            assert forall|k: int, key: Seq<char>, value: Seq<char>| !#[trigger] says(
                lines,
                from,
                k,
                key,
                value,
            ) by {}
        } else {
            assert(!begins_other_section(lines[from]));
            let next = if valid_utf8(lines[from]) {
                match keypair(line) {
                    Some((k, v)) => if v.len() > 0 {
                        applied(entry, k, v, locale, current_desktop)
                    } else {
                        entry
                    },
                    None => entry,
                }
            } else {
                entry
            };
            lemma_hidden(lines, from + 1, next, locale, current_desktop);
            lemma_key_names();
            let done = read_from(lines, from, entry, locale, current_desktop);
            assert(done == read_from(lines, from + 1, next, locale, current_desktop));
            if done.no_display && !entry.no_display {
                if next.no_display {
                    let (k, v) = keypair(line)->0;
                    assert(says(lines, from, from, k, v) && hides(k, v, current_desktop));
                } else {
                    let (k, key, value) = choose|k: int, key: Seq<char>, value: Seq<char>|
                        #[trigger] says(lines, from + 1, k, key, value) && hides(
                            key,
                            value,
                            current_desktop,
                        );
                    lemma_says_further_on(lines, from, k, key, value);
                    assert(says(lines, from, k, key, value));
                }
            }
            if exists|k: int, key: Seq<char>, value: Seq<char>| #[trigger]
                says(lines, from, k, key, value) && hides(key, value, current_desktop) {
                let (k, key, value) = choose|k: int, key: Seq<char>, value: Seq<char>| #[trigger]
                    says(lines, from, k, key, value) && hides(key, value, current_desktop);
                lemma_says_further_on(lines, from, k, key, value);
                if k > from {
                    assert(says(lines, from + 1, k, key, value));
                } else {
                    assert(next.no_display);
                }
            }
        }
    }
}

proof fn lemma_key_names()
    ensures
        "Name"@ == seq!['N', 'a', 'm', 'e'],
        "Comment"@ == seq!['C', 'o', 'm', 'm', 'e', 'n', 't'],
        "Icon"@ == seq!['I', 'c', 'o', 'n'],
        "Categories"@.len() == 10,
        "Categories"@[0] == 'C',
        "Terminal"@.len() == 8,
        "Terminal"@[0] == 'T',
        "NoDisplay"@.len() == 9,
        "NoDisplay"@[0] == 'N',
        "NoDisplay"@[2] == 'D',
        "Hidden"@.len() == 6,
        "Hidden"@[0] == 'H',
        "OnlyShowIn"@.len() == 10,
        "OnlyShowIn"@[0] == 'O',
        "NotShowIn"@.len() == 9,
        "NotShowIn"@[0] == 'N',
        "NotShowIn"@[2] == 't',
        "Exec"@ == seq!['E', 'x', 'e', 'c'],
        "StartupWMClass"@.len() == 14,
        "StartupWMClass"@[0] == 'S',
{
    reveal_strlit("Name");
    reveal_strlit("Comment");
    reveal_strlit("Icon");
    reveal_strlit("Categories");
    reveal_strlit("Terminal");
    reveal_strlit("NoDisplay");
    reveal_strlit("Hidden");
    reveal_strlit("OnlyShowIn");
    reveal_strlit("NotShowIn");
    reveal_strlit("Exec");
    reveal_strlit("StartupWMClass");
}

proof fn lemma_localized_is_other(key: Seq<char>, locale: Seq<char>)
    requires
        key == "Name"@ || key == "Comment"@,
    ensures
        localized(key, locale)[0] == key[0],
        localized(key, locale)[key.len() as int] == '[',
        localized(key, locale).last() == ']',
        localized(key, locale).len() >= key.len() + 2,
        localized("Name"@, locale) != localized("Comment"@, locale),
        localized("Name"@, locale) != "NoDisplay"@,
        localized("Name"@, locale) != "NotShowIn"@,
        localized("Comment"@, locale) != "Categories"@,
        localized(key, locale) != "Name"@,
        localized(key, locale) != "Comment"@,
{
    lemma_key_names();
    reveal_strlit("[");
    reveal_strlit("]");
    reveal_strlit("NoDisplay");
    reveal_strlit("NotShowIn");
    reveal_strlit("Categories");
    let name = localized("Name"@, locale);
    let comment = localized("Comment"@, locale);
    assert(name[0] == 'N' && name[4] == '[');
    assert(comment[0] == 'C' && comment[7] == '[');
    assert("NoDisplay"@[4] == 's' && "NotShowIn"@[4] == 'h' && "Categories"@[7] == 'i');
}

/// Every field of an entry is what the last line with its key says, among the lines
/// before the next section: the keys are those of the base fields and, for the
/// locale, the same with its language in brackets. Where nothing gives the name or
/// the comment for the locale, the base field serves.
pub proof fn fields_are_what_the_last_line_says(
    id: &str,
    content: &[u8],
    locale: &str,
    current_desktop: &str,
    language: Seq<char>,
    r: DesktopEntry,
)
    requires
        call_ensures(parse_desktop_entry, (id, content, locale, current_desktop), r),
        language == text::before(locale@, '_'),
    ensures
        ({
            let lines = text::byte_lines(content@);
            let name_key = "Name"@ + seq!['['] + language + seq![']'];
            let comment_key = "Comment"@ + seq!['['] + language + seq![']'];
            &&& r.desktop_id@ == id@
            &&& is_last_said(r.name@, lines, "Name"@)
            &&& is_last_said(r.comment@, lines, "Comment"@)
            &&& is_last_said(r.icon@, lines, "Icon"@)
            &&& is_last_said(r.category@, lines, "Categories"@)
            &&& is_last_said(r.exec_line@, lines, "Exec"@)
            &&& is_last_said(r.startup_wm_class@, lines, "StartupWMClass"@)
            &&& is_unsaid(lines, 0, name_key) ==> r.name_loc@ == r.name@
            &&& !is_unsaid(lines, 0, name_key) ==> is_last_said(r.name_loc@, lines, name_key)
            &&& is_unsaid(lines, 0, comment_key) ==> r.comment_loc@ == r.comment@
            &&& !is_unsaid(lines, 0, comment_key) ==> is_last_said(
                r.comment_loc@,
                lines,
                comment_key,
            )
        }),
{
    let lines = text::byte_lines(content@);
    let empty = DesktopEntryView::empty(id@);
    let read = read_from(lines, 0, empty, locale@, current_desktop@);
    let same = |v: Seq<char>| v;
    lemma_key_names();
    lemma_localized_is_other("Name"@, locale@);
    lemma_localized_is_other("Comment"@, locale@);
    reveal_strlit("[");
    reveal_strlit("]");
    assert("["@ == seq!['['] && "]"@ == seq![']']);
    let name_key = "Name"@ + seq!['['] + language + seq![']'];
    let comment_key = "Comment"@ + seq!['['] + language + seq![']'];
    assert(name_key == localized("Name"@, locale@));
    assert(comment_key == localized("Comment"@, locale@));
    lemma_desktop_id_stays(lines, 0, empty, locale@, current_desktop@);
    lemma_last_value(
        lines,
        0,
        empty,
        locale@,
        current_desktop@,
        "Name"@,
        |e: DesktopEntryView| e.name,
        same,
    );
    lemma_last_value(
        lines,
        0,
        empty,
        locale@,
        current_desktop@,
        "Comment"@,
        |e: DesktopEntryView| e.comment,
        same,
    );
    lemma_last_value(
        lines,
        0,
        empty,
        locale@,
        current_desktop@,
        "Icon"@,
        |e: DesktopEntryView| e.icon,
        same,
    );
    lemma_last_value(
        lines,
        0,
        empty,
        locale@,
        current_desktop@,
        "Categories"@,
        |e: DesktopEntryView| e.category,
        same,
    );
    lemma_last_value(
        lines,
        0,
        empty,
        locale@,
        current_desktop@,
        "Exec"@,
        |e: DesktopEntryView| e.exec_line,
        same,
    );
    lemma_last_value(
        lines,
        0,
        empty,
        locale@,
        current_desktop@,
        "StartupWMClass"@,
        |e: DesktopEntryView| e.startup_wm_class,
        same,
    );
    lemma_last_value(
        lines,
        0,
        empty,
        locale@,
        current_desktop@,
        name_key,
        |e: DesktopEntryView| e.name_loc,
        same,
    );
    lemma_last_value(
        lines,
        0,
        empty,
        locale@,
        current_desktop@,
        comment_key,
        |e: DesktopEntryView| e.comment_loc,
        same,
    );
    assert(r@ == with_fallbacks(read));
    if !is_unsaid(lines, 0, name_key) {
        let (k, value) = lemma_said_last(lines, 0, name_key);
        assert(read.name_loc == value);
    }
    if !is_unsaid(lines, 0, comment_key) {
        let (k, value) = lemma_said_last(lines, 0, comment_key);
        assert(read.comment_loc == value);
    }
}

proof fn lemma_said_last(lines: Seq<Seq<u8>>, from: int, key: Seq<char>) -> (r: (int, Seq<char>))
    requires
        !is_unsaid(lines, from, key),
    ensures
        says_last(lines, from, r.0, key, r.1),
{
    let (k, value) = choose|k: int, value: Seq<char>| #[trigger] says(lines, from, k, key, value);
    lemma_said_last_behind(lines, from, k, key, value)
}

proof fn lemma_said_last_behind(
    lines: Seq<Seq<u8>>,
    from: int,
    k: int,
    key: Seq<char>,
    value: Seq<char>,
) -> (r: (int, Seq<char>))
    requires
        says(lines, from, k, key, value),
    ensures
        says_last(lines, from, r.0, key, r.1),
    decreases lines.len() - k,
{
    if exists|l: int, other: Seq<char>| k < l && #[trigger] says(lines, from, l, key, other) {
        let (l, other) = choose|l: int, other: Seq<char>|
            k < l && #[trigger] says(lines, from, l, key, other);
        lemma_said_last_behind(lines, from, l, key, other)
    } else {
        (k, value)
    }
}

proof fn lemma_desktop_id_stays(
    lines: Seq<Seq<u8>>,
    from: int,
    entry: DesktopEntryView,
    locale: Seq<char>,
    current_desktop: Seq<char>,
)
    ensures
        read_from(lines, from, entry, locale, current_desktop).desktop_id == entry.desktop_id,
    decreases lines.len() - from,
{
    if 0 <= from < lines.len() {
        let line = decode_utf8(lines[from]);
        let next = match keypair(line) {
            Some((k, v)) => if v.len() > 0 {
                applied(entry, k, v, locale, current_desktop)
            } else {
                entry
            },
            None => entry,
        };
        lemma_desktop_id_stays(lines, from + 1, entry, locale, current_desktop);
        lemma_desktop_id_stays(lines, from + 1, next, locale, current_desktop);
    }
}

/// An entry is hidden exactly where some line of its section hides it: one that
/// says so, or one that names the desktops it is for without the current one, or
/// those it is not for with it. It runs in a terminal where the last line on that
/// says `true`.
pub proof fn entries_are_hidden_by_a_line(
    id: &str,
    content: &[u8],
    locale: &str,
    current_desktop: &str,
    r: DesktopEntry,
)
    requires
        call_ensures(parse_desktop_entry, (id, content, locale, current_desktop), r),
    ensures
        ({
            let lines = text::byte_lines(content@);
            &&& r.no_display <==> exists|k: int, key: Seq<char>, value: Seq<char>| #[trigger]
                says(lines, 0, k, key, value) && hides(key, value, current_desktop@)
            &&& is_unsaid(lines, 0, "Terminal"@) ==> !r.terminal
            &&& forall|k: int, value: Seq<char>| #[trigger]
                says_last(lines, 0, k, "Terminal"@, value) ==> (r.terminal <==> value == "true"@)
        }),
{
    let lines = text::byte_lines(content@);
    let empty = DesktopEntryView::empty(id@);
    lemma_key_names();
    lemma_localized_is_other("Name"@, locale@);
    lemma_localized_is_other("Comment"@, locale@);
    lemma_hidden(lines, 0, empty, locale@, current_desktop@);
    lemma_last_value(
        lines,
        0,
        empty,
        locale@,
        current_desktop@,
        "Terminal"@,
        |e: DesktopEntryView| e.terminal,
        |v: Seq<char>| v == "true"@,
    );
    assert(r@.terminal == r.terminal && r@.no_display == r.no_display);
}

/// `c` is the letter of a field code: `f`, `u`, `d` or `n` in either case, `i`, `c`,
/// `k`, `v` or `m`.
pub open spec fn is_code_letter(c: char) -> bool {
    "fFuUdDnNickvm"@.contains(c)
}

/// What is left of `before` where a field code stands behind it and `behind`
/// follows: a space between two such is dropped with the code.
pub open spec fn left_before(before: Seq<char>, behind: Seq<char>) -> Seq<char> {
    if before.len() > 0 && before.last() == ' ' && (behind.len() == 0 || behind[0] == ' ') {
        before.drop_last()
    } else {
        before
    }
}

proof fn lemma_code_letters(c: char)
    ensures
        is_code_letter(c) == is_field_code(c),
{
    reveal_strlit("fFuUdDnNickvm");
    let all = "fFuUdDnNickvm"@;
    assert(all[0] == 'f' && all[1] == 'F' && all[2] == 'u' && all[3] == 'U' && all[4] == 'd'
        && all[5] == 'D' && all[6] == 'n' && all[7] == 'N' && all[8] == 'i' && all[9] == 'c'
        && all[10] == 'k' && all[11] == 'v' && all[12] == 'm');
    if is_code_letter(c) {
        let i = choose|i: int| 0 <= i < all.len() && all[i] == c;
        assert(all[i] == c);
    }
}

proof fn lemma_stripped_further_on(s: Seq<char>, n: int, from: int, done: Seq<char>)
    requires
        0 <= n <= from <= s.len(),
    ensures
        stripped_from(s, from, done) == stripped_from(s.skip(n), from - n, done),
    decreases s.len() - from,
{
    let t = s.skip(n);
    if from < s.len() {
        assert(t[from - n] == s[from]);
        if from + 1 < s.len() {
            assert(t[from + 1 - n] == s[from + 1]);
        }
        if from + 2 < s.len() {
            assert(t[from + 2 - n] == s[from + 2]);
        }
        if s[from] != '%' {
            lemma_stripped_further_on(s, n, from + 1, done.push(s[from]));
        } else if from + 1 < s.len() && s[from + 1] == '%' {
            lemma_stripped_further_on(s, n, from + 2, done.push('%'));
        } else if from + 1 < s.len() && is_field_code(s[from + 1]) {
            let alone = done.len() > 0 && done.last() == ' ' && (from + 2 >= s.len() || s[from + 2]
                == ' ');
            lemma_stripped_further_on(
                s,
                n,
                from + 2,
                if alone {
                    done.drop_last()
                } else {
                    done
                },
            );
        } else {
            lemma_stripped_further_on(s, n, from + 1, done.push('%'));
        }
    }
}

proof fn lemma_stripped_up_to(a: Seq<char>, b: Seq<char>, from: int, done: Seq<char>)
    requires
        0 <= from <= a.len(),
        !a.contains('%'),
    ensures
        stripped_from(a + b, from, done) == stripped_from(
            a + b,
            a.len() as int,
            done + a.skip(from),
        ),
    decreases a.len() - from,
{
    if from < a.len() {
        assert((a + b)[from] == a[from]);
        assert(a.contains(a[from]));
        lemma_stripped_up_to(a, b, from + 1, done.push(a[from]));
        assert(done.push(a[from]) + a.skip(from + 1) == done + a.skip(from));
    } else {
        assert(done + a.skip(from) == done);
    }
}

/// Field codes are taken out one by one, wherever they stand: of a text that begins
/// without a percent sign and goes on with one, the code is dropped, with a space
/// before it where one follows or nothing does; two percent signs become one; and a
/// percent sign with anything else behind it stays. What follows is treated in the
/// same way.
pub proof fn codes_are_taken_out_one_by_one(
    done: Seq<char>,
    a: Seq<char>,
    c: char,
    b: Seq<char>,
)
    requires
        !a.contains('%'),
    ensures
        is_code_letter(c) ==> stripped_from(a + seq!['%', c] + b, 0, done) == stripped_from(
            b,
            0,
            left_before(done + a, b),
        ),
        stripped_from(a + seq!['%', '%'] + b, 0, done) == stripped_from(
            b,
            0,
            done + a + seq!['%'],
        ),
        !is_code_letter(c) && c != '%' ==> stripped_from(a + seq!['%', c] + b, 0, done)
            == stripped_from(b, 0, done + a + seq!['%', c]),
        stripped_from(a + seq!['%'], 0, done) == done + a + seq!['%'],
        stripped_from(a, 0, done) == done + a,
{
    lemma_code_letters(c);
    let n = a.len() as int;
    assert(a.skip(0) == a);
    let one = seq!['%', c] + b;
    let two = seq!['%', '%'] + b;
    assert(a + seq!['%', c] + b == a + one);
    assert(a + seq!['%', '%'] + b == a + two);
    lemma_stripped_up_to(a, one, 0, done);
    lemma_stripped_up_to(a, two, 0, done);
    lemma_stripped_up_to(a, seq!['%'], 0, done);
    lemma_stripped_from_plain(a, 0, done);
    let s = a + one;
    let t = a + two;
    assert(s[n] == '%' && s[n + 1] == c);
    assert(t[n] == '%' && t[n + 1] == '%');
    assert(s.skip(n + 2) == b && t.skip(n + 2) == b);
    if b.len() > 0 {
        assert(s[n + 2] == b[0]);
    }
    lemma_stripped_further_on(s, n + 2, n + 2, left_before(done + a, b));
    lemma_stripped_further_on(t, n + 2, n + 2, (done + a).push('%'));
    assert((done + a).push('%') == done + a + seq!['%']);
    if !is_code_letter(c) && c != '%' {
        let kept = (done + a).push('%');
        assert(stripped_from(s, n, done + a) == stripped_from(s, n + 1, kept));
        assert(stripped_from(s, n + 1, kept) == stripped_from(s, n + 2, kept.push(c)));
        lemma_stripped_further_on(s, n + 2, n + 2, kept.push(c));
        assert(kept.push(c) == done + a + seq!['%', c]);
    }
    let u = a + seq!['%'];
    assert(u[n] == '%');
    assert(stripped_from(u, n + 1, (done + a).push('%')) == (done + a).push('%'));
}

/// What comes out is what was taken from the whole command, trimmed.
pub proof fn stripped_command_is_trimmed(line: &str, r: String) -> (ends: (Seq<char>, Seq<char>))
    requires
        call_ensures(strip_field_codes, (line,), r),
    ensures
        text::is_trimmed(r@, stripped_from(line@, 0, Seq::empty()), ends.0, ends.1),
{
    text::trim_leaves_the_middle(stripped_from(line@, 0, Seq::empty()))
}

} // verus!
