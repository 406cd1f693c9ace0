//! What a stylesheet imports.
//!
//! Theme managers keep color schemes in files of their own, which the user's
//! stylesheet imports. To reload when one of them changes, the watcher has to
//! know them. The parser is lenient: what it does not recognize it passes over.

use vstd::prelude::*;
use crate::path;
use crate::text;

verus! {

/// `c` opens a string, and closes one that it has opened.
pub open spec fn is_quote(c: char) -> bool {
    c == '"' || c == '\''
}

/// Where a string ends that `quote` has opened, looked for from index `from` on:
/// behind the closing quote. One that is not closed ends with its line. A
/// backslash takes the meaning from the character behind it.
pub open spec fn string_end(s: Seq<char>, quote: char, from: int) -> int
    decreases s.len() + 1 - from,
{
    if from < 0 || from >= s.len() {
        s.len() as int
    } else if s[from] == '\n' {
        from
    } else if s[from] == quote {
        from + 1
    } else if s[from] == '\\' {
        string_end(s, quote, from + 2)
    } else {
        string_end(s, quote, from + 1)
    }
}

/// A string that `quote` has opened is closed, looked for from index `from` on.
pub open spec fn is_closed(s: Seq<char>, quote: char, from: int) -> bool
    decreases s.len() + 1 - from,
{
    if from < 0 || from >= s.len() || s[from] == '\n' {
        false
    } else if s[from] == quote {
        true
    } else if s[from] == '\\' {
        is_closed(s, quote, from + 2)
    } else {
        is_closed(s, quote, from + 1)
    }
}

/// How many characters of `s`, which begins with them, make the beginning of a
/// `url(...)` without quotes.
pub open spec fn url_head(s: Seq<char>) -> int {
    if text::starts_with(s, "url"@) {
        let t = text::trim_start(s.skip(3));
        if t.len() > 0 && t[0] == '(' {
            let u = text::trim_start(t.skip(1));
            if u.len() > 0 && is_quote(u[0]) {
                0
            } else {
                s.len() - u.len()
            }
        } else {
            0
        }
    } else {
        0
    }
}

/// A backslash that takes the meaning from a quote, or from another backslash.
pub open spec fn is_escape(s: Seq<char>) -> bool {
    s.len() >= 2 && s[0] == '\\' && (is_quote(s[1]) || s[1] == '\\')
}

/// How many characters of `s` belong together, at its beginning: a string, an
/// escape, the beginning of a URL, or a single character. With `in_url`, `s`
/// begins in a `url(...)` without quotes, where no quote opens a string; the
/// second part says whether what follows does. Such a URL ends with its line.
pub open spec fn piece(s: Seq<char>, in_url: bool) -> (int, bool) {
    if !in_url && is_quote(s[0]) {
        (string_end(s, s[0], 1), false)
    } else if is_escape(s) {
        (2, in_url)
    } else if !in_url && url_head(s) > 0 {
        (url_head(s), true)
    } else {
        (1, in_url && s[0] != ')' && s[0] != '\n')
    }
}

/// A text that begins in a `url(...)` without quotes, or outside of it, without
/// its comments.
pub open spec fn stripped(css: Seq<char>, in_url: bool) -> Seq<char>
    decreases css.len(),
{
    if css.len() == 0 {
        css
    } else if text::starts_with(css, seq!['/', '*']) {
        let inside = css.skip(2);
        match text::find(inside, seq!['*', '/']) {
            Some(end) => {
                proof {
                    text::lemma_find_from(inside, seq!['*', '/'], 0);
                }
                stripped(inside.skip(end + 2), in_url)
            },
            None => Seq::empty(),
        }
    } else {
        let (n, in_url_then) = piece(css, in_url);
        proof {
            lemma_piece(css, in_url);
        }
        css.take(n) + stripped(css.skip(n), in_url_then)
    }
}

/// The text without its `/* ... */` comments. A comment that is not closed
/// takes the rest of the text along. In a string nothing opens a comment, and in
/// a comment nothing opens a string.
pub open spec fn without_comments(css: Seq<char>) -> Seq<char> {
    stripped(css, false)
}

/// A string ends within the text, and not before where it is looked for.
pub proof fn lemma_string_end(s: Seq<char>, quote: char, from: int)
    requires
        0 <= from,
    ensures
        string_end(s, quote, from) <= s.len(),
        from <= s.len() ==> from <= string_end(s, quote, from),
    decreases s.len() + 1 - from,
{
    if from < s.len() && s[from] != '\n' && s[from] != quote {
        if s[from] == '\\' {
            lemma_string_end(s, quote, from + 2);
        } else {
            lemma_string_end(s, quote, from + 1);
        }
    }
}

/// Some characters belong together, and no more than there are.
pub proof fn lemma_piece(s: Seq<char>, in_url: bool)
    requires
        s.len() > 0,
    ensures
        1 <= piece(s, in_url).0 <= s.len(),
{
    lemma_string_end(s, s[0], 1);
    lemma_url_head(s);
}

/// The beginning of a URL is within the text.
pub proof fn lemma_url_head(s: Seq<char>)
    ensures
        0 <= url_head(s) <= s.len(),
{
    if text::starts_with(s, "url"@) {
        reveal_strlit("url");
        let t = text::trim_start(s.skip(3));
        text::lemma_trim_start(s.skip(3));
        if t.len() > 0 {
            text::lemma_trim_start(t.skip(1));
        }
    }
}

/// Where a text ends that is in no string and no comment at its end.
pub struct Place {
    /// In a `url(...)` without quotes.
    pub in_url: bool,
    /// Behind a backslash that takes the meaning from a quote.
    pub escaping: bool,
}

/// This place.
pub open spec fn at(in_url: bool, escaping: bool) -> Option<Place> {
    Some(Place { in_url, escaping })
}

/// Where a text ends; nowhere in particular where a string or comment that begins
/// in it does not end in it.
pub open spec fn place_after(css: Seq<char>, in_url: bool) -> Option<Place>
    decreases css.len(),
{
    if css.len() == 0 {
        at(in_url, false)
    } else if text::starts_with(css, seq!['/', '*']) {
        let inside = css.skip(2);
        match text::find(inside, seq!['*', '/']) {
            Some(end) => {
                proof {
                    text::lemma_find_from(inside, seq!['*', '/'], 0);
                }
                place_after(inside.skip(end + 2), in_url)
            },
            None => None,
        }
    } else if css.len() == 1 && css[0] == '\\' {
        at(in_url, true)
    } else {
        let (n, in_url_then) = piece(css, in_url);
        proof {
            lemma_piece(css, in_url);
        }
        if !in_url && is_quote(css[0]) && n == css.len() && !is_closed(css, css[0], 1) {
            None
        } else {
            place_after(css.skip(n), in_url_then)
        }
    }
}

/// The text up to the next `quote`, and what follows it. A text with a line
/// end in it is not one that was meant to be quoted.
pub open spec fn quoted(s: Seq<char>, quote: char) -> Option<(Seq<char>, Seq<char>)> {
    match text::index_of(s, quote) {
        Some(end) => if s.take(end).contains('\n') {
            None
        } else {
            Some((s.take(end), s.skip(end + 1)))
        },
        None => None,
    }
}

/// `s` behind white space and, where it is there, a closing parenthesis.
pub open spec fn behind_parenthesis(s: Seq<char>) -> Seq<char> {
    let t = text::trim_start(s);
    if t.len() > 0 && t[0] == ')' {
        t.skip(1)
    } else {
        t
    }
}

/// What is inside the parentheses of `url(...)`, and what follows them.
pub open spec fn url_argument(s: Seq<char>) -> Option<(Seq<char>, Seq<char>)> {
    if s.len() > 0 && (s[0] == '"' || s[0] == '\'') {
        match quoted(s.skip(1), s[0]) {
            Some((path, after)) => Some((path, behind_parenthesis(after))),
            None => None,
        }
    } else {
        match text::index_of(s, ')') {
            Some(end) => Some((text::trim(s.take(end)), s.skip(end + 1))),
            None => None,
        }
    }
}

/// The path that an `@import` names, and what follows it. Recognized forms:
/// `"path"`, `'path'`, `url("path")`, `url('path')` and `url(path)`.
pub open spec fn import_path(s: Seq<char>) -> Option<(Seq<char>, Seq<char>)> {
    if s.len() > 0 && (s[0] == '"' || s[0] == '\'') {
        quoted(s.skip(1), s[0])
    } else if text::starts_with(s, "url"@) {
        let t = text::trim_start(s.skip(3));
        if t.len() > 0 && t[0] == '(' {
            url_argument(text::trim_start(t.skip(1)))
        } else {
            None
        }
    } else {
        None
    }
}

/// What follows is no longer than `s`.
pub proof fn lemma_import_path(s: Seq<char>)
    ensures
        import_path(s) matches Some((path, after)) ==> after.len() <= s.len() && after == s.skip(
            s.len() - after.len(),
        ),
{
    if s.len() > 0 && (s[0] == '"' || s[0] == '\'') {
        lemma_quoted(s.skip(1), s[0]);
        lemma_suffix_of_suffix(s, 1);
    } else if text::starts_with(s, "url"@) {
        reveal_strlit("url");
        let t0 = s.skip(3);
        let t = text::trim_start(t0);
        text::lemma_trim_start(t0);
        if t.len() > 0 && t[0] == '(' {
            let u0 = t.skip(1);
            let u = text::trim_start(u0);
            text::lemma_trim_start(u0);
            lemma_url_argument(u);
            if let Some((path, after)) = url_argument(u) {
                assert(u == s.skip(s.len() - u.len())) by {
                    assert(u == u0.skip(u0.len() - u.len()));
                    assert(t == t0.skip(t0.len() - t.len()));
                }
                assert(after == s.skip(s.len() - after.len()));
            }
        }
    }
}

proof fn lemma_suffix_of_suffix(s: Seq<char>, n: int)
    requires
        0 <= n <= s.len(),
    ensures
        forall|k: int| 0 <= k <= s.len() - n ==> #[trigger] s.skip(n).skip(k) == s.skip(n + k),
{
    assert forall|k: int| 0 <= k <= s.len() - n implies #[trigger] s.skip(n).skip(k) == s.skip(
        n + k,
    ) by {}
}

proof fn lemma_quoted(s: Seq<char>, quote: char)
    ensures
        quoted(s, quote) matches Some((path, after)) ==> after.len() < s.len() && after == s.skip(
            s.len() - after.len(),
        ),
{
    text::lemma_index_from(s, quote, 0);
}

proof fn lemma_url_argument(s: Seq<char>)
    ensures
        url_argument(s) matches Some((path, after)) ==> after.len() <= s.len() && after == s.skip(
            s.len() - after.len(),
        ),
{
    if s.len() > 0 && (s[0] == '"' || s[0] == '\'') {
        let inner = s.skip(1);
        lemma_quoted(inner, s[0]);
        if let Some((path, behind)) = quoted(inner, s[0]) {
            text::lemma_trim_start(behind);
            let after = behind_parenthesis(behind);
            let t = text::trim_start(behind);
            assert(behind == s.skip(s.len() - behind.len()));
            assert(t == s.skip(s.len() - t.len()));
            assert(after == s.skip(s.len() - after.len()));
        }
    } else {
        text::lemma_index_from(s, ')', 0);
    }
}

/// How many characters of `s` to pass over, at its beginning, in search of a
/// directive: a string that is closed, an escape, the beginning of a URL, or a
/// single character. See [`piece`].
pub open spec fn passed_over(s: Seq<char>, in_url: bool) -> (int, bool) {
    if !in_url && is_quote(s[0]) && !is_closed(s, s[0], 1) {
        (1, false)
    } else {
        piece(s, in_url)
    }
}

/// Where to look for the next directive, `argument` being what follows the last
/// one: behind a URL without quotes, which is no string to pass over.
pub open spec fn behind_argument(argument: Seq<char>) -> Seq<char> {
    match import_path(argument) {
        Some((path, after)) => if url_head(argument) > 0 {
            after
        } else {
            argument
        },
        None => argument,
    }
}

/// What a directive with this argument imports: nothing where the argument cannot
/// be read, or is an empty path.
pub open spec fn imported(argument: Seq<char>) -> Seq<Seq<char>> {
    match import_path(argument) {
        Some((path, after)) => if text::trim(path).len() > 0 {
            seq![path]
        } else {
            Seq::empty()
        },
        None => Seq::empty(),
    }
}

/// The paths that the `@import` directives name in a text without comments, which
/// begins in a `url(...)` without quotes, or outside of it.
pub open spec fn imports_from(s: Seq<char>, in_url: bool) -> Seq<Seq<char>>
    decreases s.len(),
{
    if s.len() == 0 {
        Seq::empty()
    } else if text::starts_with(s, "@import"@) {
        let argument = text::trim_start(s.skip(7));
        proof {
            reveal_strlit("@import");
            text::lemma_trim_start(s.skip(7));
            lemma_import_path(argument);
        }
        imported(argument) + imports_from(behind_argument(argument), false)
    } else {
        let (n, in_url_then) = passed_over(s, in_url);
        proof {
            lemma_piece(s, in_url);
        }
        imports_from(s.skip(n), in_url_then)
    }
}

/// The paths that the `@import` directives in a text without comments name, in
/// order. In a string there is no directive. A directive that cannot be read,
/// and an empty path, are passed over.
pub open spec fn imports_in(s: Seq<char>) -> Seq<Seq<char>> {
    imports_from(s, false)
}

/// The paths that a stylesheet imports.
pub open spec fn css_imports(css: Seq<char>) -> Seq<Seq<char>> {
    imports_in(without_comments(css))
}

/// The path is a URL that is not a file on disk, or not one given as a path.
pub open spec fn is_remote(s: Seq<char>) -> bool {
    ||| text::starts_with(s, "http://"@)
    ||| text::starts_with(s, "https://"@)
    ||| text::starts_with(s, "data:"@)
    ||| text::starts_with(s, "file://"@)
}

/// The file that an import in a stylesheet in `base_dir` names, if it names
/// one.
pub open spec fn import_target(raw: Seq<char>, base_dir: Seq<char>) -> Option<Seq<char>> {
    let trimmed = text::trim(raw);
    if trimmed.len() == 0 || is_remote(trimmed) {
        None
    } else {
        Some(path::join(base_dir, trimmed))
    }
}

fn comment_end() -> (r: Vec<char>)
    ensures
        r@ == seq!['*', '/'],
{
    let mut v: Vec<char> = Vec::new();
    v.push('*');
    v.push('/');
    assert(v@ == seq!['*', '/']);
    v
}

/// Where the string ends with which `s` begins, and whether it is closed.
fn find_string_end(s: &[char], quote: char) -> (r: (usize, bool))
    requires
        s@.len() > 0,
    ensures
        r.0 == string_end(s@, quote, 1),
        r.1 == is_closed(s@, quote, 1),
{
    let mut i: usize = 1;
    while i < s.len() && s[i] != '\n'
        invariant
            1 <= i <= s@.len(),
            string_end(s@, quote, 1) == string_end(s@, quote, i as int),
            is_closed(s@, quote, 1) == is_closed(s@, quote, i as int),
        decreases s@.len() - i,
    {
        if s[i] == quote {
            return (i + 1, true);
        }
        if s[i] == '\\' {
            if s.len() - i <= 2 {
                assert(string_end(s@, quote, i + 2) == s@.len());
                assert(!is_closed(s@, quote, i + 2));
                return (s.len(), false);
            }
            i += 2;
        } else {
            i += 1;
        }
    }
    (i, false)
}

fn find_url_head(s: &[char]) -> (r: usize)
    ensures
        r == url_head(s@),
{
    proof {
        reveal_strlit("url");
        lemma_url_head(s@);
    }
    if s.len() < 3 || s[0] != 'u' || s[1] != 'r' || s[2] != 'l' {
        assert(!text::starts_with(s@, "url"@)) by {
            if text::starts_with(s@, "url"@) {
                assert(s@.take(3)[0] == 'u' && s@.take(3)[1] == 'r' && s@.take(3)[2] == 'l');
            }
        }
        return 0;
    }
    assert(s@.take(3) == "url"@);
    let t = text::trimmed_start(text::skip(s, 3));
    if t.len() == 0 || t[0] != '(' {
        return 0;
    }
    let u = text::trimmed_start(text::skip(t, 1));
    if u.len() > 0 && (u[0] == '"' || u[0] == '\'') {
        return 0;
    }
    s.len() - u.len()
}

fn find_piece(s: &[char], in_url: bool) -> (r: (usize, bool))
    requires
        s@.len() > 0,
    ensures
        (r.0 as int, r.1) == piece(s@, in_url),
        1 <= r.0 <= s@.len(),
{
    proof {
        lemma_piece(s@, in_url);
    }
    if !in_url && (s[0] == '"' || s[0] == '\'') {
        return (find_string_end(s, s[0]).0, false);
    }
    if s.len() >= 2 && s[0] == '\\' && (s[1] == '"' || s[1] == '\'' || s[1] == '\\') {
        return (2, in_url);
    }
    if !in_url {
        let head = find_url_head(s);
        if head > 0 {
            return (head, true);
        }
    }
    (1, in_url && s[0] != ')' && s[0] != '\n')
}

fn find_passed_over(s: &[char], in_url: bool) -> (r: (usize, bool))
    requires
        s@.len() > 0,
    ensures
        (r.0 as int, r.1) == passed_over(s@, in_url),
        1 <= r.0 <= s@.len(),
{
    if !in_url && (s[0] == '"' || s[0] == '\'') && !find_string_end(s, s[0]).1 {
        return (1, false);
    }
    find_piece(s, in_url)
}

fn strip_comments(css: &[char]) -> (r: Vec<char>)
    ensures
        r@ == without_comments(css@),
{
    let close = comment_end();
    let mut out: Vec<char> = Vec::new();
    let mut rest = css;
    let mut in_url = false;
    while rest.len() > 0
        invariant
            close@ == seq!['*', '/'],
            out@ + stripped(rest@, in_url) == without_comments(css@),
        decreases rest@.len(),
    {
        let ghost before = out@;
        let ghost all = rest@;
        if rest.len() >= 2 && rest[0] == '/' && rest[1] == '*' {
            assert(text::starts_with(all, seq!['/', '*'])) by {
                assert(all.take(2) == seq!['/', '*']);
            }
            let inside = text::skip(rest, 2);
            match text::find_text(inside, close.as_slice()) {
                Some(end) => {
                    rest = text::skip(inside, end + 2);
                },
                None => {
                    assert(out@ == without_comments(css@));
                    return out;
                },
            }
        } else {
            assert(!text::starts_with(all, seq!['/', '*'])) by {
                if all.len() >= 2 && all.take(2) == seq!['/', '*'] {
                    assert(all.take(2)[0] == '/' && all.take(2)[1] == '*');
                }
            }
            let ghost in_url_here = in_url;
            let (n, in_url_then) = find_piece(rest, in_url);
            text::push_all(&mut out, text::take(rest, n));
            rest = text::skip(rest, n);
            in_url = in_url_then;
            assert(out@ + stripped(rest@, in_url) == before + stripped(all, in_url_here));
        }
    }
    assert(out@ == without_comments(css@));
    out
}

/// Removes `/* ... */` blocks from CSS source. Unterminated comments
/// consume the rest of the text (matches browser behavior). Leaves
/// everything else untouched, strings that happen to contain `/*`
/// included.
pub fn strip_css_comments(css: &str) -> (r: String)
    ensures
        r@ == without_comments(css@),
{
    let chars = text::chars_of(css);
    let kept = strip_comments(chars.as_slice());
    text::string_of(kept.as_slice())
}

/// `r` is the path and the rest that `found` is.
spec fn are_parts(r: Option<(&[char], &[char])>, found: Option<(Seq<char>, Seq<char>)>) -> bool {
    match (r, found) {
        (Some((path, after)), Some((p, a))) => path@ == p && after@ == a,
        (None, None) => true,
        _ => false,
    }
}

fn has_line_end(s: &[char]) -> (r: bool)
    ensures
        r == s@.contains('\n'),
{
    proof {
        text::lemma_index_from(s@, '\n', 0);
    }
    match text::find_char(s, '\n') {
        Some(k) => {
            assert(s@[k as int] == '\n');
            true
        },
        None => false,
    }
}

fn take_quoted<'a>(s: &'a [char], quote: char) -> (r: Option<(&'a [char], &'a [char])>)
    ensures
        are_parts(r, quoted(s@, quote)),
{
    match text::find_char(s, quote) {
        Some(end) => {
            let path = text::take(s, end);
            if has_line_end(path) {
                None
            } else {
                Some((path, text::skip(s, end + 1)))
            }
        },
        None => None,
    }
}

fn take_url_argument<'a>(s: &'a [char]) -> (r: Option<(&'a [char], &'a [char])>)
    ensures
        are_parts(r, url_argument(s@)),
{
    if s.len() > 0 && (s[0] == '"' || s[0] == '\'') {
        match take_quoted(text::skip(s, 1), s[0]) {
            Some((path, after)) => {
                let t = text::trimmed_start(after);
                if t.len() > 0 && t[0] == ')' {
                    Some((path, text::skip(t, 1)))
                } else {
                    Some((path, t))
                }
            },
            None => None,
        }
    } else {
        match text::find_char(s, ')') {
            Some(end) => Some((text::trimmed(text::take(s, end)), text::skip(s, end + 1))),
            None => None,
        }
    }
}

fn take_path<'a>(s: &'a [char]) -> (r: Option<(&'a [char], &'a [char])>)
    ensures
        are_parts(r, import_path(s@)),
{
    proof {
        reveal_strlit("url");
    }
    if s.len() > 0 && (s[0] == '"' || s[0] == '\'') {
        take_quoted(text::skip(s, 1), s[0])
    } else if text::begins_with(s, text::chars_of("url").as_slice()) {
        let t = text::trimmed_start(text::skip(s, 3));
        if t.len() > 0 && t[0] == '(' {
            take_url_argument(text::trimmed_start(text::skip(t, 1)))
        } else {
            None
        }
    } else {
        None
    }
}

/// Parses the path portion of an `@import` directive, returning the
/// extracted path and the text that follows it. Recognized forms:
///
///   `"path"` · `'path'` · `url("path")` · `url('path')` · `url(path)`
///
/// Returns `None` if the input doesn't start with a recognized form. A quoted
/// path with a line end in it is none: the closing quote was most likely
/// forgotten.
pub fn take_import_path(s: &str) -> (r: Option<(String, &str)>)
    ensures
        match (r, import_path(s@)) {
            (Some((path, after)), Some((p, a))) => path@ == p && after@ == a,
            (None, None) => true,
            _ => false,
        },
{
    let chars = text::chars_of(s);
    match take_path(chars.as_slice()) {
        Some((path, after)) => {
            proof {
                lemma_import_path(s@);
            }
            let n: usize = chars.len();
            let rest = s.substring_char(n - after.len(), n);
            Some((text::string_of(path), rest))
        },
        None => None,
    }
}

/// Extracts the raw path string from every `@import` directive in the
/// supplied CSS source. Strips `/* ... */` comments first so commented-
/// out imports don't count, and passes over strings. Malformed directives are
/// skipped.
pub fn parse_css_imports(css: &str) -> (r: Vec<String>)
    ensures
        text::strings(r@) == css_imports(css@),
{
    let chars = text::chars_of(css);
    let plain = strip_comments(chars.as_slice());
    let keyword = text::chars_of("@import");
    let mut out: Vec<String> = Vec::new();
    let mut rest = plain.as_slice();
    let mut in_url = false;
    assert(text::strings(out@) == Seq::<Seq<char>>::empty());
    proof {
        reveal_strlit("@import");
    }
    while rest.len() > 0
        invariant
            keyword@ == "@import"@,
            keyword@.len() == 7,
            text::strings(out@) + imports_from(rest@, in_url) == css_imports(css@),
        decreases rest@.len(),
    {
        if text::begins_with(rest, keyword.as_slice()) {
            // Behind the keyword, whether or not its argument can be read.
            let argument = text::trimmed_start(text::skip(rest, 7));
            proof {
                text::lemma_trim_start(rest@.skip(7));
                lemma_import_path(argument@);
            }
            let ghost all = rest@;
            let ghost before = text::strings(out@);
            rest = argument;
            if let Some((path, after)) = take_path(argument) {
                if text::trimmed(path).len() > 0 {
                    out.push(text::string_of(path));
                    assert(text::strings(out@) == before.push(path@));
                }
                if find_url_head(argument) > 0 {
                    rest = after;
                }
            }
            in_url = false;
            assert(text::strings(out@) == before + imported(argument@));
            assert(text::strings(out@) + imports_from(rest@, false) == before + (imported(argument@)
                + imports_from(behind_argument(argument@), false)));
        } else {
            let (n, in_url_then) = find_passed_over(rest, in_url);
            rest = text::skip(rest, n);
            in_url = in_url_then;
        }
    }
    assert(text::strings(out@) == css_imports(css@));
    out
}

/// URL schemes we intentionally don't try to treat as filesystem paths.
pub fn is_unwatchable_url(s: &str) -> (r: bool)
    ensures
        r == is_remote(s@),
{
    text::text_begins_with(s, "http://") || text::text_begins_with(s, "https://")
        || text::text_begins_with(s, "data:") || text::text_begins_with(s, "file://")
}

/// Converts a raw `@import` path string into a filesystem
/// path, relative paths resolved against `base_dir`. Returns `None`
/// for URLs we can't watch on the local filesystem (`http://`,
/// `https://`, `data:`, `file://`). Empty or whitespace-only input also returns
/// `None`.
pub fn resolve_import_path(raw: &str, base_dir: &str) -> (r: Option<String>)
    ensures
        match r {
            Some(file) => import_target(raw@, base_dir@) == Some(file@),
            None => import_target(raw@, base_dir@) is None,
        },
{
    let trimmed = text::trimmed_text(raw);
    if trimmed.as_str().is_empty() || is_unwatchable_url(trimmed.as_str()) {
        None
    } else {
        Some(path::join_path(base_dir, trimmed.as_str()))
    }
}

/// `rest` begins with a comment, a directive or a string, or with a slash that
/// makes no comment with what stands before it.
spec fn begins_apart(rest: Seq<char>) -> bool {
    rest.len() > 0 && (rest[0] == '/' || rest[0] == '@' || is_quote(rest[0]))
}

/// What stands behind a text in which every string and comment has its end is
/// read as if it stood alone.
#[verifier::spinoff_prover]
#[verifier::rlimit(50)]
proof fn lemma_read_alone(before: Seq<char>, in_url: bool, rest: Seq<char>)
    requires
        place_after(before, in_url) is Some,
        begins_apart(rest),
        is_quote(rest[0]) ==> place_after(before, in_url) == at(false, false),
    ensures
        stripped(before + rest, in_url) == stripped(before, in_url) + stripped(
            rest,
            place_after(before, in_url)->0.in_url,
        ),
    decreases before.len(),
{
    let open = seq!['/', '*'];
    let close = seq!['*', '/'];
    let whole = before + rest;
    if before.len() == 0 {
        assert(whole == rest);
        assert(stripped(before, in_url) + stripped(rest, in_url) == stripped(rest, in_url));
    } else if text::starts_with(before, open) {
        let inside = before.skip(2);
        text::lemma_find_from(inside, close, 0);
        let end = text::find(inside, close)->0;
        assert(whole.take(2) == before.take(2));
        assert(whole.skip(2) == inside + rest);
        text::lemma_find_in_front(inside, close, rest);
        lemma_read_alone(inside.skip(end + 2), in_url, rest);
        assert((inside + rest).skip(end + 2) == inside.skip(end + 2) + rest);
    } else {
        assert(!text::starts_with(whole, open)) by {
            if text::starts_with(whole, open) {
                assert(whole.take(2)[0] == '/' && whole.take(2)[1] == '*');
                assert(before.len() >= 2);
                assert(before.take(2) == open);
            }
        }
        lemma_piece(before, in_url);
        let (n, in_url_then) = piece(before, in_url);
        reveal_strlit("url");
        lemma_url_head(before);
        if !in_url && url_head(before) == before.len() {
            assert(before.take(3)[0] == 'u');
            assert(place_after(before.skip(n), true) == at(true, false));
        }
        if before.len() == 1 {
            assert(before == seq![before[0]]);
        }
        lemma_same_piece(before, in_url, rest);
        assert(whole.skip(n) == before.skip(n) + rest);
        assert(whole.take(n) == before.take(n));
        if before.len() == 1 && before[0] == '\\' {
            assert(before.skip(1) == Seq::<char>::empty());
            assert(n == 1 && in_url_then == in_url);
            assert(whole.skip(1) == rest);
            assert(stripped(before.skip(1), in_url) == Seq::<char>::empty());
        } else {
            lemma_read_alone(before.skip(n), in_url_then, rest);
        }
        assert(stripped(whole, in_url) == stripped(before, in_url) + stripped(
            rest,
            place_after(before, in_url)->0.in_url,
        ));
    }
}

proof fn lemma_same_piece(before: Seq<char>, in_url: bool, rest: Seq<char>)
    requires
        before.len() > 0,
        in_url || !is_quote(before[0]) || is_closed(before, before[0], 1) || string_end(
            before,
            before[0],
            1,
        ) < before.len(),
        begins_apart(rest),
        is_quote(rest[0]) ==> before != seq!['\\'] && (in_url || url_head(before)
            < before.len()),
    ensures
        piece(before + rest, in_url) == piece(before, in_url),
        passed_over(before + rest, in_url) == passed_over(before, in_url),
{
    let whole = before + rest;
    assert(whole[0] == before[0]);
    if !in_url && is_quote(before[0]) {
        lemma_string_end(before, before[0], 1);
        lemma_string_end_stays(before, before[0], 1, rest);
    } else {
        if before.len() >= 2 {
            assert(whole[1] == before[1]);
        } else {
            assert(whole[1] == rest[0]);
            assert(before == seq![before[0]]);
        }
        assert(is_escape(whole) == is_escape(before));
        if !in_url {
            lemma_url_head_stays(before, rest);
        }
    }
}

proof fn lemma_url_head_stays(before: Seq<char>, rest: Seq<char>)
    requires
        before.len() > 0,
        begins_apart(rest),
        is_quote(rest[0]) ==> url_head(before) < before.len(),
    ensures
        url_head(before + rest) == url_head(before),
{
    let whole = before + rest;
    reveal_strlit("url");
    assert(!text::is_white_space(rest[0]));
    assert(text::trim_start(rest) == rest);
    if text::starts_with(before, "url"@) {
        assert(whole.take(3) == before.take(3));
        let t0 = before.skip(3);
        let t = text::trim_start(t0);
        text::lemma_trim_start(t0);
        assert(whole.skip(3) == t0 + rest);
        text::lemma_trim_start_of_both(t0, rest);
        if t.len() > 0 && t[0] == '(' {
            let u0 = t.skip(1);
            text::lemma_trim_start(u0);
            assert((t + rest).skip(1) == u0 + rest);
            text::lemma_trim_start_of_both(u0, rest);
        }
    } else if text::starts_with(whole, "url"@) {
        assert(whole.take(3)[0] == 'u' && whole.take(3)[1] == 'r' && whole.take(3)[2] == 'l');
        if before.len() >= 3 {
            assert(before.take(3) == whole.take(3));
        }
    }
}

proof fn lemma_string_end_stays(s: Seq<char>, quote: char, from: int, more: Seq<char>)
    requires
        1 <= from,
        string_end(s, quote, from) < s.len() || is_closed(s, quote, from),
    ensures
        string_end(s + more, quote, from) == string_end(s, quote, from),
        is_closed(s + more, quote, from) == is_closed(s, quote, from),
    decreases s.len() + 1 - from,
{
    if from < s.len() && s[from] != '\n' && s[from] != quote {
        if s[from] == '\\' {
            lemma_string_end_stays(s, quote, from + 2, more);
        } else {
            lemma_string_end_stays(s, quote, from + 1, more);
        }
    }
}

/// What is in a comment has no influence: neither its text, nor an import in
/// it.
pub proof fn comments_are_ignored(before: Seq<char>, comment: Seq<char>, after: Seq<char>)
    requires
        place_after(before, false) is Some,
        text::find(comment, seq!['*', '/']) is None,
    ensures
        without_comments(before + seq!['/', '*'] + comment + seq!['*', '/'] + after)
            == without_comments(before) + stripped(after, place_after(before, false)->0.in_url),
{
    let close = seq!['*', '/'];
    let inside = comment + close + after;
    let rest = seq!['/', '*'] + inside;
    assert(before + seq!['/', '*'] + comment + close + after == before + rest);
    lemma_read_alone(before, false, rest);
    assert(rest.take(2) == seq!['/', '*']);
    assert(rest.skip(2) == inside);
    text::lemma_find_behind(comment, close, after);
    assert(inside.skip(comment.len() as int + 2) == after);
}

/// `s` is a string from its opening quote to the closing one.
pub open spec fn is_string(s: Seq<char>) -> bool {
    s.len() > 0 && is_quote(s[0]) && is_closed(s, s[0], 1) && string_end(s, s[0], 1) == s.len()
}

/// A string is left as it is, comment marks in it included.
pub proof fn strings_are_kept(before: Seq<char>, string: Seq<char>, after: Seq<char>)
    requires
        place_after(before, false) == at(false, false),
        is_string(string),
    ensures
        without_comments(before + string + after) == without_comments(before) + string
            + without_comments(after),
{
    let rest = string + after;
    assert(before + string + after == before + rest);
    lemma_read_alone(before, false, rest);
    lemma_string_end_stays(string, string[0], 1, after);
    assert(rest.take(string.len() as int) == string);
    assert(rest.skip(string.len() as int) == after);
    assert(!text::starts_with(rest, seq!['/', '*'])) by {
        if text::starts_with(rest, seq!['/', '*']) {
            assert(rest.take(2)[0] == '/');
        }
    }
    assert(without_comments(rest) == string + without_comments(after));
    assert(without_comments(before) + string + without_comments(after) == without_comments(before)
        + (string + without_comments(after)));
}

/// A text without quotes, backslashes and line ends in it is a string between
/// quotes.
pub proof fn quoted_text_is_a_string(quote: char, inside: Seq<char>)
    requires
        is_quote(quote),
        forall|i: int|
            0 <= i < inside.len() ==> #[trigger] inside[i] != quote && inside[i] != '\n' && inside[i]
                != '\\',
    ensures
        is_string(seq![quote] + inside + seq![quote]),
{
    let s = seq![quote] + inside + seq![quote];
    assert forall|i: int| 1 <= i <= inside.len() implies #[trigger] s[i] != quote && s[i] != '\n'
        && s[i] != '\\' by {
        assert(s[i] == inside[i - 1]);
    }
    lemma_end_of_string(s, quote, 1, inside.len() as int + 1);
}

proof fn lemma_end_of_string(s: Seq<char>, quote: char, from: int, at: int)
    requires
        0 <= from <= at < s.len(),
        s[at] == quote,
        quote != '\n',
        forall|i: int| from <= i < at ==> s[i] != quote && s[i] != '\n' && s[i] != '\\',
    ensures
        string_end(s, quote, from) == at + 1,
        is_closed(s, quote, from),
    decreases at - from,
{
    if from < at {
        lemma_end_of_string(s, quote, from + 1, at);
    }
}

/// Where nothing opens a comment, nothing is removed.
pub proof fn text_without_comments_is_kept(css: Seq<char>)
    requires
        text::find(css, seq!['/', '*']) is None,
    ensures
        without_comments(css) == css,
{
    lemma_nothing_removed(css, false);
}

proof fn lemma_nothing_removed(css: Seq<char>, in_url: bool)
    requires
        text::find(css, seq!['/', '*']) is None,
    ensures
        stripped(css, in_url) == css,
    decreases css.len(),
{
    let open = seq!['/', '*'];
    if css.len() > 0 {
        assert(!text::starts_with(css, open)) by {
            if text::starts_with(css, open) {
                text::lemma_find_none(css, open, 0, 0);
                assert(css.subrange(0, 2) == css.take(2));
            }
        }
        lemma_piece(css, in_url);
        let (n, in_url_then) = piece(css, in_url);
        text::lemma_find_none_behind(css, open, n);
        lemma_nothing_removed(css.skip(n), in_url_then);
        assert(css.take(n) + css.skip(n) == css);
    }
}

/// An absolute path is taken as it is, and a relative one is seen from the
/// directory of the stylesheet. No URL is taken for a file.
pub proof fn imports_are_relative_to_the_stylesheet(raw: Seq<char>, base_dir: Seq<char>)
    requires
        text::trim(raw).len() > 0,
    ensures
        is_remote(text::trim(raw)) ==> import_target(raw, base_dir) is None,
        path::is_absolute(text::trim(raw)) ==> import_target(raw, base_dir) == Some(
            text::trim(raw),
        ),
        !is_remote(text::trim(raw)) && !path::is_absolute(text::trim(raw)) ==> import_target(
            raw,
            base_dir,
        ) == Some(path::join(base_dir, text::trim(raw))),
{
    let s = text::trim(raw);
    reveal_strlit("http://");
    reveal_strlit("https://");
    reveal_strlit("data:");
    reveal_strlit("file://");
    if path::is_absolute(s) && is_remote(s) {
        assert(s.take(7)[0] == '/' || s.take(8)[0] == '/' || s.take(5)[0] == '/');
        assert(false);
    }
}

/// A comment that is not closed takes the rest of the text along, and nothing
/// before it.
pub proof fn unclosed_comment_takes_the_rest(before: Seq<char>, rest: Seq<char>)
    requires
        place_after(before, false) is Some,
        text::find(rest, seq!['*', '/']) is None,
    ensures
        without_comments(before + seq!['/', '*'] + rest) == without_comments(before),
{
    let comment = seq!['/', '*'] + rest;
    assert(before + seq!['/', '*'] + rest == before + comment);
    lemma_read_alone(before, false, comment);
    assert(comment.take(2) == seq!['/', '*']);
    assert(comment.skip(2) == rest);
    assert(without_comments(before) + Seq::<char>::empty() == without_comments(before));
}

/// Where the search for directives is behind a text without one; nowhere in
/// particular where a quote in it waits for one behind it.
pub open spec fn looked_up_to(s: Seq<char>, in_url: bool) -> Option<Place>
    decreases s.len(),
{
    if s.len() == 0 {
        at(in_url, false)
    } else if s.len() == 1 && s[0] == '\\' {
        at(in_url, true)
    } else if !in_url && is_quote(s[0]) && !is_closed(s, s[0], 1) && string_end(s, s[0], 1)
        == s.len() {
        None
    } else {
        let (n, in_url_then) = passed_over(s, in_url);
        proof {
            lemma_piece(s, in_url);
        }
        looked_up_to(s.skip(n), in_url_then)
    }
}

proof fn lemma_look_behind(before: Seq<char>, in_url: bool, rest: Seq<char>)
    requires
        text::find(before, "@import"@) is None,
        looked_up_to(before, in_url) is Some,
        begins_apart(rest),
        is_quote(rest[0]) ==> looked_up_to(before, in_url) == at(false, false),
    ensures
        imports_from(before + rest, in_url) == imports_from(
            rest,
            looked_up_to(before, in_url)->0.in_url,
        ),
    decreases before.len(),
{
    let whole = before + rest;
    reveal_strlit("@import");
    if before.len() == 0 {
        assert(whole == rest);
    } else {
        assert(!text::starts_with(whole, "@import"@)) by {
            if text::starts_with(whole, "@import"@) {
                if before.len() >= 7 {
                    text::lemma_find_none(before, "@import"@, 0, 0);
                    assert(before.subrange(0, 7) == whole.take(7));
                } else {
                    assert(whole.take(7)[before.len() as int] == rest[0]);
                }
            }
        }
        lemma_piece(before, in_url);
        lemma_string_end(before, before[0], 1);
        let (n, in_url_then) = passed_over(before, in_url);
        reveal_strlit("url");
        lemma_url_head(before);
        if !in_url && url_head(before) == before.len() {
            assert(before.take(3)[0] == 'u');
            assert(looked_up_to(before.skip(n), true) == at(true, false));
        }
        if before.len() == 1 {
            assert(before == seq![before[0]]);
        }
        lemma_same_piece(before, in_url, rest);
        assert(whole.skip(n) == before.skip(n) + rest);
        text::lemma_find_none_behind(before, "@import"@, n);
        if before.len() == 1 && before[0] == '\\' {
            assert(whole.skip(1) == rest);
        } else {
            lemma_look_behind(before.skip(n), in_url_then, rest);
        }
    }
}

/// A directive that cannot be read does not keep later ones from being found.
pub proof fn broken_import_is_passed_over(before: Seq<char>, argument: Seq<char>)
    requires
        text::find(before, "@import"@) is None,
        looked_up_to(before, false) is Some,
        import_path(text::trim_start(argument)) is None,
    ensures
        imports_in(before + "@import"@ + argument) == imports_in(text::trim_start(argument)),
{
    let directive = "@import"@ + argument;
    reveal_strlit("@import");
    assert(before + "@import"@ + argument == before + directive);
    assert(directive.take(7) == "@import"@);
    assert(directive.skip(7) == argument);
    lemma_look_behind(before, false, directive);
    assert(imports_in(directive) == imports_in(text::trim_start(argument)));
}

/// The first `@import` of a quoted path is found, and what follows it is looked
/// at in turn.
pub proof fn quoted_import_is_found(before: Seq<char>, path: Seq<char>, after: Seq<char>)
    requires
        text::find(before, "@import"@) is None,
        looked_up_to(before, false) is Some,
        is_string(seq!['"'] + path + seq!['"']),
        !path.contains('"'),
        !path.contains('\n'),
        text::trim(path).len() > 0,
    ensures
        imports_in(before + "@import"@ + seq![' ', '"'] + path + seq!['"'] + after) == seq![path]
            + imports_in(after),
{
    let string = seq!['"'] + path + seq!['"'];
    let argument = string + after;
    let directive = "@import"@ + (seq![' '] + argument);
    assert(before + "@import"@ + seq![' ', '"'] + path + seq!['"'] + after == before + directive);
    reveal_strlit("@import");
    assert(directive.take(7) == "@import"@);
    assert(directive.skip(7) == seq![' '] + argument);
    lemma_look_behind(before, false, directive);
    assert(text::trim_start(seq![' '] + argument) == argument) by {
        assert((seq![' '] + argument).skip(1) == argument);
        assert(text::trim_start(argument) == argument);
    }
    let quoted_text = argument.skip(1);
    assert(quoted_text == path + seq!['"'] + after);
    text::lemma_index_from(quoted_text, '"', 0);
    assert(quoted_text[path.len() as int] == '"');
    assert forall|i: int| 0 <= i < path.len() implies quoted_text[i] != '"' by {
        assert(path.contains(path[i]));
    }
    assert(text::index_of(quoted_text, '"') == Some(path.len() as int));
    assert(quoted_text.take(path.len() as int) == path);
    assert(quoted_text.skip(path.len() as int + 1) == after);
    assert(import_path(argument) == Some((path, after)));
    reveal_strlit("url");
    assert(url_head(argument) == 0) by {
        if text::starts_with(argument, "url"@) {
            assert(argument.take(3)[0] == 'u');
        }
    }
    lemma_string_pass(string, after);
}

/// A string is passed over as a whole: a directive in it is none.
pub proof fn imports_in_strings_do_not_count(
    before: Seq<char>,
    string: Seq<char>,
    after: Seq<char>,
)
    requires
        text::find(before, "@import"@) is None,
        looked_up_to(before, false) == at(false, false),
        is_string(string),
    ensures
        imports_in(before + string + after) == imports_in(after),
{
    let rest = string + after;
    assert(before + string + after == before + rest);
    lemma_look_behind(before, false, rest);
    lemma_string_pass(string, after);
}

proof fn lemma_string_pass(string: Seq<char>, after: Seq<char>)
    requires
        is_string(string),
    ensures
        imports_in(string + after) == imports_in(after),
{
    let rest = string + after;
    reveal_strlit("@import");
    assert(rest[0] == string[0]);
    assert(!text::starts_with(rest, "@import"@)) by {
        if text::starts_with(rest, "@import"@) {
            assert(rest.take(7)[0] == '@');
        }
    }
    lemma_string_end_stays(string, string[0], 1, after);
    assert(rest.skip(string.len() as int) == after);
}

/// The first `@import` of a quoted path in a stylesheet is found, with the path as
/// it is written, comment marks in it included.
pub proof fn quoted_import_is_taken_as_written(
    before: Seq<char>,
    path: Seq<char>,
    after: Seq<char>,
)
    requires
        place_after(before, false) is Some,
        !place_after(before, false)->0.in_url,
        text::find(without_comments(before), "@import"@) is None,
        looked_up_to(without_comments(before), false) is Some,
        is_string(seq!['"'] + path + seq!['"']),
        !path.contains('"'),
        !path.contains('\n'),
        text::trim(path).len() > 0,
    ensures
        css_imports(before + "@import"@ + seq![' ', '"'] + path + seq!['"'] + after) == seq![path]
            + css_imports(after),
{
    let keyword = "@import"@ + seq![' '];
    let string = seq!['"'] + path + seq!['"'];
    let rest = string + after;
    let directive = keyword + rest;
    assert(before + "@import"@ + seq![' ', '"'] + path + seq!['"'] + after == before + directive);
    reveal_strlit("@import");
    assert(keyword == seq!['@', 'i', 'm', 'p', 'o', 'r', 't', ' ']);
    lemma_read_alone(before, false, directive);
    lemma_plain_text(keyword);
    lemma_read_alone(keyword, false, rest);
    assert(without_comments(keyword) == keyword) by {
        text::lemma_find_from(keyword, seq!['/', '*'], 0);
        if let Some(k) = text::find(keyword, seq!['/', '*']) {
            assert(keyword.subrange(k, k + 2)[0] == '/');
        }
        text_without_comments_is_kept(keyword);
    }
    let none = Seq::<char>::empty();
    strings_are_kept(none, string, after);
    assert(none + string + after == rest);
    assert(without_comments(none) == none);
    let kept = without_comments(before);
    assert(none + string + without_comments(after) == string + without_comments(after));
    assert(kept + (keyword + (string + without_comments(after))) == kept + "@import"@ + seq![
        ' ',
        '"',
    ] + path + seq!['"'] + without_comments(after));
    quoted_import_is_found(kept, path, without_comments(after));
}

proof fn lemma_plain_text(s: Seq<char>)
    requires
        forall|i: int|
            0 <= i < s.len() ==> #[trigger] s[i] != '/' && !is_quote(s[i]) && s[i] != '\\' && s[i]
                != 'u',
    ensures
        place_after(s, false) == at(false, false),
    decreases s.len(),
{
    if s.len() > 0 {
        if text::starts_with(s, seq!['/', '*']) {
            assert(s.take(2)[0] == '/');
        }
        reveal_strlit("url");
        if text::starts_with(s, "url"@) {
            assert(s.take(3)[0] == 'u');
        }
        lemma_plain_text(s.skip(1));
    }
}

/// Ordinary text, up to the end of a declaration or a directive: nothing in it opens
/// a comment, a string or a URL, escapes a character, or begins a directive.
pub open spec fn is_ordinary(s: Seq<char>) -> bool {
    &&& s.len() > 0 ==> s.last() == ';'
    &&& forall|i: int|
        0 <= i < s.len() ==> #[trigger] s[i] != '/' && s[i] != '"' && s[i] != '\'' && s[i] != '\\'
            && s[i] != '@' && s[i] != '('
}

proof fn lemma_no_url_in_front(before: Seq<char>, rest: Seq<char>)
    requires
        is_ordinary(before),
        before.len() > 0,
    ensures
        url_head(before + rest) == 0,
{
    let whole = before + rest;
    reveal_strlit("url");
    if text::starts_with(whole, "url"@) {
        assert(whole.take(3)[0] == 'u' && whole.take(3)[1] == 'r' && whole.take(3)[2] == 'l');
        let last = before.len() - 1;
        assert(whole[last] == ';');
        assert(before.len() > 3);
        let a = before.skip(3);
        assert(whole.skip(3) == a + rest);
        text::lemma_trim_start_of_both(a, rest);
        text::lemma_trim_start(a);
        text::lemma_dropped_at_the_start(a);
        let t = text::trim_start(a);
        assert(t.len() > 0) by {
            if t.len() == 0 {
                let dropped = a.take(a.len() - t.len());
                assert(dropped[a.len() - 1] == ';');
            }
        }
        let k = before.len() - t.len();
        assert(t[0] == before[k]);
        assert((t + rest)[0] == t[0]);
    }
}

proof fn lemma_ordinary_front(before: Seq<char>, rest: Seq<char>)
    requires
        is_ordinary(before),
    ensures
        stripped(before + rest, false) == before + stripped(rest, false),
        imports_from(before + rest, false) == imports_from(rest, false),
    decreases before.len(),
{
    let whole = before + rest;
    if before.len() == 0 {
        assert(whole == rest);
        assert(before + stripped(rest, false) == stripped(rest, false));
    } else {
        assert(whole[0] == before[0]);
        lemma_no_url_in_front(before, rest);
        assert(!text::starts_with(whole, seq!['/', '*'])) by {
            if text::starts_with(whole, seq!['/', '*']) {
                assert(whole.take(2)[0] == '/');
            }
        }
        reveal_strlit("@import");
        assert(!text::starts_with(whole, "@import"@)) by {
            if text::starts_with(whole, "@import"@) {
                assert(whole.take(7)[0] == '@');
            }
        }
        assert(whole.skip(1) == before.skip(1) + rest);
        let next = before.skip(1);
        assert(is_ordinary(next)) by {
            assert forall|i: int| 0 <= i < next.len() implies #[trigger] next[i] != '/' && next[i]
                != '"' && next[i] != '\'' && next[i] != '\\' && next[i] != '@' && next[i] != '(' by {
                assert(next[i] == before[i + 1]);
            }
        }
        lemma_ordinary_front(next, rest);
        assert(whole.take(1) == seq![before[0]]);
        assert(seq![before[0]] + (next + stripped(rest, false)) == before + stripped(
            rest,
            false,
        ));
    }
}

/// Letters that are read one by one where they do not begin a URL or a directive.
spec fn are_letters(s: Seq<char>) -> bool {
    forall|i: int|
        0 <= i < s.len() ==> #[trigger] s[i] != '/' && !is_quote(s[i]) && s[i] != '\\' && s[i] != 'u'
}

proof fn lemma_letters(k: Seq<char>, rest: Seq<char>)
    requires
        are_letters(k),
    ensures
        stripped(k + rest, false) == k + stripped(rest, false),
        !k.contains('@') ==> imports_from(k + rest, false) == imports_from(rest, false),
    decreases k.len(),
{
    let whole = k + rest;
    if k.len() == 0 {
        assert(whole == rest);
        assert(k + stripped(rest, false) == stripped(rest, false));
    } else {
        assert(whole[0] == k[0]);
        lemma_single(whole);
        assert(whole.skip(1) == k.skip(1) + rest);
        let next = k.skip(1);
        assert forall|i: int| 0 <= i < next.len() implies #[trigger] next[i] != '/' && !is_quote(
            next[i],
        ) && next[i] != '\\' && next[i] != 'u' by {
            assert(next[i] == k[i + 1]);
        }
        lemma_letters(next, rest);
        assert(whole.take(1) == seq![k[0]]);
        assert(seq![k[0]] + (next + stripped(rest, false)) == k + stripped(rest, false));
        if !k.contains('@') {
            assert(k.contains(k[0]));
            assert(!next.contains('@')) by {
                if next.contains('@') {
                    let i = choose|i: int| 0 <= i < next.len() && next[i] == '@';
                    assert(k[i + 1] == '@');
                }
            }
        }
    }
}

proof fn lemma_single(whole: Seq<char>)
    requires
        whole.len() > 0,
        whole[0] != '/' && !is_quote(whole[0]) && whole[0] != '\\',
        whole[0] != 'u' || url_head(whole) == 0,
    ensures
        stripped(whole, false) == whole.take(1) + stripped(whole.skip(1), false),
        whole[0] != '@' ==> imports_from(whole, false) == imports_from(whole.skip(1), false),
{
    assert(!text::starts_with(whole, seq!['/', '*'])) by {
        if text::starts_with(whole, seq!['/', '*']) {
            assert(whole.take(2)[0] == '/');
        }
    }
    reveal_strlit("url");
    reveal_strlit("@import");
    if text::starts_with(whole, "url"@) {
        assert(whole.take(3)[0] == 'u');
    }
    if text::starts_with(whole, "@import"@) {
        assert(whole.take(7)[0] == '@');
    }
}

/// Ordinary text is kept as it is, imports nothing, and has no influence on what
/// follows it.
pub proof fn ordinary_text_imports_nothing(before: Seq<char>, rest: Seq<char>)
    requires
        is_ordinary(before),
    ensures
        without_comments(before + rest) == before + without_comments(rest),
        css_imports(before + rest) == css_imports(rest),
        without_comments(before) == before,
        css_imports(before).len() == 0,
{
    lemma_ordinary_front(before, rest);
    lemma_ordinary_front(before, without_comments(rest));
    let none = Seq::<char>::empty();
    lemma_ordinary_front(before, none);
    assert(before + none == before);
    assert(stripped(none, false) == none);
}

/// A comment at the start is taken out, and a string is kept but imports nothing.
/// What follows is read as if it stood alone.
pub proof fn comments_and_strings_import_nothing(
    comment: Seq<char>,
    quote: char,
    inside: Seq<char>,
    rest: Seq<char>,
)
    requires
        text::find(comment, seq!['*', '/']) is None,
        quote == '"' || quote == '\'',
        forall|i: int|
            0 <= i < inside.len() ==> #[trigger] inside[i] != quote && inside[i] != '\n' && inside[i]
                != '\\',
    ensures
        without_comments(seq!['/', '*'] + comment + seq!['*', '/'] + rest) == without_comments(
            rest,
        ),
        css_imports(seq!['/', '*'] + comment + seq!['*', '/'] + rest) == css_imports(rest),
        css_imports(seq!['/', '*'] + comment).len() == 0,
        without_comments(seq![quote] + inside + seq![quote] + rest) == seq![quote] + inside
            + seq![quote] + without_comments(rest),
        css_imports(seq![quote] + inside + seq![quote] + rest) == css_imports(rest),
{
    let none = Seq::<char>::empty();
    comments_are_ignored(none, comment, rest);
    assert(none + seq!['/', '*'] + comment + seq!['*', '/'] + rest == seq!['/', '*'] + comment
        + seq!['*', '/'] + rest);
    assert(without_comments(none) + stripped(rest, false) == without_comments(rest));
    unclosed_comment_takes_the_rest(none, comment);
    assert(none + seq!['/', '*'] + comment == seq!['/', '*'] + comment);
    quoted_text_is_a_string(quote, inside);
    let string = seq![quote] + inside + seq![quote];
    strings_are_kept(none, string, rest);
    assert(none + string + rest == string + rest);
    assert(none + string + without_comments(rest) == string + without_comments(rest));
    lemma_string_pass(string, without_comments(rest));
}

/// A backslash in a string takes the meaning from the character behind it, a quote
/// among others: the string goes on.
pub proof fn escaped_quotes_do_not_end_a_string(
    quote: char,
    a: Seq<char>,
    c: char,
    b: Seq<char>,
)
    requires
        quote == '"' || quote == '\'',
        forall|i: int|
            0 <= i < a.len() ==> #[trigger] a[i] != quote && a[i] != '\n' && a[i] != '\\',
        forall|i: int|
            0 <= i < b.len() ==> #[trigger] b[i] != quote && b[i] != '\n' && b[i] != '\\',
    ensures
        is_string(seq![quote] + a + seq!['\\', c] + b + seq![quote]),
{
    let s = seq![quote] + a + seq!['\\', c] + b + seq![quote];
    let n = a.len() as int;
    assert forall|i: int| 1 <= i <= n implies #[trigger] s[i] != quote && s[i] != '\n' && s[i]
        != '\\' by {
        assert(s[i] == a[i - 1]);
    }
    assert(s[n + 1] == '\\');
    let last = s.len() - 1;
    assert forall|i: int| n + 3 <= i < last implies #[trigger] s[i] != quote && s[i] != '\n'
        && s[i] != '\\' by {
        assert(s[i] == b[i - n - 3]);
    }
    assert(s[last] == quote);
    lemma_end_of_string(s, quote, n + 3, last);
    lemma_up_to_escape(s, quote, 1, n + 1);
}

proof fn lemma_up_to_escape(s: Seq<char>, quote: char, from: int, at: int)
    requires
        1 <= from <= at < s.len(),
        s[at] == '\\',
        quote != '\\',
        forall|i: int| from <= i < at ==> s[i] != quote && s[i] != '\n' && s[i] != '\\',
    ensures
        string_end(s, quote, from) == string_end(s, quote, at + 2),
        is_closed(s, quote, from) == is_closed(s, quote, at + 2),
    decreases at - from,
{
    if from < at {
        lemma_up_to_escape(s, quote, from + 1, at);
    }
}

/// A text between quotes is a path up to the closing one, unless a line ends in it.
pub proof fn quoted_path_ends_at_its_quote(
    s: &str,
    quote: char,
    path: Seq<char>,
    after: Seq<char>,
    r: Option<(String, &str)>,
)
    requires
        call_ensures(take_import_path, (s,), r),
        quote == '"' || quote == '\'',
        !path.contains(quote),
        s@ == seq![quote] + path + seq![quote] + after,
    ensures
        r is Some <==> !path.contains('\n'),
        r matches Some((found, rest)) ==> found@ == path && rest@ == after,
{
    lemma_quoted_text(quote, path, after);
    assert(s@.skip(1) == path + seq![quote] + after);
}

proof fn lemma_quoted_text(quote: char, path: Seq<char>, after: Seq<char>)
    requires
        !path.contains(quote),
    ensures
        quoted(path + seq![quote] + after, quote) == (if path.contains('\n') {
            None::<(Seq<char>, Seq<char>)>
        } else {
            Some((path, after))
        }),
{
    let s = path + seq![quote] + after;
    text::lemma_index_from(s, quote, 0);
    assert(s[path.len() as int] == quote);
    let k = text::index_of(s, quote)->0;
    if k < path.len() {
        assert(s[k] == path[k]);
        assert(path.contains(path[k]));
    }
    assert(s.take(k) == path);
    assert(s.skip(k + 1) == after);
}

/// The path of a URL stands between its parentheses: with quotes up to the closing
/// one, and without them all of it, trimmed. White space before the parenthesis, and
/// inside of it, makes no difference.
pub proof fn url_path_stands_in_parentheses(
    with_quotes: &str,
    plain: &str,
    first: Seq<char>,
    second: Seq<char>,
    third: Seq<char>,
    quote: char,
    path: Seq<char>,
    argument: Seq<char>,
    after: Seq<char>,
    r: Option<(String, &str)>,
    plain_r: Option<(String, &str)>,
)
    requires
        call_ensures(take_import_path, (with_quotes,), r),
        call_ensures(take_import_path, (plain,), plain_r),
        text::all_white(first),
        text::all_white(second),
        text::all_white(third),
        quote == '"' || quote == '\'',
        !path.contains(quote),
        !path.contains('\n'),
        argument.len() > 0,
        !is_quote(argument[0]),
        !text::is_white_space(argument[0]),
        !argument.contains(')'),
        with_quotes@ == "url"@ + first + seq!['('] + second + (seq![quote] + path + seq![quote])
            + third + seq![')'] + after,
        plain@ == "url"@ + first + seq!['('] + second + argument + seq![')'] + after,
    ensures
        r matches Some((found, rest)) && found@ == path && rest@ == after,
        plain_r matches Some((found, rest)) && found@ == text::trim(argument) && rest@ == after,
{
    let string = seq![quote] + path + seq![quote];
    let tail = string + third + seq![')'] + after;
    let plain_tail = argument + seq![')'] + after;
    lemma_url_opens(first, second, tail);
    lemma_url_opens(first, second, plain_tail);
    assert(with_quotes@ == "url"@ + first + seq!['('] + second + tail);
    assert(plain@ == "url"@ + first + seq!['('] + second + plain_tail);
    let closing = third + seq![')'] + after;
    assert(tail.skip(1) == path + seq![quote] + closing);
    lemma_quoted_text(quote, path, closing);
    assert(closing == third + (seq![')'] + after));
    text::lemma_trim_start_of_white(third, seq![')'] + after);
    assert((seq![')'] + after)[0] == ')');
    assert(text::trim_start(seq![')'] + after) == seq![')'] + after);
    assert((seq![')'] + after).skip(1) == after);
    text::lemma_index_from(plain_tail, ')', 0);
    assert(plain_tail[argument.len() as int] == ')');
    let k = text::index_of(plain_tail, ')')->0;
    if k < argument.len() {
        assert(plain_tail[k] == argument[k]);
        assert(argument.contains(argument[k]));
    }
    assert(plain_tail.take(k) == argument);
    assert(plain_tail.skip(k + 1) == after);
    assert(plain_tail[0] == argument[0]);
}

proof fn lemma_url_opens(first: Seq<char>, second: Seq<char>, tail: Seq<char>)
    requires
        text::all_white(first),
        text::all_white(second),
        tail.len() > 0,
        !text::is_white_space(tail[0]),
    ensures
        import_path("url"@ + first + seq!['('] + second + tail) == url_argument(tail),
        url_head("url"@ + first + seq!['('] + second + tail) == (if is_quote(tail[0]) {
            0
        } else {
            4 + first.len() + second.len()
        }),
{
    let s = "url"@ + first + seq!['('] + second + tail;
    reveal_strlit("url");
    assert(s.take(3) == "url"@);
    assert(s[0] == 'u');
    let opened = seq!['('] + second + tail;
    assert(s.skip(3) == first + opened);
    text::lemma_trim_start_of_white(first, opened);
    assert(opened[0] == '(');
    assert(text::trim_start(opened) == opened);
    assert(opened.skip(1) == second + tail);
    text::lemma_trim_start_of_white(second, tail);
    assert(text::trim_start(tail) == tail);
}

/// What begins neither with a quote nor with `url` names no path.
pub proof fn other_arguments_name_no_path(s: &str, r: Option<(String, &str)>)
    requires
        call_ensures(take_import_path, (s,), r),
        s@.len() == 0 || (s@[0] != '"' && s@[0] != '\'' && !(s@.len() >= 3 && s@[0] == 'u' && s@[1]
            == 'r' && s@[2] == 'l')),
    ensures
        r is None,
{
    reveal_strlit("url");
    if text::starts_with(s@, "url"@) {
        assert(s@.take(3)[0] == 'u' && s@.take(3)[1] == 'r' && s@.take(3)[2] == 'l');
    }
}

/// Every form of a directive imports its path, as it is written: between quotes of
/// either kind, and in a URL with quotes or without them. One with a blank path
/// imports nothing. What follows is read as if it stood alone.
pub proof fn every_form_imports_its_path(
    quote: char,
    path: Seq<char>,
    argument: Seq<char>,
    after: Seq<char>,
)
    requires
        quote == '"' || quote == '\'',
        forall|i: int|
            0 <= i < path.len() ==> #[trigger] path[i] != quote && path[i] != '\n' && path[i]
                != '\\',
        argument.len() > 0,
        !is_quote(argument[0]),
        !text::is_white_space(argument[0]),
        forall|i: int|
            0 <= i < argument.len() ==> #[trigger] argument[i] != ')' && argument[i] != '\n'
                && argument[i] != '\\' && argument[i] != '*',
    ensures
        ({
            let found = if text::all_white(path) {
                Seq::<Seq<char>>::empty()
            } else {
                seq![path]
            };
            let string = seq![quote] + path + seq![quote];
            &&& css_imports("@import "@ + string + after) == found + css_imports(after)
            &&& css_imports("@import url("@ + string + seq![')'] + after) == found + css_imports(
                after,
            )
            &&& css_imports("@import url("@ + argument + seq![')'] + after) == seq![
                text::trim(argument),
            ] + css_imports(after)
        }),
{
    lemma_string_directive(quote, path, after);
    lemma_url_string_directive(quote, path, after);
    lemma_url_directive(argument, after);
    lemma_blank(path);
}

proof fn lemma_blank(path: Seq<char>)
    ensures
        text::all_white(path) <==> text::trim(path).len() == 0,
{
    let (before, behind) = text::trim_leaves_the_middle(path);
    let t = text::trim(path);
    if t.len() == 0 {
        assert(path == before + behind);
        assert forall|i: int| 0 <= i < path.len() implies text::is_white_space(
            #[trigger] path[i],
        ) by {
            if i < before.len() {
                assert(path[i] == before[i]);
            } else {
                assert(path[i] == behind[i - before.len()]);
            }
        }
    } else {
        assert(path[before.len() as int] == t[0]);
    }
}

proof fn lemma_keyword(argument: Seq<char>)
    requires
        argument.len() > 0,
        !text::is_white_space(argument[0]),
    ensures
        stripped("@import "@ + argument, false) == "@import "@ + stripped(argument, false),
        imports_from("@import "@ + argument, false) == imported(argument) + imports_from(
            behind_argument(argument),
            false,
        ),
{
    reveal_strlit("@import ");
    reveal_strlit("@import");
    let keyword = "@import "@;
    lemma_letters(keyword, argument);
    let s = keyword + argument;
    assert(s.take(7) == "@import"@);
    assert(s.skip(7) == seq![' '] + argument);
    text::lemma_trim_start_of_white(seq![' '], argument);
    assert(text::trim_start(argument) == argument);
}

proof fn lemma_string_directive(quote: char, path: Seq<char>, after: Seq<char>)
    requires
        is_quote(quote),
        forall|i: int|
            0 <= i < path.len() ==> #[trigger] path[i] != quote && path[i] != '\n' && path[i]
                != '\\',
    ensures
        css_imports("@import "@ + (seq![quote] + path + seq![quote]) + after) == (if text::trim(
            path,
        ).len() > 0 {
            seq![path]
        } else {
            Seq::<Seq<char>>::empty()
        }) + css_imports(after),
{
    let string = seq![quote] + path + seq![quote];
    let rest = without_comments(after);
    let none = Seq::<char>::empty();
    quoted_text_is_a_string(quote, path);
    strings_are_kept(none, string, after);
    assert(none + string + after == string + after);
    assert(none + string + rest == string + rest);
    assert((string + after)[0] == quote);
    assert("@import "@ + string + after == "@import "@ + (string + after));
    lemma_keyword(string + after);
    let argument = string + rest;
    assert(argument[0] == quote);
    lemma_keyword(argument);
    assert(!path.contains(quote));
    assert(!path.contains('\n'));
    lemma_quoted_text(quote, path, rest);
    assert(argument.skip(1) == path + seq![quote] + rest);
    reveal_strlit("url");
    assert(url_head(argument) == 0) by {
        if text::starts_with(argument, "url"@) {
            assert(argument.take(3)[0] == 'u');
        }
    }
    lemma_string_pass(string, rest);
}

proof fn lemma_url_string_directive(quote: char, path: Seq<char>, after: Seq<char>)
    requires
        is_quote(quote),
        forall|i: int|
            0 <= i < path.len() ==> #[trigger] path[i] != quote && path[i] != '\n' && path[i]
                != '\\',
    ensures
        css_imports("@import url("@ + (seq![quote] + path + seq![quote]) + seq![')'] + after) == (
        if text::trim(path).len() > 0 {
            seq![path]
        } else {
            Seq::<Seq<char>>::empty()
        }) + css_imports(after),
{
    let string = seq![quote] + path + seq![quote];
    let rest = without_comments(after);
    let none = Seq::<char>::empty();
    quoted_text_is_a_string(quote, path);
    let argument = "url"@ + none + seq!['('] + none + (string + seq![')'] + after);
    let read = "url"@ + none + seq!['('] + none + (string + seq![')'] + rest);
    reveal_strlit("@import url(");
    reveal_strlit("@import ");
    reveal_strlit("url");
    assert("@import url("@ == "@import "@ + "url"@ + seq!['(']);
    assert("@import url("@ + string + seq![')'] + after == "@import "@ + argument);
    assert(argument[0] == 'u' && read[0] == 'u');
    lemma_keyword(argument);
    lemma_keyword(read);
    lemma_url_opens(none, none, string + seq![')'] + after);
    lemma_url_opens(none, none, string + seq![')'] + rest);
    lemma_single(argument);
    lemma_single(read);
    let opening = seq!['r', 'l', '('];
    let closed = seq![')'] + after;
    assert(argument.skip(1) == opening + (string + closed));
    lemma_letters(opening, string + closed);
    strings_are_kept(none, string, closed);
    assert(none + string + closed == string + closed);
    lemma_letters(seq![')'], after);
    assert(none + string + stripped(closed, false) == string + (seq![')'] + rest));
    assert(argument.take(1) == seq!['u']);
    assert(seq!['u'] + (opening + (string + (seq![')'] + rest))) == read);
    assert(stripped(argument, false) == read);
    let tail = string + seq![')'] + rest;
    assert(tail.skip(1) == path + seq![quote] + (seq![')'] + rest));
    assert(!path.contains(quote));
    assert(!path.contains('\n'));
    lemma_quoted_text(quote, path, seq![')'] + rest);
    assert(text::trim_start(seq![')'] + rest) == seq![')'] + rest);
    assert((seq![')'] + rest).skip(1) == rest);
    assert(import_path(read) == Some((path, rest)));
    assert(read.skip(1) == opening + (string + (seq![')'] + rest)));
    lemma_letters(opening, string + (seq![')'] + rest));
    lemma_string_pass(string, seq![')'] + rest);
    lemma_letters(seq![')'], rest);
}

proof fn lemma_url_characters(argument: Seq<char>, rest: Seq<char>)
    requires
        rest.len() > 0,
        rest[0] != '*',
        forall|i: int|
            0 <= i < argument.len() ==> #[trigger] argument[i] != ')' && argument[i] != '\n'
                && argument[i] != '\\' && argument[i] != '*',
    ensures
        stripped(argument + rest, true) == argument + stripped(rest, true),
    decreases argument.len(),
{
    let whole = argument + rest;
    if argument.len() == 0 {
        assert(whole == rest);
        assert(argument + stripped(rest, true) == stripped(rest, true));
    } else {
        assert(whole[0] == argument[0]);
        assert(!text::starts_with(whole, seq!['/', '*'])) by {
            if text::starts_with(whole, seq!['/', '*']) {
                assert(whole.take(2)[1] == '*');
                if argument.len() > 1 {
                    assert(whole[1] == argument[1]);
                } else {
                    assert(whole[1] == rest[0]);
                }
            }
        }
        let next = argument.skip(1);
        assert(whole.skip(1) == next + rest);
        assert forall|i: int| 0 <= i < next.len() implies #[trigger] next[i] != ')' && next[i]
            != '\n' && next[i] != '\\' && next[i] != '*' by {
            assert(next[i] == argument[i + 1]);
        }
        lemma_url_characters(next, rest);
        assert(whole.take(1) == seq![argument[0]]);
        assert(seq![argument[0]] + (next + stripped(rest, true)) == argument + stripped(rest, true));
    }
}

proof fn lemma_url_directive(argument: Seq<char>, after: Seq<char>)
    requires
        argument.len() > 0,
        !is_quote(argument[0]),
        !text::is_white_space(argument[0]),
        forall|i: int|
            0 <= i < argument.len() ==> #[trigger] argument[i] != ')' && argument[i] != '\n'
                && argument[i] != '\\' && argument[i] != '*',
    ensures
        css_imports("@import url("@ + argument + seq![')'] + after) == seq![text::trim(argument)]
            + css_imports(after),
{
    let rest = without_comments(after);
    let none = Seq::<char>::empty();
    let tail = argument + seq![')'] + after;
    let read_tail = argument + seq![')'] + rest;
    let url = "url"@ + none + seq!['('] + none + tail;
    let read = "url"@ + none + seq!['('] + none + read_tail;
    reveal_strlit("@import url(");
    reveal_strlit("@import ");
    reveal_strlit("url");
    assert("@import url("@ == "@import "@ + "url"@ + seq!['(']);
    assert("@import url("@ + argument + seq![')'] + after == "@import "@ + url);
    assert(url[0] == 'u' && read[0] == 'u');
    assert(tail[0] == argument[0] && read_tail[0] == argument[0]);
    lemma_keyword(url);
    lemma_keyword(read);
    lemma_url_opens(none, none, tail);
    lemma_url_opens(none, none, read_tail);
    assert(!text::starts_with(url, seq!['/', '*'])) by {
        if text::starts_with(url, seq!['/', '*']) {
            assert(url.take(2)[0] == '/');
        }
    }
    assert(url.skip(4) == tail);
    assert(url.take(4) == "url"@ + seq!['(']);
    let closed = seq![')'] + after;
    assert(tail == argument + closed);
    lemma_url_characters(argument, closed);
    assert(stripped(closed, true) == seq![')'] + rest) by {
        if text::starts_with(closed, seq!['/', '*']) {
            assert(closed.take(2)[0] == '/');
        }
        assert(closed.take(1) == seq![')']);
        assert(closed.skip(1) == after);
    }
    assert(argument + (seq![')'] + rest) == read_tail);
    assert("url"@ + seq!['('] + read_tail == read);
    assert(stripped(url, false) == read);
    text::lemma_index_from(read_tail, ')', 0);
    assert(read_tail[argument.len() as int] == ')');
    let k = text::index_of(read_tail, ')')->0;
    if k < argument.len() {
        assert(read_tail[k] == argument[k]);
    }
    assert(read_tail.take(k) == argument);
    assert(read_tail.skip(k + 1) == rest);
    text::trim_is_idempotent(argument);
    let (before, behind) = text::trim_leaves_the_middle(argument);
    assert(text::trim(argument).len() > 0) by {
        if text::trim(argument).len() == 0 {
            assert(argument == before + behind);
            if before.len() > 0 {
                assert(argument[0] == before[0]);
            } else {
                assert(argument[0] == behind[0]);
            }
        }
    }
}

/// An import names a file unless it is blank, or a URL of one of four kinds. The
/// file is seen from the directory of the stylesheet. A path without a colon is no
/// URL.
pub proof fn imports_name_files_but_for_urls(raw: &str, base_dir: &str, r: Option<String>)
    requires
        call_ensures(resolve_import_path, (raw, base_dir), r),
    ensures
        ({
            let s = text::trim(raw@);
            let url = "http://"@.is_prefix_of(s) || "https://"@.is_prefix_of(s)
                || "data:"@.is_prefix_of(s) || "file://"@.is_prefix_of(s);
            &&& r is None <==> text::all_white(raw@) || url
            &&& r matches Some(file) ==> file@ == path::join(base_dir@, s)
            &&& !raw@.contains(':') ==> !url
        }),
{
    let s = text::trim(raw@);
    lemma_blank(raw@);
    lemma_prefix("http://"@, s);
    lemma_prefix("https://"@, s);
    lemma_prefix("data:"@, s);
    lemma_prefix("file://"@, s);
    reveal_strlit("http://");
    reveal_strlit("https://");
    reveal_strlit("data:");
    reveal_strlit("file://");
    let (before, behind) = text::trim_leaves_the_middle(raw@);
    if !raw@.contains(':') {
        assert forall|i: int| 0 <= i < s.len() implies #[trigger] s[i] != ':' by {
            assert(raw@[before.len() + i] == s[i]);
            assert(raw@.contains(raw@[before.len() + i]));
        }
        assert("http://"@[4] == ':' && "https://"@[5] == ':' && "data:"@[4] == ':' && "file://"@[4]
            == ':');
        if "http://"@.is_prefix_of(s) {
            assert(s[4] == "http://"@[4]);
        }
        if "https://"@.is_prefix_of(s) {
            assert(s[5] == "https://"@[5]);
        }
        if "data:"@.is_prefix_of(s) {
            assert(s[4] == "data:"@[4]);
        }
        if "file://"@.is_prefix_of(s) {
            assert(s[4] == "file://"@[4]);
        }
    }
}

proof fn lemma_prefix(p: Seq<char>, s: Seq<char>)
    ensures
        text::starts_with(s, p) <==> p.is_prefix_of(s),
{
    if text::starts_with(s, p) {
        assert(p.is_prefix_of(s));
    }
    if p.is_prefix_of(s) {
        assert(s.take(p.len() as int) == p);
    }
}

/// A string that is not closed ends with its line, an escaped quote opens no string,
/// and a slash alone opens no comment. What follows is read as if it stood alone.
pub proof fn unclosed_strings_end_with_their_line(
    quote: char,
    inside: Seq<char>,
    rest: Seq<char>,
)
    requires
        quote == '"' || quote == '\'',
        forall|i: int|
            0 <= i < inside.len() ==> #[trigger] inside[i] != quote && inside[i] != '\n' && inside[i]
                != '\\',
    ensures
        without_comments(seq![quote] + inside + seq!['\n'] + rest) == seq![quote] + inside + seq![
            '\n',
        ] + without_comments(rest),
        without_comments(seq!['\\', quote] + rest) == seq!['\\', quote] + without_comments(rest),
        rest.len() == 0 || rest[0] != '*' ==> without_comments(seq!['/'] + rest) == seq!['/']
            + without_comments(rest),
{
    let s = seq![quote] + inside + seq!['\n'] + rest;
    let n = inside.len() as int + 1;
    assert forall|i: int| 1 <= i < n implies #[trigger] s[i] != quote && s[i] != '\n' && s[i]
        != '\\' by {
        assert(s[i] == inside[i - 1]);
    }
    assert(s[n] == '\n');
    lemma_end_at_line(s, quote, 1, n);
    assert(s[0] == quote);
    assert(!text::starts_with(s, seq!['/', '*'])) by {
        if text::starts_with(s, seq!['/', '*']) {
            assert(s.take(2)[0] == '/');
        }
    }
    assert(s.take(n) == seq![quote] + inside);
    let line_end = seq!['\n'] + rest;
    assert(s.skip(n) == line_end);
    lemma_letters(seq!['\n'], rest);
    assert(seq![quote] + inside + (seq!['\n'] + without_comments(rest)) == seq![quote] + inside
        + seq!['\n'] + without_comments(rest));
    let escaped = seq!['\\', quote] + rest;
    assert(escaped[0] == '\\' && escaped[1] == quote);
    assert(!text::starts_with(escaped, seq!['/', '*'])) by {
        if text::starts_with(escaped, seq!['/', '*']) {
            assert(escaped.take(2)[0] == '/');
        }
    }
    assert(escaped.take(2) == seq!['\\', quote]);
    assert(escaped.skip(2) == rest);
    if rest.len() == 0 || rest[0] != '*' {
        let slash = seq!['/'] + rest;
        assert(slash[0] == '/');
        assert(!text::starts_with(slash, seq!['/', '*'])) by {
            if text::starts_with(slash, seq!['/', '*']) {
                assert(slash.take(2)[1] == '*');
                assert(slash[1] == rest[0]);
            }
        }
        reveal_strlit("url");
        if text::starts_with(slash, "url"@) {
            assert(slash.take(3)[0] == 'u');
        }
        assert(slash.take(1) == seq!['/']);
        assert(slash.skip(1) == rest);
    }
}

proof fn lemma_end_at_line(s: Seq<char>, quote: char, from: int, at: int)
    requires
        1 <= from <= at < s.len(),
        s[at] == '\n',
        quote != '\n',
        forall|i: int| from <= i < at ==> s[i] != quote && s[i] != '\n' && s[i] != '\\',
    ensures
        string_end(s, quote, from) == at,
        !is_closed(s, quote, from),
    decreases at - from,
{
    if from < at {
        lemma_end_at_line(s, quote, from + 1, at);
    }
}

/// A directive whose argument cannot be read imports nothing, and what follows the
/// keyword is read as if it stood alone. White space behind the keyword makes no
/// difference.
pub proof fn unreadable_directives_import_nothing(blank: Seq<char>, rest: Seq<char>)
    requires
        text::all_white(blank),
        rest.len() > 0,
        !text::is_white_space(rest[0]),
        rest[0] != '/' && rest[0] != '"' && rest[0] != '\'' && rest[0] != 'u' && rest[0] != '\\',
    ensures
        css_imports("@import"@ + blank + rest) == css_imports(rest),
{
    lemma_blank_keyword(blank, rest);
    lemma_single(rest);
    let read = without_comments(rest);
    assert(read[0] == rest[0]);
    lemma_blank_keyword(blank, read);
    reveal_strlit("url");
    if text::starts_with(read, "url"@) {
        assert(read.take(3)[0] == 'u');
    }
    assert(import_path(read) is None);
    assert(Seq::<Seq<char>>::empty() + imports_from(read, false) == imports_from(read, false));
}

proof fn lemma_blank_keyword(blank: Seq<char>, argument: Seq<char>)
    requires
        text::all_white(blank),
        argument.len() > 0,
        !text::is_white_space(argument[0]),
    ensures
        stripped("@import"@ + blank + argument, false) == "@import"@ + blank + stripped(
            argument,
            false,
        ),
        imports_from("@import"@ + blank + argument, false) == imported(argument) + imports_from(
            behind_argument(argument),
            false,
        ),
{
    reveal_strlit("@import");
    let keyword = "@import"@ + blank;
    assert forall|i: int| 0 <= i < keyword.len() implies #[trigger] keyword[i] != '/' && !is_quote(
        keyword[i],
    ) && keyword[i] != '\\' && keyword[i] != 'u' by {
        if i >= 7 {
            assert(keyword[i] == blank[i - 7]);
            assert(text::is_white_space(blank[i - 7]));
        }
    }
    lemma_letters(keyword, argument);
    let s = keyword + argument;
    assert(s.take(7) == "@import"@);
    assert(s.skip(7) == blank + argument);
    text::lemma_trim_start_of_white(blank, argument);
    assert(text::trim_start(argument) == argument);
}

/// White space behind the keyword makes no difference to what a directive imports.
pub proof fn blanks_behind_the_keyword_make_no_difference(
    blank: Seq<char>,
    other: Seq<char>,
    argument: Seq<char>,
)
    requires
        text::all_white(blank),
        text::all_white(other),
        argument.len() > 0,
        !text::is_white_space(argument[0]),
        argument[0] != '/',
    ensures
        css_imports("@import"@ + blank + argument) == css_imports("@import"@ + other + argument),
{
    lemma_blank_keyword(blank, argument);
    lemma_blank_keyword(other, argument);
    let read = without_comments(argument);
    assert(!text::starts_with(argument, seq!['/', '*'])) by {
        if text::starts_with(argument, seq!['/', '*']) {
            assert(argument.take(2)[0] == '/');
        }
    }
    lemma_piece(argument, false);
    let (n, in_url_then) = piece(argument, false);
    assert(read == argument.take(n) + stripped(argument.skip(n), in_url_then));
    assert(read[0] == argument[0]);
    lemma_blank_keyword(blank, read);
    lemma_blank_keyword(other, read);
}

/// A backslash takes the meaning from a quote behind it, and from another backslash,
/// but from nothing else.
pub proof fn backslashes_escape_quotes_and_backslashes(c: char, rest: Seq<char>)
    ensures
        c == '"' || c == '\'' || c == '\\' ==> without_comments(seq!['\\', c] + rest) == seq![
            '\\',
            c,
        ] + without_comments(rest) && imports_in(seq!['\\', c] + rest) == imports_in(rest),
        c != '"' && c != '\'' && c != '\\' ==> without_comments(seq!['\\', c] + rest) == seq!['\\']
            + without_comments(seq![c] + rest) && imports_in(seq!['\\', c] + rest) == imports_in(
            seq![c] + rest,
        ),
{
    let s = seq!['\\', c] + rest;
    assert(s[0] == '\\' && s[1] == c);
    assert(!text::starts_with(s, seq!['/', '*'])) by {
        if text::starts_with(s, seq!['/', '*']) {
            assert(s.take(2)[0] == '/');
        }
    }
    reveal_strlit("@import");
    assert(!text::starts_with(s, "@import"@)) by {
        if text::starts_with(s, "@import"@) {
            assert(s.take(7)[0] == '@');
        }
    }
    reveal_strlit("url");
    if text::starts_with(s, "url"@) {
        assert(s.take(3)[0] == 'u');
    }
    assert(s.take(2) == seq!['\\', c]);
    assert(s.skip(2) == rest);
    assert(s.take(1) == seq!['\\']);
    assert(s.skip(1) == seq![c] + rest);
}

/// A quote without a closing one on its line hides no directive: what follows it is
/// looked at.
pub proof fn unclosed_quotes_hide_no_directive(quote: char, inside: Seq<char>, rest: Seq<char>)
    requires
        quote == '"' || quote == '\'',
        forall|i: int|
            0 <= i < inside.len() ==> #[trigger] inside[i] != quote && inside[i] != '\n' && inside[i]
                != '\\',
    ensures
        css_imports(seq![quote] + inside + seq!['\n'] + rest) == imports_in(
            inside + seq!['\n'] + without_comments(rest),
        ),
{
    unclosed_strings_end_with_their_line(quote, inside, rest);
    let s = seq![quote] + inside + seq!['\n'] + without_comments(rest);
    let n = inside.len() as int + 1;
    assert forall|i: int| 1 <= i < n implies #[trigger] s[i] != quote && s[i] != '\n' && s[i]
        != '\\' by {
        assert(s[i] == inside[i - 1]);
    }
    assert(s[n] == '\n');
    lemma_end_at_line(s, quote, 1, n);
    assert(s[0] == quote);
    reveal_strlit("@import");
    assert(!text::starts_with(s, "@import"@)) by {
        if text::starts_with(s, "@import"@) {
            assert(s.take(7)[0] == '@');
        }
    }
    assert(s.skip(1) == inside + seq!['\n'] + without_comments(rest));
}

/// A URL without quotes that is not closed ends with its line. What follows is read
/// as if it stood alone.
pub proof fn unclosed_urls_end_with_their_line(argument: Seq<char>, rest: Seq<char>)
    requires
        argument.len() > 0,
        !is_quote(argument[0]),
        !text::is_white_space(argument[0]),
        forall|i: int|
            0 <= i < argument.len() ==> #[trigger] argument[i] != ')' && argument[i] != '\n'
                && argument[i] != '\\' && argument[i] != '*',
    ensures
        without_comments("url("@ + argument + seq!['\n'] + rest) == "url("@ + argument + seq!['\n']
            + without_comments(rest),
{
    let none = Seq::<char>::empty();
    let ended = seq!['\n'] + rest;
    let tail = argument + ended;
    let url = "url"@ + none + seq!['('] + none + tail;
    reveal_strlit("url(");
    reveal_strlit("url");
    assert("url("@ == "url"@ + seq!['(']);
    assert("url("@ + argument + seq!['\n'] + rest == url);
    assert(url[0] == 'u');
    assert(tail[0] == argument[0]);
    lemma_url_opens(none, none, tail);
    assert(!text::starts_with(url, seq!['/', '*'])) by {
        if text::starts_with(url, seq!['/', '*']) {
            assert(url.take(2)[0] == '/');
        }
    }
    assert(url.skip(4) == tail);
    assert(url.take(4) == "url("@);
    lemma_url_characters(argument, ended);
    assert(stripped(ended, true) == seq!['\n'] + without_comments(rest)) by {
        if text::starts_with(ended, seq!['/', '*']) {
            assert(ended.take(2)[0] == '/');
        }
        assert(ended.take(1) == seq!['\n']);
        assert(ended.skip(1) == rest);
    }
    assert("url("@ + (argument + (seq!['\n'] + without_comments(rest))) == "url("@ + argument
        + seq!['\n'] + without_comments(rest));
}

/// A path ends at the next quote even behind a backslash, but the string that it
/// stands in goes on: what is left of the string is passed over, and what follows it
/// is read as if it stood alone.
pub proof fn imports_go_on_behind_the_whole_string(
    quote: char,
    a: Seq<char>,
    b: Seq<char>,
    after: Seq<char>,
)
    requires
        quote == '"' || quote == '\'',
        forall|i: int|
            0 <= i < a.len() ==> #[trigger] a[i] != quote && a[i] != '\n' && a[i] != '\\',
        forall|i: int|
            0 <= i < b.len() ==> #[trigger] b[i] != quote && b[i] != '\n' && b[i] != '\\',
    ensures
        css_imports(
            "@import "@ + (seq![quote] + a + seq!['\\', quote] + b + seq![quote]) + after,
        ) == seq![a.push('\\')] + css_imports(after),
{
    let string = seq![quote] + a + seq!['\\', quote] + b + seq![quote];
    let path = a.push('\\');
    let rest = without_comments(after);
    let none = Seq::<char>::empty();
    escaped_quotes_do_not_end_a_string(quote, a, quote, b);
    strings_are_kept(none, string, after);
    assert(none + string + after == string + after);
    assert(none + string + rest == string + rest);
    assert((string + after)[0] == quote);
    assert("@import "@ + string + after == "@import "@ + (string + after));
    lemma_keyword(string + after);
    let argument = string + rest;
    assert(argument[0] == quote);
    lemma_keyword(argument);
    assert(!path.contains(quote)) by {
        if path.contains(quote) {
            let i = choose|i: int| 0 <= i < path.len() && path[i] == quote;
            if i < a.len() {
                assert(a[i] == quote);
            }
        }
    }
    assert(!path.contains('\n')) by {
        if path.contains('\n') {
            let i = choose|i: int| 0 <= i < path.len() && path[i] == '\n';
            if i < a.len() {
                assert(a[i] == '\n');
            }
        }
    }
    lemma_quoted_text(quote, path, b + seq![quote] + rest);
    assert(argument.skip(1) == path + seq![quote] + (b + seq![quote] + rest));
    lemma_blank(path);
    assert(path[a.len() as int] == '\\');
    assert(!text::all_white(path));
    reveal_strlit("url");
    assert(url_head(argument) == 0) by {
        if text::starts_with(argument, "url"@) {
            assert(argument.take(3)[0] == 'u');
        }
    }
    lemma_string_pass(string, rest);
}

} // verus!
