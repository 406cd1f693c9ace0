//! Text as a sequence of characters.
//!
//! Strings are taken apart once, into a slice of characters, and put together
//! again at the end. What lies between works on sub-slices, and every function
//! states its result over the mathematical sequence.

use vstd::prelude::*;
use vstd::slice::slice_subrange;

verus! {

/// `String::push` appends one character.
pub assume_specification[ String::push ](s: &mut String, c: char)
    ensures
        final(s)@ == old(s)@.push(c),
;

/// The characters with the Unicode property `White_Space`.
pub open spec fn is_white_space(c: char) -> bool {
    ||| '\u{9}' <= c <= '\u{d}'
    ||| c == ' '
    ||| c == '\u{85}'
    ||| c == '\u{a0}'
    ||| c == '\u{1680}'
    ||| '\u{2000}' <= c <= '\u{200a}'
    ||| c == '\u{2028}'
    ||| c == '\u{2029}'
    ||| c == '\u{202f}'
    ||| c == '\u{205f}'
    ||| c == '\u{3000}'
}

/// `s` without the white space that it begins with.
pub open spec fn trim_start(s: Seq<char>) -> Seq<char>
    decreases s.len(),
{
    if s.len() > 0 && is_white_space(s[0]) {
        trim_start(s.skip(1))
    } else {
        s
    }
}

/// `s` without the white space that it ends with.
pub open spec fn trim_end(s: Seq<char>) -> Seq<char>
    decreases s.len(),
{
    if s.len() > 0 && is_white_space(s.last()) {
        trim_end(s.drop_last())
    } else {
        s
    }
}

/// `s` without the white space at either end.
pub open spec fn trim(s: Seq<char>) -> Seq<char> {
    trim_end(trim_start(s))
}

/// `s` begins with `p`.
pub open spec fn starts_with<T>(s: Seq<T>, p: Seq<T>) -> bool {
    p.len() <= s.len() && s.take(p.len() as int) == p
}

/// `s` ends with `p`.
pub open spec fn ends_with<T>(s: Seq<T>, p: Seq<T>) -> bool {
    p.len() <= s.len() && s.skip(s.len() - p.len()) == p
}

/// The least index at or after `from` at which `c` stands.
pub open spec fn index_from<T>(s: Seq<T>, c: T, from: int) -> Option<int>
    decreases s.len() - from,
{
    if from < 0 || from >= s.len() {
        None
    } else if s[from] == c {
        Some(from)
    } else {
        index_from(s, c, from + 1)
    }
}

/// The least index at which `c` stands.
pub open spec fn index_of<T>(s: Seq<T>, c: T) -> Option<int> {
    index_from(s, c, 0)
}

/// The least index at or after `from` at which `p` stands as a whole.
pub open spec fn find_from(s: Seq<char>, p: Seq<char>, from: int) -> Option<int>
    decreases s.len() + 1 - from,
{
    if from < 0 || from + p.len() > s.len() {
        None
    } else if s.subrange(from, from + p.len()) == p {
        Some(from)
    } else {
        find_from(s, p, from + 1)
    }
}

/// The least index at which `p` stands as a whole.
pub open spec fn find(s: Seq<char>, p: Seq<char>) -> Option<int> {
    find_from(s, p, 0)
}

/// The pieces of `s` between the separators `c`.
pub open spec fn split<T>(s: Seq<T>, c: T) -> Seq<Seq<T>>
    decreases s.len(),
{
    proof {
        lemma_index_from(s, c, 0);
    }
    match index_of(s, c) {
        Some(k) => seq![s.take(k)] + split(s.skip(k + 1), c),
        None => seq![s],
    }
}

/// What lies before and behind the first `c`.
pub open spec fn split_once(s: Seq<char>, c: char) -> Option<(Seq<char>, Seq<char>)> {
    match index_of(s, c) {
        Some(k) => Some((s.take(k), s.skip(k + 1))),
        None => None,
    }
}

/// What lies before the first `c`, all where there is none.
pub open spec fn before(s: Seq<char>, c: char) -> Seq<char> {
    match index_of(s, c) {
        Some(k) => s.take(k),
        None => s,
    }
}

/// The lines of `data`, without their ends: a line feed, perhaps with a
/// carriage return before it. What follows the last line feed is a line only
/// where there is something.
pub open spec fn byte_lines(data: Seq<u8>) -> Seq<Seq<u8>> {
    let pieces = split(data, 10u8);
    let ended = pieces.drop_last().map_values(|piece: Seq<u8>| without_return(piece));
    if pieces.last().len() == 0 {
        ended
    } else {
        ended.push(pieces.last())
    }
}

/// `line` without the carriage return that it ends with.
pub open spec fn without_return(line: Seq<u8>) -> Seq<u8> {
    if line.len() > 0 && line.last() == 13u8 {
        line.drop_last()
    } else {
        line
    }
}

/// The lines of a text, trimmed, without those that are blank.
pub open spec fn text_lines(content: Seq<char>) -> Seq<Seq<char>> {
    trimmed_pieces(split(content, '\n'))
}

/// The pieces, trimmed, without those that are blank.
pub open spec fn trimmed_pieces(pieces: Seq<Seq<char>>) -> Seq<Seq<char>>
    decreases pieces.len(),
{
    if pieces.len() == 0 {
        Seq::empty()
    } else {
        let rest = trimmed_pieces(pieces.skip(1));
        if trim(pieces[0]).len() == 0 {
            rest
        } else {
            seq![trim(pieces[0])] + rest
        }
    }
}

/// How many characters of `s` from index `from` on come before white space.
pub open spec fn word_len(s: Seq<char>, from: int) -> int
    decreases s.len() - from,
{
    if from < 0 || from >= s.len() || is_white_space(s[from]) {
        0
    } else {
        1 + word_len(s, from + 1)
    }
}

/// The words of `s`: what stands between white space.
pub open spec fn words(s: Seq<char>) -> Seq<Seq<char>>
    decreases s.len(),
{
    proof {
        lemma_trim_start(s);
        lemma_word_len(trim_start(s), 0);
    }
    let t = trim_start(s);
    if t.len() == 0 {
        Seq::empty()
    } else {
        let k = word_len(t, 0);
        seq![t.take(k)] + words(t.skip(k))
    }
}

/// `pieces` one after the other, with `sep` between them.
pub open spec fn join(pieces: Seq<Seq<char>>, sep: Seq<char>) -> Seq<char>
    decreases pieces.len(),
{
    if pieces.len() == 0 {
        Seq::empty()
    } else if pieces.len() == 1 {
        pieces[0]
    } else {
        join(pieces.drop_last(), sep) + sep + pieces.last()
    }
}

/// What each string of `v` holds.
pub open spec fn strings(v: Seq<String>) -> Seq<Seq<char>> {
    v.map_values(|s: String| s@)
}

/// What each slice of `v` holds.
pub open spec fn slices<T>(v: Seq<&[T]>) -> Seq<Seq<T>> {
    v.map_values(|s: &[T]| s@)
}

pub proof fn lemma_index_from<T>(s: Seq<T>, c: T, from: int)
    requires
        0 <= from <= s.len(),
    ensures
        match index_from(s, c, from) {
            Some(k) => from <= k < s.len() && s[k] == c && forall|i: int|
                from <= i < k ==> s[i] != c,
            None => forall|i: int| from <= i < s.len() ==> s[i] != c,
        },
    decreases s.len() - from,
{
    if from < s.len() && s[from] != c {
        lemma_index_from(s, c, from + 1);
    }
}

pub proof fn lemma_find_from(s: Seq<char>, p: Seq<char>, from: int)
    requires
        0 <= from,
    ensures
        match find_from(s, p, from) {
            Some(k) => from <= k && k + p.len() <= s.len() && s.subrange(k, k + p.len()) == p,
            None => true,
        },
    decreases s.len() + 1 - from,
{
    if from + p.len() <= s.len() && s.subrange(from, from + p.len()) != p {
        lemma_find_from(s, p, from + 1);
    }
}

/// Where `p` stands, and stands nowhere before, it is found.
pub proof fn lemma_find_is(s: Seq<char>, p: Seq<char>, from: int, k: int)
    requires
        0 <= from <= k,
        k + p.len() <= s.len(),
        s.subrange(k, k + p.len()) == p,
        forall|j: int| from <= j < k ==> #[trigger] s.subrange(j, j + p.len()) != p,
    ensures
        find_from(s, p, from) == Some(k),
    decreases k - from,
{
    if from < k {
        assert(s.subrange(from, from + p.len()) != p);
        lemma_find_is(s, p, from + 1, k);
    }
}

/// What is not found stands nowhere.
pub proof fn lemma_find_none(s: Seq<char>, p: Seq<char>, from: int, j: int)
    requires
        0 <= from <= j,
        j + p.len() <= s.len(),
        find_from(s, p, from) is None,
    ensures
        s.subrange(j, j + p.len()) != p,
    decreases j - from,
{
    if from < j {
        lemma_find_none(s, p, from + 1, j);
    }
}

/// What is found stands nowhere before.
pub proof fn lemma_find_first(s: Seq<char>, p: Seq<char>, from: int, j: int)
    requires
        0 <= from <= j,
        find_from(s, p, from) matches Some(k) && j < k,
    ensures
        s.subrange(j, j + p.len()) != p,
    decreases j - from,
{
    if from < j {
        lemma_find_first(s, p, from + 1, j);
    }
}

/// What is found is found too where more stands behind.
pub proof fn lemma_find_in_front(s: Seq<char>, p: Seq<char>, more: Seq<char>)
    requires
        find(s, p) is Some,
    ensures
        find(s + more, p) == find(s, p),
{
    lemma_find_from(s, p, 0);
    let k = find(s, p)->0;
    let whole = s + more;
    assert(whole.subrange(k, k + p.len()) == p);
    assert forall|j: int| 0 <= j < k implies #[trigger] whole.subrange(j, j + p.len()) != p by {
        lemma_find_first(s, p, 0, j);
        assert(whole.subrange(j, j + p.len()) == s.subrange(j, j + p.len()));
    }
    lemma_find_is(whole, p, 0, k);
}

/// What stands somewhere is found.
pub proof fn lemma_find_somewhere(before: Seq<char>, p: Seq<char>, after: Seq<char>)
    ensures
        find(before + p + after, p) is Some,
{
    let whole = before + p + after;
    let k = before.len() as int;
    assert(whole.subrange(k, k + p.len()) == p);
    if find(whole, p) is None {
        lemma_find_none(whole, p, 0, k);
    }
}

/// What is not found is not found behind the first `n` characters either.
pub proof fn lemma_find_none_behind(s: Seq<char>, p: Seq<char>, n: int)
    requires
        0 <= n <= s.len(),
        find(s, p) is None,
    ensures
        find(s.skip(n), p) is None,
{
    let rest = s.skip(n);
    lemma_find_from(rest, p, 0);
    if let Some(k) = find(rest, p) {
        lemma_find_none(s, p, 0, n + k);
        assert(s.subrange(n + k, n + k + p.len()) == rest.subrange(k, k + p.len()));
    }
}

/// Two characters that differ are found right behind a text that does not hold
/// them.
pub proof fn lemma_find_behind(before: Seq<char>, p: Seq<char>, after: Seq<char>)
    requires
        p.len() == 2,
        p[0] != p[1],
        find(before, p) is None,
    ensures
        find(before + p + after, p) == Some(before.len() as int),
{
    let s = before + p + after;
    let k = before.len() as int;
    assert(s.subrange(k, k + 2) == p);
    assert forall|j: int| 0 <= j < k implies #[trigger] s.subrange(j, j + 2) != p by {
        if j + 2 <= k {
            lemma_find_none(before, p, 0, j);
            assert(s.subrange(j, j + 2) == before.subrange(j, j + 2));
        } else {
            assert(s.subrange(j, j + 2)[1] == p[0]);
        }
    }
    lemma_find_is(s, p, 0, k);
}

pub proof fn lemma_trim_start(s: Seq<char>)
    ensures
        trim_start(s).len() <= s.len(),
        trim_start(s) == s.skip(s.len() - trim_start(s).len()),
        trim_start(s).len() > 0 ==> !is_white_space(trim_start(s)[0]),
    decreases s.len(),
{
    if s.len() > 0 && is_white_space(s[0]) {
        let t = s.skip(1);
        lemma_trim_start(t);
        assert(trim_start(s) == s.skip(s.len() - trim_start(s).len()));
    } else {
        assert(s == s.skip(0));
    }
}

/// White space is taken from the second text only where the first is nothing else.
pub proof fn lemma_trim_start_of_both(a: Seq<char>, b: Seq<char>)
    ensures
        trim_start(a + b) == (if trim_start(a).len() > 0 {
            trim_start(a) + b
        } else {
            trim_start(b)
        }),
    decreases a.len(),
{
    if a.len() == 0 {
        assert(a + b == b);
    } else if is_white_space(a[0]) {
        assert((a + b).skip(1) == a.skip(1) + b);
        lemma_trim_start_of_both(a.skip(1), b);
    }
}

/// What `trim_end` leaves is a beginning of `s`, and does not end with white
/// space.
pub proof fn lemma_trim_end(s: Seq<char>)
    ensures
        trim_end(s).len() <= s.len(),
        trim_end(s) == s.take(trim_end(s).len() as int),
        trim_end(s).len() > 0 ==> !is_white_space(trim_end(s).last()),
        s.len() > 0 && !is_white_space(s[0]) ==> trim_end(s).len() > 0,
    decreases s.len(),
{
    if s.len() > 0 && is_white_space(s.last()) {
        lemma_trim_end(s.drop_last());
        assert(trim_end(s) == s.take(trim_end(s).len() as int));
        if s.len() == 1 {
            assert(s[0] == s.last());
        } else {
            assert(s.drop_last()[0] == s[0]);
        }
    } else {
        assert(s == s.take(s.len() as int));
    }
}

/// Trimming a trimmed text changes nothing.
pub proof fn trim_is_idempotent(s: Seq<char>)
    ensures
        trim(trim(s)) == trim(s),
        trim(s).len() <= s.len(),
{
    lemma_trim_start(s);
    lemma_trim_end(trim_start(s));
    let t = trim(s);
    if t.len() > 0 {
        assert(t[0] == trim_start(s)[0]);
        assert(trim_start(t) == t);
    }
    assert(trim_end(t) == t);
}

pub proof fn lemma_word_len(s: Seq<char>, from: int)
    requires
        0 <= from <= s.len(),
    ensures
        0 <= word_len(s, from) <= s.len() - from,
        from < s.len() && !is_white_space(s[from]) ==> word_len(s, from) > 0,
    decreases s.len() - from,
{
    if from < s.len() && !is_white_space(s[from]) {
        lemma_word_len(s, from + 1);
    }
}

/// Whether `c` is white space.
pub fn is_space(c: char) -> (r: bool)
    ensures
        r == is_white_space(c),
{
    ('\u{9}' <= c && c <= '\u{d}') || c == ' ' || c == '\u{85}' || c == '\u{a0}' || c == '\u{1680}'
        || ('\u{2000}' <= c && c <= '\u{200a}') || c == '\u{2028}' || c == '\u{2029}' || c
        == '\u{202f}' || c == '\u{205f}' || c == '\u{3000}'
}

/// The characters of `s`.
pub fn chars_of(s: &str) -> (r: Vec<char>)
    ensures
        r@ == s@,
{
    let mut out: Vec<char> = Vec::new();
    for c in it: s.chars()
        invariant
            it.seq() == s@,
            out@ == s@.take(it.index()),
    {
        out.push(c);
    }
    out
}

/// The string with the characters of `s`.
pub fn string_of(s: &[char]) -> (r: String)
    ensures
        r@ == s@,
{
    let mut out = String::new();
    let mut i: usize = 0;
    while i < s.len()
        invariant
            i <= s@.len(),
            out@ == s@.take(i as int),
        decreases s@.len() - i,
    {
        out.push(s[i]);
        i += 1;
    }
    out
}

/// `s` from index `from` on.
pub fn skip<T>(s: &[T], from: usize) -> (r: &[T])
    requires
        from <= s@.len(),
    ensures
        r@ == s@.skip(from as int),
{
    slice_subrange(s, from, s.len())
}

/// The first `n` elements of `s`.
pub fn take<T>(s: &[T], n: usize) -> (r: &[T])
    requires
        n <= s@.len(),
    ensures
        r@ == s@.take(n as int),
{
    slice_subrange(s, 0, n)
}

/// `s` without the white space that it begins with.
pub fn trimmed_start(s: &[char]) -> (r: &[char])
    ensures
        r@ == trim_start(s@),
{
    let mut i: usize = 0;
    assert(s@.skip(0) == s@);
    while i < s.len() && is_space(s[i])
        invariant
            i <= s@.len(),
            trim_start(s@) == trim_start(s@.skip(i as int)),
        decreases s@.len() - i,
    {
        assert(s@.skip(i as int).skip(1) == s@.skip(i as int + 1));
        i += 1;
    }
    skip(s, i)
}

/// `s` without the white space that it ends with.
pub fn trimmed_end(s: &[char]) -> (r: &[char])
    ensures
        r@ == trim_end(s@),
{
    let mut n: usize = s.len();
    assert(s@.take(n as int) == s@);
    while n > 0 && is_space(s[n - 1])
        invariant
            n <= s@.len(),
            trim_end(s@) == trim_end(s@.take(n as int)),
        decreases n,
    {
        assert(s@.take(n as int).drop_last() == s@.take(n as int - 1));
        n -= 1;
    }
    take(s, n)
}

/// `s` without the white space at either end.
pub fn trimmed(s: &[char]) -> (r: &[char])
    ensures
        r@ == trim(s@),
{
    trimmed_end(trimmed_start(s))
}

/// `s` without the white space at either end.
pub fn trimmed_text(s: &str) -> (r: String)
    ensures
        r@ == trim(s@),
{
    let chars = chars_of(s);
    string_of(trimmed(chars.as_slice()))
}

/// The two texts one after the other.
pub fn concat(a: &str, b: &str) -> (r: String)
    ensures
        r@ == a@ + b@,
{
    let mut out = a.to_owned();
    out.append(b);
    out
}

/// The three texts one after the other.
pub fn concat3(a: &str, b: &str, c: &str) -> (r: String)
    ensures
        r@ == a@ + b@ + c@,
{
    let mut out = a.to_owned();
    out.append(b);
    out.append(c);
    out
}

/// Appends all of `s` to `out`.
pub fn push_all<T: Copy>(out: &mut Vec<T>, s: &[T])
    ensures
        final(out)@ == old(out)@ + s@,
{
    let ghost before = out@;
    let mut i: usize = 0;
    while i < s.len()
        invariant
            i <= s@.len(),
            out@ == before + s@.take(i as int),
        decreases s@.len() - i,
    {
        out.push(s[i]);
        i += 1;
    }
    assert(s@.take(i as int) == s@);
}

/// Where `c` first stands in `s`.
pub fn find_char(s: &[char], c: char) -> (r: Option<usize>)
    ensures
        match r {
            Some(k) => index_of(s@, c) == Some(k as int) && k < s@.len() <= usize::MAX,
            None => index_of(s@, c) is None,
        },
{
    let mut i: usize = 0;
    while i < s.len()
        invariant
            i <= s@.len(),
            index_of(s@, c) == index_from(s@, c, i as int),
        decreases s@.len() - i,
    {
        if s[i] == c {
            return Some(i);
        }
        i += 1;
    }
    None
}

/// Where `c` first stands in `s`.
pub fn find_byte(s: &[u8], c: u8) -> (r: Option<usize>)
    ensures
        match r {
            Some(k) => index_of(s@, c) == Some(k as int) && k < s@.len() <= usize::MAX,
            None => index_of(s@, c) is None,
        },
{
    let mut i: usize = 0;
    while i < s.len()
        invariant
            i <= s@.len(),
            index_of(s@, c) == index_from(s@, c, i as int),
        decreases s@.len() - i,
    {
        if s[i] == c {
            return Some(i);
        }
        i += 1;
    }
    None
}

/// The pieces of `s` between the separators `c`.
pub fn split_chars(s: &[char], c: char) -> (r: Vec<&[char]>)
    ensures
        slices(r@) == split(s@, c),
{
    let mut out: Vec<&[char]> = Vec::new();
    let mut rest = s;
    loop
        invariant
            slices(out@) + split(rest@, c) == split(s@, c),
        decreases rest@.len(),
    {
        match find_char(rest, c) {
            Some(k) => {
                let ghost before = slices(out@);
                out.push(take(rest, k));
                assert(slices(out@) == before.push(rest@.take(k as int)));
                assert(slices(out@) + split(rest@.skip(k as int + 1), c) == before + split(
                    rest@,
                    c,
                ));
                rest = skip(rest, k + 1);
            },
            None => {
                out.push(rest);
                assert(slices(out@) == split(s@, c));
                return out;
            },
        }
    }
}

/// The pieces of `s` between the separators `c`.
pub fn split_bytes(s: &[u8], c: u8) -> (r: Vec<&[u8]>)
    ensures
        slices(r@) == split(s@, c),
{
    let mut out: Vec<&[u8]> = Vec::new();
    let mut rest = s;
    loop
        invariant
            slices(out@) + split(rest@, c) == split(s@, c),
        decreases rest@.len(),
    {
        match find_byte(rest, c) {
            Some(k) => {
                let ghost before = slices(out@);
                out.push(take(rest, k));
                assert(slices(out@) == before.push(rest@.take(k as int)));
                assert(slices(out@) + split(rest@.skip(k as int + 1), c) == before + split(
                    rest@,
                    c,
                ));
                rest = skip(rest, k + 1);
            },
            None => {
                out.push(rest);
                assert(slices(out@) == split(s@, c));
                return out;
            },
        }
    }
}

/// What lies before the first `c`, all where there is none.
pub fn text_before(s: &[char], c: char) -> (r: &[char])
    ensures
        r@ == before(s@, c),
{
    match find_char(s, c) {
        Some(k) => take(s, k),
        None => s,
    }
}

pub proof fn lemma_split_is_not_empty<T>(s: Seq<T>, c: T)
    ensures
        split(s, c).len() > 0,
{
}

/// The lines of `data`, without their ends.
pub fn split_lines(data: &[u8]) -> (r: Vec<&[u8]>)
    ensures
        slices(r@) == byte_lines(data@),
{
    let pieces = split_bytes(data, 10);
    let ghost all = split(data@, 10u8);
    proof {
        lemma_split_is_not_empty(data@, 10u8);
        assert(slices(pieces@).len() == pieces@.len());
    }
    let last: usize = pieces.len() - 1;
    let mut out: Vec<&[u8]> = Vec::new();
    let mut i: usize = 0;
    while i < last
        invariant
            i <= last,
            last + 1 == pieces@.len(),
            slices(pieces@) == all,
            out@.len() == i,
            forall|k: int| 0 <= k < i ==> (#[trigger] out@[k])@ == without_return(all[k]),
        decreases last - i,
    {
        let piece = pieces[i];
        assert(all[i as int] == piece@);
        if piece.len() > 0 && piece[piece.len() - 1] == 13 {
            out.push(take(piece, piece.len() - 1));
        } else {
            out.push(piece);
        }
        i += 1;
    }
    assert(slices(out@) == all.drop_last().map_values(|piece: Seq<u8>| without_return(piece)));
    assert(all.last() == pieces@[last as int]@);
    if pieces[last].len() > 0 {
        let ghost ended = slices(out@);
        out.push(pieces[last]);
        assert(slices(out@) == ended.push(all.last()));
    }
    out
}

/// The lines of a text, trimmed, without those that are blank.
pub fn nonblank_lines(content: &str) -> (r: Vec<String>)
    ensures
        strings(r@) == text_lines(content@),
{
    let chars = chars_of(content);
    let pieces = split_chars(chars.as_slice(), '\n');
    let ghost all = split(content@, '\n');
    assert(slices(pieces@).len() == pieces@.len());
    let mut out: Vec<String> = Vec::new();
    let mut i: usize = 0;
    assert(all.skip(0) == all);
    assert(strings(out@) == Seq::<Seq<char>>::empty());
    while i < pieces.len()
        invariant
            i <= pieces@.len(),
            pieces@.len() == all.len(),
            slices(pieces@) == all,
            strings(out@) + trimmed_pieces(all.skip(i as int)) == trimmed_pieces(all),
        decreases pieces@.len() - i,
    {
        assert(all[i as int] == pieces@[i as int]@);
        assert(all.skip(i as int).skip(1) == all.skip(i as int + 1));
        let line = trimmed(pieces[i]);
        if line.len() > 0 {
            let ghost before = strings(out@);
            out.push(string_of(line));
            assert(strings(out@) == before.push(line@));
            assert(before.push(line@) + trimmed_pieces(all.skip(i as int + 1)) == before
                + trimmed_pieces(all.skip(i as int)));
        }
        i += 1;
    }
    assert(all.skip(i as int) == Seq::<Seq<char>>::empty());
    assert(strings(out@) == trimmed_pieces(all));
    out
}

/// The words of `s`: what stands between white space.
pub fn split_words(s: &[char]) -> (r: Vec<&[char]>)
    ensures
        slices(r@) == words(s@),
{
    let mut out: Vec<&[char]> = Vec::new();
    let mut rest = trimmed_start(s);
    proof {
        lemma_trim_start_again(s@);
    }
    while rest.len() > 0
        invariant
            rest@ == trim_start(rest@),
            slices(out@) + words(rest@) == words(s@),
        decreases rest@.len(),
    {
        proof {
            lemma_trim_start(rest@);
        }
        let mut k: usize = 0;
        while k < rest.len() && !is_space(rest[k])
            invariant
                k <= rest@.len(),
                word_len(rest@, 0) == k + word_len(rest@, k as int),
            decreases rest@.len() - k,
        {
            k += 1;
        }
        let ghost before = slices(out@);
        out.push(take(rest, k));
        assert(slices(out@) == before.push(rest@.take(k as int)));
        let ghost behind = rest@.skip(k as int);
        assert(slices(out@) + words(behind) == before + words(rest@));
        proof {
            lemma_word_len(rest@, 0);
            lemma_trim_start(behind);
            lemma_trim_start_again(behind);
        }
        rest = trimmed_start(skip(rest, k));
    }
    assert(slices(out@) == words(s@));
    out
}

proof fn lemma_trim_start_again(s: Seq<char>)
    ensures
        trim_start(trim_start(s)) == trim_start(s),
        words(trim_start(s)) == words(s),
{
    lemma_trim_start(s);
}

/// The strings one after the other, with `sep` between them.
pub fn join_strings(pieces: &[String], sep: &str) -> (r: String)
    ensures
        r@ == join(strings(pieces@), sep@),
{
    let ghost all = strings(pieces@);
    let mut out = String::new();
    let mut i: usize = 0;
    while i < pieces.len()
        invariant
            i <= pieces@.len(),
            all == strings(pieces@),
            out@ == join(all.take(i as int), sep@),
        decreases pieces@.len() - i,
    {
        assert(all.take(i as int + 1).drop_last() == all.take(i as int));
        if i > 0 {
            out.append(sep);
        }
        out.append(pieces[i].as_str());
        i += 1;
        assert(out@ == join(all.take(i as int), sep@));
    }
    assert(all.take(i as int) == all);
    out
}

/// Copies of the strings.
pub fn copy_strings(v: &[String]) -> (r: Vec<String>)
    ensures
        strings(r@) == strings(v@),
{
    let mut out: Vec<String> = Vec::new();
    let mut i: usize = 0;
    while i < v.len()
        invariant
            i <= v@.len(),
            out@.len() == i,
            forall|k: int| 0 <= k < i ==> #[trigger] out@[k]@ == v@[k]@,
        decreases v@.len() - i,
    {
        out.push(v[i].clone());
        i += 1;
    }
    assert(strings(out@) == strings(v@));
    out
}

/// The strings with the characters of the slices.
pub fn strings_of(v: &Vec<&[char]>) -> (r: Vec<String>)
    ensures
        strings(r@) == slices(v@),
{
    let mut out: Vec<String> = Vec::new();
    let mut i: usize = 0;
    while i < v.len()
        invariant
            i <= v@.len(),
            out@.len() == i,
            forall|k: int| 0 <= k < i ==> #[trigger] out@[k]@ == v@[k]@,
        decreases v@.len() - i,
    {
        out.push(string_of(v[i]));
        i += 1;
    }
    assert(strings(out@) == slices(v@));
    out
}

/// Whether the two slices hold the same characters.
pub fn same(a: &[char], b: &[char]) -> (r: bool)
    ensures
        r == (a@ == b@),
{
    if a.len() != b.len() {
        return false;
    }
    let mut i: usize = 0;
    while i < a.len()
        invariant
            i <= a@.len(),
            a@.len() == b@.len(),
            a@.take(i as int) == b@.take(i as int),
        decreases a@.len() - i,
    {
        if a[i] != b[i] {
            return false;
        }
        assert(a@.take(i as int + 1) == a@.take(i as int).push(a@[i as int]));
        assert(b@.take(i as int + 1) == b@.take(i as int).push(b@[i as int]));
        i += 1;
    }
    assert(a@ == a@.take(i as int));
    assert(b@ == b@.take(i as int));
    true
}

/// Whether `s` holds just the characters of `t`.
pub fn is_text(s: &[char], t: &str) -> (r: bool)
    ensures
        r == (s@ == t@),
{
    same(s, chars_of(t).as_slice())
}

/// Whether the two texts are the same.
pub fn same_text(a: &str, b: &str) -> (r: bool)
    ensures
        r == (a@ == b@),
{
    same(chars_of(a).as_slice(), chars_of(b).as_slice())
}

/// Whether `s` begins with `p`.
pub fn begins_with(s: &[char], p: &[char]) -> (r: bool)
    ensures
        r == starts_with(s@, p@),
{
    p.len() <= s.len() && same(take(s, p.len()), p)
}

/// Whether `s` ends with `p`.
pub fn finishes_with(s: &[char], p: &[char]) -> (r: bool)
    ensures
        r == ends_with(s@, p@),
{
    p.len() <= s.len() && same(skip(s, s.len() - p.len()), p)
}

/// Whether `s` ends with `p`.
pub fn text_finishes_with(s: &str, p: &str) -> (r: bool)
    ensures
        r == ends_with(s@, p@),
{
    finishes_with(chars_of(s).as_slice(), chars_of(p).as_slice())
}

/// Whether `p` stands somewhere in `s`.
pub fn text_contains(s: &str, p: &str) -> (r: bool)
    ensures
        r == (find(s@, p@) is Some),
{
    find_text(chars_of(s).as_slice(), chars_of(p).as_slice()).is_some()
}

/// `s` with `from` replaced by `to` throughout.
pub open spec fn replaced(s: Seq<char>, from: char, to: char) -> Seq<char> {
    s.map_values(
        |c: char|
            if c == from {
                to
            } else {
                c
            },
    )
}

/// `s` with `from` replaced by `to` throughout.
pub fn replace_char(s: &str, from: char, to: char) -> (r: String)
    ensures
        r@ == replaced(s@, from, to),
{
    let chars = chars_of(s);
    let mut out: Vec<char> = Vec::new();
    let mut i: usize = 0;
    while i < chars.len()
        invariant
            i <= chars@.len(),
            chars@ == s@,
            out@.len() == i,
            forall|k: int| 0 <= k < i ==> #[trigger] out@[k] == replaced(s@, from, to)[k],
        decreases chars@.len() - i,
    {
        let c = chars[i];
        out.push(
            if c == from {
                to
            } else {
                c
            },
        );
        i += 1;
    }
    assert(out@ == replaced(s@, from, to));
    string_of(out.as_slice())
}

/// Whether `s` begins with `p`.
pub fn text_begins_with(s: &str, p: &str) -> (r: bool)
    ensures
        r == starts_with(s@, p@),
{
    begins_with(chars_of(s).as_slice(), chars_of(p).as_slice())
}

/// Where `p` first stands in `s`.
pub fn find_text(s: &[char], p: &[char]) -> (r: Option<usize>)
    ensures
        match r {
            Some(k) => find(s@, p@) == Some(k as int) && k + p@.len() <= s@.len() <= usize::MAX,
            None => find(s@, p@) is None,
        },
{
    if p.len() > s.len() {
        return None;
    }
    let n: usize = s.len();
    let last: usize = n - p.len();
    let mut i: usize = 0;
    while i < last
        invariant
            i <= last,
            last + p@.len() == s@.len(),
            n == s@.len(),
            find(s@, p@) == find_from(s@, p@, i as int),
        decreases last - i,
    {
        if same(slice_subrange(s, i, i + p.len()), p) {
            return Some(i);
        }
        i += 1;
    }
    assert(find_from(s@, p@, last + 1) is None);
    if same(slice_subrange(s, last, n), p) {
        return Some(last);
    }
    None
}

/// What can be handed over as a text: a `String`, or a `&str`.
pub trait IntoText: Sized {
    /// The text.
    spec fn text(self) -> Seq<char>;

    /// The text as a string.
    fn into_text(self) -> (r: String)
        ensures
            r@ == self.text(),
    ;
}

impl IntoText for String {
    open spec fn text(self) -> Seq<char> {
        self@
    }

    fn into_text(self) -> (r: String) {
        self
    }
}

impl<'a> IntoText for &'a str {
    open spec fn text(self) -> Seq<char> {
        self@
    }

    fn into_text(self) -> (r: String) {
        self.to_owned()
    }
}

/// All of `s` is white space.
pub open spec fn all_white(s: Seq<char>) -> bool {
    forall|i: int| 0 <= i < s.len() ==> is_white_space(#[trigger] s[i])
}

/// Nothing in `s` is white space.
pub open spec fn none_white(s: Seq<char>) -> bool {
    forall|i: int| 0 <= i < s.len() ==> !is_white_space(#[trigger] s[i])
}

/// `t` is `s` without the white space before and behind it.
pub open spec fn is_trimmed(t: Seq<char>, s: Seq<char>, before: Seq<char>, behind: Seq<char>) -> bool {
    &&& s == before + t + behind
    &&& all_white(before)
    &&& all_white(behind)
    &&& t.len() > 0 ==> !is_white_space(t[0]) && !is_white_space(t.last())
}

/// White space is, by code point, the tab up to the carriage return, the space, the
/// next line, and the spaces and separators of Unicode; nothing else is.
pub proof fn white_space_by_code_point(c: char)
    ensures
        is_white_space(c) <==> {
            let n = c as u32;
            ||| 0x9 <= n <= 0xd
            ||| n == 0x20 || n == 0x85 || n == 0xa0 || n == 0x1680
            ||| 0x2000 <= n <= 0x200a
            ||| n == 0x2028 || n == 0x2029 || n == 0x202f || n == 0x205f || n == 0x3000
        },
{
}

/// Trimming takes away the white space at the ends, and only that: `r` stands in
/// the text, with nothing but white space before it and behind it, and has none at
/// its ends.
pub proof fn trimming_takes_white_space(s: &str, r: String) -> (ends: (Seq<char>, Seq<char>))
    requires
        call_ensures(trimmed_text, (s,), r),
    ensures
        is_trimmed(r@, s@, ends.0, ends.1),
{
    trim_leaves_the_middle(s@)
}

/// The same of the text itself.
pub proof fn trim_leaves_the_middle(s: Seq<char>) -> (ends: (Seq<char>, Seq<char>))
    ensures
        is_trimmed(trim(s), s, ends.0, ends.1),
{
    lemma_trim_start(s);
    lemma_dropped_at_the_start(s);
    let t = trim_start(s);
    lemma_trim_end(t);
    lemma_dropped_at_the_end(t);
    let before = s.take(s.len() - t.len());
    let behind = t.skip(trim(s).len() as int);
    assert(t == trim(s) + behind);
    assert(s == before + trim(s) + behind);
    if trim(s).len() > 0 {
        assert(trim(s)[0] == t[0]);
    }
    (before, behind)
}

pub proof fn lemma_dropped_at_the_start(s: Seq<char>)
    ensures
        all_white(s.take(s.len() - trim_start(s).len())),
    decreases s.len(),
{
    lemma_trim_start(s);
    if s.len() > 0 && is_white_space(s[0]) {
        let rest = s.skip(1);
        lemma_dropped_at_the_start(rest);
        let dropped = s.take(s.len() - trim_start(s).len());
        lemma_trim_start(rest);
        assert forall|i: int| 0 <= i < dropped.len() implies is_white_space(
            #[trigger] dropped[i],
        ) by {
            if i > 0 {
                assert(dropped[i] == rest.take(rest.len() - trim_start(rest).len())[i - 1]);
            }
        }
    }
}

proof fn lemma_dropped_at_the_end(s: Seq<char>)
    ensures
        all_white(s.skip(trim_end(s).len() as int)),
    decreases s.len(),
{
    lemma_trim_end(s);
    if s.len() > 0 && is_white_space(s.last()) {
        let rest = s.drop_last();
        lemma_dropped_at_the_end(rest);
        lemma_trim_end(rest);
        let dropped = s.skip(trim_end(s).len() as int);
        assert forall|i: int| 0 <= i < dropped.len() implies is_white_space(
            #[trigger] dropped[i],
        ) by {
            if i < dropped.len() - 1 {
                assert(dropped[i] == rest.skip(trim_end(rest).len() as int)[i]);
            }
        }
    }
}

/// What stands between white space is the trimmed text: there is no other.
pub proof fn trimmed_text_is_unique(
    t: Seq<char>,
    s: Seq<char>,
    before: Seq<char>,
    behind: Seq<char>,
)
    requires
        is_trimmed(t, s, before, behind),
    ensures
        trim(s) == t,
{
    lemma_trim_start_of_white(before, t + behind);
    assert(s == before + (t + behind));
    if t.len() == 0 {
        assert(t + behind == behind);
        lemma_trim_start_of_white(behind, Seq::empty());
        assert(behind + Seq::<char>::empty() == behind);
    } else {
        assert((t + behind)[0] == t[0]);
        assert(trim_start(t + behind) == t + behind);
        lemma_trim_end_of_white(t, behind);
    }
}

pub proof fn lemma_trim_start_of_white(a: Seq<char>, b: Seq<char>)
    requires
        all_white(a),
    ensures
        trim_start(a + b) == trim_start(b),
    decreases a.len(),
{
    if a.len() > 0 {
        assert(is_white_space(a[0]));
        assert((a + b).skip(1) == a.skip(1) + b);
        assert forall|i: int| 0 <= i < a.skip(1).len() implies is_white_space(
            #[trigger] a.skip(1)[i],
        ) by {
            assert(is_white_space(a[i + 1]));
        }
        lemma_trim_start_of_white(a.skip(1), b);
    } else {
        assert(a + b == b);
    }
}

proof fn lemma_trim_end_of_white(t: Seq<char>, b: Seq<char>)
    requires
        all_white(b),
        t.len() > 0,
        !is_white_space(t.last()),
    ensures
        trim_end(t + b) == t,
    decreases b.len(),
{
    if b.len() > 0 {
        assert(is_white_space(b[b.len() - 1]));
        assert((t + b).drop_last() == t + b.drop_last());
        assert forall|i: int| 0 <= i < b.drop_last().len() implies is_white_space(
            #[trigger] b.drop_last()[i],
        ) by {
            assert(is_white_space(b[i]));
        }
        lemma_trim_end_of_white(t, b.drop_last());
    } else {
        assert(t + b == t);
    }
}

/// A separator parts the pieces before it from those behind it; a text without
/// one is a single piece.
pub proof fn separators_part_the_pieces<T>(a: Seq<T>, c: T, b: Seq<T>)
    ensures
        split(a.push(c) + b, c) == split(a, c) + split(b, c),
        !a.contains(c) ==> split(a, c) == seq![a],
    decreases a.len(),
{
    let whole = a.push(c) + b;
    lemma_index_from(a, c, 0);
    lemma_index_from(whole, c, 0);
    assert(whole[a.len() as int] == c);
    match index_of(a, c) {
        Some(k) => {
            assert(a.contains(a[k]));
            let m = index_of(whole, c)->0;
            assert(whole[k] == a[k]);
            assert(m == k) by {
                if m < k {
                    assert(whole[m] == a[m]);
                }
            }
            assert(whole.take(k) == a.take(k));
            assert(whole.skip(k + 1) == a.skip(k + 1).push(c) + b);
            separators_part_the_pieces(a.skip(k + 1), c, b);
            assert(seq![a.take(k)] + (split(a.skip(k + 1), c) + split(b, c)) == seq![a.take(k)]
                + split(a.skip(k + 1), c) + split(b, c));
        },
        None => {
            let m = index_of(whole, c)->0;
            assert(m == a.len()) by {
                if m < a.len() {
                    assert(whole[m] == a[m]);
                }
            }
            assert(whole.take(m) == a);
            assert(whole.skip(m + 1) == b);
        },
    }
}

/// A text is split at the first separator: what lies before it holds none.
pub proof fn first_separator_splits(s: Seq<char>, c: char, a: Seq<char>, b: Seq<char>)
    ensures
        split_once(s, c) == Some((a, b)) <==> s == a + seq![c] + b && !a.contains(c),
        split_once(s, c) is None <==> !s.contains(c),
        s == a + seq![c] + b && !a.contains(c) ==> before(s, c) == a,
        !s.contains(c) ==> before(s, c) == s,
{
    lemma_index_from(s, c, 0);
    if let Some(k) = index_of(s, c) {
        assert(s.contains(s[k]));
        assert(s == s.take(k) + seq![c] + s.skip(k + 1));
        assert(!s.take(k).contains(c));
    }
    if s == a + seq![c] + b && !a.contains(c) {
        assert(s[a.len() as int] == c);
        let k = index_of(s, c)->0;
        if k < a.len() {
            assert(s[k] == a[k]);
            assert(a.contains(a[k]));
        }
        assert(s.take(k) == a);
        assert(s.skip(k + 1) == b);
    }
}

/// White space parts the words before it from those behind it, a text without
/// white space is a single word, and nothing holds no word.
pub proof fn white_space_parts_the_words(a: Seq<char>, c: char, b: Seq<char>)
    ensures
        is_white_space(c) ==> words(a.push(c) + b) == words(a) + words(b),
        none_white(a) && a.len() > 0 ==> words(a) == seq![a],
        a.len() == 0 ==> words(a).len() == 0,
    decreases a.len(),
{
    if none_white(a) && a.len() > 0 {
        assert(trim_start(a) == a);
        lemma_whole_word(a, 0);
        assert(a.take(a.len() as int) == a);
        assert(a.skip(a.len() as int).len() == 0);
        assert(words(a.skip(a.len() as int)).len() == 0);
        assert(words(a) == seq![a]);
    }
    if is_white_space(c) {
        let whole = a.push(c) + b;
        if a.len() == 0 {
            assert(whole[0] == c);
            assert(whole.skip(1) == b);
            assert(words(a) + words(b) == words(b));
            lemma_trim_start_again(b);
        } else {
            lemma_trim_start(a);
            let t = trim_start(a);
            assert(whole == a + (seq![c] + b));
            lemma_trim_start_of_both(a, seq![c] + b);
            if t.len() == 0 {
                let tail = seq![c] + b;
                assert(tail[0] == c);
                assert(tail.skip(1) == b);
                assert(words(a).len() == 0);
                lemma_trim_start_again(b);
                lemma_trim_start_again(whole);
                assert(trim_start(whole) == trim_start(b));
                assert(words(whole) == words(b));
                assert(words(a) + words(b) == words(b));
            } else {
                let u = t + (seq![c] + b);
                assert(trim_start(whole) == u);
                lemma_word_len(t, 0);
                lemma_word_ends(t, c, b, 0);
                let k = word_len(t, 0);
                assert(word_len(u, 0) == k);
                assert(u.take(k) == t.take(k));
                assert(u.skip(k) == t.skip(k).push(c) + b);
                white_space_parts_the_words(t.skip(k), c, b);
                assert(words(whole) == seq![t.take(k)] + words(u.skip(k)));
                assert(words(a) == seq![t.take(k)] + words(t.skip(k)));
                assert(seq![t.take(k)] + (words(t.skip(k)) + words(b)) == seq![t.take(k)] + words(
                    t.skip(k),
                ) + words(b));
            }
        }
    }
}

proof fn lemma_whole_word(s: Seq<char>, from: int)
    requires
        0 <= from <= s.len(),
        none_white(s),
    ensures
        word_len(s, from) == s.len() - from,
    decreases s.len() - from,
{
    if from < s.len() {
        lemma_whole_word(s, from + 1);
    }
}

proof fn lemma_word_ends(t: Seq<char>, c: char, b: Seq<char>, from: int)
    requires
        0 <= from <= t.len(),
        is_white_space(c),
    ensures
        word_len(t + (seq![c] + b), from) == word_len(t, from),
    decreases t.len() - from,
{
    let u = t + (seq![c] + b);
    if from < t.len() {
        assert(u[from] == t[from]);
        lemma_word_ends(t, c, b, from + 1);
    } else {
        assert(u[from] == c);
    }
}

/// Lines end at a line feed, and a carriage return before it is no part of the
/// line. What follows the last line feed is a line where there is something.
pub proof fn line_feeds_end_the_lines(line: Seq<u8>, rest: Seq<u8>)
    requires
        !line.contains(10u8),
    ensures
        line.len() > 0 && line.last() == 13u8 ==> byte_lines(line.push(10u8) + rest) == seq![
            line.drop_last(),
        ] + byte_lines(rest),
        line.len() == 0 || line.last() != 13u8 ==> byte_lines(line.push(10u8) + rest) == seq![line]
            + byte_lines(rest),
        line.len() > 0 ==> byte_lines(line) == seq![line],
        line.len() == 0 ==> byte_lines(line).len() == 0,
{
    separators_part_the_pieces(line, 10u8, rest);
    lemma_split_is_not_empty(rest, 10u8);
    let tail = split(rest, 10u8);
    let pieces = split(line.push(10u8) + rest, 10u8);
    let plain = |piece: Seq<u8>| without_return(piece);
    assert(pieces == seq![line] + tail);
    assert(pieces.last() == tail.last());
    assert(pieces.drop_last() == seq![line] + tail.drop_last());
    assert(pieces.drop_last().map_values(plain) == seq![without_return(line)]
        + tail.drop_last().map_values(plain));
    let ended = tail.drop_last().map_values(plain);
    assert((seq![without_return(line)] + ended).push(tail.last()) == seq![without_return(line)]
        + ended.push(tail.last()));
    let single = seq![line];
    assert(single.drop_last().map_values(plain) == Seq::<Seq<u8>>::empty());
    assert(single.last() == line);
    assert(Seq::<Seq<u8>>::empty().push(line) == seq![line]);
}

/// A line feed parts the lines before it from those behind it. A line comes out
/// trimmed, and not at all where it is blank.
pub proof fn line_feeds_part_the_text(a: Seq<char>, b: Seq<char>)
    ensures
        text_lines(a.push('\n') + b) == text_lines(a) + text_lines(b),
        !a.contains('\n') && trim(a).len() > 0 ==> text_lines(a) == seq![trim(a)],
        trim(a).len() == 0 && !a.contains('\n') ==> text_lines(a).len() == 0,
{
    separators_part_the_pieces(a, '\n', b);
    lemma_trimmed_pieces_of_both(split(a, '\n'), split(b, '\n'));
    let single = seq![a];
    assert(single.skip(1).len() == 0);
    assert(trimmed_pieces(single.skip(1)) == Seq::<Seq<char>>::empty());
    assert(single[0] == a);
    assert(seq![trim(a)] + Seq::<Seq<char>>::empty() == seq![trim(a)]);
}

proof fn lemma_trimmed_pieces_of_both(a: Seq<Seq<char>>, b: Seq<Seq<char>>)
    ensures
        trimmed_pieces(a + b) == trimmed_pieces(a) + trimmed_pieces(b),
    decreases a.len(),
{
    if a.len() == 0 {
        assert(a + b == b);
        assert(trimmed_pieces(a) + trimmed_pieces(b) == trimmed_pieces(b));
    } else {
        assert((a + b).skip(1) == a.skip(1) + b);
        assert((a + b)[0] == a[0]);
        lemma_trimmed_pieces_of_both(a.skip(1), b);
        assert(seq![trim(a[0])] + (trimmed_pieces(a.skip(1)) + trimmed_pieces(b)) == seq![
            trim(a[0]),
        ] + trimmed_pieces(a.skip(1)) + trimmed_pieces(b));
    }
}

/// The separator stands between the pieces, and nowhere else.
pub proof fn join_puts_the_separator_between(
    a: Seq<Seq<char>>,
    b: Seq<Seq<char>>,
    sep: Seq<char>,
)
    ensures
        a.len() == 0 ==> join(a, sep).len() == 0,
        a.len() == 1 ==> join(a, sep) == a[0],
        a.len() > 0 && b.len() > 0 ==> join(a + b, sep) == join(a, sep) + sep + join(b, sep),
    decreases b.len(),
{
    if a.len() > 0 && b.len() > 0 {
        assert((a + b).drop_last() == a + b.drop_last());
        assert((a + b).last() == b.last());
        if b.len() == 1 {
            assert(a + b.drop_last() == a);
        } else {
            join_puts_the_separator_between(a, b.drop_last(), sep);
            assert(join(a, sep) + sep + join(b.drop_last(), sep) + sep + b.last() == join(a, sep)
                + sep + (join(b.drop_last(), sep) + sep + b.last()));
        }
    }
}

/// The pattern is found where it first stands.
pub proof fn pattern_is_found_where_it_first_stands(s: Seq<char>, p: Seq<char>, k: int)
    ensures
        find(s, p) == Some(k) <==> {
            &&& 0 <= k <= s.len() - p.len()
            &&& s.subrange(k, k + p.len()) == p
            &&& forall|j: int| 0 <= j < k ==> #[trigger] s.subrange(j, j + p.len()) != p
        },
        find(s, p) is None ==> forall|j: int|
            0 <= j <= s.len() - p.len() ==> #[trigger] s.subrange(j, j + p.len()) != p,
{
    lemma_find_from(s, p, 0);
    if find(s, p) is None {
        assert forall|j: int| 0 <= j <= s.len() - p.len() implies #[trigger] s.subrange(
            j,
            j + p.len(),
        ) != p by {
            lemma_find_none(s, p, 0, j);
        }
    }
    if find(s, p) == Some(k) {
        assert forall|j: int| 0 <= j < k implies #[trigger] s.subrange(j, j + p.len()) != p by {
            lemma_find_first(s, p, 0, j);
        }
    }
    if 0 <= k <= s.len() - p.len() && s.subrange(k, k + p.len()) == p && forall|j: int|
        0 <= j < k ==> #[trigger] s.subrange(j, j + p.len()) != p {
        lemma_find_is(s, p, 0, k);
    }
}

/// Replacing a character leaves the others as they are, each in its place.
pub proof fn replacing_keeps_the_others(s: &str, from: char, to: char, r: String)
    requires
        call_ensures(replace_char, (s, from, to), r),
    ensures
        r@.len() == s@.len(),
        forall|i: int|
            0 <= i < s@.len() ==> (s@[i] == from ==> #[trigger] r@[i] == to) && (s@[i] != from
                ==> r@[i] == s@[i]),
{
}

} // verus!
