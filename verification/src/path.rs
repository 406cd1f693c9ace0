//! Unix paths as text.
//!
//! A path is a text with `/` between its components. Two texts are the same
//! path when they have the same components: repeated and trailing separators do
//! not count, nor does a `.` other than one that a relative path begins with.

use vstd::prelude::*;
use vstd::slice::slice_subrange;
use crate::text;

verus! {

/// The path begins at the root.
pub open spec fn is_absolute(p: Seq<char>) -> bool {
    p.len() > 0 && p[0] == '/'
}

/// `rel`, as seen from the directory `base`. An absolute path replaces it.
pub open spec fn join(base: Seq<char>, rel: Seq<char>) -> Seq<char> {
    if is_absolute(rel) {
        rel
    } else if base.len() == 0 || base.last() == '/' {
        base + rel
    } else {
        base.push('/') + rel
    }
}

/// The components of `p` from index `from` on, which is the start of a piece.
pub open spec fn components_from(p: Seq<char>, from: int) -> Seq<Seq<char>>
    decreases p.len() + 1 - from,
{
    if from < 0 || from > p.len() {
        Seq::empty()
    } else {
        proof {
            lemma_piece_end(p, from);
        }
        let end = piece_end(p, from);
        let piece = p.subrange(from, end);
        let rest = components_from(p, end + 1);
        if piece.len() == 0 || (piece == seq!['.'] && (from > 0 || is_absolute(p))) {
            rest
        } else {
            seq![piece] + rest
        }
    }
}

/// Where the piece that starts at `from` ends: at a separator, or at the end.
pub open spec fn piece_end(p: Seq<char>, from: int) -> int
    decreases p.len() - from,
{
    if from < 0 || from >= p.len() {
        p.len() as int
    } else if p[from] == '/' {
        from
    } else {
        piece_end(p, from + 1)
    }
}

pub proof fn lemma_piece_end(p: Seq<char>, from: int)
    requires
        0 <= from <= p.len(),
    ensures
        from <= piece_end(p, from) <= p.len(),
    decreases p.len() - from,
{
    if from < p.len() && p[from] != '/' {
        lemma_piece_end(p, from + 1);
    }
}

/// What makes two texts the same path.
pub open spec fn key(p: Seq<char>) -> (bool, Seq<Seq<char>>) {
    (is_absolute(p), components_from(p, 0))
}

/// The length of what every form of the path begins with: the root, or a `.`.
pub open spec fn prefix_len(p: Seq<char>) -> int {
    if is_absolute(p) || p == seq!['.'] || (p.len() > 1 && p[0] == '.' && p[1] == '/') {
        1
    } else {
        0
    }
}

/// Where the last piece of `p`, no shorter than its prefix, starts.
pub open spec fn last_piece(p: Seq<char>) -> int
    decreases p.len(),
{
    if p.len() <= prefix_len(p) {
        prefix_len(p)
    } else {
        piece_start(p, p.len() as int)
    }
}

/// Where the piece that ends at `to` starts: behind a separator, or at the end
/// of the prefix.
pub open spec fn piece_start(p: Seq<char>, to: int) -> int
    decreases to,
{
    if to <= prefix_len(p) {
        prefix_len(p)
    } else if to <= p.len() && p[to - 1] == '/' {
        to
    } else {
        piece_start(p, to - 1)
    }
}

pub proof fn lemma_piece_start(p: Seq<char>, to: int)
    requires
        prefix_len(p) <= to <= p.len(),
    ensures
        prefix_len(p) <= piece_start(p, to) <= to,
    decreases to,
{
    if to > prefix_len(p) && p[to - 1] != '/' {
        lemma_piece_start(p, to - 1);
    }
}

/// `p` without its last piece, nor the separator before that.
pub open spec fn without_last_piece(p: Seq<char>) -> Seq<char> {
    let start = last_piece(p);
    if start > prefix_len(p) {
        p.take(start - 1)
    } else {
        p.take(prefix_len(p))
    }
}

/// `p` without pieces at its end that are no components.
pub open spec fn trim_end(p: Seq<char>) -> Seq<char>
    decreases p.len(),
{
    if p.len() <= prefix_len(p) {
        p
    } else {
        proof {
            lemma_piece_start(p, p.len() as int);
        }
        let piece = p.skip(last_piece(p));
        if piece.len() == 0 || piece == seq!['.'] {
            trim_end(without_last_piece(p))
        } else {
            p
        }
    }
}

/// The path without its last component; none where that is the root, or where
/// there is none.
pub open spec fn parent(p: Seq<char>) -> Option<Seq<char>> {
    let t = trim_end(p);
    if t.len() > prefix_len(t) {
        Some(trim_end(without_last_piece(t)))
    } else if t == seq!['.'] {
        Some(Seq::empty())
    } else {
        None
    }
}

/// The last component; none where that is the root, `.` or `..`, or where there
/// is none.
pub open spec fn file_name(p: Seq<char>) -> Option<Seq<char>> {
    let t = trim_end(p);
    let name = t.skip(last_piece(t));
    if t.len() > prefix_len(t) && name != seq!['.', '.'] {
        Some(name)
    } else {
        None
    }
}

/// Where the last `c` in `s` before index `to` stands.
pub open spec fn last_index_before(s: Seq<char>, c: char, to: int) -> Option<int>
    decreases to,
{
    if to <= 0 || to > s.len() {
        None
    } else if s[to - 1] == c {
        Some(to - 1)
    } else {
        last_index_before(s, c, to - 1)
    }
}

/// The length of a file name without its extension. A dot at the very start
/// makes no extension.
pub open spec fn stem_len(name: Seq<char>) -> int {
    match last_index_before(name, '.', name.len() as int) {
        Some(k) => if k == 0 {
            name.len() as int
        } else {
            k
        },
        None => name.len() as int,
    }
}

/// The path with another extension to its file name; the path itself where it
/// has none.
pub open spec fn with_extension(p: Seq<char>, extension: Seq<char>) -> Seq<char> {
    match file_name(p) {
        Some(name) => {
            let t = trim_end(p);
            t.take(t.len() - name.len() + stem_len(name)).push('.') + extension
        },
        None => p,
    }
}

/// Whether `s` is the one character `c`.
fn is_single(s: &[char], c: char) -> (r: bool)
    ensures
        r == (s@ == seq![c]),
{
    let r = s.len() == 1 && s[0] == c;
    assert(r ==> s@ == seq![c]);
    r
}

/// The components of `p`.
fn components(p: &[char]) -> (r: Vec<&[char]>)
    ensures
        text::slices(r@) == components_from(p@, 0),
{
    let n: usize = p.len();
    let absolute = n > 0 && p[0] == '/';
    let mut out: Vec<&[char]> = Vec::new();
    let mut from: usize = 0;
    loop
        invariant
            from <= n,
            n == p@.len(),
            absolute == is_absolute(p@),
            text::slices(out@) + components_from(p@, from as int) == components_from(p@, 0),
        decreases n - from,
    {
        let mut end: usize = from;
        while end < n && p[end] != '/'
            invariant
                from <= end <= n,
                n == p@.len(),
                piece_end(p@, from as int) == piece_end(p@, end as int),
            decreases n - end,
        {
            end += 1;
        }
        let piece = slice_subrange(p, from, end);
        let ghost before = text::slices(out@);
        if !(piece.len() == 0 || (is_single(piece, '.') && (from > 0 || absolute))) {
            out.push(piece);
            assert(text::slices(out@) == before.push(piece@));
            assert(text::slices(out@) + components_from(p@, end + 1) == before + components_from(
                p@,
                from as int,
            ));
        }
        if end == n {
            assert(components_from(p@, end + 1) == Seq::<Seq<char>>::empty());
            assert(text::slices(out@) == components_from(p@, 0));
            return out;
        }
        from = end + 1;
    }
}

/// Whether the two texts are the same path.
pub fn same_path(a: &str, b: &str) -> (r: bool)
    ensures
        r == (key(a@) == key(b@)),
{
    let a_chars = text::chars_of(a);
    let b_chars = text::chars_of(b);
    let a_absolute = a_chars.len() > 0 && a_chars[0] == '/';
    let b_absolute = b_chars.len() > 0 && b_chars[0] == '/';
    if a_absolute != b_absolute {
        return false;
    }
    let x = components(a_chars.as_slice());
    let y = components(b_chars.as_slice());
    assert(text::slices(x@).len() == x@.len());
    assert(text::slices(y@).len() == y@.len());
    if x.len() != y.len() {
        return false;
    }
    let mut i: usize = 0;
    while i < x.len()
        invariant
            i <= x@.len(),
            x@.len() == y@.len(),
            text::slices(x@) == components_from(a@, 0),
            text::slices(y@) == components_from(b@, 0),
            forall|k: int| 0 <= k < i ==> text::slices(x@)[k] == text::slices(y@)[k],
        decreases x@.len() - i,
    {
        if !text::same(x[i], y[i]) {
            assert(text::slices(x@)[i as int] != text::slices(y@)[i as int]);
            return false;
        }
        i += 1;
    }
    assert(text::slices(x@) == text::slices(y@));
    true
}

/// Whether the path begins at the root.
pub fn absolute(p: &str) -> (r: bool)
    ensures
        r == is_absolute(p@),
{
    let chars = text::chars_of(p);
    chars.len() > 0 && chars[0] == '/'
}

/// `rel`, as seen from the directory `base`.
pub fn join_path(base: &str, rel: &str) -> (r: String)
    ensures
        r@ == join(base@, rel@),
{
    if absolute(rel) {
        return rel.to_owned();
    }
    let mut out = base.to_owned();
    let chars = text::chars_of(base);
    if chars.len() > 0 && chars[chars.len() - 1] != '/' {
        out.push('/');
    }
    out.append(rel);
    out
}

fn prefix(p: &[char]) -> (r: usize)
    ensures
        r == prefix_len(p@),
        r <= p@.len(),
{
    if (p.len() > 0 && p[0] == '/') || is_single(p, '.') || (p.len() > 1 && p[0] == '.' && p[1]
        == '/') {
        1
    } else {
        0
    }
}

fn last_piece_start(p: &[char]) -> (r: usize)
    ensures
        r == last_piece(p@),
        prefix_len(p@) <= r <= p@.len(),
{
    let low = prefix(p);
    let mut to: usize = p.len();
    while to > low && p[to - 1] != '/'
        invariant
            low <= to <= p@.len(),
            low == prefix_len(p@),
            p@.len() > low ==> last_piece(p@) == piece_start(p@, to as int),
            p@.len() <= low ==> to == low,
        decreases to,
    {
        to -= 1;
    }
    to
}

fn drop_last_piece(p: &[char]) -> (r: &[char])
    ensures
        r@ == without_last_piece(p@),
{
    let low = prefix(p);
    let start = last_piece_start(p);
    if start > low {
        text::take(p, start - 1)
    } else {
        text::take(p, low)
    }
}

fn trimmed_end(p: &[char]) -> (r: &[char])
    ensures
        r@ == trim_end(p@),
    decreases p@.len(),
{
    if p.len() <= prefix(p) {
        return p;
    }
    let piece = text::skip(p, last_piece_start(p));
    if piece.len() == 0 || is_single(piece, '.') {
        trimmed_end(drop_last_piece(p))
    } else {
        p
    }
}

/// The path without its last component.
pub fn parent_of(p: &str) -> (r: Option<String>)
    ensures
        match r {
            Some(dir) => parent(p@) == Some(dir@),
            None => parent(p@) is None,
        },
{
    let chars = text::chars_of(p);
    let t = trimmed_end(chars.as_slice());
    if t.len() > prefix(t) {
        Some(text::string_of(trimmed_end(drop_last_piece(t))))
    } else if is_single(t, '.') {
        Some(String::new())
    } else {
        None
    }
}

/// The last component of the path.
pub fn file_name_of(p: &str) -> (r: Option<String>)
    ensures
        match r {
            Some(name) => file_name(p@) == Some(name@),
            None => file_name(p@) is None,
        },
{
    let chars = text::chars_of(p);
    let t = trimmed_end(chars.as_slice());
    let name = text::skip(t, last_piece_start(t));
    let dots = name.len() == 2 && name[0] == '.' && name[1] == '.';
    assert(dots ==> name@ == seq!['.', '.']);
    if t.len() > prefix(t) && !dots {
        Some(text::string_of(name))
    } else {
        None
    }
}

/// The path with another extension, not empty, to its file name.
pub fn replace_extension(p: &str, extension: &str) -> (r: String)
    ensures
        r@ == with_extension(p@, extension@),
{
    let chars = text::chars_of(p);
    let t = trimmed_end(chars.as_slice());
    let start = last_piece_start(t);
    let name = text::skip(t, start);
    let dots = name.len() == 2 && name[0] == '.' && name[1] == '.';
    assert(dots ==> name@ == seq!['.', '.']);
    if t.len() <= prefix(t) || dots {
        return p.to_owned();
    }
    let n: usize = name.len();
    let mut to: usize = n;
    while to > 0 && name[to - 1] != '.'
        invariant
            to <= n,
            n == name@.len(),
            last_index_before(name@, '.', n as int) == last_index_before(name@, '.', to as int),
        decreases to,
    {
        to -= 1;
    }
    let stem: usize = if to > 1 {
        to - 1
    } else {
        n
    };
    assert(stem == stem_len(name@));
    let mut out = text::string_of(text::take(t, start + stem));
    out.push('.');
    out.append(extension);
    out
}

/// A name that is a component of its own, other than `.`.
pub open spec fn is_plain_name(name: Seq<char>) -> bool {
    name.len() > 0 && !name.contains('/') && name != seq!['.']
}

proof fn lemma_piece_start_behind(p: Seq<char>, start: int, to: int)
    requires
        prefix_len(p) < start <= to <= p.len(),
        p[start - 1] == '/',
        forall|i: int| start <= i < to ==> p[i] != '/',
    ensures
        piece_start(p, to) == start,
    decreases to,
{
    if to > start {
        lemma_piece_start_behind(p, start, to - 1);
    }
}

/// A file in a directory has that directory as its parent, and its own name as
/// file name. The directory is one that has nothing to trim at its end.
pub proof fn join_and_parent(dir: Seq<char>, name: Seq<char>)
    requires
        is_plain_name(name),
        name != seq!['.', '.'],
        dir.len() > 0,
        trim_end(dir) == dir,
        dir.last() != '/' || dir == seq!['/'],
    ensures
        parent(join(dir, name)) == Some(dir),
        file_name(join(dir, name)) == Some(name),
{
    let p = join(dir, name);
    assert(!is_absolute(name)) by {
        if is_absolute(name) {
            assert(name.contains(name[0]));
        }
    }
    assert forall|i: int| 0 <= i < name.len() implies name[i] != '/' by {
        assert(name.contains(name[i]));
    }
    if dir == seq!['/'] {
        assert(p == dir + name);
        assert(p[0] == '/');
        assert(p.skip(1) == name);
        lemma_last_piece_at_prefix(p, p.len() as int);
        assert(last_piece(p) == 1);
        assert(trim_end(p) == p);
        assert(without_last_piece(p) == dir) by {
            assert(p.take(1) == dir);
        }
    } else {
        assert(p == dir.push('/') + name);
        let start = dir.len() as int + 1;
        assert(p[start - 1] == '/');
        assert(p.skip(start) == name);
        assert(prefix_len(p) < start);
        lemma_piece_start_behind(p, start, p.len() as int);
        assert(last_piece(p) == start);
        assert(trim_end(p) == p);
        assert(p.take(start - 1) == dir);
        assert(without_last_piece(p) == dir);
    }
}

proof fn lemma_last_piece_at_prefix(p: Seq<char>, to: int)
    requires
        prefix_len(p) <= to <= p.len(),
        forall|i: int| prefix_len(p) <= i < to ==> p[i] != '/',
    ensures
        piece_start(p, to) == prefix_len(p),
    decreases to,
{
    if to > prefix_len(p) {
        lemma_last_piece_at_prefix(p, to - 1);
    }
}

proof fn lemma_piece(p: Seq<char>, to: int)
    requires
        prefix_len(p) <= to <= p.len(),
    ensures
        forall|i: int| piece_start(p, to) <= i < to ==> p[i] != '/',
        piece_start(p, to) > prefix_len(p) ==> p[piece_start(p, to) - 1] == '/',
    decreases to,
{
    if to > prefix_len(p) && p[to - 1] != '/' {
        lemma_piece(p, to - 1);
    }
}

proof fn lemma_trim_end_leaves_a_component(p: Seq<char>)
    ensures
        trim_end(p).len() > prefix_len(trim_end(p)) ==> {
            let piece = trim_end(p).skip(last_piece(trim_end(p)));
            piece.len() > 0 && piece != seq!['.']
        },
    decreases p.len(),
{
    if p.len() > prefix_len(p) {
        lemma_piece_start(p, p.len() as int);
        let piece = p.skip(last_piece(p));
        if piece.len() == 0 || piece == seq!['.'] {
            lemma_trim_end_leaves_a_component(without_last_piece(p));
        }
    }
}

/// A file with another extension is beside the file: in the same directory, and
/// under the same name but for the extension.
pub proof fn other_extension_is_beside(p: Seq<char>, extension: Seq<char>)
    requires
        file_name(p) is Some,
        extension.len() > 0,
        !extension.contains('/'),
    ensures
        parent(with_extension(p, extension)) == parent(p),
        file_name(with_extension(p, extension)) == Some(
            file_name(p)->0.take(stem_len(file_name(p)->0)).push('.') + extension,
        ),
{
    let t = trim_end(p);
    let start = last_piece(t);
    let name = t.skip(start);
    let stem = stem_len(name);
    lemma_trim_end_leaves_a_component(p);
    lemma_piece_start(t, t.len() as int);
    lemma_piece(t, t.len() as int);
    lemma_last_index(name, '.', name.len() as int);
    let q = with_extension(p, extension);
    let tail = name.take(stem).push('.') + extension;
    assert(q == t.take(start) + tail);
    assert(tail.len() >= 3);
    assert(0 < stem <= name.len());
    assert(q[0] == t[0]) by {
        if start == 0 {
            assert(tail[0] == name[0]);
        }
    }
    assert(prefix_len(q) == prefix_len(t)) by {
        if start >= 2 {
            assert(q[1] == t[1]);
        } else if start == 1 {
            assert(q[1] == tail[0] && t[1] == name[0]);
        } else if stem >= 2 {
            assert(q[1] == tail[1] && t[1] == name[1]);
        } else {
            assert(q[1] == '.');
            if t.len() > 1 {
                assert(t[1] == name[1]);
            }
        }
    }
    assert forall|i: int| start <= i < q.len() implies q[i] != '/' by {
        assert(q[i] == tail[i - start]);
        if i - start < stem {
            assert(tail[i - start] == t[i]);
        } else if i - start > stem {
            assert(extension.contains(extension[i - start - stem - 1]));
            assert(tail[i - start] == extension[i - start - stem - 1]);
        }
    }
    if start > prefix_len(t) {
        assert(q[start - 1] == t[start - 1]);
        lemma_piece_start_behind(q, start, q.len() as int);
        assert(q.take(start - 1) == t.take(start - 1));
    } else {
        lemma_last_piece_at_prefix(q, q.len() as int);
        assert(q.take(start) == t.take(start));
    }
    assert(last_piece(q) == start);
    assert(q.skip(start) == tail);
    assert(trim_end(q) == q);
    assert(without_last_piece(q) == without_last_piece(t));
}

proof fn lemma_last_index(s: Seq<char>, c: char, to: int)
    requires
        0 <= to <= s.len(),
    ensures
        last_index_before(s, c, to) matches Some(k) ==> 0 <= k < to && s[k] == c,
    decreases to,
{
    if to > 0 && s[to - 1] != c {
        lemma_last_index(s, c, to - 1);
    }
}

/// What makes each of the texts the path that it is.
pub open spec fn keys(v: Seq<Seq<char>>) -> Seq<(bool, Seq<Seq<char>>)> {
    v.map_values(|p: Seq<char>| key(p))
}

/// A set of paths.
#[derive(Debug, Clone)]
pub struct PathSet {
    paths: Vec<String>,
}

impl View for PathSet {
    type V = Set<(bool, Seq<Seq<char>>)>;

    closed spec fn view(&self) -> Set<(bool, Seq<Seq<char>>)> {
        keys(text::strings(self.paths@)).to_set()
    }
}

impl PathSet {
    /// No path is in the list twice.
    pub closed spec fn wf(&self) -> bool {
        keys(text::strings(self.paths@)).no_duplicates()
    }

    /// The set without any path.
    pub fn new() -> (r: PathSet)
        ensures
            r.wf(),
            r@ == Set::<(bool, Seq<Seq<char>>)>::empty(),
    {
        let r = PathSet { paths: Vec::new() };
        assert(r@ =~= Set::<(bool, Seq<Seq<char>>)>::empty());
        r
    }

    /// Whether the path is in the set.
    pub fn contains(&self, p: &str) -> (r: bool)
        ensures
            r == self@.contains(key(p@)),
    {
        let ghost all = keys(text::strings(self.paths@));
        let mut i: usize = 0;
        while i < self.paths.len()
            invariant
                i <= self.paths@.len(),
                all == keys(text::strings(self.paths@)),
                all.len() == self.paths@.len(),
                forall|k: int| 0 <= k < i ==> all[k] != key(p@),
            decreases self.paths@.len() - i,
        {
            assert(all[i as int] == key(self.paths@[i as int]@));
            if same_path(self.paths[i].as_str(), p) {
                assert(all.to_set().contains(all[i as int]));
                return true;
            }
            i += 1;
        }
        false
    }

    /// Puts the path into the set. Returns whether it was not there before.
    pub fn insert(&mut self, p: &str) -> (r: bool)
        requires
            old(self).wf(),
        ensures
            final(self).wf(),
            final(self)@ == old(self)@.insert(key(p@)),
            r == !old(self)@.contains(key(p@)),
    {
        if self.contains(p) {
            assert(self@ =~= old(self)@.insert(key(p@)));
            return false;
        }
        let ghost before = keys(text::strings(self.paths@));
        assert(!before.to_set().contains(key(p@)));
        self.paths.push(p.to_owned());
        let ghost after = keys(text::strings(self.paths@));
        assert(after == before.push(key(p@)));
        assert(after.to_set() =~= before.to_set().insert(key(p@))) by {
            assert forall|x: (bool, Seq<Seq<char>>)| after.contains(x) <==> (before.contains(x) || x
                == key(p@)) by {
                if before.contains(x) {
                    let i = choose|i: int| 0 <= i < before.len() && before[i] == x;
                    assert(after[i] == x);
                }
                assert(after[before.len() as int] == key(p@));
            }
        }
        true
    }

    /// How many paths are in the set.
    pub fn len(&self) -> (r: usize)
        requires
            self.wf(),
        ensures
            r == self@.len(),
    {
        proof {
            keys(text::strings(self.paths@)).unique_seq_to_set();
        }
        self.paths.len()
    }

    /// The paths in the set, each once.
    pub fn to_vec(&self) -> (r: Vec<String>)
        requires
            self.wf(),
        ensures
            keys(text::strings(r@)).no_duplicates(),
            keys(text::strings(r@)).to_set() == self@,
    {
        text::copy_strings(self.paths.as_slice())
    }

    /// Whether every path of this set is in the other.
    fn within(&self, other: &PathSet) -> (r: bool)
        ensures
            r == self@.subset_of(other@),
    {
        let ghost all = keys(text::strings(self.paths@));
        let mut i: usize = 0;
        while i < self.paths.len()
            invariant
                i <= self.paths@.len(),
                all == keys(text::strings(self.paths@)),
                all.len() == self.paths@.len(),
                forall|k: int| 0 <= k < i ==> other@.contains(#[trigger] all[k]),
            decreases self.paths@.len() - i,
        {
            assert(all[i as int] == key(self.paths@[i as int]@));
            if !other.contains(self.paths[i].as_str()) {
                assert(self@.contains(all[i as int]));
                return false;
            }
            i += 1;
        }
        assert(self@.subset_of(other@)) by {
            assert forall|x: (bool, Seq<Seq<char>>)| self@.contains(x) implies other@.contains(
                x,
            ) by {
                let k = choose|k: int| 0 <= k < all.len() && all[k] == x;
                assert(other@.contains(all[k]));
            }
        }
        true
    }
}

impl PartialEq for PathSet {
    fn eq(&self, other: &PathSet) -> (r: bool) {
        let r = self.within(other) && other.within(self);
        assert(r ==> self@ =~= other@);
        r
    }
}

impl vstd::std_specs::cmp::PartialEqSpecImpl for PathSet {
    open spec fn obeys_eq_spec() -> bool {
        true
    }

    open spec fn eq_spec(&self, other: &PathSet) -> bool {
        self@ == other@
    }
}

/// A path goes on behind a directory with one separator between them. An absolute
/// path stays what it is, and so does any where there is no directory.
pub proof fn paths_are_joined_by_one_separator(base: &str, rel: &str, r: String)
    requires
        call_ensures(join_path, (base, rel), r),
    ensures
        rel@.len() > 0 && rel@[0] == '/' ==> r@ == rel@,
        !(rel@.len() > 0 && rel@[0] == '/') && base@.len() == 0 ==> r@ == rel@,
        !(rel@.len() > 0 && rel@[0] == '/') && base@.len() > 0 && base@.last() == '/' ==> r@
            == base@ + rel@,
        !(rel@.len() > 0 && rel@[0] == '/') && base@.len() > 0 && base@.last() != '/' ==> r@
            == base@ + seq!['/'] + rel@,
{
    assert(base@ + rel@ == base@.push('/').drop_last() + rel@);
    if base@.len() == 0 {
        assert(base@ + rel@ == rel@);
    }
    assert(base@.push('/') == base@ + seq!['/']);
}

proof fn lemma_piece_end_is_first(p: Seq<char>, from: int)
    requires
        0 <= from <= p.len(),
    ensures
        from <= piece_end(p, from) <= p.len(),
        forall|i: int| from <= i < piece_end(p, from) ==> p[i] != '/',
        piece_end(p, from) < p.len() ==> p[piece_end(p, from)] == '/',
    decreases p.len() - from,
{
    if from < p.len() && p[from] != '/' {
        lemma_piece_end_is_first(p, from + 1);
    }
}

/// A piece between separators that is a component: neither empty nor `.`.
pub open spec fn counts(piece: Seq<char>) -> bool {
    piece.len() > 0 && piece != seq!['.']
}

proof fn lemma_components_behind(p: Seq<char>, from: int)
    requires
        0 < from <= p.len(),
    ensures
        components_from(p, from) == text::split(p.skip(from), '/').filter(
            |piece: Seq<char>| counts(piece),
        ),
    decreases p.len() - from,
{
    let some = |piece: Seq<char>| counts(piece);
    lemma_piece_end_is_first(p, from);
    let end = piece_end(p, from);
    let piece = p.subrange(from, end);
    let rest = p.skip(from);
    assert(!piece.contains('/')) by {
        if piece.contains('/') {
            let i = choose|i: int| 0 <= i < piece.len() && piece[i] == '/';
            assert(p[from + i] == '/');
        }
    }
    lemma_one_kept(piece);
    if end < p.len() {
        let tail = p.skip(end + 1);
        assert(rest == piece.push('/') + tail);
        text::separators_part_the_pieces(piece, '/', tail);
        lemma_components_behind(p, end + 1);
        Seq::filter_distributes_over_add(seq![piece], text::split(tail, '/'), some);
    } else {
        assert(rest == piece);
        text::separators_part_the_pieces(piece, '/', Seq::empty());
        assert(components_from(p, end + 1) == Seq::<Seq<char>>::empty());
    }
    assert(Seq::<Seq<char>>::empty() + components_from(p, end + 1) == components_from(p, end + 1));
    assert(seq![piece] + Seq::<Seq<char>>::empty() == seq![piece]);
}

proof fn lemma_one_kept(piece: Seq<char>)
    ensures
        seq![piece].filter(|piece: Seq<char>| counts(piece)) == (if counts(piece) {
            seq![piece]
        } else {
            Seq::<Seq<char>>::empty()
        }),
{
    reveal_with_fuel(Seq::filter, 2);
    assert(seq![piece].drop_last() == Seq::<Seq<char>>::empty());
    assert(Seq::<Seq<char>>::empty().push(piece) == seq![piece]);
}

/// Two texts are the same path where both are absolute or neither is, both or
/// neither begin with a `.` component, and the other components are the same, in
/// order: what stands between separators, without the empty ones and the dots.
pub proof fn same_paths_have_the_same_components(a: &str, b: &str, r: bool)
    requires
        call_ensures(same_path, (a, b), r),
    ensures
        r <==> {
            &&& (a@.len() > 0 && a@[0] == '/') == (b@.len() > 0 && b@[0] == '/')
            &&& (text::split(a@, '/')[0] == seq!['.']) == (text::split(b@, '/')[0] == seq!['.'])
            &&& text::split(a@, '/').filter(|piece: Seq<char>| counts(piece)) == text::split(
                b@,
                '/',
            ).filter(|piece: Seq<char>| counts(piece))
        },
{
    components_are_the_pieces(a@);
    components_are_the_pieces(b@);
    let some = |piece: Seq<char>| counts(piece);
    let first = text::split(a@, '/').filter(some);
    let second = text::split(b@, '/').filter(some);
    let dot = seq![seq!['.']];
    assert(Seq::<Seq<char>>::empty() + first == first);
    assert(Seq::<Seq<char>>::empty() + second == second);
    assert((dot + first).skip(1) == first);
    assert((dot + second).skip(1) == second);
    if first.len() > 0 {
        lemma_kept_count(text::split(a@, '/'), 0);
    }
    if second.len() > 0 {
        lemma_kept_count(text::split(b@, '/'), 0);
    }
    assert((dot + first)[0] == seq!['.']);
    assert((dot + second)[0] == seq!['.']);
}

proof fn lemma_kept_count(pieces: Seq<Seq<char>>, i: int)
    requires
        0 <= i < pieces.filter(|piece: Seq<char>| counts(piece)).len(),
    ensures
        counts(pieces.filter(|piece: Seq<char>| counts(piece))[i]),
    decreases pieces.len(),
{
    reveal(Seq::filter);
    let before = pieces.drop_last().filter(|piece: Seq<char>| counts(piece));
    if i < before.len() {
        lemma_kept_count(pieces.drop_last(), i);
    }
}

/// The components of a path are what stands between its separators, without the
/// empty ones and the dots, but for a dot that the path begins with.
pub proof fn components_are_the_pieces(p: Seq<char>)
    ensures
        key(p).1 == (if text::split(p, '/')[0] == seq!['.'] {
            seq![seq!['.']]
        } else {
            Seq::<Seq<char>>::empty()
        }) + text::split(p, '/').filter(|piece: Seq<char>| counts(piece)),
        key(p).0 <==> p.len() > 0 && p[0] == '/',
{
    let some = |piece: Seq<char>| counts(piece);
    lemma_piece_end_is_first(p, 0);
    let end = piece_end(p, 0);
    let piece = p.subrange(0, end);
    assert(!piece.contains('/')) by {
        if piece.contains('/') {
            let i = choose|i: int| 0 <= i < piece.len() && piece[i] == '/';
            assert(p[i] == '/');
        }
    }
    lemma_one_kept(piece);
    if end < p.len() {
        let tail = p.skip(end + 1);
        assert(p == piece.push('/') + tail);
        text::separators_part_the_pieces(piece, '/', tail);
        assert(text::split(p, '/')[0] == piece);
        lemma_components_behind(p, end + 1);
        Seq::filter_distributes_over_add(seq![piece], text::split(tail, '/'), some);
    } else {
        assert(p == piece);
        text::separators_part_the_pieces(piece, '/', Seq::empty());
        assert(components_from(p, end + 1) == Seq::<Seq<char>>::empty());
    }
    let rest = components_from(p, end + 1);
    assert(Seq::<Seq<char>>::empty() + rest == rest);
    assert(seq![piece] + Seq::<Seq<char>>::empty() == seq![piece]);
    assert(is_absolute(p) ==> piece.len() == 0);
}

/// The extension of a file name is what follows its last dot, unless the name
/// begins with that dot.
pub proof fn extension_follows_the_last_dot(stem: Seq<char>, extension: Seq<char>)
    requires
        !extension.contains('.'),
    ensures
        stem.len() > 0 ==> stem_len(stem + seq!['.'] + extension) == stem.len(),
        stem.len() == 0 ==> stem_len(stem + seq!['.'] + extension) == 1 + extension.len(),
        stem_len(extension) == extension.len(),
{
    let name = stem + seq!['.'] + extension;
    assert(name.skip(stem.len() as int + 1) == extension);
    lemma_no_dot_behind(name, stem.len() as int, name.len() as int, extension);
    lemma_no_dot(extension, extension.len() as int);
}

proof fn lemma_no_dot_behind(name: Seq<char>, k: int, to: int, extension: Seq<char>)
    requires
        0 <= k < to <= name.len(),
        name[k] == '.',
        name.skip(k + 1) == extension,
        !extension.contains('.'),
    ensures
        last_index_before(name, '.', to) == Some(k),
    decreases to,
{
    if to - 1 > k {
        assert(name[to - 1] == extension[to - 2 - k]);
        assert(extension.contains(extension[to - 2 - k]));
        lemma_no_dot_behind(name, k, to - 1, extension);
    }
}

proof fn lemma_no_dot(s: Seq<char>, to: int)
    requires
        0 <= to <= s.len(),
        !s.contains('.'),
    ensures
        last_index_before(s, '.', to) is None,
    decreases to,
{
    if to > 0 {
        assert(s.contains(s[to - 1]));
        lemma_no_dot(s, to - 1);
    }
}

proof fn lemma_components_and_last_piece(p: Seq<char>)
    requires
        p.len() > prefix_len(p),
    ensures
        last_piece(p) <= p.len(),
        without_last_piece(p).len() < p.len(),
        key(p).0 == key(without_last_piece(p)).0,
        key(p).1 == key(without_last_piece(p)).1 + (if counts(p.skip(last_piece(p))) {
            seq![p.skip(last_piece(p))]
        } else {
            Seq::<Seq<char>>::empty()
        }),
{
    let some = |piece: Seq<char>| counts(piece);
    let start = last_piece(p);
    let piece = p.skip(start);
    let q = without_last_piece(p);
    lemma_piece_start(p, p.len() as int);
    lemma_piece(p, p.len() as int);
    components_are_the_pieces(p);
    components_are_the_pieces(q);
    lemma_one_kept(piece);
    assert(!piece.contains('/')) by {
        if piece.contains('/') {
            let i = choose|i: int| 0 <= i < piece.len() && piece[i] == '/';
            assert(p[start + i] == '/');
        }
    }
    text::separators_part_the_pieces(piece, '/', Seq::empty());
    if start > prefix_len(p) {
        assert(start >= 2) by {
            if start == 1 {
                assert(p[0] == '/');
            }
        }
        assert(q[0] == p[0]);
        assert(p == q.push('/') + piece);
        text::separators_part_the_pieces(q, '/', piece);
        text::lemma_split_is_not_empty(q, '/');
        assert(text::split(p, '/')[0] == text::split(q, '/')[0]);
        Seq::filter_distributes_over_add(text::split(q, '/'), seq![piece], some);
        let dot = if text::split(p, '/')[0] == seq!['.'] {
            seq![seq!['.']]
        } else {
            Seq::<Seq<char>>::empty()
        };
        let kept = text::split(q, '/').filter(some);
        let last = seq![piece].filter(some);
        assert(dot + (kept + last) == dot + kept + last);
    } else if is_absolute(p) {
        assert(q[0] == '/' && q.len() == 1);
        let none = Seq::<char>::empty();
        assert(p == none.push('/') + piece);
        assert(q == none.push('/') + none);
        text::separators_part_the_pieces(none, '/', piece);
        text::separators_part_the_pieces(none, '/', none);
        assert(text::split(p, '/')[0] == none && text::split(q, '/')[0] == none);
        lemma_one_kept(none);
        Seq::filter_distributes_over_add(seq![none], seq![piece], some);
        Seq::filter_distributes_over_add(seq![none], seq![none], some);
        let empty = Seq::<Seq<char>>::empty();
        let last = seq![piece].filter(some);
        assert(empty + (empty + last) == empty + (empty + empty) + last);
    } else {
        if prefix_len(p) == 1 {
            assert(p.len() > 1 && p[1] == '/');
        }
        assert(start == 0);
        assert(q.len() == 0);
        assert(piece == p);
        text::separators_part_the_pieces(q, '/', Seq::empty());
        assert(text::split(q, '/')[0] == q);
        lemma_one_kept(q);
        let empty = Seq::<Seq<char>>::empty();
        let last = seq![piece].filter(some);
        assert(text::split(p, '/')[0] == p);
        assert(empty + last == empty + empty + last);
    }
}

proof fn lemma_trimmed_end_is_the_same_path(p: Seq<char>)
    ensures
        key(trim_end(p)) == key(p),
    decreases p.len(),
{
    if p.len() > prefix_len(p) {
        lemma_piece_start(p, p.len() as int);
        lemma_components_and_last_piece(p);
        let piece = p.skip(last_piece(p));
        if piece.len() == 0 || piece == seq!['.'] {
            lemma_trimmed_end_is_the_same_path(without_last_piece(p));
            let q = without_last_piece(p);
            assert(key(q).1 + Seq::<Seq<char>>::empty() == key(q).1);
        }
    }
}

proof fn lemma_components_of_a_prefix(p: Seq<char>)
    requires
        p.len() <= prefix_len(p),
    ensures
        p == seq!['.'] ==> key(p).1 == seq![p],
        p != seq!['.'] ==> key(p).1.len() == 0,
{
    let none = Seq::<char>::empty();
    components_are_the_pieces(p);
    text::separators_part_the_pieces(p, '/', none);
    lemma_one_kept(p);
    lemma_one_kept(none);
    if p == seq!['.'] {
        assert(!p.contains('/'));
        assert(text::split(p, '/')[0] == p);
        assert(seq![seq!['.']] + Seq::<Seq<char>>::empty() == seq![p]);
    } else if p.len() == 0 {
        assert(!p.contains('/'));
    } else {
        assert(is_absolute(p));
        assert(p == none.push('/') + none);
        text::separators_part_the_pieces(none, '/', none);
        Seq::filter_distributes_over_add(seq![none], seq![none], |piece: Seq<char>| counts(piece));
        assert(text::split(p, '/')[0] == none);
    }
}

/// The parent of a path has the same components but for the last one. A path
/// without a component, such as the root, has no parent.
pub proof fn parent_lacks_the_last_component(p: &str, r: Option<String>)
    requires
        call_ensures(parent_of, (p,), r),
    ensures
        r is Some <==> key(p@).1.len() > 0,
        r matches Some(dir) ==> key(dir@).0 == key(p@).0 && key(dir@).1 == key(p@).1.drop_last(),
{
    let t = trim_end(p@);
    lemma_trimmed_end_is_the_same_path(p@);
    lemma_trim_end_leaves_a_component(p@);
    if t.len() > prefix_len(t) {
        let q = without_last_piece(t);
        lemma_components_and_last_piece(t);
        lemma_trimmed_end_is_the_same_path(q);
        assert(key(t).1 == key(q).1.push(t.skip(last_piece(t))));
        assert(key(t).1.drop_last() == key(q).1);
    } else {
        lemma_components_of_a_prefix(t);
        let none = Seq::<char>::empty();
        lemma_components_of_a_prefix(none);
        if t == seq!['.'] {
            assert(key(t).1.drop_last() == key(none).1);
        }
    }
}

/// The file name of a path is its last component, unless that is `.` or `..`.
pub proof fn file_name_is_the_last_component(p: &str, r: Option<String>)
    requires
        call_ensures(file_name_of, (p,), r),
    ensures
        r is Some <==> key(p@).1.len() > 0 && key(p@).1.last() != seq!['.'] && key(p@).1.last()
            != seq!['.', '.'],
        r matches Some(name) ==> name@ == key(p@).1.last(),
{
    let t = trim_end(p@);
    lemma_trimmed_end_is_the_same_path(p@);
    lemma_trim_end_leaves_a_component(p@);
    if t.len() > prefix_len(t) {
        let q = without_last_piece(t);
        lemma_components_and_last_piece(t);
        assert(key(t).1 == key(q).1.push(t.skip(last_piece(t))));
    } else {
        lemma_components_of_a_prefix(t);
    }
}

/// A path with a file name has a parent.
pub proof fn file_name_has_a_parent(p: Seq<char>)
    ensures
        file_name(p) is Some ==> parent(p) is Some,
{
}

} // verus!
