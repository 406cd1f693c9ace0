//! The walk along the `@import` graph of a stylesheet.
//!
//! Reading a file and resolving symbolic links is up to the caller. The walk
//! says which file to read next, and takes what the file imports: each target
//! as it is referenced, which is what its own imports are relative to, and in
//! canonical form, which tells whether it has come up before.

use vstd::prelude::*;
use crate::config::css;
use crate::path;
use crate::path::PathSet;
use crate::text;

verus! {

/// Upper bound on how many `@import` targets a walk will find. Guards against
/// pathologically deep chains.
pub const MAX_IMPORT_GRAPH_SIZE: usize = 32;

/// The state of a walk.
#[verifier::ext_equal]
pub struct WalkView {
    /// The files that have come up, the stylesheet itself among them.
    pub visited: Set<(bool, Seq<Seq<char>>)>,
    /// The files to read, as they are referenced.
    pub queue: Seq<Seq<char>>,
    /// How many of them have been handed out.
    pub next: int,
    /// The targets found, in canonical form.
    pub found: Seq<Seq<char>>,
    /// The upper bound was hit.
    pub capped: bool,
}

/// The beginning of a walk at the stylesheet `main`. Without a canonical form
/// there is nothing to walk.
pub open spec fn walk_start(main: Seq<char>, canonical: Option<Seq<char>>) -> WalkView {
    match canonical {
        Some(c) => WalkView {
            visited: Set::empty().insert(path::key(c)),
            queue: seq![main],
            next: 0,
            found: Seq::empty(),
            capped: false,
        },
        None => WalkView {
            visited: Set::empty(),
            queue: Seq::empty(),
            next: 0,
            found: Seq::empty(),
            capped: false,
        },
    }
}

/// The file to read next.
pub open spec fn next_of(w: WalkView) -> Option<Seq<char>> {
    if !w.capped && 0 <= w.next < w.queue.len() {
        Some(w.queue[w.next])
    } else {
        None
    }
}

/// The state once the next file is handed out.
pub open spec fn advanced(w: WalkView) -> WalkView {
    WalkView { next: w.next + 1, ..w }
}

/// The state after one import: as it is referenced, and in canonical form.
pub open spec fn after_import(w: WalkView, import: (Seq<char>, Seq<char>)) -> WalkView {
    if w.capped || w.found.len() >= MAX_IMPORT_GRAPH_SIZE {
        WalkView { capped: true, ..w }
    } else if w.visited.contains(path::key(import.1)) {
        w
    } else {
        WalkView {
            visited: w.visited.insert(path::key(import.1)),
            found: w.found.push(import.1),
            queue: w.queue.push(import.0),
            ..w
        }
    }
}

/// The state after the imports of a file.
pub open spec fn after_imports(w: WalkView, imports: Seq<(Seq<char>, Seq<char>)>) -> WalkView
    decreases imports.len(),
{
    if imports.len() == 0 {
        w
    } else {
        after_import(after_imports(w, imports.drop_last()), imports.last())
    }
}

/// The walk to its end, where `imports_of` tells what each file imports.
pub open spec fn walked(
    w: WalkView,
    imports_of: spec_fn(Seq<char>) -> Seq<(Seq<char>, Seq<char>)>,
) -> WalkView
    decreases MAX_IMPORT_GRAPH_SIZE + 1 - w.next,
{
    if w.next > MAX_IMPORT_GRAPH_SIZE || next_of(w) is None {
        w
    } else {
        let imports = imports_of(next_of(w)->0);
        proof {
            lemma_after_imports(advanced(w), imports);
        }
        walked(after_imports(advanced(w), imports), imports_of)
    }
}

/// What holds of every state of a walk from the stylesheet with this key.
pub open spec fn walk_ok(w: WalkView, root: (bool, Seq<Seq<char>>)) -> bool {
    &&& w.found.len() <= MAX_IMPORT_GRAPH_SIZE
    &&& w.queue.len() == w.found.len() + 1
    &&& 0 <= w.next <= w.queue.len()
    &&& path::keys(w.found).no_duplicates()
    &&& !path::keys(w.found).contains(root)
    &&& w.visited == path::keys(w.found).to_set().insert(root)
}

pub proof fn lemma_after_imports(w: WalkView, imports: Seq<(Seq<char>, Seq<char>)>)
    ensures
        after_imports(w, imports).next == w.next,
        w.queue.is_prefix_of(after_imports(w, imports).queue),
        w.visited.subset_of(after_imports(w, imports).visited),
        w.capped ==> after_imports(w, imports).capped,
    decreases imports.len(),
{
    if imports.len() > 0 {
        lemma_after_imports(w, imports.drop_last());
    }
}

proof fn lemma_ok_after_import(
    w: WalkView,
    import: (Seq<char>, Seq<char>),
    root: (bool, Seq<Seq<char>>),
)
    requires
        walk_ok(w, root),
    ensures
        walk_ok(after_import(w, import), root),
{
    let after = after_import(w, import);
    if !w.capped && w.found.len() < MAX_IMPORT_GRAPH_SIZE && !w.visited.contains(
        path::key(import.1),
    ) {
        let k = path::key(import.1);
        let before = path::keys(w.found);
        let now = path::keys(after.found);
        assert(now == before.push(k));
        assert(!before.contains(k)) by {
            if before.contains(k) {
                assert(before.to_set().contains(k));
            }
        }
        assert forall|x: (bool, Seq<Seq<char>>)| now.contains(x) <==> (before.contains(x) || x
            == k) by {
            if before.contains(x) {
                let i = choose|i: int| 0 <= i < before.len() && before[i] == x;
                assert(now[i] == x);
            }
            assert(now[before.len() as int] == k);
        }
        assert(now.to_set().insert(root) =~= before.to_set().insert(root).insert(k));
        assert(w.visited.contains(root));
    }
}

proof fn lemma_ok_after_imports(
    w: WalkView,
    imports: Seq<(Seq<char>, Seq<char>)>,
    root: (bool, Seq<Seq<char>>),
)
    requires
        walk_ok(w, root),
    ensures
        walk_ok(after_imports(w, imports), root),
    decreases imports.len(),
{
    if imports.len() > 0 {
        lemma_ok_after_imports(w, imports.drop_last(), root);
        lemma_ok_after_import(after_imports(w, imports.drop_last()), imports.last(), root);
    }
}

proof fn lemma_ok_walked(
    w: WalkView,
    imports_of: spec_fn(Seq<char>) -> Seq<(Seq<char>, Seq<char>)>,
    root: (bool, Seq<Seq<char>>),
)
    requires
        walk_ok(w, root),
    ensures
        walk_ok(walked(w, imports_of), root),
        next_of(walked(w, imports_of)) is None,
    decreases MAX_IMPORT_GRAPH_SIZE + 1 - w.next,
{
    if w.next <= MAX_IMPORT_GRAPH_SIZE && next_of(w) is Some {
        let imports = imports_of(next_of(w)->0);
        lemma_after_imports(advanced(w), imports);
        lemma_ok_after_imports(advanced(w), imports, root);
        lemma_ok_walked(after_imports(advanced(w), imports), imports_of, root);
    }
}

proof fn lemma_ok_start(main: Seq<char>, canonical: Seq<char>)
    ensures
        walk_ok(walk_start(main, Some(canonical)), path::key(canonical)),
{
    let w = walk_start(main, Some(canonical));
    assert(path::keys(w.found) == Seq::<(bool, Seq<Seq<char>>)>::empty());
    assert(w.visited =~= path::keys(w.found).to_set().insert(path::key(canonical)));
}

/// Whatever files import, even each other in a circle, a walk ends: it reads
/// the stylesheet and at most as many files as there may be targets. No target
/// is found twice, and the stylesheet itself is none.
pub proof fn walk_ends_with_distinct_targets(
    main: Seq<char>,
    canonical: Seq<char>,
    imports_of: spec_fn(Seq<char>) -> Seq<(Seq<char>, Seq<char>)>,
)
    ensures
        ({
            let end = walked(walk_start(main, Some(canonical)), imports_of);
            &&& next_of(end) is None
            &&& end.next <= MAX_IMPORT_GRAPH_SIZE + 1
            &&& end.found.len() <= MAX_IMPORT_GRAPH_SIZE
            &&& path::keys(end.found).no_duplicates()
            &&& !path::keys(end.found).contains(path::key(canonical))
        }),
{
    lemma_ok_start(main, canonical);
    lemma_ok_walked(walk_start(main, Some(canonical)), imports_of, path::key(canonical));
}

/// The imports of each file that has been handed out have all come up.
pub open spec fn closed_so_far(
    w: WalkView,
    imports_of: spec_fn(Seq<char>) -> Seq<(Seq<char>, Seq<char>)>,
) -> bool {
    forall|i: int, j: int|
        0 <= i < w.next && 0 <= j < imports_of(w.queue[i]).len() ==> w.visited.contains(
            path::key((#[trigger] imports_of(w.queue[i])[j]).1),
        )
}

proof fn lemma_all_come_up(w: WalkView, imports: Seq<(Seq<char>, Seq<char>)>, j: int)
    requires
        0 <= j < imports.len(),
        !after_imports(w, imports).capped,
    ensures
        after_imports(w, imports).visited.contains(path::key(imports[j].1)),
    decreases imports.len(),
{
    let before = after_imports(w, imports.drop_last());
    if j < imports.len() - 1 {
        assert(imports.drop_last()[j] == imports[j]);
        lemma_all_come_up(w, imports.drop_last(), j);
    }
}

proof fn lemma_closed(
    w: WalkView,
    imports_of: spec_fn(Seq<char>) -> Seq<(Seq<char>, Seq<char>)>,
    root: (bool, Seq<Seq<char>>),
)
    requires
        walk_ok(w, root),
        closed_so_far(w, imports_of),
    ensures
        !walked(w, imports_of).capped ==> closed_so_far(walked(w, imports_of), imports_of)
            && walked(w, imports_of).next == walked(w, imports_of).queue.len(),
    decreases MAX_IMPORT_GRAPH_SIZE + 1 - w.next,
{
    if w.next <= MAX_IMPORT_GRAPH_SIZE && next_of(w) is Some {
        let imports = imports_of(next_of(w)->0);
        let after = after_imports(advanced(w), imports);
        lemma_after_imports(advanced(w), imports);
        lemma_ok_after_imports(advanced(w), imports, root);
        if after.capped {
            lemma_capped_stays(after, imports_of);
        } else {
            assert forall|i: int, j: int|
                0 <= i < after.next && 0 <= j < imports_of(
                    after.queue[i],
                ).len() implies after.visited.contains(
                path::key((#[trigger] imports_of(after.queue[i])[j]).1),
            ) by {
                assert(after.queue[i] == w.queue[i]);
                if i == w.next {
                    lemma_all_come_up(advanced(w), imports, j);
                } else {
                    assert(w.visited.contains(path::key(imports_of(w.queue[i])[j].1)));
                }
            }
            lemma_closed(after, imports_of, root);
        }
    }
}

proof fn lemma_capped_stays(
    w: WalkView,
    imports_of: spec_fn(Seq<char>) -> Seq<(Seq<char>, Seq<char>)>,
)
    requires
        w.capped,
    ensures
        walked(w, imports_of) == w,
{
}

/// Unless the upper bound was hit, a walk finds everything that can be reached:
/// what the stylesheet and every target import is a target, or the stylesheet.
pub proof fn walk_finds_everything_below_the_bound(
    main: Seq<char>,
    canonical: Seq<char>,
    imports_of: spec_fn(Seq<char>) -> Seq<(Seq<char>, Seq<char>)>,
)
    ensures
        ({
            let end = walked(walk_start(main, Some(canonical)), imports_of);
            &&& end.visited == path::keys(end.found).to_set().insert(path::key(canonical))
            &&& end.queue.len() == end.found.len() + 1
            &&& !end.capped ==> forall|i: int, j: int|
                0 <= i < end.queue.len() && 0 <= j < imports_of(end.queue[i]).len()
                    ==> end.visited.contains(
                    path::key((#[trigger] imports_of(end.queue[i])[j]).1),
                )
        }),
{
    let w = walk_start(main, Some(canonical));
    lemma_ok_start(main, canonical);
    lemma_ok_walked(w, imports_of, path::key(canonical));
    lemma_closed(w, imports_of, path::key(canonical));
}

/// Each target is what a file that was read imports, and is itself read in the
/// form in which that file references it.
pub open spec fn comes_from_a_file(
    w: WalkView,
    imports_of: spec_fn(Seq<char>) -> Seq<(Seq<char>, Seq<char>)>,
    k: int,
) -> bool {
    exists|i: int, j: int|
        0 <= i < w.next && 0 <= j < imports_of(w.queue[i]).len() && #[trigger] imports_of(
            w.queue[i],
        )[j] == (w.queue[k + 1], w.found[k])
}

proof fn lemma_new_targets(w: WalkView, imports: Seq<(Seq<char>, Seq<char>)>, k: int)
    requires
        w.queue.len() == w.found.len() + 1,
        w.found.len() <= k < after_imports(w, imports).found.len(),
    ensures
        after_imports(w, imports).queue.len() == after_imports(w, imports).found.len() + 1,
        w.found.is_prefix_of(after_imports(w, imports).found),
        imports.contains(
            (after_imports(w, imports).queue[k + 1], after_imports(w, imports).found[k]),
        ),
    decreases imports.len(),
{
    if imports.len() > 0 {
        let front = imports.drop_last();
        let before = after_imports(w, front);
        let after = after_imports(w, imports);
        lemma_lengths(w, front);
        lemma_lengths(w, imports);
        if k < before.found.len() {
            lemma_new_targets(w, front, k);
            let j = choose|j: int|
                0 <= j < front.len() && front[j] == (before.queue[k + 1], before.found[k]);
            assert(imports[j] == front[j]);
        } else {
            assert(imports[imports.len() - 1] == (after.queue[k + 1], after.found[k]));
        }
    }
}

proof fn lemma_lengths(w: WalkView, imports: Seq<(Seq<char>, Seq<char>)>)
    requires
        w.queue.len() == w.found.len() + 1,
    ensures
        after_imports(w, imports).queue.len() == after_imports(w, imports).found.len() + 1,
        w.found.is_prefix_of(after_imports(w, imports).found),
        w.queue.is_prefix_of(after_imports(w, imports).queue),
    decreases imports.len(),
{
    if imports.len() > 0 {
        lemma_lengths(w, imports.drop_last());
    }
}

proof fn lemma_sound(
    w: WalkView,
    imports_of: spec_fn(Seq<char>) -> Seq<(Seq<char>, Seq<char>)>,
    root: (bool, Seq<Seq<char>>),
)
    requires
        walk_ok(w, root),
        forall|k: int| 0 <= k < w.found.len() ==> comes_from_a_file(w, imports_of, k),
    ensures
        forall|k: int|
            0 <= k < walked(w, imports_of).found.len() ==> comes_from_a_file(
                walked(w, imports_of),
                imports_of,
                k,
            ),
    decreases MAX_IMPORT_GRAPH_SIZE + 1 - w.next,
{
    if w.next <= MAX_IMPORT_GRAPH_SIZE && next_of(w) is Some {
        let file = next_of(w)->0;
        let imports = imports_of(file);
        let after = after_imports(advanced(w), imports);
        lemma_after_imports(advanced(w), imports);
        lemma_ok_after_imports(advanced(w), imports, root);
        lemma_lengths(advanced(w), imports);
        assert forall|k: int| 0 <= k < after.found.len() implies comes_from_a_file(
            after,
            imports_of,
            k,
        ) by {
            if k < w.found.len() {
                assert(comes_from_a_file(w, imports_of, k));
                let (i, j) = choose|i: int, j: int|
                    0 <= i < w.next && 0 <= j < imports_of(w.queue[i]).len()
                        && #[trigger] imports_of(w.queue[i])[j] == (w.queue[k + 1], w.found[k]);
                assert(after.queue[i] == w.queue[i]);
                assert(after.queue[k + 1] == w.queue[k + 1]);
                assert(after.found[k] == w.found[k]);
                assert(imports_of(after.queue[i])[j] == (after.queue[k + 1], after.found[k]));
            } else {
                lemma_new_targets(advanced(w), imports, k);
                let j = choose|j: int|
                    0 <= j < imports.len() && imports[j] == (after.queue[k + 1], after.found[k]);
                assert(after.queue[w.next] == w.queue[w.next]);
                assert(imports_of(after.queue[w.next])[j] == (after.queue[k + 1], after.found[k]));
            }
        }
        lemma_sound(after, imports_of, root);
        assert(walked(w, imports_of) == walked(after, imports_of));
    } else {
        assert(walked(w, imports_of) == w);
    }
}

/// A walk finds nothing but imports of the stylesheet and of targets.
pub proof fn walk_finds_only_imports(
    main: Seq<char>,
    canonical: Seq<char>,
    imports_of: spec_fn(Seq<char>) -> Seq<(Seq<char>, Seq<char>)>,
    k: int,
)
    requires
        0 <= k < walked(walk_start(main, Some(canonical)), imports_of).found.len(),
    ensures
        comes_from_a_file(walked(walk_start(main, Some(canonical)), imports_of), imports_of, k),
{
    lemma_ok_start(main, canonical);
    lemma_sound(walk_start(main, Some(canonical)), imports_of, path::key(canonical));
}

/// What the pairs hold.
pub open spec fn pairs(v: Seq<(String, String)>) -> Seq<(Seq<char>, Seq<char>)> {
    v.map_values(|p: (String, String)| (p.0@, p.1@))
}

/// A walk along the `@import` graph of a stylesheet.
#[derive(Debug)]
pub struct ImportWalk {
    visited: PathSet,
    queue: Vec<String>,
    next: usize,
    found: Vec<String>,
    capped: bool,
}

impl View for ImportWalk {
    type V = WalkView;

    closed spec fn view(&self) -> WalkView {
        WalkView {
            visited: self.visited@,
            queue: text::strings(self.queue@),
            next: self.next as int,
            found: text::strings(self.found@),
            capped: self.capped,
        }
    }
}

impl ImportWalk {
    /// The parts of the walk are in order.
    pub closed spec fn wf(&self) -> bool {
        self.visited.wf() && self.next <= self.queue@.len()
    }

    /// Begins a walk at the stylesheet `main_css`. Where its canonical form
    /// cannot be had, there is nothing to walk.
    pub fn start(main_css: &str, main_canonical: Option<&str>) -> (r: ImportWalk)
        ensures
            r.wf(),
            r@ == walk_start(
                main_css@,
                match main_canonical {
                    Some(c) => Some(c@),
                    None => None,
                },
            ),
    {
        let mut visited = PathSet::new();
        let mut queue: Vec<String> = Vec::new();
        let found: Vec<String> = Vec::new();
        assert(text::strings(found@) == Seq::<Seq<char>>::empty());
        assert(text::strings(queue@) == Seq::<Seq<char>>::empty());
        if let Some(c) = main_canonical {
            visited.insert(c);
            queue.push(main_css.to_owned());
            assert(text::strings(queue@) == seq![main_css@]);
        }
        ImportWalk { visited, queue, next: 0, found, capped: false }
    }

    /// Hands out the file to read next, as it is referenced; `None` at the end
    /// of the walk.
    pub fn next_file(&mut self) -> (r: Option<String>)
        requires
            old(self).wf(),
        ensures
            final(self).wf(),
            match r {
                Some(file) => next_of(old(self)@) == Some(file@) && final(self)@ == advanced(
                    old(self)@,
                ),
                None => next_of(old(self)@) is None && final(self)@ == old(self)@,
            },
    {
        if self.capped || self.next >= self.queue.len() {
            return None;
        }
        let file = self.queue[self.next].clone();
        assert(self@.queue[self.next as int] == file@);
        self.next += 1;
        Some(file)
    }

    /// Takes what the file that was handed out imports, in order: each target
    /// as it is referenced, and in canonical form. A file that cannot be read
    /// imports nothing.
    pub fn take_imports(&mut self, imports: &Vec<(String, String)>)
        requires
            old(self).wf(),
        ensures
            final(self).wf(),
            final(self)@ == after_imports(old(self)@, pairs(imports@)),
    {
        let ghost start = self@;
        let ghost all = pairs(imports@);
        let mut i: usize = 0;
        assert(all.take(0) == Seq::<(Seq<char>, Seq<char>)>::empty());
        while i < imports.len()
            invariant
                i <= imports@.len(),
                all == pairs(imports@),
                self.wf(),
                self@ == after_imports(start, all.take(i as int)),
            decreases imports@.len() - i,
        {
            assert(all.take(i as int + 1).drop_last() == all.take(i as int));
            let ghost before = self@;
            assert(text::strings(self.found@).len() == self.found@.len());
            if self.capped || self.found.len() >= MAX_IMPORT_GRAPH_SIZE {
                self.capped = true;
            } else if self.visited.insert(imports[i].1.as_str()) {
                self.found.push(imports[i].1.clone());
                // As it is referenced: its own imports are relative to that.
                self.queue.push(imports[i].0.clone());
                assert(text::strings(self.found@) == before.found.push(imports@[i as int].1@));
                assert(text::strings(self.queue@) == before.queue.push(imports@[i as int].0@));
            } else {
                assert(self@.visited =~= before.visited);
            }
            assert(self@ == after_import(before, all[i as int]));
            i += 1;
        }
        assert(all.take(i as int) == all);
    }

    /// The targets found, in canonical form, in the order in which they came
    /// up.
    pub fn into_imports(self) -> (r: Vec<String>)
        ensures
            text::strings(r@) == self@.found,
    {
        self.found
    }

    /// Whether the upper bound ended the walk.
    pub fn is_capped(&self) -> (r: bool)
        ensures
            r == self@.capped,
    {
        self.capped
    }
}

/// The files that the imports of a stylesheet in `base_dir` name, in order.
pub open spec fn targets(raw: Seq<Seq<char>>, base_dir: Seq<char>) -> Seq<Seq<char>>
    decreases raw.len(),
{
    if raw.len() == 0 {
        Seq::empty()
    } else {
        let before = targets(raw.drop_last(), base_dir);
        match css::import_target(raw.last(), base_dir) {
            Some(file) => before.push(file),
            None => before,
        }
    }
}

/// The files that a stylesheet with this content imports, as it references
/// them. `None` where the path of the stylesheet has no directory.
pub fn direct_imports(css_file: &str, content: &str) -> (r: Option<Vec<String>>)
    ensures
        match (r, path::parent(css_file@)) {
            (Some(files), Some(dir)) => text::strings(files@) == targets(
                css::css_imports(content@),
                dir,
            ),
            (None, None) => true,
            _ => false,
        },
{
    let dir = match path::parent_of(css_file) {
        Some(dir) => dir,
        None => return None,
    };
    let raw = css::parse_css_imports(content);
    let ghost all = text::strings(raw@);
    let mut out: Vec<String> = Vec::new();
    let mut i: usize = 0;
    assert(text::strings(out@) == Seq::<Seq<char>>::empty());
    while i < raw.len()
        invariant
            i <= raw@.len(),
            all == text::strings(raw@),
            text::strings(out@) == targets(all.take(i as int), dir@),
        decreases raw@.len() - i,
    {
        assert(all.take(i as int + 1).drop_last() == all.take(i as int));
        assert(all[i as int] == raw@[i as int]@);
        if let Some(file) = css::resolve_import_path(raw[i].as_str(), dir.as_str()) {
            let ghost before = text::strings(out@);
            out.push(file);
            assert(text::strings(out@) == before.push(file@));
        }
        i += 1;
    }
    assert(all.take(i as int) == all);
    Some(out)
}

proof fn lemma_targets_of_both(a: Seq<Seq<char>>, b: Seq<Seq<char>>, base_dir: Seq<char>)
    ensures
        targets(a + b, base_dir) == targets(a, base_dir) + targets(b, base_dir),
    decreases b.len(),
{
    if b.len() == 0 {
        assert(a + b == a);
        assert(targets(a, base_dir) + targets(b, base_dir) == targets(a, base_dir));
    } else {
        let all = a + b;
        assert(all.drop_last() == a + b.drop_last());
        assert(all.last() == b.last());
        lemma_targets_of_both(a, b.drop_last(), base_dir);
        assert(targets(all, base_dir) == targets(a, base_dir) + targets(b, base_dir));
    }
}

proof fn lemma_one_target(raw: Seq<char>, base_dir: Seq<char>)
    ensures
        targets(seq![raw], base_dir) == (match css::import_target(raw, base_dir) {
            Some(file) => seq![file],
            None => Seq::<Seq<char>>::empty(),
        }),
{
    assert(seq![raw].drop_last() == Seq::<Seq<char>>::empty());
    assert(targets(seq![raw].drop_last(), base_dir) == Seq::<Seq<char>>::empty());
    assert(seq![raw].last() == raw);
    assert(targets(seq![raw], base_dir) =~= (match css::import_target(raw, base_dir) {
        Some(file) => seq![file],
        None => Seq::<Seq<char>>::empty(),
    }));
}

proof fn lemma_target_is_there(raw: Seq<Seq<char>>, base_dir: Seq<char>, i: int)
    requires
        0 <= i < raw.len(),
    ensures
        css::import_target(raw[i], base_dir) matches Some(file) ==> {
            let before = targets(raw.take(i), base_dir).len() as int;
            &&& 0 <= before < targets(raw, base_dir).len()
            &&& targets(raw, base_dir)[before] == file
        },
{
    assert(raw == raw.take(i) + (seq![raw[i]] + raw.skip(i + 1)));
    lemma_targets_of_both(raw.take(i), seq![raw[i]] + raw.skip(i + 1), base_dir);
    lemma_targets_of_both(seq![raw[i]], raw.skip(i + 1), base_dir);
    lemma_one_target(raw[i], base_dir);
}

proof fn lemma_target_is_an_import(raw: Seq<Seq<char>>, base_dir: Seq<char>, k: int) -> (i: int)
    requires
        0 <= k < targets(raw, base_dir).len(),
    ensures
        0 <= i < raw.len(),
        css::import_target(raw[i], base_dir) == Some(targets(raw, base_dir)[k]),
        targets(raw.take(i), base_dir).len() == k,
    decreases raw.len(),
{
    let front = raw.drop_last();
    let before = targets(front, base_dir);
    if k < before.len() {
        let i = lemma_target_is_an_import(front, base_dir, k);
        assert(front.take(i) == raw.take(i));
        i
    } else {
        assert(raw.take(raw.len() - 1) == front);
        raw.len() - 1
    }
}

proof fn lemma_all_targets(raw: Seq<Seq<char>>, base_dir: Seq<char>)
    requires
        forall|i: int|
            0 <= i < raw.len() ==> css::import_target(#[trigger] raw[i], base_dir) is Some,
    ensures
        targets(raw, base_dir).len() == raw.len(),
        forall|i: int|
            0 <= i < raw.len() ==> css::import_target(#[trigger] raw[i], base_dir) == Some(
                targets(raw, base_dir)[i],
            ),
    decreases raw.len(),
{
    if raw.len() > 0 {
        let front = raw.drop_last();
        assert forall|i: int| 0 <= i < front.len() implies css::import_target(
            #[trigger] front[i],
            base_dir,
        ) is Some by {
            assert(front[i] == raw[i]);
        }
        lemma_all_targets(front, base_dir);
        assert(css::import_target(raw[raw.len() - 1], base_dir) is Some);
        assert forall|i: int| 0 <= i < raw.len() implies css::import_target(
            #[trigger] raw[i],
            base_dir,
        ) == Some(targets(raw, base_dir)[i]) by {
            if i < front.len() {
                assert(front[i] == raw[i]);
            }
        }
    }
}

/// The imports of a stylesheet are all there: each import that names a file is in
/// the result, and nothing else is. Where every import names a file, the result
/// has one file for each, in their order.
pub proof fn every_import_is_reported(css_file: &str, content: &str, r: Option<Vec<String>>)
    requires
        call_ensures(direct_imports, (css_file, content), r),
    ensures
        r is Some <==> path::parent(css_file@) is Some,
        r matches Some(files) ==> {
            let dir = path::parent(css_file@)->0;
            let found = text::strings(files@);
            let raw = css::css_imports(content@);
            &&& forall|i: int|
                0 <= i < raw.len() ==> (css::import_target(#[trigger] raw[i], dir) matches Some(
                    file,
                ) ==> found.contains(file))
            &&& forall|k: int|
                0 <= k < found.len() ==> exists|i: int|
                    0 <= i < raw.len() && css::import_target(#[trigger] raw[i], dir) == Some(
                        #[trigger] found[k],
                    )
            &&& found.len() <= raw.len()
            &&& (forall|i: int|
                0 <= i < raw.len() ==> css::import_target(#[trigger] raw[i], dir) is Some)
                ==> found.len() == raw.len() && forall|i: int|
                0 <= i < raw.len() ==> css::import_target(#[trigger] raw[i], dir) == Some(found[i])
        },
{
    if let Some(files) = r {
        let dir = path::parent(css_file@)->0;
        let found = text::strings(files@);
        let raw = css::css_imports(content@);
        assert(found == targets(raw, dir));
        lemma_fewer_targets(raw, dir);
        assert forall|i: int| 0 <= i < raw.len() implies (css::import_target(
            #[trigger] raw[i],
            dir,
        ) matches Some(file) ==> found.contains(file)) by {
            lemma_target_is_there(raw, dir, i);
        }
        assert forall|k: int| 0 <= k < found.len() implies exists|i: int|
            0 <= i < raw.len() && css::import_target(#[trigger] raw[i], dir) == Some(
                #[trigger] found[k],
            ) by {
            let i = lemma_target_is_an_import(raw, dir, k);
            assert(css::import_target(raw[i], dir) == Some(found[k]));
        }
        if forall|i: int| 0 <= i < raw.len() ==> css::import_target(#[trigger] raw[i], dir) is Some {
            lemma_all_targets(raw, dir);
        }
    }
}

proof fn lemma_fewer_targets(raw: Seq<Seq<char>>, base_dir: Seq<char>)
    ensures
        targets(raw, base_dir).len() <= raw.len(),
    decreases raw.len(),
{
    if raw.len() > 0 {
        lemma_fewer_targets(raw.drop_last(), base_dir);
    }
}

/// Files are reported in the order in which the stylesheet imports them: of two
/// imports the earlier one has the earlier file.
pub proof fn imports_keep_their_order(raw: Seq<Seq<char>>, base_dir: Seq<char>, k: int, l: int) -> (
    places: (int, int))
    requires
        0 <= k < l < targets(raw, base_dir).len(),
    ensures
        0 <= places.0 < places.1 < raw.len(),
        css::import_target(raw[places.0], base_dir) == Some(targets(raw, base_dir)[k]),
        css::import_target(raw[places.1], base_dir) == Some(targets(raw, base_dir)[l]),
{
    let i = lemma_target_is_an_import(raw, base_dir, k);
    let j = lemma_target_is_an_import(raw, base_dir, l);
    if j <= i {
        assert(raw.take(i) == raw.take(j) + raw.subrange(j, i));
        lemma_targets_of_both(raw.take(j), raw.subrange(j, i), base_dir);
    }
    (i, j)
}

proof fn lemma_reading_order(
    w: WalkView,
    imports_of: spec_fn(Seq<char>) -> Seq<(Seq<char>, Seq<char>)>,
    root: (bool, Seq<Seq<char>>),
)
    requires
        walk_ok(w, root),
        w.capped ==> w.found.len() == MAX_IMPORT_GRAPH_SIZE,
    ensures
        w.queue.is_prefix_of(walked(w, imports_of).queue),
        w.found.is_prefix_of(walked(w, imports_of).found),
        walked(w, imports_of).capped ==> walked(w, imports_of).found.len()
            == MAX_IMPORT_GRAPH_SIZE,
    decreases MAX_IMPORT_GRAPH_SIZE + 1 - w.next,
{
    if w.next <= MAX_IMPORT_GRAPH_SIZE && next_of(w) is Some {
        let imports = imports_of(next_of(w)->0);
        let after = after_imports(advanced(w), imports);
        lemma_after_imports(advanced(w), imports);
        lemma_ok_after_imports(advanced(w), imports, root);
        lemma_lengths(advanced(w), imports);
        lemma_capped_when_full(advanced(w), imports, root);
        lemma_reading_order(after, imports_of, root);
    }
}

proof fn lemma_capped_when_full(
    w: WalkView,
    imports: Seq<(Seq<char>, Seq<char>)>,
    root: (bool, Seq<Seq<char>>),
)
    requires
        walk_ok(w, root),
        w.capped ==> w.found.len() == MAX_IMPORT_GRAPH_SIZE,
    ensures
        after_imports(w, imports).capped ==> after_imports(w, imports).found.len()
            == MAX_IMPORT_GRAPH_SIZE,
    decreases imports.len(),
{
    if imports.len() > 0 {
        lemma_capped_when_full(w, imports.drop_last(), root);
        lemma_ok_after_imports(w, imports.drop_last(), root);
    }
}

/// A walk begins with the stylesheet itself, and is cut short only once it has
/// found 32 targets.
pub proof fn walk_begins_at_the_stylesheet(
    main: Seq<char>,
    canonical: Seq<char>,
    imports_of: spec_fn(Seq<char>) -> Seq<(Seq<char>, Seq<char>)>,
)
    ensures
        ({
            let end = walked(walk_start(main, Some(canonical)), imports_of);
            &&& end.queue.len() > 0
            &&& end.queue[0] == main
            &&& end.capped ==> end.found.len() == 32
            &&& !end.capped ==> end.next == end.queue.len()
        }),
{
    let w = walk_start(main, Some(canonical));
    lemma_ok_start(main, canonical);
    lemma_reading_order(w, imports_of, path::key(canonical));
    lemma_closed(w, imports_of, path::key(canonical));
}

/// The imports of a stylesheet, without those that name no file, are resolved one by
/// one: as many files come out, each from its own import, in order.
pub proof fn imports_are_resolved_one_by_one(css_file: &str, content: &str, files: Vec<String>)
    requires
        call_ensures(direct_imports, (css_file, content), Some(files)),
    ensures
        ({
            let dir = path::parent(css_file@)->0;
            let kept = css::css_imports(content@).filter(
                |raw: Seq<char>| css::import_target(raw, dir) is Some,
            );
            &&& files@.len() == kept.len()
            &&& forall|i: int|
                0 <= i < kept.len() ==> css::import_target(#[trigger] kept[i], dir) == Some(
                    files@[i]@,
                )
        }),
{
    let dir = path::parent(css_file@)->0;
    let raw = css::css_imports(content@);
    lemma_targets_of_kept(raw, dir);
    let kept = raw.filter(|raw: Seq<char>| css::import_target(raw, dir) is Some);
    let found = text::strings(files@);
    assert(found == targets(raw, dir));
    assert(found.len() == files@.len());
    assert forall|i: int| 0 <= i < kept.len() implies css::import_target(#[trigger] kept[i], dir)
        == Some(files@[i]@) by {
        assert(found[i] == files@[i]@);
        assert(targets(raw, dir)[i] == found[i]);
    }
}

proof fn lemma_targets_of_kept(raw: Seq<Seq<char>>, dir: Seq<char>)
    ensures
        ({
            let kept = raw.filter(|raw: Seq<char>| css::import_target(raw, dir) is Some);
            &&& targets(raw, dir).len() == kept.len()
            &&& forall|i: int|
                0 <= i < kept.len() ==> css::import_target(kept[i], dir) == Some(
                    #[trigger] targets(raw, dir)[i],
                )
        }),
    decreases raw.len(),
{
    reveal(Seq::filter);
    if raw.len() > 0 {
        lemma_targets_of_kept(raw.drop_last(), dir);
    }
}

/// Targets are found in the order in which a file imports them: of two new ones the
/// earlier is imported earlier.
pub proof fn targets_come_up_in_order(
    w: WalkView,
    imports: Seq<(Seq<char>, Seq<char>)>,
    k: int,
    l: int,
) -> (places: (int, int))
    requires
        w.queue.len() == w.found.len() + 1,
        w.found.len() <= k < l < after_imports(w, imports).found.len(),
    ensures
        0 <= places.0 < places.1 < imports.len(),
        imports[places.0] == (
            after_imports(w, imports).queue[k + 1],
            after_imports(w, imports).found[k],
        ),
        imports[places.1] == (
            after_imports(w, imports).queue[l + 1],
            after_imports(w, imports).found[l],
        ),
    decreases imports.len(),
{
    let front = imports.drop_last();
    let before = after_imports(w, front);
    lemma_lengths(w, front);
    lemma_lengths(w, imports);
    if l < before.found.len() {
        let places = targets_come_up_in_order(w, front, k, l);
        assert(imports[places.0] == front[places.0] && imports[places.1] == front[places.1]);
        places
    } else {
        lemma_new_targets(w, front, k);
        let after = after_imports(w, imports);
        let p = choose|p: int|
            0 <= p < front.len() && front[p] == (before.queue[k + 1], before.found[k]);
        assert(imports[p] == front[p]);
        (p, imports.len() - 1)
    }
}

/// One more import adds a target exactly where it has not come up and fewer than 32
/// have been found; with so many found, it cuts the walk short.
pub proof fn new_imports_are_added(w: WalkView, import: (Seq<char>, Seq<char>))
    requires
        !w.capped,
    ensures
        ({
            let after = after_imports(w, seq![import]);
            &&& w.found.len() >= 32 ==> after.capped && after.found == w.found && after.queue
                == w.queue
            &&& w.found.len() < 32 && w.visited.contains(path::key(import.1)) ==> after == w
            &&& w.found.len() < 32 && !w.visited.contains(path::key(import.1)) ==> {
                &&& !after.capped
                &&& after.found == w.found + seq![import.1]
                &&& after.queue == w.queue + seq![import.0]
                &&& after.visited.contains(path::key(import.1))
                &&& after.next == w.next
            }
        }),
{
    let one = seq![import];
    assert(one.drop_last() == Seq::<(Seq<char>, Seq<char>)>::empty());
    assert(one.last() == import);
    assert(after_imports(w, one.drop_last()) == w);
    assert(w.found.push(import.1) == w.found + seq![import.1]);
    assert(w.queue.push(import.0) == w.queue + seq![import.0]);
}

/// Files are handed out one after the other, in the order in which they came up, and
/// each once, until the walk is cut short. Without a canonical form of the stylesheet
/// there is nothing to hand out.
pub proof fn files_are_handed_out_in_order(w: WalkView, main: Seq<char>)
    ensures
        !w.capped && 0 <= w.next < w.queue.len() ==> next_of(w) == Some(w.queue[w.next]),
        w.capped || w.next >= w.queue.len() ==> next_of(w) is None,
        advanced(w).next == w.next + 1,
        advanced(w).queue == w.queue && advanced(w).found == w.found && advanced(w).visited
            == w.visited && advanced(w).capped == w.capped,
        next_of(walk_start(main, None)) is None,
        walk_start(main, None).found.len() == 0,
        next_of(walk_start(main, Some(main))) == Some(main),
{
}

} // verus!
