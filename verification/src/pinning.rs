//! Pinned-app persistence shared between the dock and drawer.
//!
//! The cache file stores one desktop ID per line (no `.desktop` suffix).

use vstd::prelude::*;
use crate::path;
use crate::text;

verus! {

/// `c` in lower case, where it is an ASCII letter.
pub open spec fn ascii_lower(c: char) -> char {
    if 'A' <= c <= 'Z' {
        (c as u32 + 32) as char
    } else {
        c
    }
}

/// What two ids have in common when they are the same but for white space at
/// their ends and the case of ASCII letters.
pub open spec fn id_key(id: Seq<char>) -> Seq<char> {
    text::trim(id).map_values(|c: char| ascii_lower(c))
}

/// An id is in the list.
pub open spec fn in_list(list: Seq<Seq<char>>, id: Seq<char>) -> bool {
    exists|i: int| 0 <= i < list.len() && id_key(#[trigger] list[i]) == id_key(id)
}

/// The list after pinning: the id behind it, trimmed, unless it is there.
pub open spec fn after_pin(list: Seq<Seq<char>>, id: Seq<char>) -> Seq<Seq<char>> {
    if in_list(list, id) {
        list
    } else {
        list.push(text::trim(id))
    }
}

/// The list after unpinning: what is not the id stays, in order.
pub open spec fn after_unpin(list: Seq<Seq<char>>, id: Seq<char>) -> Seq<Seq<char>>
    decreases list.len(),
{
    if list.len() == 0 {
        Seq::empty()
    } else {
        let before = after_unpin(list.drop_last(), id);
        if id_key(list.last()) == id_key(id) {
            before
        } else {
            before.push(list.last())
        }
    }
}

fn lower(c: char) -> (r: char)
    ensures
        r == ascii_lower(c),
{
    if 'A' <= c && c <= 'Z' {
        (c as u8 + 32) as char
    } else {
        c
    }
}

/// Whether the two ids are the same but for white space and letter case.
fn same_id(a: &str, b: &str) -> (r: bool)
    ensures
        r == (id_key(a@) == id_key(b@)),
{
    let a_chars = text::chars_of(a);
    let b_chars = text::chars_of(b);
    let x = text::trimmed(a_chars.as_slice());
    let y = text::trimmed(b_chars.as_slice());
    if x.len() != y.len() {
        assert(id_key(a@).len() != id_key(b@).len());
        return false;
    }
    let mut i: usize = 0;
    while i < x.len()
        invariant
            i <= x@.len(),
            x@.len() == y@.len(),
            x@ == text::trim(a@),
            y@ == text::trim(b@),
            forall|k: int| 0 <= k < i ==> id_key(a@)[k] == id_key(b@)[k],
        decreases x@.len() - i,
    {
        if lower(x[i]) != lower(y[i]) {
            assert(id_key(a@)[i as int] != id_key(b@)[i as int]);
            return false;
        }
        i += 1;
    }
    assert(id_key(a@) == id_key(b@));
    true
}

/// Checks if a task ID is in the pinned list (case-insensitive).
pub fn is_pinned(pinned: &[String], task_id: &str) -> (r: bool)
    ensures
        r == in_list(text::strings(pinned@), task_id@),
{
    let ghost list = text::strings(pinned@);
    let mut i: usize = 0;
    while i < pinned.len()
        invariant
            i <= pinned@.len(),
            list == text::strings(pinned@),
            forall|k: int| 0 <= k < i ==> id_key(#[trigger] list[k]) != id_key(task_id@),
        decreases pinned@.len() - i,
    {
        assert(list[i as int] == pinned@[i as int]@);
        if same_id(pinned[i].as_str(), task_id) {
            return true;
        }
        i += 1;
    }
    false
}

/// Adds an item to the pinned list if not already present (case-insensitive).
/// Returns true if the item was added.
pub fn pin_item(pinned: &mut Vec<String>, item_id: &str) -> (r: bool)
    ensures
        r == !in_list(text::strings(old(pinned)@), item_id@),
        text::strings(final(pinned)@) == after_pin(text::strings(old(pinned)@), item_id@),
{
    if is_pinned(pinned.as_slice(), item_id) {
        return false;
    }
    let ghost before = text::strings(pinned@);
    let id = text::trimmed_text(item_id);
    pinned.push(id);
    assert(text::strings(pinned@) == before.push(id@));
    true
}

/// Removes an item from the pinned list (case-insensitive).
/// Returns true if the item was removed.
pub fn unpin_item(pinned: &mut Vec<String>, item_id: &str) -> (r: bool)
    ensures
        r == in_list(text::strings(old(pinned)@), item_id@),
        text::strings(final(pinned)@) == after_unpin(text::strings(old(pinned)@), item_id@),
{
    let ghost list = text::strings(pinned@);
    let mut kept: Vec<String> = Vec::new();
    let mut removed = false;
    let mut i: usize = 0;
    while i < pinned.len()
        invariant
            i <= pinned@.len(),
            *pinned == *old(pinned),
            list == text::strings(pinned@),
            text::strings(kept@) == after_unpin(list.take(i as int), item_id@),
            removed == (exists|k: int|
                0 <= k < i && id_key(#[trigger] list[k]) == id_key(item_id@)),
        decreases pinned@.len() - i,
    {
        assert(list[i as int] == pinned@[i as int]@);
        assert(list.take(i as int + 1).drop_last() == list.take(i as int));
        if same_id(pinned[i].as_str(), item_id) {
            removed = true;
        } else {
            let ghost before = text::strings(kept@);
            kept.push(pinned[i].clone());
            assert(text::strings(kept@) == before.push(list[i as int]));
        }
        i += 1;
    }
    assert(list.take(i as int) == list);
    *pinned = kept;
    removed
}

/// What the list looks like in its file: one line for each item that is not
/// empty.
pub open spec fn file_text(list: Seq<Seq<char>>) -> Seq<char>
    decreases list.len(),
{
    if list.len() == 0 {
        Seq::empty()
    } else {
        let rest = file_text(list.skip(1));
        if list[0].len() == 0 {
            rest
        } else {
            list[0].push('\n') + rest
        }
    }
}

/// The content of the file for the pinned list (one item per line).
pub fn save_pinned(pinned: &[String]) -> (r: String)
    ensures
        r@ == file_text(text::strings(pinned@)),
{
    let ghost list = text::strings(pinned@);
    let mut out = String::new();
    let mut i: usize = 0;
    assert(list.skip(0) == list);
    while i < pinned.len()
        invariant
            i <= pinned@.len(),
            list == text::strings(pinned@),
            out@ + file_text(list.skip(i as int)) == file_text(list),
        decreases pinned@.len() - i,
    {
        let ghost before = out@;
        assert(list.skip(i as int).skip(1) == list.skip(i as int + 1));
        assert(list.skip(i as int)[0] == pinned@[i as int]@);
        if !pinned[i].as_str().is_empty() {
            out.append(pinned[i].as_str());
            out.push('\n');
            assert(out@ + file_text(list.skip(i as int + 1)) == before + file_text(
                list.skip(i as int),
            ));
        }
        i += 1;
    }
    assert(list.skip(i as int) == Seq::<Seq<char>>::empty());
    assert(out@ == file_text(list));
    out
}

/// The pinned list in the content of its file. A file that cannot be read holds
/// none.
pub fn load_pinned(content: Option<&str>) -> (r: Vec<String>)
    ensures
        text::strings(r@) == (match content {
            Some(c) => text::text_lines(c@),
            None => Seq::empty(),
        }),
{
    match content {
        Some(c) => text::nonblank_lines(c),
        None => {
            let none: Vec<String> = Vec::new();
            assert(text::strings(none@) == Seq::<Seq<char>>::empty());
            none
        },
    }
}

/// The file to write before it takes the place of the file at `file`.
pub fn temp_path(file: &str) -> (r: String)
    ensures
        r@ == path::with_extension(file@, "tmp"@),
{
    path::replace_extension(file, "tmp")
}

/// The list is written to a file beside its own, which can then take its place
/// in one step: both are in the same directory.
pub proof fn temp_file_is_beside_the_file(file: Seq<char>)
    requires
        path::file_name(file) is Some,
    ensures
        path::parent(path::with_extension(file, "tmp"@)) == path::parent(file),
{
    reveal_strlit("tmp");
    path::other_extension_is_beside(file, "tmp"@);
}

/// Whether an id is pinned does not depend on the case of its ASCII letters,
/// nor on white space around it.
pub proof fn pinning_ignores_case_and_space(list: Seq<Seq<char>>, a: Seq<char>, b: Seq<char>)
    requires
        id_key(a) == id_key(b),
    ensures
        in_list(list, a) == in_list(list, b),
        after_unpin(list, a) == after_unpin(list, b),
    decreases list.len(),
{
    if list.len() > 0 {
        pinning_ignores_case_and_space(list.drop_last(), a, b);
    }
}

/// What has been pinned is pinned, and pinning it again changes nothing.
pub proof fn pinned_after_pin(list: Seq<Seq<char>>, id: Seq<char>)
    ensures
        in_list(after_pin(list, id), id),
        after_pin(after_pin(list, id), id) == after_pin(list, id),
{
    text::trim_is_idempotent(id);
    let after = after_pin(list, id);
    if !in_list(list, id) {
        assert(after[list.len() as int] == text::trim(id));
        assert(id_key(after[list.len() as int]) == id_key(id));
    }
}

proof fn lemma_after_unpin(list: Seq<Seq<char>>, id: Seq<char>)
    ensures
        !in_list(after_unpin(list, id), id),
        !in_list(list, id) ==> after_unpin(list, id) == list,
        after_unpin(list, id).len() <= list.len(),
    decreases list.len(),
{
    if list.len() > 0 {
        let front = list.drop_last();
        lemma_after_unpin(front, id);
        let before = after_unpin(front, id);
        let after = after_unpin(list, id);
        assert forall|i: int| 0 <= i < after.len() implies id_key(#[trigger] after[i]) != id_key(
            id,
        ) by {
            if i < before.len() {
                assert(after[i] == before[i]);
            }
        }
        if !in_list(list, id) {
            assert(id_key(list[list.len() - 1]) != id_key(id));
            assert forall|i: int| 0 <= i < front.len() implies id_key(#[trigger] front[i])
                != id_key(id) by {
                assert(front[i] == list[i]);
            }
            assert(front.push(list.last()) == list);
        }
    } else {
        assert(after_unpin(list, id) == list);
    }
}

/// What has been unpinned is not pinned, and unpinning what is not pinned
/// changes nothing.
pub proof fn not_pinned_after_unpin(list: Seq<Seq<char>>, id: Seq<char>)
    ensures
        !in_list(after_unpin(list, id), id),
        !in_list(list, id) ==> after_unpin(list, id) == list,
{
    lemma_after_unpin(list, id);
}

/// Unpinning undoes pinning.
pub proof fn unpin_undoes_pin(list: Seq<Seq<char>>, id: Seq<char>)
    requires
        !in_list(list, id),
    ensures
        after_unpin(after_pin(list, id), id) == list,
{
    text::trim_is_idempotent(id);
    lemma_after_unpin(list, id);
    let after = after_pin(list, id);
    assert(after.drop_last() == list);
    assert(after.last() == text::trim(id));
}

/// Pinning and unpinning one item leaves every other as it was.
pub proof fn other_items_stay(list: Seq<Seq<char>>, id: Seq<char>, other: Seq<char>)
    requires
        id_key(other) != id_key(id),
    ensures
        in_list(after_pin(list, id), other) == in_list(list, other),
        in_list(after_unpin(list, id), other) == in_list(list, other),
    decreases list.len(),
{
    text::trim_is_idempotent(id);
    let pinned = after_pin(list, id);
    if in_list(list, other) {
        let i = choose|i: int| 0 <= i < list.len() && id_key(#[trigger] list[i]) == id_key(other);
        assert(pinned[i] == list[i]);
    }
    if in_list(pinned, other) {
        let i = choose|i: int|
            0 <= i < pinned.len() && id_key(#[trigger] pinned[i]) == id_key(other);
        assert(i < list.len());
        assert(pinned[i] == list[i]);
    }
    if list.len() > 0 {
        let front = list.drop_last();
        other_items_stay(front, id, other);
        let before = after_unpin(front, id);
        let after = after_unpin(list, id);
        if in_list(list, other) {
            let i = choose|i: int|
                0 <= i < list.len() && id_key(#[trigger] list[i]) == id_key(other);
            if i < front.len() {
                assert(front[i] == list[i]);
                let k = choose|k: int|
                    0 <= k < before.len() && id_key(#[trigger] before[k]) == id_key(other);
                assert(after[k] == before[k]);
            } else {
                assert(after[before.len() as int] == list.last());
            }
        }
        if in_list(after, other) {
            let k = choose|k: int|
                0 <= k < after.len() && id_key(#[trigger] after[k]) == id_key(other);
            if k < before.len() {
                assert(after[k] == before[k]);
                let i = choose|i: int|
                    0 <= i < front.len() && id_key(#[trigger] front[i]) == id_key(other);
                assert(list[i] == front[i]);
            } else {
                assert(list[list.len() - 1] == after[k]);
            }
        }
    }
}

/// The items of the list that are not empty.
pub open spec fn nonempty(list: Seq<Seq<char>>) -> Seq<Seq<char>>
    decreases list.len(),
{
    if list.len() == 0 {
        Seq::empty()
    } else {
        let rest = nonempty(list.skip(1));
        if list[0].len() == 0 {
            rest
        } else {
            seq![list[0]] + rest
        }
    }
}

/// What is saved is what is loaded: every item that is not empty, in order. An
/// item has to be trimmed, as pinned ones are, and be on one line.
pub proof fn save_load_round_trip(list: Seq<Seq<char>>)
    requires
        forall|i: int|
            0 <= i < list.len() ==> text::trim(#[trigger] list[i]) == list[i] && !list[i].contains(
                '\n',
            ),
    ensures
        text::text_lines(file_text(list)) == nonempty(list),
    decreases list.len(),
{
    let content = file_text(list);
    text::lemma_index_from(content, '\n', 0);
    if list.len() == 0 {
        let pieces = text::split(content, '\n');
        assert(pieces == seq![content]);
        assert(pieces.skip(1) == Seq::<Seq<char>>::empty());
        assert(text::trimmed_pieces(pieces.skip(1)) == Seq::<Seq<char>>::empty());
        assert(text::trim(pieces[0]).len() == 0);
        assert(text::text_lines(content) == nonempty(list));
    } else {
        let rest = list.skip(1);
        assert forall|i: int| 0 <= i < rest.len() implies text::trim(#[trigger] rest[i]) == rest[i]
            && !rest[i].contains('\n') by {
            assert(rest[i] == list[i + 1]);
        }
        save_load_round_trip(rest);
        let first = list[0];
        if first.len() > 0 {
            assert(content == first.push('\n') + file_text(rest));
            assert(content[first.len() as int] == '\n');
            assert forall|i: int| 0 <= i < first.len() implies content[i] != '\n' by {
                assert(first.contains(first[i]));
            }
            let k = text::index_of(content, '\n')->0;
            assert(k == first.len());
            assert(content.take(k) == first);
            assert(content.skip(k + 1) == file_text(rest));
            let pieces = text::split(content, '\n');
            assert(pieces == seq![first] + text::split(file_text(rest), '\n'));
            assert(pieces.skip(1) == text::split(file_text(rest), '\n'));
            assert(pieces[0] == first);
        }
    }
}

/// The two characters are the same, but perhaps for the case of an ASCII letter.
pub open spec fn same_letter(a: char, b: char) -> bool {
    ||| a == b
    ||| 'A' <= a <= 'Z' && b as u32 == a as u32 + 32
    ||| 'A' <= b <= 'Z' && a as u32 == b as u32 + 32
}

/// The two ids are the same, but perhaps for white space at their ends and the case
/// of ASCII letters.
pub open spec fn same_item(a: Seq<char>, b: Seq<char>) -> bool {
    let s = text::trim(a);
    let t = text::trim(b);
    s.len() == t.len() && forall|i: int| 0 <= i < s.len() ==> same_letter(#[trigger] s[i], t[i])
}

proof fn lemma_same_item(a: Seq<char>, b: Seq<char>)
    ensures
        same_item(a, b) <==> id_key(a) == id_key(b),
{
    let s = text::trim(a);
    let t = text::trim(b);
    if same_item(a, b) {
        assert(id_key(a) == id_key(b));
    }
    if id_key(a) == id_key(b) {
        assert(s.len() == id_key(a).len());
        assert(t.len() == id_key(b).len());
        assert forall|i: int| 0 <= i < s.len() implies same_letter(#[trigger] s[i], t[i]) by {
            assert(id_key(a)[i] == ascii_lower(s[i]));
            assert(id_key(b)[i] == ascii_lower(t[i]));
        }
    }
}

/// An item is pinned exactly where the list has it, but perhaps for white space at
/// the ends and the case of ASCII letters.
pub proof fn pinned_items_are_in_the_list(pinned: &[String], task_id: &str, r: bool)
    requires
        call_ensures(is_pinned, (pinned, task_id), r),
    ensures
        r <==> exists|i: int|
            0 <= i < pinned@.len() && same_item((#[trigger] pinned@[i])@, task_id@),
{
    let list = text::strings(pinned@);
    if r {
        let i = choose|i: int|
            0 <= i < list.len() && id_key(#[trigger] list[i]) == id_key(task_id@);
        lemma_same_item(list[i], task_id@);
        assert(list[i] == pinned@[i]@);
        assert(same_item(pinned@[i]@, task_id@));
    }
    if exists|i: int| 0 <= i < pinned@.len() && same_item((#[trigger] pinned@[i])@, task_id@) {
        let i = choose|i: int|
            0 <= i < pinned@.len() && same_item((#[trigger] pinned@[i])@, task_id@);
        lemma_same_item(pinned@[i]@, task_id@);
        assert(list[i] == pinned@[i]@);
    }
}

/// Pinning adds one item at the end, trimmed, and only where the list does not have
/// it. Unpinning leaves out all that is the item, and nothing else.
pub proof fn pinning_changes_that_item_alone(list: Seq<Seq<char>>, id: Seq<char>)
    ensures
        (exists|i: int| 0 <= i < list.len() && same_item(#[trigger] list[i], id)) ==> after_pin(
            list,
            id,
        ) == list,
        (forall|i: int| 0 <= i < list.len() ==> !same_item(#[trigger] list[i], id)) ==> after_pin(
            list,
            id,
        ) == list + seq![text::trim(id)],
        after_unpin(list, id) == list.filter(|item: Seq<char>| !same_item(item, id)),
    decreases list.len(),
{
    reveal(Seq::filter);
    if exists|i: int| 0 <= i < list.len() && same_item(#[trigger] list[i], id) {
        let i = choose|i: int| 0 <= i < list.len() && same_item(#[trigger] list[i], id);
        lemma_same_item(list[i], id);
    }
    if in_list(list, id) {
        let i = choose|i: int| 0 <= i < list.len() && id_key(#[trigger] list[i]) == id_key(id);
        lemma_same_item(list[i], id);
    } else {
        assert(list.push(text::trim(id)) == list + seq![text::trim(id)]);
    }
    if list.len() > 0 {
        pinning_changes_that_item_alone(list.drop_last(), id);
        lemma_same_item(list.last(), id);
    }
}

/// The file holds one line for each item that is not empty, in order.
pub proof fn each_item_has_a_line(a: Seq<Seq<char>>, b: Seq<Seq<char>>)
    ensures
        file_text(a + b) == file_text(a) + file_text(b),
        a.len() == 0 ==> file_text(a).len() == 0,
        a.len() == 1 && a[0].len() == 0 ==> file_text(a).len() == 0,
        a.len() == 1 && a[0].len() > 0 ==> file_text(a) == a[0] + seq!['\n'],
    decreases a.len(),
{
    if a.len() == 0 {
        assert(a + b == b);
        assert(file_text(a) + file_text(b) == file_text(b));
    } else {
        assert((a + b).skip(1) == a.skip(1) + b);
        assert((a + b)[0] == a[0]);
        each_item_has_a_line(a.skip(1), b);
        assert(a[0].push('\n') + (file_text(a.skip(1)) + file_text(b)) == a[0].push('\n')
            + file_text(a.skip(1)) + file_text(b));
        assert(a[0].push('\n') + Seq::<char>::empty() == a[0] + seq!['\n']);
    }
}

/// The items that are loaded again are those that are not empty, and no others.
pub proof fn items_that_are_not_empty(list: Seq<Seq<char>>)
    ensures
        nonempty(list) == list.filter(|item: Seq<char>| item.len() > 0),
    decreases list.len(),
{
    let some = |item: Seq<char>| item.len() > 0;
    if list.len() > 0 {
        items_that_are_not_empty(list.skip(1));
        assert(list == seq![list[0]] + list.skip(1));
        Seq::filter_distributes_over_add(seq![list[0]], list.skip(1), some);
        assert(seq![list[0]].filter(some) == (if list[0].len() > 0 {
            seq![list[0]]
        } else {
            Seq::empty()
        })) by {
            reveal_with_fuel(Seq::filter, 2);
            assert(seq![list[0]].drop_last() == Seq::<Seq<char>>::empty());
            assert(Seq::<Seq<char>>::empty().push(list[0]) == seq![list[0]]);
        }
        assert(Seq::<Seq<char>>::empty() + nonempty(list.skip(1)) == nonempty(list.skip(1)));
    } else {
        reveal(Seq::filter);
    }
}

/// What is loaded are the lines of the file, trimmed and without the blank ones; a
/// file that cannot be read holds nothing. The file that is written first is beside
/// the other.
pub proof fn unreadable_file_holds_nothing(
    content: &str,
    r: Vec<String>,
    nothing: Vec<String>,
    file: &str,
    temp: String,
)
    requires
        call_ensures(load_pinned, (Some(content),), r),
        call_ensures(load_pinned, (None,), nothing),
        call_ensures(temp_path, (file,), temp),
        path::file_name(file@) is Some,
    ensures
        text::strings(r@) == text::text_lines(content@),
        nothing@.len() == 0,
        path::parent(temp@) == path::parent(file@),
        path::file_name(temp@) is Some && seq!['.', 't', 'm', 'p'].is_suffix_of(
            path::file_name(temp@)->0,
        ),
{
    temp_file_is_beside_the_file(file@);
    reveal_strlit("tmp");
    assert("tmp"@ == seq!['t', 'm', 'p']);
    path::other_extension_is_beside(file@, "tmp"@);
    let name = path::file_name(file@)->0;
    let stem = name.take(path::stem_len(name));
    let new_name = stem.push('.') + "tmp"@;
    assert(new_name == stem + seq!['.', 't', 'm', 'p']);
    assert(text::strings(nothing@).len() == nothing@.len());
}

} // verus!
