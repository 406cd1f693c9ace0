//! FreeDesktop category resolution and the drawer's default category taxonomy.

use vstd::prelude::*;
use crate::text;

verus! {

/// A freedesktop application category.
#[derive(Debug, Clone)]
pub struct Category {
    /// Machine-readable category name (e.g. `Development`).
    pub name: String,
    /// Human-readable label used in the drawer UI (e.g. `Development`).
    pub display_name: String,
    /// Icon name used to render the category's section header.
    pub icon: String,
}

/// What a category holds.
#[verifier::ext_equal]
pub struct CategoryView {
    pub name: Seq<char>,
    pub display_name: Seq<char>,
    pub icon: Seq<char>,
}

impl View for Category {
    type V = CategoryView;

    open spec fn view(&self) -> CategoryView {
        CategoryView {
            name: self.name@,
            display_name: self.display_name@,
            icon: self.icon@,
        }
    }
}

/// The category with these texts.
pub open spec fn category(name: Seq<char>, display_name: Seq<char>, icon: Seq<char>) -> CategoryView {
    CategoryView { name, display_name, icon }
}

/// The standard freedesktop main categories.
pub open spec fn standard_categories() -> Seq<CategoryView> {
    seq![
        category("AudioVideo"@, "Audio & Video"@, "applications-multimedia"@),
        category("Development"@, "Development"@, "applications-development"@),
        category("Game"@, "Games"@, "applications-games"@),
        category("Graphics"@, "Graphics"@, "applications-graphics"@),
        category("Network"@, "Internet"@, "applications-internet"@),
        category("Office"@, "Office"@, "applications-office"@),
        category("System"@, "System"@, "applications-system"@),
        category("Utility"@, "Utilities"@, "applications-utilities"@),
        category("Other"@, "Other"@, "applications-other"@),
    ]
}

/// `name` is a main category other than `Other`.
pub open spec fn is_primary(name: Seq<char>) -> bool {
    ||| name == "AudioVideo"@
    ||| name == "Development"@
    ||| name == "Game"@
    ||| name == "Graphics"@
    ||| name == "Network"@
    ||| name == "Office"@
    ||| name == "System"@
    ||| name == "Utility"@
}

/// The main category that `name` belongs to, where it is one or is known to
/// belong to one.
pub open spec fn main_category(name: Seq<char>) -> Option<Seq<char>> {
    if is_primary(name) {
        Some(name)
    } else if name == "Audio"@ || name == "Video"@ {
        Some("AudioVideo"@)
    } else if name == "Science"@ || name == "Education"@ {
        Some("Office"@)
    } else if name == "Settings"@ || name == "DesktopSettings"@ || name == "PackageManager"@ || name
        == "HardwareSettings"@ {
        Some("System"@)
    } else {
        None
    }
}

/// The main categories of `names`, each where it first comes up.
pub open spec fn main_categories(names: Seq<Seq<char>>) -> Seq<Seq<char>>
    decreases names.len(),
{
    if names.len() == 0 {
        Seq::empty()
    } else {
        let before = main_categories(names.drop_last());
        match main_category(text::trim(names.last())) {
            Some(main) => if before.contains(main) {
                before
            } else {
                before.push(main)
            },
            None => before,
        }
    }
}

/// The categories that an entry with this `Categories` field goes to.
pub open spec fn assigned(field: Seq<char>) -> Seq<Seq<char>> {
    let found = main_categories(text::split(field, ';'));
    if found.len() == 0 {
        seq!["Other"@]
    } else {
        found
    }
}

/// What each text of `v` holds.
pub open spec fn texts(v: Seq<&'static str>) -> Seq<Seq<char>> {
    v.map_values(|s: &'static str| s@)
}

fn category_of(name: &str, display_name: &str, icon: &str) -> (r: Category)
    ensures
        r@ == category(name@, display_name@, icon@),
{
    Category {
        name: name.to_owned(),
        display_name: display_name.to_owned(),
        icon: icon.to_owned(),
    }
}

/// Returns the standard freedesktop main-category set the drawer uses.
pub fn default_categories() -> (r: Vec<Category>)
    ensures
        r@.map_values(|c: Category| c@) == standard_categories(),
{
    let mut out: Vec<Category> = Vec::new();
    out.push(category_of("AudioVideo", "Audio & Video", "applications-multimedia"));
    out.push(category_of("Development", "Development", "applications-development"));
    out.push(category_of("Game", "Games", "applications-games"));
    out.push(category_of("Graphics", "Graphics", "applications-graphics"));
    out.push(category_of("Network", "Internet", "applications-internet"));
    out.push(category_of("Office", "Office", "applications-office"));
    out.push(category_of("System", "System", "applications-system"));
    out.push(category_of("Utility", "Utilities", "applications-utilities"));
    out.push(category_of("Other", "Other", "applications-other"));
    assert(out@.map_values(|c: Category| c@) == standard_categories());
    out
}

/// The main category that `name` belongs to.
fn resolve(name: &[char]) -> (r: Option<&'static str>)
    ensures
        match r {
            Some(main) => main_category(name@) == Some(main@),
            None => main_category(name@) is None,
        },
{
    if text::is_text(name, "AudioVideo") {
        Some("AudioVideo")
    } else if text::is_text(name, "Development") {
        Some("Development")
    } else if text::is_text(name, "Game") {
        Some("Game")
    } else if text::is_text(name, "Graphics") {
        Some("Graphics")
    } else if text::is_text(name, "Network") {
        Some("Network")
    } else if text::is_text(name, "Office") {
        Some("Office")
    } else if text::is_text(name, "System") {
        Some("System")
    } else if text::is_text(name, "Utility") {
        Some("Utility")
    } else if text::is_text(name, "Audio") || text::is_text(name, "Video") {
        Some("AudioVideo")
    } else if text::is_text(name, "Science") || text::is_text(name, "Education") {
        Some("Office")
    } else if text::is_text(name, "Settings") || text::is_text(name, "DesktopSettings")
        || text::is_text(name, "PackageManager") || text::is_text(name, "HardwareSettings") {
        Some("System")
    } else {
        None
    }
}

fn contains_text(v: &Vec<&'static str>, t: &str) -> (r: bool)
    ensures
        r == texts(v@).contains(t@),
{
    let mut i: usize = 0;
    while i < v.len()
        invariant
            i <= v@.len(),
            forall|k: int| 0 <= k < i ==> texts(v@)[k] != t@,
        decreases v@.len() - i,
    {
        assert(texts(v@)[i as int] == v@[i as int]@);
        if text::same_text(v[i], t) {
            return true;
        }
        i += 1;
    }
    false
}

/// Assigns an entry to ALL matching main categories based on its Categories field.
///
/// Returns a vec of category names. An app with `Categories=Development;Network;`
/// will appear in both Development and Network lists.
///
/// Handles secondary categories: Science/Education→Office, Settings/PackageManager→System,
/// Audio/Video→AudioVideo, etc.
pub fn assign_categories(categories_field: &str) -> (r: Vec<&'static str>)
    ensures
        texts(r@) == assigned(categories_field@),
{
    let chars = text::chars_of(categories_field);
    let names = text::split_chars(chars.as_slice(), ';');
    let ghost all = text::split(categories_field@, ';');
    let mut out: Vec<&'static str> = Vec::new();
    assert(text::slices(names@).len() == names@.len());
    let mut i: usize = 0;
    while i < names.len()
        invariant
            i <= names@.len(),
            names@.len() == all.len(),
            text::slices(names@) == all,
            texts(out@) == main_categories(all.take(i as int)),
        decreases names@.len() - i,
    {
        assert(all[i as int] == names@[i as int]@);
        assert(all.take(i as int + 1).drop_last() == all.take(i as int));
        if let Some(main) = resolve(text::trimmed(names[i])) {
            if !contains_text(&out, main) {
                let ghost before = texts(out@);
                out.push(main);
                assert(texts(out@) == before.push(main@));
            }
        }
        i += 1;
    }
    assert(all.take(i as int) == all);
    assert(texts(out@).len() == out@.len());
    if out.len() == 0 {
        out.push("Other");
        assert(texts(out@) == seq!["Other"@]);
    }
    out
}

/// Convenience: returns the first matching category (for simple use cases).
pub fn assign_category(categories_field: &str) -> (r: &'static str)
    ensures
        r@ == assigned(categories_field@)[0],
{
    let found = assign_categories(categories_field);
    assert(texts(found@).len() == found@.len());
    assert(texts(found@)[0] == found@[0]@);
    found[0]
}

proof fn lemma_main_categories(names: Seq<Seq<char>>)
    ensures
        main_categories(names).no_duplicates(),
        forall|i: int|
            0 <= i < main_categories(names).len() ==> is_primary(
                #[trigger] main_categories(names)[i],
            ),
    decreases names.len(),
{
    if names.len() > 0 {
        lemma_main_categories(names.drop_last());
    }
}

/// Every entry goes to at least one category, to none twice, and only to
/// standard ones: main categories, or `Other` alone.
pub proof fn assigned_are_standard(field: Seq<char>)
    ensures
        assigned(field).len() > 0,
        assigned(field).no_duplicates(),
        assigned(field) == seq!["Other"@] || (forall|i: int|
            0 <= i < assigned(field).len() ==> is_primary(#[trigger] assigned(field)[i])),
        forall|i: int|
            0 <= i < assigned(field).len() ==> exists|k: int|
                0 <= k < standard_categories().len() && (#[trigger] standard_categories()[k]).name
                    == #[trigger] assigned(field)[i],
{
    lemma_main_categories(text::split(field, ';'));
    let standard = standard_categories();
    assert forall|i: int| 0 <= i < assigned(field).len() implies exists|k: int|
        0 <= k < standard.len() && (#[trigger] standard[k]).name == #[trigger] assigned(
            field,
        )[i] by {
        let name = assigned(field)[i];
        assert(standard[0].name == "AudioVideo"@);
        assert(standard[1].name == "Development"@);
        assert(standard[2].name == "Game"@);
        assert(standard[3].name == "Graphics"@);
        assert(standard[4].name == "Network"@);
        assert(standard[5].name == "Office"@);
        assert(standard[6].name == "System"@);
        assert(standard[7].name == "Utility"@);
        assert(standard[8].name == "Other"@);
    }
}

/// Every main category that the field names is among those assigned.
pub proof fn every_known_category_is_assigned(names: Seq<Seq<char>>, i: int)
    requires
        0 <= i < names.len(),
        main_category(text::trim(names[i])) is Some,
    ensures
        main_categories(names).contains(main_category(text::trim(names[i]))->0),
    decreases names.len(),
{
    let main = main_category(text::trim(names[i]))->0;
    let before = main_categories(names.drop_last());
    if i == names.len() - 1 {
        if !before.contains(main) {
            assert(before.push(main)[before.len() as int] == main);
        }
    } else {
        assert(names.drop_last()[i] == names[i]);
        every_known_category_is_assigned(names.drop_last(), i);
        let k = choose|k: int| 0 <= k < before.len() && before[k] == main;
        assert(main_categories(names)[k] == main);
    }
}

/// An application with the category `name` goes to the main category `main`.
pub open spec fn belongs_to(name: Seq<char>, main: Seq<char>) -> bool {
    ||| main == "AudioVideo"@ && (name == main || name == "Audio"@ || name == "Video"@)
    ||| main == "Development"@ && name == main
    ||| main == "Game"@ && name == main
    ||| main == "Graphics"@ && name == main
    ||| main == "Network"@ && name == main
    ||| main == "Office"@ && (name == main || name == "Science"@ || name == "Education"@)
    ||| main == "System"@ && (name == main || name == "Settings"@ || name == "DesktopSettings"@
        || name == "PackageManager"@ || name == "HardwareSettings"@)
    ||| main == "Utility"@ && name == main
}

proof fn lemma_belongs_to(name: Seq<char>, main: Seq<char>)
    ensures
        belongs_to(name, main) <==> main_category(name) == Some(main),
{
    reveal_strlit("AudioVideo");
    reveal_strlit("Development");
    reveal_strlit("Game");
    reveal_strlit("Graphics");
    reveal_strlit("Network");
    reveal_strlit("Office");
    reveal_strlit("System");
    reveal_strlit("Utility");
    reveal_strlit("Audio");
    reveal_strlit("Video");
    reveal_strlit("Science");
    reveal_strlit("Education");
    reveal_strlit("Settings");
    reveal_strlit("DesktopSettings");
    reveal_strlit("PackageManager");
    reveal_strlit("HardwareSettings");
    assert("Audio"@[0] == 'A' && "Video"@[0] == 'V');
    assert("Science"@[0] == 'S' && "Network"@[0] == 'N' && "Utility"@[0] == 'U');
    assert("Settings"@[0] == 'S' && "Graphics"@[0] == 'G');
    assert("System"@[0] == 'S' && "Office"@[0] == 'O');
    assert("AudioVideo"@.len() == 10 && "Development"@.len() == 11 && "Game"@.len() == 4);
    assert("Graphics"@.len() == 8 && "Network"@.len() == 7 && "Office"@.len() == 6);
    assert("System"@.len() == 6 && "Utility"@.len() == 7);
    assert("Audio"@.len() == 5 && "Video"@.len() == 5);
    assert("Science"@.len() == 7 && "Education"@.len() == 9 && "Settings"@.len() == 8);
    assert("DesktopSettings"@.len() == 15 && "PackageManager"@.len() == 14);
    assert("HardwareSettings"@.len() == 16);
    if belongs_to(name, main) {
        if name == main {
            assert(is_primary(name));
        } else {
            assert(!is_primary(name));
            assert(main_category(name) == Some(main));
        }
    }
    if main_category(name) == Some(main) {
        assert(belongs_to(name, main));
    }
}

/// One of the first `n` names goes to `main`.
pub open spec fn comes_up(names: Seq<Seq<char>>, n: int, main: Seq<char>) -> bool {
    exists|i: int| 0 <= i < n && belongs_to(text::trim(#[trigger] names[i]), main)
}

/// `a` comes up among the names before `b` does.
pub open spec fn comes_up_first(names: Seq<Seq<char>>, a: Seq<char>, b: Seq<char>) -> bool {
    exists|m: int|
        0 <= m <= names.len() && comes_up(names, m, a) && !#[trigger] comes_up(names, m, b)
}

proof fn lemma_categories_come_up(names: Seq<Seq<char>>, n: int)
    requires
        0 <= n <= names.len(),
    ensures
        forall|main: Seq<char>| #[trigger]
            main_categories(names.take(n)).contains(main) <==> comes_up(names, n, main),
    decreases n,
{
    if n > 0 {
        lemma_categories_come_up(names, n - 1);
        assert(names.take(n).drop_last() == names.take(n - 1));
        assert(names.take(n).last() == names[n - 1]);
        let before = main_categories(names.take(n - 1));
        let after = main_categories(names.take(n));
        let last = text::trim(names[n - 1]);
        assert forall|main: Seq<char>| #[trigger] after.contains(main) <==> comes_up(
            names,
            n,
            main,
        ) by {
            lemma_belongs_to(last, main);
            if before.contains(main) {
                let k = choose|k: int| 0 <= k < before.len() && before[k] == main;
                assert(after[k] == main);
                let i = choose|i: int|
                    0 <= i < n - 1 && belongs_to(text::trim(#[trigger] names[i]), main);
                assert(belongs_to(text::trim(names[i]), main));
            } else if belongs_to(last, main) {
                assert(after[before.len() as int] == main);
                assert(belongs_to(text::trim(names[n - 1]), main));
            } else {
                if after.contains(main) {
                    let k = choose|k: int| 0 <= k < after.len() && after[k] == main;
                    if k < before.len() {
                        assert(before[k] == main);
                    }
                }
                if comes_up(names, n, main) {
                    let i = choose|i: int|
                        0 <= i < n && belongs_to(text::trim(#[trigger] names[i]), main);
                    assert(i < n - 1);
                    assert(comes_up(names, n - 1, main));
                }
            }
        }
    } else {
        assert(names.take(0).len() == 0);
    }
}

proof fn lemma_categories_in_order(names: Seq<Seq<char>>, n: int, i: int, j: int)
    requires
        0 <= n <= names.len(),
        0 <= i < j < main_categories(names.take(n)).len(),
    ensures
        exists|m: int|
            0 <= m <= n && comes_up(names, m, main_categories(names.take(n))[i])
                && !#[trigger] comes_up(names, m, main_categories(names.take(n))[j]),
    decreases n,
{
    if n > 0 {
        assert(names.take(n).drop_last() == names.take(n - 1));
        let before = main_categories(names.take(n - 1));
        let after = main_categories(names.take(n));
        if j < before.len() {
            lemma_categories_in_order(names, n - 1, i, j);
            let m = choose|m: int|
                0 <= m <= n - 1 && comes_up(names, m, before[i]) && !#[trigger] comes_up(
                    names,
                    m,
                    before[j],
                );
            assert(comes_up(names, m, after[i]) && !comes_up(names, m, after[j]));
        } else {
            lemma_categories_come_up(names, n - 1);
            assert(before.contains(before[i]));
            lemma_main_categories(names.take(n));
            assert(!before.contains(after[j])) by {
                if before.contains(after[j]) {
                    let k = choose|k: int| 0 <= k < before.len() && before[k] == after[j];
                    assert(after[k] == after[j]);
                }
            }
            assert(comes_up(names, n - 1, after[i]) && !comes_up(names, n - 1, after[j]));
        }
    } else {
        assert(names.take(0).len() == 0);
    }
}

/// An entry goes to every main category that one of its own, between semicolons,
/// belongs to, and to no other, in the order in which they come up. Where none
/// belongs to one, it goes to `Other`.
pub proof fn entries_go_where_their_categories_belong(field: &str, r: Vec<&'static str>)
    requires
        call_ensures(assign_categories, (field,), r),
    ensures
        ({
            let names = text::split(field@, ';');
            let n = names.len() as int;
            let none = forall|main: Seq<char>| !#[trigger] comes_up(names, n, main);
            &&& none ==> texts(r@) == seq!["Other"@]
            &&& !none ==> forall|main: Seq<char>| #[trigger]
                texts(r@).contains(main) <==> comes_up(names, n, main)
            &&& forall|i: int, j: int|
                0 <= i < j < r@.len() ==> #[trigger] comes_up_first(
                    names,
                    texts(r@)[i],
                    texts(r@)[j],
                )
        }),
{
    let names = text::split(field@, ';');
    let n = names.len() as int;
    assert(names.take(n) == names);
    lemma_categories_come_up(names, n);
    let found = main_categories(names);
    assert(texts(r@).len() == r@.len());
    if forall|main: Seq<char>| !#[trigger] comes_up(names, n, main) {
        if found.len() > 0 {
            assert(found.contains(found[0]));
        }
    } else {
        let main = choose|main: Seq<char>| #[trigger] comes_up(names, n, main);
        assert(found.contains(main));
    }
    assert forall|i: int, j: int| 0 <= i < j < r@.len() implies #[trigger] comes_up_first(
        names,
        texts(r@)[i],
        texts(r@)[j],
    ) by {
        lemma_categories_in_order(names, n, i, j);
        let m = choose|m: int|
            0 <= m <= n && comes_up(names, m, found[i]) && !#[trigger] comes_up(
                names,
                m,
                found[j],
            );
        assert(comes_up(names, m, texts(r@)[i]) && !comes_up(names, m, texts(r@)[j]));
    }
}

/// The single category of an entry is the first of those it goes to.
pub proof fn single_category_is_the_first(field: &str, all: Vec<&'static str>, r: &'static str)
    requires
        call_ensures(assign_categories, (field,), all),
        call_ensures(assign_category, (field,), r),
    ensures
        all@.len() > 0,
        r@ == all@[0]@,
{
    assigned_are_standard(field@);
    assert(texts(all@).len() == all@.len());
    assert(texts(all@)[0] == all@[0]@);
}

/// `c` has these texts.
pub open spec fn reads(
    c: Category,
    name: Seq<char>,
    display_name: Seq<char>,
    icon: Seq<char>,
) -> bool {
    c.name@ == name && c.display_name@ == display_name && c.icon@ == icon
}

/// The standard categories are the eight main ones and `Other`, in this order, each
/// with its label and its icon.
pub proof fn standard_categories_are_nine(r: Vec<Category>)
    requires
        call_ensures(default_categories, (), r),
    ensures
        r@.len() == 9,
        reads(r@[0], "AudioVideo"@, "Audio & Video"@, "applications-multimedia"@),
        reads(r@[1], "Development"@, "Development"@, "applications-development"@),
        reads(r@[2], "Game"@, "Games"@, "applications-games"@),
        reads(r@[3], "Graphics"@, "Graphics"@, "applications-graphics"@),
        reads(r@[4], "Network"@, "Internet"@, "applications-internet"@),
        reads(r@[5], "Office"@, "Office"@, "applications-office"@),
        reads(r@[6], "System"@, "System"@, "applications-system"@),
        reads(r@[7], "Utility"@, "Utilities"@, "applications-utilities"@),
        reads(r@[8], "Other"@, "Other"@, "applications-other"@),
{
    let views = r@.map_values(|c: Category| c@);
    assert(views.len() == r@.len());
    assert(views[0] == r@[0]@ && views[1] == r@[1]@ && views[2] == r@[2]@ && views[3] == r@[3]@
        && views[4] == r@[4]@ && views[5] == r@[5]@ && views[6] == r@[6]@ && views[7] == r@[7]@
        && views[8] == r@[8]@);
}

} // verus!
