//! User-configured preferred-app overrides.

use vstd::prelude::*;
use crate::encoding;
use crate::json;
use crate::json::{Json, JsonView};
use crate::text;

verus! {

/// What the pairs hold.
pub open spec fn pairs(v: Seq<(String, String)>) -> Seq<(Seq<char>, Seq<char>)> {
    v.map_values(|p: (String, String)| (p.0@, p.1@))
}

/// The fields that are texts.
pub open spec fn text_fields(fields: Seq<(Seq<char>, JsonView)>) -> Seq<(Seq<char>, Seq<char>)>
    decreases fields.len(),
{
    if fields.len() == 0 {
        Seq::empty()
    } else {
        let before = text_fields(fields.drop_last());
        match fields.last().1.as_text() {
            Some(command) => before.push((fields.last().0, command)),
            None => before,
        }
    }
}

/// The associations in a JSON value: the text fields of an object that has
/// some.
pub open spec fn associations(value: JsonView) -> Option<Seq<(Seq<char>, Seq<char>)>> {
    match value {
        JsonView::Object(fields) => if text_fields(fields).len() > 0 {
            Some(text_fields(fields))
        } else {
            None
        },
        _ => None,
    }
}

/// `r` is `found`.
pub open spec fn are_pairs(
    r: Option<Vec<(String, String)>>,
    found: Option<Seq<(Seq<char>, Seq<char>)>>,
) -> bool {
    match (r, found) {
        (Some(v), Some(all)) => pairs(v@) == all,
        (None, None) => true,
        _ => false,
    }
}

/// Takes the associations out of a JSON value.
pub fn preferred_apps_from_json(value: &Json) -> (r: Option<Vec<(String, String)>>)
    ensures
        are_pairs(r, associations(value@)),
{
    match value {
        Json::Object(m) => {
            let ghost fields = value@->Object_0;
            assert(fields.len() == m@.len());
            let mut out: Vec<(String, String)> = Vec::new();
            let mut i: usize = 0;
            while i < m.len()
                invariant
                    i <= m@.len(),
                    fields.len() == m@.len(),
                    forall|k: int|
                        0 <= k < m@.len() ==> #[trigger] fields[k] == (m@[k].0@, m@[k].1@),
                    pairs(out@) == text_fields(fields.take(i as int)),
                decreases m@.len() - i,
            {
                assert(fields.take(i as int + 1).drop_last() == fields.take(i as int));
                assert(fields[i as int] == (m@[i as int].0@, m@[i as int].1@));
                if let Some(command) = m[i].1.as_str() {
                    let ghost before = pairs(out@);
                    out.push((m[i].0.clone(), command.to_owned()));
                    assert(pairs(out@) == before.push((m@[i as int].0@, command@)));
                }
                i += 1;
            }
            assert(fields.take(i as int) == fields);
            assert(pairs(out@).len() == out@.len());
            if out.len() == 0 {
                None
            } else {
                Some(out)
            }
        },
        _ => None,
    }
}

/// Loads preferred app associations from the content of a JSON file.
///
/// The file maps file extension patterns to commands (simple suffix matching,
/// not regex). Examples: `{ "*.pdf": "zathura", "*.mp4": "mpv" }`
pub fn load_preferred_apps(content: &str) -> (r: Option<Vec<(String, String)>>)
    ensures
        are_pairs(
            r,
            match json::json_text(vstd::utf8::encode_utf8(content@)) {
                Some(value) => associations(value),
                None => None,
            },
        ),
{
    match json::parse_json(content.as_bytes()) {
        Ok(value) => preferred_apps_from_json(&value),
        Err(_) => None,
    }
}

/// `pattern` without the stars that it begins with.
pub open spec fn without_stars(pattern: Seq<char>) -> Seq<char>
    decreases pattern.len(),
{
    if pattern.len() > 0 && pattern[0] == '*' {
        without_stars(pattern.skip(1))
    } else {
        pattern
    }
}

/// The command of the first association from index `from` on whose pattern the
/// file matches: the file ends with the pattern, in any letter case.
pub open spec fn preferred_from(
    file_lower: Seq<char>,
    apps: Seq<(Seq<char>, Seq<char>)>,
    from: int,
) -> Option<Seq<char>>
    decreases apps.len() - from,
{
    if from < 0 || from >= apps.len() {
        None
    } else if text::ends_with(file_lower, encoding::lowercase(without_stars(apps[from].0))) {
        Some(apps[from].1)
    } else {
        preferred_from(file_lower, apps, from + 1)
    }
}

fn strip_stars(pattern: &str) -> (r: String)
    ensures
        r@ == without_stars(pattern@),
{
    let chars = text::chars_of(pattern);
    let mut i: usize = 0;
    assert(pattern@.skip(0) == pattern@);
    while i < chars.len() && chars[i] == '*'
        invariant
            i <= chars@.len(),
            chars@ == pattern@,
            without_stars(pattern@) == without_stars(pattern@.skip(i as int)),
        decreases chars@.len() - i,
    {
        assert(pattern@.skip(i as int).skip(1) == pattern@.skip(i as int + 1));
        i += 1;
    }
    text::string_of(text::skip(chars.as_slice(), i))
}

/// Whether a file matches a pattern, both in lower case and the pattern
/// without its stars: it ends with it.
pub fn matches_suffix(file_lower: &str, suffix_lower: &str) -> (r: bool)
    ensures
        r == text::ends_with(file_lower@, suffix_lower@),
{
    text::text_finishes_with(file_lower, suffix_lower)
}

/// Finds the preferred command for a file path by matching patterns, the first
/// that matches. Supports simple suffix patterns like "*.pdf" or ".pdf".
pub fn find_preferred_app(file_path: &str, preferred_apps: &Vec<(String, String)>) -> (r: Option<
    String,
>)
    ensures
        match r {
            Some(command) => preferred_from(
                encoding::lowercase(file_path@),
                pairs(preferred_apps@),
                0,
            ) == Some(command@),
            None => preferred_from(
                encoding::lowercase(file_path@),
                pairs(preferred_apps@),
                0,
            ) is None,
        },
{
    let file_lower = encoding::to_lowercase(file_path);
    let ghost apps = pairs(preferred_apps@);
    let mut i: usize = 0;
    while i < preferred_apps.len()
        invariant
            i <= preferred_apps@.len(),
            apps == pairs(preferred_apps@),
            file_lower@ == encoding::lowercase(file_path@),
            preferred_from(file_lower@, apps, 0) == preferred_from(file_lower@, apps, i as int),
        decreases preferred_apps@.len() - i,
    {
        let pattern = strip_stars(preferred_apps[i].0.as_str());
        let suffix = encoding::to_lowercase(pattern.as_str());
        if matches_suffix(file_lower.as_str(), suffix.as_str()) {
            return Some(preferred_apps[i].1.clone());
        }
        i += 1;
    }
    None
}

/// The pattern begins with stars, and what is left behind them does not.
pub proof fn stars_are_taken_from_the_start(pattern: Seq<char>) -> (stars: Seq<char>)
    ensures
        pattern == stars + without_stars(pattern),
        forall|i: int| 0 <= i < stars.len() ==> stars[i] == '*',
        without_stars(pattern).len() > 0 ==> without_stars(pattern)[0] != '*',
    decreases pattern.len(),
{
    if pattern.len() > 0 && pattern[0] == '*' {
        let fewer = stars_are_taken_from_the_start(pattern.skip(1));
        let stars = seq!['*'] + fewer;
        assert(pattern == seq!['*'] + pattern.skip(1));
        assert(stars + without_stars(pattern) == seq!['*'] + (fewer + without_stars(pattern)));
        stars
    } else {
        assert(pattern == Seq::<char>::empty() + pattern);
        Seq::empty()
    }
}

/// The file ends with the pattern of the association, in any letter case and
/// without the stars.
pub open spec fn applies_to(association: (String, String), file: Seq<char>) -> bool {
    let suffix = encoding::lowercase(without_stars(association.0@));
    let name = encoding::lowercase(file);
    suffix.len() <= name.len() && name.skip(name.len() - suffix.len()) == suffix
}

/// The preferred command is that of the first association that applies to the file;
/// there is none only where none applies.
pub proof fn first_association_that_applies_wins(
    file_path: &str,
    apps: Vec<(String, String)>,
    r: Option<String>,
) -> (i: int)
    requires
        call_ensures(find_preferred_app, (file_path, &apps), r),
    ensures
        match r {
            Some(command) => {
                &&& 0 <= i < apps@.len()
                &&& applies_to(apps@[i], file_path@)
                &&& command@ == apps@[i].1@
                &&& forall|k: int| 0 <= k < i ==> !applies_to(#[trigger] apps@[k], file_path@)
            },
            None => forall|k: int|
                0 <= k < apps@.len() ==> !applies_to(#[trigger] apps@[k], file_path@),
        },
{
    lemma_preferred(file_path@, apps@, 0)
}

proof fn lemma_preferred(file: Seq<char>, apps: Seq<(String, String)>, from: int) -> (i: int)
    requires
        0 <= from <= apps.len(),
    ensures
        match preferred_from(encoding::lowercase(file), pairs(apps), from) {
            Some(command) => {
                &&& from <= i < apps.len()
                &&& applies_to(apps[i], file)
                &&& command == apps[i].1@
                &&& forall|k: int| from <= k < i ==> !applies_to(#[trigger] apps[k], file)
            },
            None => forall|k: int| from <= k < apps.len() ==> !applies_to(#[trigger] apps[k], file),
        },
    decreases apps.len() - from,
{
    if from < apps.len() {
        assert(pairs(apps)[from] == (apps[from].0@, apps[from].1@));
        if applies_to(apps[from], file) {
            from
        } else {
            lemma_preferred(file, apps, from + 1)
        }
    } else {
        from
    }
}

/// The associations are the fields of the object whose values are texts, in their
/// order; other fields are passed over, and a value that is no object, or has no
/// such field, holds none.
pub proof fn associations_are_the_text_fields(value: Json, r: Option<Vec<(String, String)>>)
    requires
        call_ensures(preferred_apps_from_json, (&value,), r),
    ensures
        match (value@, r) {
            (JsonView::Object(fields), Some(found)) => {
                let kept = fields.filter(|f: (Seq<char>, JsonView)| f.1 is Text);
                &&& found@.len() == kept.len()
                &&& kept.len() > 0
                &&& forall|i: int|
                    0 <= i < kept.len() ==> (#[trigger] found@[i]).0@ == kept[i].0
                        && found@[i].1@ == kept[i].1->Text_0
            },
            (JsonView::Object(fields), None) => forall|i: int|
                0 <= i < fields.len() ==> !((#[trigger] fields[i]).1 is Text),
            (_, Some(_)) => false,
            (_, None) => true,
        },
{
    if let JsonView::Object(fields) = value@ {
        lemma_text_fields(fields);
        if let Some(found) = r {
            assert(pairs(found@).len() == found@.len());
            let kept = fields.filter(|f: (Seq<char>, JsonView)| f.1 is Text);
            assert forall|i: int| 0 <= i < kept.len() implies (#[trigger] found@[i]).0@
                == kept[i].0 && found@[i].1@ == kept[i].1->Text_0 by {
                assert(pairs(found@)[i] == (found@[i].0@, found@[i].1@));
            }
        } else {
            assert forall|i: int| 0 <= i < fields.len() implies !(
            (#[trigger] fields[i]).1 is Text) by {
                if fields[i].1 is Text {
                    lemma_text_field_is_kept(fields, i);
                }
            }
        }
    }
}

proof fn lemma_text_fields(fields: Seq<(Seq<char>, JsonView)>)
    ensures
        ({
            let kept = fields.filter(|f: (Seq<char>, JsonView)| f.1 is Text);
            &&& text_fields(fields).len() == kept.len()
            &&& forall|i: int|
                0 <= i < kept.len() ==> (#[trigger] text_fields(fields)[i]) == (
                    kept[i].0,
                    kept[i].1->Text_0,
                )
        }),
    decreases fields.len(),
{
    reveal(Seq::filter);
    if fields.len() > 0 {
        lemma_text_fields(fields.drop_last());
    }
}

proof fn lemma_text_field_is_kept(fields: Seq<(Seq<char>, JsonView)>, i: int)
    requires
        0 <= i < fields.len(),
        fields[i].1 is Text,
    ensures
        text_fields(fields).len() > 0,
    decreases fields.len(),
{
    if i < fields.len() - 1 {
        lemma_text_field_is_kept(fields.drop_last(), i);
    }
}

} // verus!
