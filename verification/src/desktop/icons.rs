//! Icon file lookup and display-name resolution.

use vstd::prelude::*;
use crate::desktop::entry;
use crate::desktop::entry::DesktopEntry;
use crate::encoding;
use crate::path;
use crate::text;

verus! {

/// An application whose class in upper case begins so is GIMP, whatever its
/// version.
pub open spec fn is_gimp(app_upper: Seq<char>) -> bool {
    text::starts_with(app_upper, "GIMP"@)
}

/// Whether a class in upper case is that of GIMP.
pub fn names_gimp(app_upper: &str) -> (r: bool)
    ensures
        r == is_gimp(app_upper@),
{
    text::text_begins_with(app_upper, "GIMP")
}

/// Resolves the icon name for an application, of which `found` is the desktop
/// entry, if there is one.
pub fn get_icon(app_name: &str, found: Option<&DesktopEntry>) -> (r: Option<String>)
    ensures
        match r {
            Some(icon) => if is_gimp(encoding::uppercase(app_name@)) {
                icon@ == "gimp"@
            } else {
                found is Some && icon@ == found->0@.icon && icon@.len() > 0
            },
            None => !is_gimp(encoding::uppercase(app_name@)) && (found is Some
                ==> found->0@.icon.len() == 0),
        },
{
    if names_gimp(encoding::to_uppercase(app_name).as_str()) {
        return Some("gimp".to_owned());
    }
    match found {
        Some(entry) => {
            if entry.icon.as_str().is_empty() {
                None
            } else {
                Some(entry.icon.clone())
            }
        },
        None => None,
    }
}

/// Resolves the Exec command for an application, of which `found` is the
/// desktop entry, if there is one.
pub fn get_exec(app_name: &str, found: Option<&DesktopEntry>) -> (r: Option<String>)
    ensures
        r is Some <==> found is Some,
        r matches Some(command) ==> if found->0@.exec_line.len() > 0 {
            command@ == entry::stripped(found->0@.exec_line)
        } else if is_gimp(encoding::uppercase(app_name@)) {
            command@ == "gimp"@
        } else {
            command@ == app_name@
        },
{
    match found {
        Some(entry) => {
            if !entry.exec_line.as_str().is_empty() {
                Some(entry::strip_field_codes(entry.exec_line.as_str()))
            } else if names_gimp(encoding::to_uppercase(app_name).as_str()) {
                Some("gimp".to_owned())
            } else {
                Some(app_name.to_owned())
            }
        },
        None => None,
    }
}

/// Resolves the display name for an application, of which `found` is the
/// desktop entry, if there is one.
///
/// Returns the locale-aware name (e.g. `Name[pl]` for Polish) if available,
/// falling back to the base `Name` field, then the raw app class name.
pub fn get_name(app_name: &str, found: Option<&DesktopEntry>) -> (r: String)
    ensures
        r@ == (if found is Some && found->0@.name_loc.len() > 0 {
            found->0@.name_loc
        } else if found is Some && found->0@.name.len() > 0 {
            found->0@.name
        } else {
            app_name@
        }),
{
    if let Some(entry) = found {
        if !entry.name_loc.as_str().is_empty() {
            return entry.name_loc.clone();
        }
        if !entry.name.as_str().is_empty() {
            return entry.name.clone();
        }
    }
    app_name.to_owned()
}

/// The name with its hyphens as spaces; where it has none, with its spaces as
/// hyphens.
pub open spec fn variant(app_name: Seq<char>) -> Seq<char> {
    if app_name.contains('-') {
        text::replaced(app_name, '-', ' ')
    } else {
        text::replaced(app_name, ' ', '-')
    }
}

/// The path of the desktop file of this name in `dir`.
pub open spec fn desktop_path(dir: Seq<char>, name: Seq<char>) -> Seq<char> {
    path::join(dir, name + ".desktop"@)
}

/// Where in `dir` a desktop file might be: under each of `names`.
pub open spec fn candidates_in(dir: Seq<char>, names: Seq<Seq<char>>) -> Seq<Seq<char>> {
    names.map_values(|name: Seq<char>| desktop_path(dir, name))
}

/// The names to look for: that of the application and its variant, each as it
/// is and in lower case.
pub open spec fn lookup_names(app_name: Seq<char>) -> Seq<Seq<char>> {
    seq![
        app_name,
        encoding::lowercase(app_name),
        variant(app_name),
        encoding::lowercase(variant(app_name)),
    ]
}

/// Where in `dirs` a desktop file might be, one directory after the other.
pub open spec fn candidates(names: Seq<Seq<char>>, dirs: Seq<Seq<char>>) -> Seq<Seq<char>>
    decreases dirs.len(),
{
    if dirs.len() == 0 {
        Seq::empty()
    } else {
        candidates(names, dirs.drop_last()) + candidates_in(dirs.last(), names)
    }
}

fn variant_of(app_name: &str) -> (r: String)
    ensures
        r@ == variant(app_name@),
{
    let chars = text::chars_of(app_name);
    let found = text::find_char(chars.as_slice(), '-');
    proof {
        text::lemma_index_from(app_name@, '-', 0);
    }
    if found.is_some() {
        assert(app_name@[found->0 as int] == '-');
        text::replace_char(app_name, '-', ' ')
    } else {
        text::replace_char(app_name, ' ', '-')
    }
}

/// The paths under which a desktop file of one of `names` might be in `dirs`,
/// in the order in which to try them.
pub fn paths_for(names: &Vec<String>, dirs: &Vec<String>) -> (r: Vec<String>)
    ensures
        text::strings(r@) == candidates(text::strings(names@), text::strings(dirs@)),
{
    let ghost all_names = text::strings(names@);
    let ghost all_dirs = text::strings(dirs@);
    let mut out: Vec<String> = Vec::new();
    let mut d: usize = 0;
    while d < dirs.len()
        invariant
            d <= dirs@.len(),
            all_names == text::strings(names@),
            all_dirs == text::strings(dirs@),
            text::strings(out@) == candidates(all_names, all_dirs.take(d as int)),
        decreases dirs@.len() - d,
    {
        assert(all_dirs.take(d as int + 1).drop_last() == all_dirs.take(d as int));
        let ghost before = text::strings(out@);
        let ghost here = candidates_in(all_dirs[d as int], all_names);
        let mut i: usize = 0;
        while i < names.len()
            invariant
                i <= names@.len(),
                d < dirs@.len(),
                all_names == text::strings(names@),
                all_dirs == text::strings(dirs@),
                here == candidates_in(all_dirs[d as int], all_names),
                text::strings(out@) == before + here.take(i as int),
            decreases names@.len() - i,
        {
            let mut name = names[i].clone();
            name.append(".desktop");
            let file = path::join_path(dirs[d].as_str(), name.as_str());
            let ghost so_far = text::strings(out@);
            assert(here[i as int] == file@);
            out.push(file);
            assert(text::strings(out@) == so_far.push(file@));
            assert(here.take(i as int + 1) == here.take(i as int).push(here[i as int]));
            i += 1;
        }
        assert(here.take(i as int) == here);
        d += 1;
    }
    assert(all_dirs.take(d as int) == all_dirs);
    out
}

/// The paths to try for the desktop file of an application, in order: in each
/// directory the name itself, in lower case, and with hyphens and spaces
/// exchanged.
pub fn desktop_file_candidates(app_name: &str, dirs: &Vec<String>) -> (r: Vec<String>)
    ensures
        text::strings(r@) == candidates(lookup_names(app_name@), text::strings(dirs@)),
{
    let other = variant_of(app_name);
    let mut names: Vec<String> = Vec::new();
    names.push(app_name.to_owned());
    names.push(encoding::to_lowercase(app_name));
    let other_lower = encoding::to_lowercase(other.as_str());
    names.push(other);
    names.push(other_lower);
    assert(text::strings(names@) == lookup_names(app_name@));
    paths_for(&names, dirs)
}

/// Whether to search the directories for an application that is under none of
/// its candidate paths. A class that is a path is not searched for.
pub fn fuzzy_search_allowed(app_name: &str) -> (r: bool)
    ensures
        r == !path::is_absolute(app_name@),
{
    !path::absolute(app_name)
}

/// Where an icon comes from.
#[derive(Debug, Clone)]
pub enum IconSource {
    /// From this file.
    File(String),
    /// From the icon theme under the first of these names that it has; without
    /// any, from the first of these files that exists.
    Named { theme_names: Vec<String>, files: Vec<String> },
}

/// `name` without an icon file extension.
pub open spec fn icon_name(name: Seq<char>) -> Seq<char> {
    if text::ends_with(name, ".svg"@) || text::ends_with(name, ".png"@) || text::ends_with(
        name,
        ".xpm"@,
    ) {
        name.take(name.len() - 4)
    } else {
        name
    }
}

/// The names under which the theme may have the icon: without an extension,
/// then as it is.
pub open spec fn theme_lookup(name: Seq<char>) -> Seq<Seq<char>> {
    if icon_name(name) == name {
        seq![name]
    } else {
        seq![icon_name(name), name]
    }
}

/// The file of the icon among the pixmaps.
pub open spec fn pixmap(name: Seq<char>, extension: Seq<char>) -> Seq<char> {
    path::join("/usr/share/pixmaps"@, name + extension)
}

/// The files in which the icon may be.
pub open spec fn pixmaps(name: Seq<char>) -> Seq<Seq<char>> {
    seq![pixmap(name, ".svg"@), pixmap(name, ".png"@), pixmap(name, ".xpm"@)]
}

fn pixmap_file(name: &str, extension: &str) -> (r: String)
    ensures
        r@ == pixmap(name@, extension@),
{
    let mut file = name.to_owned();
    file.append(extension);
    path::join_path("/usr/share/pixmaps", file.as_str())
}

/// Decides where an icon comes from. An absolute path is a file; any other name
/// is looked up in the theme, then among the pixmaps.
pub fn icon_source(icon: &str) -> (r: IconSource)
    ensures
        match r {
            IconSource::File(file) => path::is_absolute(icon@) && file@ == icon@,
            IconSource::Named { theme_names, files } => !path::is_absolute(icon@)
                && text::strings(theme_names@) == theme_lookup(icon@) && text::strings(files@)
                == pixmaps(icon_name(icon@)),
        },
{
    let chars = text::chars_of(icon);
    proof {
        reveal_strlit(".svg");
        reveal_strlit(".png");
        reveal_strlit(".xpm");
    }
    if path::absolute(icon) {
        return IconSource::File(icon.to_owned());
    }
    let has_extension = text::text_finishes_with(icon, ".svg") || text::text_finishes_with(
        icon,
        ".png",
    ) || text::text_finishes_with(icon, ".xpm");
    let mut theme_names: Vec<String> = Vec::new();
    let name = if has_extension {
        text::string_of(text::take(chars.as_slice(), chars.len() - 4))
    } else {
        icon.to_owned()
    };
    theme_names.push(name.clone());
    if has_extension {
        assert(icon_name(icon@).len() < icon@.len());
        theme_names.push(icon.to_owned());
    }
    assert(text::strings(theme_names@) == theme_lookup(icon@));
    let mut files: Vec<String> = Vec::new();
    files.push(pixmap_file(name.as_str(), ".svg"));
    files.push(pixmap_file(name.as_str(), ".png"));
    files.push(pixmap_file(name.as_str(), ".xpm"));
    assert(text::strings(files@) == pixmaps(icon_name(icon@)));
    IconSource::Named { theme_names, files }
}

/// The icon to show for an application: its own, or else one named like it.
pub fn image_icon(app_id: &str, icon: Option<String>) -> (r: String)
    ensures
        r@ == (match icon {
            Some(name) => name@,
            None => app_id@,
        }),
{
    match icon {
        Some(name) => name,
        None => app_id.to_owned(),
    }
}

/// The paths to try for an application are, in each directory in turn, its name, the
/// name in lower case, the name with hyphens and spaces exchanged, and that in lower
/// case, each with the extension of desktop files.
pub proof fn four_names_are_tried_in_each_directory(
    app_name: &str,
    dirs: Vec<String>,
    d: int,
    r: Vec<String>,
)
    requires
        call_ensures(desktop_file_candidates, (app_name, &dirs), r),
        0 <= d < dirs@.len(),
    ensures
        r@.len() == 4 * dirs@.len(),
        r@[4 * d]@ == path::join(dirs@[d]@, app_name@ + ".desktop"@),
        r@[4 * d + 1]@ == path::join(dirs@[d]@, encoding::lowercase(app_name@) + ".desktop"@),
        r@[4 * d + 2]@ == path::join(dirs@[d]@, exchanged(app_name@) + ".desktop"@),
        r@[4 * d + 3]@ == path::join(
            dirs@[d]@,
            encoding::lowercase(exchanged(app_name@)) + ".desktop"@,
        ),
{
    let names = lookup_names(app_name@);
    let all = text::strings(dirs@);
    lemma_candidates(names, all);
    lemma_candidate(names, all, d, 0);
    lemma_candidate(names, all, d, 1);
    lemma_candidate(names, all, d, 2);
    lemma_candidate(names, all, d, 3);
    lemma_exchanged(app_name@);
    let found = text::strings(r@);
    assert(found.len() == r@.len());
    assert(all[d] == dirs@[d]@);
    assert(names[0] == app_name@ && names[1] == encoding::lowercase(app_name@));
    assert(names[2] == variant(app_name@) && names[3] == encoding::lowercase(variant(app_name@)));
    assert(found[4 * d] == r@[4 * d]@);
    assert(found[4 * d + 1] == r@[4 * d + 1]@);
    assert(found[4 * d + 2] == r@[4 * d + 2]@);
    assert(found[4 * d + 3] == r@[4 * d + 3]@);
}

/// A name with its hyphens as spaces; where it has none, with its spaces as hyphens.
/// All else stays in its place.
pub open spec fn exchanged(name: Seq<char>) -> Seq<char> {
    Seq::new(
        name.len(),
        |i: int|
            if name[i] == '-' {
                ' '
            } else if name[i] == ' ' && !name.contains('-') {
                '-'
            } else {
                name[i]
            },
    )
}

proof fn lemma_exchanged(name: Seq<char>)
    ensures
        exchanged(name) == variant(name),
{
    assert forall|i: int| 0 <= i < name.len() implies exchanged(name)[i] == variant(name)[i] by {
        if name[i] == '-' {
            assert(name.contains(name[i]));
        }
    }
}

proof fn lemma_candidates(names: Seq<Seq<char>>, dirs: Seq<Seq<char>>)
    requires
        names.len() == 4,
    ensures
        candidates(names, dirs).len() == 4 * dirs.len(),
    decreases dirs.len(),
{
    if dirs.len() > 0 {
        lemma_candidates(names, dirs.drop_last());
    }
}

proof fn lemma_candidate(names: Seq<Seq<char>>, dirs: Seq<Seq<char>>, d: int, n: int)
    requires
        names.len() == 4,
        0 <= d < dirs.len(),
        0 <= n < 4,
    ensures
        candidates(names, dirs)[4 * d + n] == path::join(dirs[d], names[n] + ".desktop"@),
    decreases dirs.len(),
{
    let fewer = dirs.drop_last();
    lemma_candidates(names, fewer);
    let here = candidates_in(dirs.last(), names);
    let all = candidates(names, fewer) + here;
    if d < fewer.len() {
        lemma_candidate(names, fewer, d, n);
        assert(all[4 * d + n] == candidates(names, fewer)[4 * d + n]);
    } else {
        assert(all[4 * d + n] == here[n]);
    }
}

/// An absolute path is an icon file as it is. Any other name is looked up in the
/// theme, without the extension of an icon file first, and then among the pixmaps,
/// with each such extension.
#[verifier::spinoff_prover]
#[verifier::rlimit(40)]
pub proof fn icons_come_from_files_or_the_theme(icon: &str, r: IconSource)
    requires
        call_ensures(icon_source, (icon,), r),
    ensures
        ({
            let s = icon@;
            let n = s.len() as int;
            let extended = n >= 4 && (s.skip(n - 4) == seq!['.', 's', 'v', 'g'] || s.skip(n - 4)
                == seq!['.', 'p', 'n', 'g'] || s.skip(n - 4) == seq!['.', 'x', 'p', 'm']);
            let stem = if extended {
                s.take(n - 4)
            } else {
                s
            };
            match r {
                IconSource::File(file) => n > 0 && s[0] == '/' && file@ == s,
                IconSource::Named { theme_names, files } => {
                    &&& !(n > 0 && s[0] == '/')
                    &&& extended ==> text::strings(theme_names@) == seq![stem, s]
                    &&& !extended ==> text::strings(theme_names@) == seq![s]
                    &&& text::strings(files@) == seq![
                        "/usr/share/pixmaps/"@ + stem + seq!['.', 's', 'v', 'g'],
                        "/usr/share/pixmaps/"@ + stem + seq!['.', 'p', 'n', 'g'],
                        "/usr/share/pixmaps/"@ + stem + seq!['.', 'x', 'p', 'm'],
                    ]
                },
            }
        }),
{
    reveal_strlit(".svg");
    reveal_strlit(".png");
    reveal_strlit(".xpm");
    reveal_strlit("/usr/share/pixmaps");
    reveal_strlit("/usr/share/pixmaps/");
    assert(".svg"@ == seq!['.', 's', 'v', 'g']);
    assert(".png"@ == seq!['.', 'p', 'n', 'g']);
    assert(".xpm"@ == seq!['.', 'x', 'p', 'm']);
    assert("/usr/share/pixmaps"@.push('/') == "/usr/share/pixmaps/"@);
    let s = icon@;
    let stem = icon_name(s);
    if stem != s {
        assert(stem.len() < s.len());
    }
    if !path::is_absolute(s) {
        assert(!path::is_absolute(stem + ".svg"@)) by {
            if stem.len() > 0 {
                assert((stem + ".svg"@)[0] == s[0]);
            }
        }
        assert(!path::is_absolute(stem + ".png"@)) by {
            if stem.len() > 0 {
                assert((stem + ".png"@)[0] == s[0]);
            }
        }
        assert(!path::is_absolute(stem + ".xpm"@)) by {
            if stem.len() > 0 {
                assert((stem + ".xpm"@)[0] == s[0]);
            }
        }
        let dir = "/usr/share/pixmaps"@;
        assert(dir.last() == 's');
        assert(dir.push('/') + (stem + ".svg"@) == dir.push('/') + stem + ".svg"@);
        assert(dir.push('/') + (stem + ".png"@) == dir.push('/') + stem + ".png"@);
        assert(dir.push('/') + (stem + ".xpm"@) == dir.push('/') + stem + ".xpm"@);
        if let IconSource::Named { theme_names, files } = r {
            assert(text::strings(files@) == seq![
                "/usr/share/pixmaps/"@ + stem + seq!['.', 's', 'v', 'g'],
                "/usr/share/pixmaps/"@ + stem + seq!['.', 'p', 'n', 'g'],
                "/usr/share/pixmaps/"@ + stem + seq!['.', 'x', 'p', 'm'],
            ]);
            let n = s.len() as int;
            if n >= 4 && (s.skip(n - 4) == ".svg"@ || s.skip(n - 4) == ".png"@ || s.skip(n - 4)
                == ".xpm"@) {
                assert(stem == s.take(n - 4));
                assert(stem.len() == n - 4);
                assert(theme_lookup(s) == seq![stem, s]);
            } else {
                assert(stem == s);
                assert(theme_lookup(s) == seq![s]);
            }
        }
    }
}

/// An application is shown, named and launched by what its entry says; where the
/// entry is silent, by its own name. GIMP has its icon whatever its version.
pub proof fn entries_decide_before_the_name(
    app_name: &str,
    entry: DesktopEntry,
    icon: Option<String>,
    no_entry_icon: Option<String>,
    command: Option<String>,
    no_entry_command: Option<String>,
    name: String,
    no_entry_name: String,
    line: &str,
    clean: String,
)
    requires
        call_ensures(get_icon, (app_name, Some(&entry)), icon),
        call_ensures(get_icon, (app_name, None), no_entry_icon),
        call_ensures(get_exec, (app_name, Some(&entry)), command),
        call_ensures(get_exec, (app_name, None), no_entry_command),
        call_ensures(get_name, (app_name, Some(&entry)), name),
        call_ensures(get_name, (app_name, None), no_entry_name),
        line@ == entry.exec_line@,
        call_ensures(entry::strip_field_codes, (line,), clean),
    ensures
        ({
            let gimp = "GIMP"@.is_prefix_of(encoding::uppercase(app_name@));
            &&& gimp ==> icon is Some && icon->0@ == "gimp"@ && no_entry_icon is Some
                && no_entry_icon->0@ == "gimp"@
            &&& !gimp ==> no_entry_icon is None
            &&& !gimp && entry.icon@.len() > 0 ==> icon is Some && icon->0@ == entry.icon@
            &&& !gimp && entry.icon@.len() == 0 ==> icon is None
            &&& no_entry_command is None
            &&& command is Some
            &&& entry.exec_line@.len() > 0 ==> command->0@ == clean@
            &&& entry.exec_line@.len() == 0 && gimp ==> command->0@ == "gimp"@
            &&& entry.exec_line@.len() == 0 && !gimp ==> command->0@ == app_name@
            &&& no_entry_name@ == app_name@
            &&& entry.name_loc@.len() > 0 ==> name@ == entry.name_loc@
            &&& entry.name_loc@.len() == 0 && entry.name@.len() > 0 ==> name@ == entry.name@
            &&& entry.name_loc@.len() == 0 && entry.name@.len() == 0 ==> name@ == app_name@
        }),
{
    let upper = encoding::uppercase(app_name@);
    reveal_strlit("GIMP");
    if "GIMP"@.is_prefix_of(upper) {
        assert(upper.take(4) == "GIMP"@);
    }
    if text::starts_with(upper, "GIMP"@) {
        assert("GIMP"@.is_prefix_of(upper));
    }
    assert(entry@.icon == entry.icon@ && entry@.name == entry.name@ && entry@.name_loc
        == entry.name_loc@ && entry@.exec_line == entry.exec_line@);
}

/// The directories are tried in turn: one more adds the paths in it, under each of
/// the names in their order, behind all others.
pub proof fn directories_are_tried_in_turn(
    names: Seq<Seq<char>>,
    dirs: Seq<Seq<char>>,
    dir: Seq<char>,
)
    ensures
        candidates(names, Seq::empty()).len() == 0,
        candidates(names, dirs.push(dir)) == candidates(names, dirs) + Seq::new(
            names.len(),
            |i: int| path::join(dir, names[i] + ".desktop"@),
        ),
{
    assert(dirs.push(dir).drop_last() == dirs);
    assert(candidates_in(dir, names) == Seq::new(
        names.len(),
        |i: int| path::join(dir, names[i] + ".desktop"@),
    ));
}

/// The icon to show is the one given, or else one named like the application. A class
/// that is a path is not searched for, any other is.
pub proof fn applications_without_an_icon_show_their_name(
    app_id: &str,
    given: String,
    own: String,
    other: String,
    searched: bool,
)
    requires
        call_ensures(image_icon, (app_id, Some(given)), own),
        call_ensures(image_icon, (app_id, None), other),
        call_ensures(fuzzy_search_allowed, (app_id,), searched),
    ensures
        own@ == given@,
        other@ == app_id@,
        searched <==> !(app_id@.len() > 0 && app_id@[0] == '/'),
{
}

} // verus!
