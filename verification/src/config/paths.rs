//! XDG data/config/cache directory resolution. The arguments are the values of
//! environment variables, where they are set. An XDG variable that is empty
//! counts as one that is not set.

use vstd::prelude::*;
use crate::path;
use crate::text;

verus! {

/// What an XDG variable holds, where it is set to something.
pub open spec fn given(value: Option<&str>) -> Option<Seq<char>> {
    match value {
        Some(v) => if v@.len() > 0 {
            Some(v@)
        } else {
            None
        },
        None => None,
    }
}

/// The value of an XDG variable, where it is set to something.
pub fn non_empty(value: Option<&str>) -> (r: Option<&str>)
    ensures
        match r {
            Some(v) => given(value) == Some(v@),
            None => given(value) is None,
        },
{
    match value {
        Some(v) => if v.is_empty() {
            None
        } else {
            Some(v)
        },
        None => None,
    }
}

/// Returns the XDG cache directory: `XDG_CACHE_HOME`, or else the `fallback`
/// that the platform has.
pub fn cache_dir(xdg_cache_home: Option<String>, fallback: Option<String>) -> (r: Option<String>)
    ensures
        r == (if xdg_cache_home is Some && xdg_cache_home->0@.len() > 0 {
            xdg_cache_home
        } else {
            fallback
        }),
{
    match xdg_cache_home {
        Some(dir) => if dir.as_str().is_empty() {
            fallback
        } else {
            Some(dir)
        },
        None => fallback,
    }
}

/// Returns the XDG config directory for the given app name, as
/// `XDG_CONFIG_HOME` and `HOME` have it.
pub fn config_dir(app_name: &str, xdg_config_home: Option<&str>, home: Option<&str>) -> (r: String)
    ensures
        r@ == (match (given(xdg_config_home), home) {
            (Some(dir), _) => path::join(dir, app_name@),
            (None, Some(home)) => path::join(path::join(home@, ".config"@), app_name@),
            (None, None) => path::join("/tmp"@, app_name@),
        }),
{
    match (non_empty(xdg_config_home), home) {
        (Some(dir), _) => path::join_path(dir, app_name),
        (None, Some(home)) => path::join_path(path::join_path(home, ".config").as_str(), app_name),
        (None, None) => path::join_path("/tmp", app_name),
    }
}

/// Returns the temp directory, checking TMPDIR/TEMP/TMP then falling back to /tmp.
pub fn temp_dir(tmpdir: Option<&str>, temp: Option<&str>, tmp: Option<&str>) -> (r: String)
    ensures
        r@ == (match (tmpdir, temp, tmp) {
            (Some(dir), _, _) => dir@,
            (None, Some(dir), _) => dir@,
            (None, None, Some(dir)) => dir@,
            (None, None, None) => "/tmp"@,
        }),
{
    match (tmpdir, temp, tmp) {
        (Some(dir), _, _) => dir.to_owned(),
        (None, Some(dir), _) => dir.to_owned(),
        (None, None, Some(dir)) => dir.to_owned(),
        (None, None, None) => "/tmp".to_owned(),
    }
}

/// The user's own data directory.
pub open spec fn user_data_dir(xdg_data_home: Option<&str>, home: Option<&str>) -> Seq<Seq<char>> {
    match (given(xdg_data_home), home) {
        (Some(dir), _) => seq![dir],
        (None, Some(home)) => seq![path::join(home@, ".local/share"@)],
        (None, None) => Seq::empty(),
    }
}

/// The system's data directories.
pub open spec fn system_data_dirs(xdg_data_dirs: Option<&str>) -> Seq<Seq<char>> {
    match given(xdg_data_dirs) {
        Some(dirs) => text::split(dirs, ':'),
        None => seq!["/usr/local/share"@, "/usr/share"@],
    }
}

/// The XDG data directories, in the order in which to search them.
pub fn data_search_dirs(
    xdg_data_home: Option<&str>,
    home: Option<&str>,
    xdg_data_dirs: Option<&str>,
) -> (r: Vec<String>)
    ensures
        text::strings(r@) == user_data_dir(xdg_data_home, home) + system_data_dirs(xdg_data_dirs),
{
    let mut out: Vec<String> = Vec::new();
    match (non_empty(xdg_data_home), home) {
        (Some(dir), _) => out.push(dir.to_owned()),
        (None, Some(home)) => out.push(path::join_path(home, ".local/share")),
        (None, None) => {},
    }
    let ghost user = user_data_dir(xdg_data_home, home);
    assert(text::strings(out@) == user);
    match non_empty(xdg_data_dirs) {
        Some(dirs) => {
            let chars = text::chars_of(dirs);
            let pieces = text::split_chars(chars.as_slice(), ':');
            let ghost system = text::split(dirs@, ':');
            assert(text::slices(pieces@).len() == pieces@.len());
            let mut i: usize = 0;
            while i < pieces.len()
                invariant
                    i <= pieces@.len(),
                    pieces@.len() == system.len(),
                    text::slices(pieces@) == system,
                    text::strings(out@) == user + system.take(i as int),
                decreases pieces@.len() - i,
            {
                let ghost before = text::strings(out@);
                assert(system[i as int] == pieces@[i as int]@);
                out.push(text::string_of(pieces[i]));
                assert(text::strings(out@) == before.push(system[i as int]));
                i += 1;
            }
            assert(system.take(i as int) == system);
        },
        None => {
            out.push("/usr/local/share".to_owned());
            out.push("/usr/share".to_owned());
            assert(text::strings(out@) == user + seq!["/usr/local/share"@, "/usr/share"@]);
        },
    }
    out
}

/// Where an application would be in a data directory.
pub fn data_probe(dir: &str, app_name: &str) -> (r: String)
    ensures
        r@ == path::join(dir@, app_name@),
{
    path::join_path(dir, app_name)
}

/// The first directory from index `from` on that has the application.
pub open spec fn first_present(dirs: Seq<(String, bool)>, from: int) -> Option<Seq<char>>
    decreases dirs.len() - from,
{
    if from < 0 || from >= dirs.len() {
        None
    } else if dirs[from].1 {
        Some(dirs[from].0@)
    } else {
        first_present(dirs, from + 1)
    }
}

/// Searches XDG data directories for one with the application: the first of
/// `dirs` that comes with `true`, which says that [`data_probe`] exists in it.
/// Returns the data dir (e.g. `/usr/share` if `/usr/share/app_name` exists).
pub fn find_data_home(dirs: &Vec<(String, bool)>) -> (r: Option<String>)
    ensures
        match r {
            Some(dir) => first_present(dirs@, 0) == Some(dir@),
            None => first_present(dirs@, 0) is None,
        },
{
    let mut i: usize = 0;
    while i < dirs.len()
        invariant
            i <= dirs@.len(),
            first_present(dirs@, 0) == first_present(dirs@, i as int),
        decreases dirs@.len() - i,
    {
        if dirs[i].1 {
            return Some(dirs[i].0.clone());
        }
        i += 1;
    }
    None
}

/// Takes the content of a text file apart and returns non-empty trimmed lines.
pub fn load_text_lines(content: &str) -> (r: Vec<String>)
    ensures
        text::strings(r@) == text::text_lines(content@),
{
    text::nonblank_lines(content)
}

/// The data directory that is found is the first that has the application; there is
/// none only where no directory has it.
pub proof fn first_directory_with_the_application(
    dirs: Vec<(String, bool)>,
    r: Option<String>,
) -> (i: int)
    requires
        call_ensures(find_data_home, (&dirs,), r),
    ensures
        match r {
            Some(dir) => 0 <= i < dirs@.len() && dirs@[i].1 && dir@ == dirs@[i].0@ && forall|k: int|
                0 <= k < i ==> !(#[trigger] dirs@[k]).1,
            None => forall|k: int| 0 <= k < dirs@.len() ==> !(#[trigger] dirs@[k]).1,
        },
{
    lemma_first_present(dirs@, 0)
}

proof fn lemma_first_present(dirs: Seq<(String, bool)>, from: int) -> (i: int)
    requires
        0 <= from <= dirs.len(),
    ensures
        match first_present(dirs, from) {
            Some(dir) => from <= i < dirs.len() && dirs[i].1 && dir == dirs[i].0@ && forall|k: int|
                from <= k < i ==> !(#[trigger] dirs[k]).1,
            None => forall|k: int| from <= k < dirs.len() ==> !(#[trigger] dirs[k]).1,
        },
    decreases dirs.len() - from,
{
    if from < dirs.len() && !dirs[from].1 {
        lemma_first_present(dirs, from + 1)
    } else {
        from
    }
}

/// The variable is set, and to something.
pub open spec fn is_given(value: Option<&str>) -> bool {
    value is Some && value->0@.len() > 0
}

/// The data directories are the user's own, where it is known, and behind it those
/// of the system, as the variable lists them or the two that every system has.
pub proof fn own_data_directory_comes_first(
    xdg_data_home: Option<&str>,
    home: Option<&str>,
    xdg_data_dirs: Option<&str>,
    in_home: String,
    r: Vec<String>,
)
    requires
        call_ensures(data_search_dirs, (xdg_data_home, home, xdg_data_dirs), r),
        home is Some ==> call_ensures(path::join_path, (home->0, ".local/share"), in_home),
    ensures
        ({
            let own = if is_given(xdg_data_home) {
                seq![xdg_data_home->0@]
            } else if home is Some {
                seq![in_home@]
            } else {
                Seq::<Seq<char>>::empty()
            };
            let system = if is_given(xdg_data_dirs) {
                text::split(xdg_data_dirs->0@, ':')
            } else {
                seq!["/usr/local/share"@, "/usr/share"@]
            };
            text::strings(r@) == own + system
        }),
{
}

/// The configuration of an application is in a directory of its name, in the
/// directory for configurations, or else below the home directory, or else in the
/// one for temporary files. The cache is where its variable says, or else where the
/// platform has it.
pub proof fn each_application_has_its_own_directory(
    app_name: &str,
    xdg_config_home: Option<&str>,
    home: Option<&str>,
    below: String,
    in_given: String,
    in_home: String,
    in_tmp: String,
    r: String,
    xdg_cache_home: Option<String>,
    fallback: Option<String>,
    cache: Option<String>,
)
    requires
        call_ensures(config_dir, (app_name, xdg_config_home, home), r),
        xdg_config_home is Some ==> call_ensures(
            path::join_path,
            (xdg_config_home->0, app_name),
            in_given,
        ),
        home is Some ==> call_ensures(path::join_path, (home->0, ".config"), below),
        in_home@ == path::join(below@, app_name@),
        call_ensures(path::join_path, ("/tmp", app_name), in_tmp),
        call_ensures(cache_dir, (xdg_cache_home, fallback), cache),
    ensures
        is_given(xdg_config_home) ==> r@ == in_given@,
        !is_given(xdg_config_home) && home is Some ==> r@ == in_home@,
        !is_given(xdg_config_home) && home is None ==> r@ == in_tmp@,
        xdg_cache_home is Some && xdg_cache_home->0@.len() > 0 ==> cache == xdg_cache_home,
        xdg_cache_home is None || xdg_cache_home->0@.len() == 0 ==> cache == fallback,
{
}

/// Of the variables for temporary files the first that is set decides.
pub proof fn first_variable_names_the_temporary_directory(
    tmpdir: Option<&str>,
    temp: Option<&str>,
    tmp: Option<&str>,
    r: String,
)
    requires
        call_ensures(temp_dir, (tmpdir, temp, tmp), r),
    ensures
        tmpdir is Some ==> r@ == tmpdir->0@,
        tmpdir is None && temp is Some ==> r@ == temp->0@,
        tmpdir is None && temp is None && tmp is Some ==> r@ == tmp->0@,
        tmpdir is None && temp is None && tmp is None ==> r@ == seq!['/', 't', 'm', 'p'],
{
    reveal_strlit("/tmp");
    assert("/tmp"@ == seq!['/', 't', 'm', 'p']);
}

} // verus!
