//! Application directories, and the search for a `.desktop` file in them.

use vstd::prelude::*;
use crate::config::paths;
use crate::encoding;
use crate::path;
use crate::text;

verus! {

/// `dirs` with `dir` behind them, unless it is one of them already.
pub open spec fn with_dir(dirs: Seq<Seq<char>>, dir: Seq<char>) -> Seq<Seq<char>> {
    if has_path(dirs, dir) {
        dirs
    } else {
        dirs.push(dir)
    }
}

/// `dir` is the same path as one of `dirs`.
pub open spec fn has_path(dirs: Seq<Seq<char>>, dir: Seq<char>) -> bool {
    exists|i: int| 0 <= i < dirs.len() && path::key(#[trigger] dirs[i]) == path::key(dir)
}

/// The user's own application directory, as far as the environment tells.
pub open spec fn user_dirs(home: Seq<char>, data_home: Option<Seq<char>>) -> Seq<Seq<char>> {
    match data_home {
        Some(dir) => seq![path::join(dir, "applications"@)],
        None => if home.len() > 0 {
            seq![path::join(home, ".local/share/applications"@)]
        } else {
            Seq::empty()
        },
    }
}

/// `dirs`, and behind them the application directories of the first `n` data
/// directories.
pub open spec fn with_data_dirs(
    dirs: Seq<Seq<char>>,
    data_dirs: Seq<Seq<char>>,
    n: int,
) -> Seq<Seq<char>>
    decreases n,
{
    if n <= 0 {
        dirs
    } else {
        with_dir(
            with_data_dirs(dirs, data_dirs, n - 1),
            path::join(data_dirs[n - 1], "applications"@),
        )
    }
}

/// The data directories where `XDG_DATA_DIRS` is not set.
pub open spec fn data_dirs_or_default(data_dirs: Option<Seq<char>>) -> Seq<char> {
    match data_dirs {
        Some(dirs) => dirs,
        None => "/usr/local/share/:/usr/share/"@,
    }
}

/// All application directories, the user's own first, flatpak's last.
pub open spec fn app_dirs(
    home: Seq<char>,
    data_home: Option<Seq<char>>,
    data_dirs: Option<Seq<char>>,
) -> Seq<Seq<char>> {
    let system = text::split(data_dirs_or_default(data_dirs), ':');
    let dirs = with_data_dirs(user_dirs(home, data_home), system, system.len() as int);
    let dirs = with_dir(
        dirs,
        path::join(home, ".local/share/flatpak/exports/share/applications"@),
    );
    with_dir(dirs, "/var/lib/flatpak/exports/share/applications"@)
}

fn add_dir(dirs: &mut Vec<String>, dir: String)
    ensures
        text::strings(final(dirs)@) == with_dir(text::strings(old(dirs)@), dir@),
{
    let ghost before = text::strings(dirs@);
    let mut i: usize = 0;
    while i < dirs.len()
        invariant
            i <= dirs@.len(),
            before == text::strings(dirs@),
            *dirs == *old(dirs),
            forall|k: int| 0 <= k < i ==> path::key(#[trigger] before[k]) != path::key(dir@),
        decreases dirs@.len() - i,
    {
        assert(before[i as int] == dirs@[i as int]@);
        if path::same_path(dirs[i].as_str(), dir.as_str()) {
            return;
        }
        i += 1;
    }
    dirs.push(dir);
    assert(text::strings(dirs@) == before.push(dir@));
}

/// Returns all XDG application directories, including flatpak locations. The
/// arguments are the values of `HOME` (empty where it is not set),
/// `XDG_DATA_HOME` and `XDG_DATA_DIRS`; of the latter two an empty one counts as
/// one that is not set.
pub fn get_app_dirs(home: &str, data_home: Option<&str>, data_dirs: Option<&str>) -> (r: Vec<String>)
    ensures
        text::strings(r@) == app_dirs(home@, paths::given(data_home), paths::given(data_dirs)),
{
    let mut dirs: Vec<String> = Vec::new();
    match paths::non_empty(data_home) {
        Some(dir) => dirs.push(path::join_path(dir, "applications")),
        None => {
            if !home.is_empty() {
                dirs.push(path::join_path(home, ".local/share/applications"));
            }
        },
    }
    let ghost user = user_dirs(home@, paths::given(data_home));
    assert(text::strings(dirs@) == user);
    let list = match paths::non_empty(data_dirs) {
        Some(dirs) => text::chars_of(dirs),
        None => text::chars_of("/usr/local/share/:/usr/share/"),
    };
    let system = text::split_chars(list.as_slice(), ':');
    let ghost all = text::split(data_dirs_or_default(paths::given(data_dirs)), ':');
    assert(text::slices(system@).len() == system@.len());
    let mut i: usize = 0;
    while i < system.len()
        invariant
            i <= system@.len(),
            system@.len() == all.len(),
            text::slices(system@) == all,
            text::strings(dirs@) == with_data_dirs(user, all, i as int),
        decreases system@.len() - i,
    {
        assert(all[i as int] == system@[i as int]@);
        let dir = text::string_of(system[i]);
        add_dir(&mut dirs, path::join_path(dir.as_str(), "applications"));
        i += 1;
    }
    add_dir(
        &mut dirs,
        path::join_path(home, ".local/share/flatpak/exports/share/applications"),
    );
    add_dir(&mut dirs, "/var/lib/flatpak/exports/share/applications".to_owned());
    dirs
}

/// No two of `dirs` are the same path.
pub open spec fn distinct_paths(dirs: Seq<Seq<char>>) -> bool {
    forall|i: int, j: int|
        0 <= i < j < dirs.len() ==> path::key(#[trigger] dirs[i]) != path::key(#[trigger] dirs[j])
}

proof fn lemma_with_dir_distinct(dirs: Seq<Seq<char>>, dir: Seq<char>)
    requires
        distinct_paths(dirs),
    ensures
        distinct_paths(with_dir(dirs, dir)),
        dirs.is_prefix_of(with_dir(dirs, dir)),
{
    let all = with_dir(dirs, dir);
    assert forall|i: int, j: int| 0 <= i < j < all.len() implies path::key(#[trigger] all[i])
        != path::key(#[trigger] all[j]) by {
        if j == dirs.len() {
            assert(dirs[i] == all[i]);
        } else {
            assert(dirs[i] == all[i] && dirs[j] == all[j]);
        }
    }
}

proof fn lemma_with_data_dirs_distinct(dirs: Seq<Seq<char>>, data_dirs: Seq<Seq<char>>, n: int)
    requires
        distinct_paths(dirs),
    ensures
        distinct_paths(with_data_dirs(dirs, data_dirs, n)),
        dirs.is_prefix_of(with_data_dirs(dirs, data_dirs, n)),
    decreases n,
{
    if n > 0 {
        lemma_with_data_dirs_distinct(dirs, data_dirs, n - 1);
        lemma_with_dir_distinct(
            with_data_dirs(dirs, data_dirs, n - 1),
            path::join(data_dirs[n - 1], "applications"@),
        );
    }
}

/// No application directory is listed twice, and the user's own comes first.
pub proof fn app_dirs_are_distinct(
    home: Seq<char>,
    data_home: Option<Seq<char>>,
    data_dirs: Option<Seq<char>>,
)
    ensures
        distinct_paths(app_dirs(home, data_home, data_dirs)),
        user_dirs(home, data_home).is_prefix_of(app_dirs(home, data_home, data_dirs)),
{
    let system = text::split(data_dirs_or_default(data_dirs), ':');
    let user = user_dirs(home, data_home);
    let dirs = with_data_dirs(user, system, system.len() as int);
    lemma_with_data_dirs_distinct(user, system, system.len() as int);
    let flatpak = path::join(home, ".local/share/flatpak/exports/share/applications"@);
    lemma_with_dir_distinct(dirs, flatpak);
    lemma_with_dir_distinct(
        with_dir(dirs, flatpak),
        "/var/lib/flatpak/exports/share/applications"@,
    );
}

/// A file name with the extension `desktop`. A dot at its very start makes no
/// extension.
pub open spec fn is_desktop_name(name: Seq<char>) -> bool {
    name.len() > ".desktop"@.len() && text::ends_with(name, ".desktop"@)
}

/// The paths of those `names` in `dir` that are desktop files.
pub open spec fn desktop_files(dir: Seq<char>, names: Seq<Seq<char>>) -> Seq<Seq<char>>
    decreases names.len(),
{
    if names.len() == 0 {
        Seq::empty()
    } else {
        let before = desktop_files(dir, names.drop_last());
        if is_desktop_name(names.last()) {
            before.push(path::join(dir, names.last()))
        } else {
            before
        }
    }
}

/// Whether a file name is that of a .desktop file.
pub fn is_desktop_file(name: &str) -> (r: bool)
    ensures
        r == is_desktop_name(name@),
{
    let name = text::chars_of(name);
    let suffix = text::chars_of(".desktop");
    name.len() > suffix.len() && text::finishes_with(name.as_slice(), suffix.as_slice())
}

/// Lists all .desktop files in the given directory, which holds files of the
/// given names.
pub fn list_desktop_files(dir: &str, names: &Vec<String>) -> (r: Vec<String>)
    ensures
        text::strings(r@) == desktop_files(dir@, text::strings(names@)),
{
    let ghost all = text::strings(names@);
    let mut out: Vec<String> = Vec::new();
    let mut i: usize = 0;
    while i < names.len()
        invariant
            i <= names@.len(),
            all == text::strings(names@),
            text::strings(out@) == desktop_files(dir@, all.take(i as int)),
        decreases names@.len() - i,
    {
        assert(all.take(i as int + 1).drop_last() == all.take(i as int));
        assert(all[i as int] == names@[i as int]@);
        if is_desktop_file(names[i].as_str()) {
            let ghost before = text::strings(out@);
            let file = path::join_path(dir, names[i].as_str());
            out.push(file);
            assert(text::strings(out@) == before.push(file@));
        }
        i += 1;
    }
    assert(all.take(i as int) == all);
    out
}

/// An entry of a directory.
#[derive(Debug, Clone)]
pub struct DirFile {
    pub name: String,
    pub is_dir: bool,
    /// What is in the file, where that could be read.
    pub content: Option<String>,
}

/// How often `c` stands in `s`.
pub open spec fn count(s: Seq<char>, c: char) -> int
    decreases s.len(),
{
    if s.len() == 0 {
        0
    } else if s.last() == c {
        count(s.drop_last(), c) + 1
    } else {
        count(s.drop_last(), c)
    }
}

/// In which way a file matches an application, the closest first.
#[derive(Debug, Clone, Copy, PartialEq, Eq, Structural)]
pub enum FileMatch {
    /// `org.*.appid.desktop`.
    Qualified,
    /// The name alone, in any letter case.
    Exact,
    /// The name somewhere in the file name, in any letter case.
    Within,
    /// The window class that the file names.
    WindowClass,
    /// The name without what follows its first dash, alone or qualified, in any
    /// letter case.
    Unversioned,
}

/// How far from the closest a way of matching is.
pub open spec fn looseness(how: FileMatch) -> int {
    match how {
        FileMatch::Qualified => 0,
        FileMatch::Exact => 1,
        FileMatch::Within => 2,
        FileMatch::WindowClass => 3,
        FileMatch::Unversioned => 4,
    }
}

/// The file name is `stem`, or ends with it behind a dot, all in upper case.
pub open spec fn is_file_of(name_upper: Seq<char>, stem_upper: Seq<char>) -> bool {
    ||| name_upper == stem_upper + ".DESKTOP"@
    ||| text::ends_with(name_upper, "."@ + stem_upper + ".DESKTOP"@)
}

/// The content of a desktop file names the application as its window class.
pub open spec fn content_matches(app_id: Seq<char>, content: Seq<char>) -> bool {
    text::find(content, "StartupWMClass="@ + text::before(app_id, ' ')) is Some
}

/// The file with this name and content matches the application.
pub open spec fn file_matches(
    how: FileMatch,
    app_id: Seq<char>,
    name: Seq<char>,
    content: Option<String>,
) -> bool {
    match how {
        FileMatch::Qualified => text::find(name, text::before(app_id, '-')) is Some && count(
            name,
            '.',
        ) > 1 && text::ends_with(name, app_id + ".desktop"@),
        FileMatch::Exact => encoding::uppercase(name) == encoding::uppercase(app_id)
            + ".DESKTOP"@,
        FileMatch::Within => text::find(
            encoding::uppercase(name),
            encoding::uppercase(text::before(app_id, ' ')),
        ) is Some,
        FileMatch::WindowClass => content matches Some(c) && content_matches(app_id, c@),
        FileMatch::Unversioned => app_id.contains('-') && is_file_of(
            encoding::uppercase(name),
            encoding::uppercase(text::before(app_id, '-')),
        ),
    }
}

/// The first file from index `from` on that matches.
pub open spec fn first_file(
    how: FileMatch,
    app_id: Seq<char>,
    files: Seq<DirFile>,
    from: int,
) -> Option<int>
    decreases files.len() - from,
{
    if from < 0 || from >= files.len() {
        None
    } else if !files[from].is_dir && file_matches(
        how,
        app_id,
        files[from].name@,
        files[from].content,
    ) {
        Some(from)
    } else {
        first_file(how, app_id, files, from + 1)
    }
}

/// The first directory from index `from` on with a file that matches, and the
/// first such file in it.
pub open spec fn first_match(
    how: FileMatch,
    app_id: Seq<char>,
    dirs: Seq<Vec<DirFile>>,
    from: int,
) -> Option<(int, int)>
    decreases dirs.len() - from,
{
    if from < 0 || from >= dirs.len() {
        None
    } else {
        match first_file(how, app_id, dirs[from]@, 0) {
            Some(i) => Some((from, i)),
            None => first_match(how, app_id, dirs, from + 1),
        }
    }
}

/// `found`, or where it is nothing, `otherwise`.
pub open spec fn or_else(found: Option<(int, int)>, otherwise: Option<(int, int)>) -> Option<
    (int, int),
> {
    if found is Some {
        found
    } else {
        otherwise
    }
}

/// The file that the search by the name of the application finds.
pub open spec fn best_by_name(app_id: Seq<char>, dirs: Seq<Vec<DirFile>>) -> Option<(int, int)> {
    or_else(
        first_match(FileMatch::Qualified, app_id, dirs, 0),
        or_else(
            first_match(FileMatch::Exact, app_id, dirs, 0),
            first_match(FileMatch::Within, app_id, dirs, 0),
        ),
    )
}

/// The file that the search finds: a closer match in any directory comes before
/// a looser one.
pub open spec fn best_match(app_id: Seq<char>, dirs: Seq<Vec<DirFile>>) -> Option<(int, int)> {
    or_else(
        best_by_name(app_id, dirs),
        or_else(
            first_match(FileMatch::WindowClass, app_id, dirs, 0),
            first_match(FileMatch::Unversioned, app_id, dirs, 0),
        ),
    )
}

/// `r` is the place `found`.
pub open spec fn is_place(r: Option<(usize, usize)>, found: Option<(int, int)>) -> bool {
    match (r, found) {
        (Some((d, i)), Some((fd, fi))) => d == fd && i == fi,
        (None, None) => true,
        _ => false,
    }
}

/// There is a file at this place, and it matches.
pub open spec fn matches_at(
    how: FileMatch,
    app_id: Seq<char>,
    dirs: Seq<Vec<DirFile>>,
    d: int,
    i: int,
) -> bool {
    0 <= d < dirs.len() && 0 <= i < dirs[d]@.len() && !dirs[d]@[i].is_dir && file_matches(
        how,
        app_id,
        dirs[d]@[i].name@,
        dirs[d]@[i].content,
    )
}

proof fn lemma_first_file(how: FileMatch, app_id: Seq<char>, files: Seq<DirFile>, from: int)
    requires
        0 <= from <= files.len(),
    ensures
        match first_file(how, app_id, files, from) {
            Some(k) => from <= k < files.len() && !files[k].is_dir && file_matches(
                how,
                app_id,
                files[k].name@,
                files[k].content,
            ),
            None => forall|i: int|
                from <= i < files.len() ==> (#[trigger] files[i]).is_dir || !file_matches(
                    how,
                    app_id,
                    files[i].name@,
                    files[i].content,
                ),
        },
    decreases files.len() - from,
{
    if from < files.len() && !(!files[from].is_dir && file_matches(
        how,
        app_id,
        files[from].name@,
        files[from].content,
    )) {
        lemma_first_file(how, app_id, files, from + 1);
    }
}

proof fn lemma_first_match(how: FileMatch, app_id: Seq<char>, dirs: Seq<Vec<DirFile>>, from: int)
    requires
        0 <= from <= dirs.len(),
    ensures
        match first_match(how, app_id, dirs, from) {
            Some((d, i)) => from <= d && matches_at(how, app_id, dirs, d, i),
            None => forall|d: int, i: int|
                from <= d ==> !#[trigger] matches_at(how, app_id, dirs, d, i),
        },
    decreases dirs.len() - from,
{
    if from < dirs.len() {
        lemma_first_file(how, app_id, dirs[from]@, 0);
        if first_file(how, app_id, dirs[from]@, 0) is None {
            lemma_first_match(how, app_id, dirs, from + 1);
        }
    }
}

/// The file at this place matches, and none in any directory matches more
/// closely.
pub open spec fn is_closest(
    how: FileMatch,
    app_id: Seq<char>,
    dirs: Seq<Vec<DirFile>>,
    d: int,
    i: int,
) -> bool {
    matches_at(how, app_id, dirs, d, i) && forall|closer: FileMatch, e: int, j: int|
        looseness(closer) < looseness(how) ==> !#[trigger] matches_at(closer, app_id, dirs, e, j)
}

/// The search finds a file that matches, and a looser match only where no file
/// in any directory matches more closely. It finds nothing only where no file
/// matches in any way.
pub proof fn search_finds_the_closest_match(app_id: Seq<char>, dirs: Seq<Vec<DirFile>>)
    ensures
        match best_match(app_id, dirs) {
            Some((d, i)) => exists|how: FileMatch| #[trigger] is_closest(how, app_id, dirs, d, i),
            None => forall|how: FileMatch, d: int, i: int|
                !matches_at(how, app_id, dirs, d, i),
        },
{
    lemma_first_match(FileMatch::Qualified, app_id, dirs, 0);
    lemma_first_match(FileMatch::Exact, app_id, dirs, 0);
    lemma_first_match(FileMatch::Within, app_id, dirs, 0);
    lemma_first_match(FileMatch::WindowClass, app_id, dirs, 0);
    lemma_first_match(FileMatch::Unversioned, app_id, dirs, 0);
    if let Some((d, i)) = best_match(app_id, dirs) {
        assert(is_closest(FileMatch::Qualified, app_id, dirs, d, i) || is_closest(
            FileMatch::Exact,
            app_id,
            dirs,
            d,
            i,
        ) || is_closest(FileMatch::Within, app_id, dirs, d, i) || is_closest(
            FileMatch::WindowClass,
            app_id,
            dirs,
            d,
            i,
        ) || is_closest(FileMatch::Unversioned, app_id, dirs, d, i));
    }
}

/// The same files, whatever is in them.
pub open spec fn same_names(a: Seq<DirFile>, b: Seq<DirFile>) -> bool {
    a.len() == b.len() && forall|i: int|
        0 <= i < a.len() ==> (#[trigger] a[i]).name@ == b[i].name@ && a[i].is_dir == b[i].is_dir
}

proof fn lemma_same_first_file(
    how: FileMatch,
    app_id: Seq<char>,
    a: Seq<DirFile>,
    b: Seq<DirFile>,
    from: int,
)
    requires
        same_names(a, b),
        how != FileMatch::WindowClass,
        0 <= from <= a.len(),
    ensures
        first_file(how, app_id, a, from) == first_file(how, app_id, b, from),
    decreases a.len() - from,
{
    if from < a.len() {
        assert(a[from].name@ == b[from].name@);
        lemma_same_first_file(how, app_id, a, b, from + 1);
    }
}

proof fn lemma_same_first_match(
    how: FileMatch,
    app_id: Seq<char>,
    a: Seq<Vec<DirFile>>,
    b: Seq<Vec<DirFile>>,
    from: int,
)
    requires
        a.len() == b.len(),
        forall|d: int| 0 <= d < a.len() ==> same_names((#[trigger] a[d])@, b[d]@),
        how != FileMatch::WindowClass,
        0 <= from <= a.len(),
    ensures
        first_match(how, app_id, a, from) == first_match(how, app_id, b, from),
    decreases a.len() - from,
{
    if from < a.len() {
        lemma_same_first_file(how, app_id, a[from]@, b[from]@, 0);
        lemma_same_first_match(how, app_id, a, b, from + 1);
    }
}

/// What the names decide, they decide before any file is read: the whole search
/// finds the same file, whatever is then in the files.
pub proof fn names_decide_before_contents(
    app_id: Seq<char>,
    unread: Seq<Vec<DirFile>>,
    dirs: Seq<Vec<DirFile>>,
)
    requires
        unread.len() == dirs.len(),
        forall|d: int| 0 <= d < unread.len() ==> same_names((#[trigger] unread[d])@, dirs[d]@),
    ensures
        best_by_name(app_id, unread) is Some ==> best_match(app_id, dirs) == best_by_name(
            app_id,
            unread,
        ),
{
    lemma_same_first_match(FileMatch::Qualified, app_id, unread, dirs, 0);
    lemma_same_first_match(FileMatch::Exact, app_id, unread, dirs, 0);
    lemma_same_first_match(FileMatch::Within, app_id, unread, dirs, 0);
}

/// A window class with a version in it, such as `gimp-2.9.9`, leads to the file
/// that has the name without the version, such as `gimp.desktop` or
/// `org.gimp.GIMP.desktop`, where it is the only one.
pub proof fn versioned_class_is_found(app_id: Seq<char>, file: DirFile, dirs: Seq<Vec<DirFile>>)
    requires
        app_id.contains('-'),
        !file.is_dir,
        is_file_of(
            encoding::uppercase(file.name@),
            encoding::uppercase(text::before(app_id, '-')),
        ),
        dirs.len() == 1,
        dirs[0]@ == seq![file],
    ensures
        best_match(app_id, dirs) == Some((0int, 0int)),
{
    search_finds_the_closest_match(app_id, dirs);
    assert(dirs[0]@[0] == file);
    assert(matches_at(FileMatch::Unversioned, app_id, dirs, 0, 0));
    let (d, i) = best_match(app_id, dirs)->0;
    let how = choose|how: FileMatch| #[trigger] is_closest(how, app_id, dirs, d, i);
    assert(matches_at(how, app_id, dirs, d, i));
}

fn count_char(s: &[char], c: char) -> (r: usize)
    ensures
        r == count(s@, c),
{
    let mut n: usize = 0;
    let mut i: usize = 0;
    while i < s.len()
        invariant
            i <= s@.len(),
            n <= i,
            n == count(s@.take(i as int), c),
        decreases s@.len() - i,
    {
        assert(s@.take(i as int + 1).drop_last() == s@.take(i as int));
        if s[i] == c {
            n += 1;
        }
        i += 1;
    }
    assert(s@.take(i as int) == s@);
    n
}

fn text_until(s: &str, c: char) -> (r: String)
    ensures
        r@ == text::before(s@, c),
{
    let chars = text::chars_of(s);
    text::string_of(text::text_before(chars.as_slice(), c))
}

/// Whether a file name is that of the application, both in upper case.
pub fn matches_exactly(name_upper: &str, app_upper: &str) -> (r: bool)
    ensures
        r == (name_upper@ == app_upper@ + ".DESKTOP"@),
{
    let mut wanted = app_upper.to_owned();
    wanted.append(".DESKTOP");
    text::same_text(name_upper, wanted.as_str())
}

/// Whether a file name is that of the application, alone or qualified, both in
/// upper case.
pub fn matches_stem(name_upper: &str, stem_upper: &str) -> (r: bool)
    ensures
        r == is_file_of(name_upper@, stem_upper@),
{
    let mut suffix = text::concat(".", stem_upper);
    suffix.append(".DESKTOP");
    matches_exactly(name_upper, stem_upper) || text::text_finishes_with(
        name_upper,
        suffix.as_str(),
    )
}

fn has_char(s: &str, c: char) -> (r: bool)
    ensures
        r == s@.contains(c),
{
    proof {
        text::lemma_index_from(s@, c, 0);
    }
    match text::find_char(text::chars_of(s).as_slice(), c) {
        Some(k) => {
            assert(s@[k as int] == c);
            true
        },
        None => false,
    }
}

/// Whether the file matches the application.
pub fn matches_file(how: FileMatch, app_id: &str, file: &DirFile) -> (r: bool)
    ensures
        r == file_matches(how, app_id@, file.name@, file.content),
{
    let name = file.name.as_str();
    match how {
        FileMatch::Qualified => {
            let mut suffix = app_id.to_owned();
            suffix.append(".desktop");
            text::text_contains(name, text_until(app_id, '-').as_str()) && count_char(
                text::chars_of(name).as_slice(),
                '.',
            ) > 1 && text::text_finishes_with(name, suffix.as_str())
        },
        FileMatch::Exact => {
            matches_exactly(
                encoding::to_uppercase(name).as_str(),
                encoding::to_uppercase(app_id).as_str(),
            )
        },
        FileMatch::Within => {
            let wanted = encoding::to_uppercase(text_until(app_id, ' ').as_str());
            text::text_contains(encoding::to_uppercase(name).as_str(), wanted.as_str())
        },
        FileMatch::WindowClass => {
            match &file.content {
                Some(content) => {
                    let needle = text::concat("StartupWMClass=", text_until(app_id, ' ').as_str());
                    text::text_contains(content.as_str(), needle.as_str())
                },
                None => false,
            }
        },
        FileMatch::Unversioned => {
            has_char(app_id, '-') && matches_stem(
                encoding::to_uppercase(name).as_str(),
                encoding::to_uppercase(text_until(app_id, '-').as_str()).as_str(),
            )
        },
    }
}

fn find_match(how: FileMatch, app_id: &str, dirs: &Vec<Vec<DirFile>>) -> (r: Option<(usize, usize)>)
    ensures
        is_place(r, first_match(how, app_id@, dirs@, 0)),
{
    let mut d: usize = 0;
    while d < dirs.len()
        invariant
            d <= dirs@.len(),
            first_match(how, app_id@, dirs@, 0) == first_match(how, app_id@, dirs@, d as int),
        decreases dirs@.len() - d,
    {
        let files = &dirs[d];
        let mut i: usize = 0;
        while i < files.len()
            invariant
                i <= files@.len(),
                d < dirs@.len(),
                files@ == dirs@[d as int]@,
                first_match(how, app_id@, dirs@, 0) == first_match(how, app_id@, dirs@, d as int),
                first_file(how, app_id@, files@, 0) == first_file(
                    how,
                    app_id@,
                    files@,
                    i as int,
                ),
            decreases files@.len() - i,
        {
            if !files[i].is_dir && matches_file(how, app_id, &files[i]) {
                return Some((d, i));
            }
            i += 1;
        }
        d += 1;
    }
    None
}

/// Searches desktop directories for a .desktop file that has the name of the
/// app. No content is looked at. Where this finds a file,
/// [`search_desktop_dirs`] finds the same.
pub fn search_desktop_names(app_id: &str, dirs: &Vec<Vec<DirFile>>) -> (r: Option<(usize, usize)>)
    ensures
        is_place(r, best_by_name(app_id@, dirs@)),
{
    if let Some(found) = find_match(FileMatch::Qualified, app_id, dirs) {
        return Some(found);
    }
    if let Some(found) = find_match(FileMatch::Exact, app_id, dirs) {
        return Some(found);
    }
    find_match(FileMatch::Within, app_id, dirs)
}

/// Searches desktop directories for a .desktop file matching the app name. The
/// result is the place of the file: the index of its directory, and its index
/// there.
///
/// Handles cases where the window class doesn't exactly match the .desktop filename,
/// e.g. "gimp-2.9.9" matching "gimp.desktop" or "org.gimp.GIMP.desktop".
pub fn search_desktop_dirs(app_id: &str, dirs: &Vec<Vec<DirFile>>) -> (r: Option<(usize, usize)>)
    ensures
        is_place(r, best_match(app_id@, dirs@)),
{
    if let Some(found) = search_desktop_names(app_id, dirs) {
        return Some(found);
    }
    if let Some(found) = find_match(FileMatch::WindowClass, app_id, dirs) {
        return Some(found);
    }
    find_match(FileMatch::Unversioned, app_id, dirs)
}

/// The place `(e, j)` comes before the place `(d, i)`: it is in an earlier
/// directory, or earlier in the same one.
pub open spec fn is_earlier(e: int, j: int, d: int, i: int) -> bool {
    e < d || (e == d && j < i)
}

proof fn lemma_no_earlier_file(how: FileMatch, app_id: Seq<char>, files: Seq<DirFile>, from: int)
    requires
        0 <= from <= files.len(),
    ensures
        first_file(how, app_id, files, from) matches Some(k) ==> forall|i: int|
            from <= i < k ==> (#[trigger] files[i]).is_dir || !file_matches(
                how,
                app_id,
                files[i].name@,
                files[i].content,
            ),
    decreases files.len() - from,
{
    if from < files.len() {
        lemma_no_earlier_file(how, app_id, files, from + 1);
    }
}

/// Of several files that match in the same way, the one in the earliest directory
/// is found, and there the earliest: a user's own file before that of the system.
pub proof fn earliest_match_is_found(
    how: FileMatch,
    app_id: Seq<char>,
    dirs: Seq<Vec<DirFile>>,
    from: int,
)
    requires
        0 <= from <= dirs.len(),
    ensures
        first_match(how, app_id, dirs, from) matches Some((d, i)) ==> matches_at(
            how,
            app_id,
            dirs,
            d,
            i,
        ) && forall|e: int, j: int|
            from <= e && is_earlier(e, j, d, i) ==> !#[trigger] matches_at(
                how,
                app_id,
                dirs,
                e,
                j,
            ),
    decreases dirs.len() - from,
{
    lemma_first_match(how, app_id, dirs, from);
    if from < dirs.len() {
        let files = dirs[from]@;
        lemma_first_file(how, app_id, files, 0);
        lemma_no_earlier_file(how, app_id, files, 0);
        earliest_match_is_found(how, app_id, dirs, from + 1);
        if first_file(how, app_id, files, 0) is None {
            assert forall|j: int| !#[trigger] matches_at(how, app_id, dirs, from, j) by {}
        }
    }
}

/// The search finds the closest match, and of several that are equally close the
/// one in the earliest directory, and there the earliest. It finds nothing only
/// where no file matches in any way.
pub proof fn search_prefers_earlier_directories(
    app_id: &str,
    dirs: Vec<Vec<DirFile>>,
    r: Option<(usize, usize)>,
)
    requires
        call_ensures(search_desktop_dirs, (app_id, &dirs), r),
    ensures
        match r {
            Some((d, i)) => exists|how: FileMatch|
                {
                    &&& #[trigger] matches_at(how, app_id@, dirs@, d as int, i as int)
                    &&& forall|e: int, j: int|
                        is_earlier(e, j, d as int, i as int) ==> !#[trigger] matches_at(
                            how,
                            app_id@,
                            dirs@,
                            e,
                            j,
                        )
                    &&& forall|closer: FileMatch, e: int, j: int|
                        looseness(closer) < looseness(how) ==> !#[trigger] matches_at(
                            closer,
                            app_id@,
                            dirs@,
                            e,
                            j,
                        )
                },
            None => forall|how: FileMatch, d: int, i: int|
                !#[trigger] matches_at(how, app_id@, dirs@, d, i),
        },
{
    let id = app_id@;
    let all = dirs@;
    search_finds_the_closest_match(id, all);
    lemma_first_match(FileMatch::Qualified, id, all, 0);
    lemma_first_match(FileMatch::Exact, id, all, 0);
    lemma_first_match(FileMatch::Within, id, all, 0);
    lemma_first_match(FileMatch::WindowClass, id, all, 0);
    lemma_first_match(FileMatch::Unversioned, id, all, 0);
    earliest_match_is_found(FileMatch::Qualified, id, all, 0);
    earliest_match_is_found(FileMatch::Exact, id, all, 0);
    earliest_match_is_found(FileMatch::Within, id, all, 0);
    earliest_match_is_found(FileMatch::WindowClass, id, all, 0);
    earliest_match_is_found(FileMatch::Unversioned, id, all, 0);
    if let Some((d, i)) = r {
        let how = if first_match(FileMatch::Qualified, id, all, 0) is Some {
            FileMatch::Qualified
        } else if first_match(FileMatch::Exact, id, all, 0) is Some {
            FileMatch::Exact
        } else if first_match(FileMatch::Within, id, all, 0) is Some {
            FileMatch::Within
        } else if first_match(FileMatch::WindowClass, id, all, 0) is Some {
            FileMatch::WindowClass
        } else {
            FileMatch::Unversioned
        };
        assert(first_match(how, id, all, 0) == Some((d as int, i as int)));
        assert(matches_at(how, id, all, d as int, i as int));
        assert forall|e: int, j: int|
            is_earlier(e, j, d as int, i as int) implies !#[trigger] matches_at(
            how,
            id,
            all,
            e,
            j,
        ) by {
            if e < 0 {
                assert(!matches_at(how, id, all, e, j));
            }
        }
    }
}

/// The search by name alone finds the earliest of the closest names, and finds
/// nothing only where no name matches.
pub proof fn name_search_prefers_earlier_directories(
    app_id: &str,
    dirs: Vec<Vec<DirFile>>,
    r: Option<(usize, usize)>,
)
    requires
        call_ensures(search_desktop_names, (app_id, &dirs), r),
    ensures
        match r {
            Some((d, i)) => exists|how: FileMatch|
                {
                    &&& looseness(how) <= 2
                    &&& #[trigger] matches_at(how, app_id@, dirs@, d as int, i as int)
                    &&& forall|e: int, j: int|
                        is_earlier(e, j, d as int, i as int) ==> !#[trigger] matches_at(
                            how,
                            app_id@,
                            dirs@,
                            e,
                            j,
                        )
                    &&& forall|closer: FileMatch, e: int, j: int|
                        looseness(closer) < looseness(how) ==> !#[trigger] matches_at(
                            closer,
                            app_id@,
                            dirs@,
                            e,
                            j,
                        )
                },
            None => forall|how: FileMatch, d: int, i: int|
                looseness(how) <= 2 ==> !#[trigger] matches_at(how, app_id@, dirs@, d, i),
        },
{
    let id = app_id@;
    let all = dirs@;
    lemma_first_match(FileMatch::Qualified, id, all, 0);
    lemma_first_match(FileMatch::Exact, id, all, 0);
    lemma_first_match(FileMatch::Within, id, all, 0);
    earliest_match_is_found(FileMatch::Qualified, id, all, 0);
    earliest_match_is_found(FileMatch::Exact, id, all, 0);
    earliest_match_is_found(FileMatch::Within, id, all, 0);
    if let Some((d, i)) = r {
        let how = if first_match(FileMatch::Qualified, id, all, 0) is Some {
            FileMatch::Qualified
        } else if first_match(FileMatch::Exact, id, all, 0) is Some {
            FileMatch::Exact
        } else {
            FileMatch::Within
        };
        assert(first_match(how, id, all, 0) == Some((d as int, i as int)));
        assert(matches_at(how, id, all, d as int, i as int));
        assert forall|e: int, j: int|
            is_earlier(e, j, d as int, i as int) implies !#[trigger] matches_at(
            how,
            id,
            all,
            e,
            j,
        ) by {
            if e < 0 {
                assert(!matches_at(how, id, all, e, j));
            }
        }
    }
}

proof fn lemma_count_is_not_negative(s: Seq<char>, c: char)
    ensures
        count(s, c) >= 0,
    decreases s.len(),
{
    if s.len() > 0 {
        lemma_count_is_not_negative(s.drop_last(), c);
    }
}

/// The directories in the order in which they are wanted, some perhaps more than
/// once: the user's own, those of the system, and those of flatpak.
pub open spec fn wanted_dirs(
    home: Seq<char>,
    data_home: Option<Seq<char>>,
    data_dirs: Seq<Seq<char>>,
) -> Seq<Seq<char>> {
    (match data_home {
        Some(dir) => seq![path::join(dir, "applications"@)],
        None => if home.len() > 0 {
            seq![path::join(home, ".local/share/applications"@)]
        } else {
            Seq::empty()
        },
    }) + data_dirs.map_values(|dir: Seq<char>| path::join(dir, "applications"@)) + seq![
        path::join(home, ".local/share/flatpak/exports/share/applications"@),
        "/var/lib/flatpak/exports/share/applications"@,
    ]
}

/// `dirs` are those of `wanted` in their order, each where it first comes up:
/// `places` tells where.
pub open spec fn are_first_of(dirs: Seq<Seq<char>>, wanted: Seq<Seq<char>>, places: Seq<int>) -> bool {
    &&& places.len() == dirs.len()
    &&& forall|k: int| 0 <= k < dirs.len() ==> is_wanted_at(dirs[k], wanted, #[trigger] places[k])
    &&& forall|k: int, l: int|
        0 <= k < l < places.len() ==> #[trigger] places[k] < #[trigger] places[l]
    &&& forall|w: int| 0 <= w < wanted.len() ==> #[trigger] is_there_by(dirs, wanted, places, w)
}

/// `dir` is the one wanted at `place`.
pub open spec fn is_wanted_at(dir: Seq<char>, wanted: Seq<Seq<char>>, place: int) -> bool {
    0 <= place < wanted.len() && dir == wanted[place]
}

/// One of `dirs` that was wanted no later than at `w` is the same path as the one
/// wanted there.
pub open spec fn is_there_by(
    dirs: Seq<Seq<char>>,
    wanted: Seq<Seq<char>>,
    places: Seq<int>,
    w: int,
) -> bool {
    exists|k: int|
        0 <= k < dirs.len() && #[trigger] places[k] <= w && path::key(dirs[k]) == path::key(
            wanted[w],
        )
}

proof fn lemma_one_more_dir(
    dirs: Seq<Seq<char>>,
    wanted: Seq<Seq<char>>,
    places: Seq<int>,
    dir: Seq<char>,
) -> (next: Seq<int>)
    requires
        are_first_of(dirs, wanted, places),
    ensures
        are_first_of(with_dir(dirs, dir), wanted.push(dir), next),
{
    let all = with_dir(dirs, dir);
    let more = wanted.push(dir);
    let next = if has_path(dirs, dir) {
        places
    } else {
        places.push(wanted.len() as int)
    };
    assert forall|w: int| 0 <= w < more.len() implies #[trigger] is_there_by(all, more, next, w) by {
        if w < wanted.len() {
            assert(is_there_by(dirs, wanted, places, w));
            let k = choose|k: int|
                0 <= k < dirs.len() && #[trigger] places[k] <= w && path::key(dirs[k])
                    == path::key(wanted[w]);
            assert(next[k] == places[k] && all[k] == dirs[k]);
        } else if has_path(dirs, dir) {
            let k = choose|k: int|
                0 <= k < dirs.len() && path::key(#[trigger] dirs[k]) == path::key(dir);
            assert(is_wanted_at(dirs[k], wanted, places[k]));
            assert(next[k] == places[k]);
        } else {
            let k = dirs.len() as int;
            assert(next[k] == wanted.len() && all[k] == dir);
        }
    }
    assert forall|k: int| 0 <= k < all.len() implies is_wanted_at(
        all[k],
        more,
        #[trigger] next[k],
    ) by {
        if k < dirs.len() {
            assert(next[k] == places[k] && all[k] == dirs[k]);
            assert(is_wanted_at(dirs[k], wanted, places[k]));
        }
    }
    assert forall|k: int, l: int| 0 <= k < l < next.len() implies #[trigger] next[k]
        < #[trigger] next[l] by {
        assert(next[k] == places[k]);
        assert(is_wanted_at(dirs[k], wanted, places[k]));
        if l < dirs.len() {
            assert(next[l] == places[l]);
        }
    }
    next
}

proof fn lemma_all_dirs(dirs: Seq<Seq<char>>) -> (places: Seq<int>)
    ensures
        are_first_of(dirs, dirs, places),
{
    let places = Seq::new(dirs.len(), |i: int| i);
    assert forall|w: int| 0 <= w < dirs.len() implies #[trigger] is_there_by(
        dirs,
        dirs,
        places,
        w,
    ) by {
        assert(places[w] == w);
    }
    places
}

proof fn lemma_more_data_dirs(
    dirs: Seq<Seq<char>>,
    data_dirs: Seq<Seq<char>>,
    n: int,
    places: Seq<int>,
) -> (next: Seq<int>)
    requires
        0 <= n <= data_dirs.len(),
        are_first_of(dirs, dirs, places),
    ensures
        are_first_of(
            with_data_dirs(dirs, data_dirs, n),
            dirs + data_dirs.take(n).map_values(
                |dir: Seq<char>| path::join(dir, "applications"@),
            ),
            next,
        ),
    decreases n,
{
    let apps = |dir: Seq<char>| path::join(dir, "applications"@);
    if n == 0 {
        assert(dirs + data_dirs.take(0).map_values(apps) == dirs);
        places
    } else {
        let before = lemma_more_data_dirs(dirs, data_dirs, n - 1, places);
        let wanted = dirs + data_dirs.take(n - 1).map_values(apps);
        let dir = path::join(data_dirs[n - 1], "applications"@);
        assert(dirs + data_dirs.take(n).map_values(apps) == wanted.push(dir));
        lemma_one_more_dir(with_data_dirs(dirs, data_dirs, n - 1), wanted, before, dir)
    }
}

/// The application directories are the wanted ones, all of them, in their order,
/// each once: the user's own, those of `XDG_DATA_DIRS` as it lists them, and
/// flatpak's for the user and for the system.
pub proof fn app_dirs_are_the_wanted_ones(
    home: &str,
    data_home: Option<&str>,
    data_dirs: Option<&str>,
    own: Option<Seq<char>>,
    listed: Seq<char>,
    r: Vec<String>,
) -> (places: Seq<int>)
    requires
        call_ensures(get_app_dirs, (home, data_home, data_dirs), r),
        own == if data_home is Some && data_home->0@.len() > 0 {
            Some(data_home->0@)
        } else {
            None
        },
        listed == if data_dirs is Some && data_dirs->0@.len() > 0 {
            data_dirs->0@
        } else {
            "/usr/local/share/:/usr/share/"@
        },
    ensures
        distinct_paths(text::strings(r@)),
        are_first_of(
            text::strings(r@),
            wanted_dirs(home@, own, text::split(listed, ':')),
            places,
        ),
{
    app_dirs_are_distinct(home@, own, paths::given(data_dirs));
    let system = text::split(listed, ':');
    let user = user_dirs(home@, own);
    let start = lemma_all_dirs(user);
    let apps = |dir: Seq<char>| path::join(dir, "applications"@);
    let n = system.len() as int;
    let with_system = lemma_more_data_dirs(user, system, n, start);
    assert(system.take(n) == system);
    let wanted = user + system.map_values(apps);
    let dirs = with_data_dirs(user, system, n);
    let first = path::join(home@, ".local/share/flatpak/exports/share/applications"@);
    let second = "/var/lib/flatpak/exports/share/applications"@;
    let with_first = lemma_one_more_dir(dirs, wanted, with_system, first);
    let places = lemma_one_more_dir(with_dir(dirs, first), wanted.push(first), with_first, second);
    assert(wanted.push(first).push(second) == wanted_dirs(home@, own, system));
    places
}

/// Every file with the extension `desktop` is listed, under its path in the
/// directory, and no other; in their order, each as often as it is there.
pub proof fn all_desktop_files_are_listed(dir: &str, names: Vec<String>, r: Vec<String>)
    requires
        call_ensures(list_desktop_files, (dir, &names), r),
    ensures
        text::strings(r@) == text::strings(names@).filter(
            |name: Seq<char>| name.len() > 8 && name.skip(name.len() - 8) == ".desktop"@,
        ).map_values(|name: Seq<char>| path::join(dir@, name)),
{
    reveal_strlit(".desktop");
    lemma_desktop_files(dir@, text::strings(names@));
}

proof fn lemma_desktop_files(dir: Seq<char>, names: Seq<Seq<char>>)
    ensures
        desktop_files(dir, names) == names.filter(
            |name: Seq<char>| name.len() > 8 && name.skip(name.len() - 8) == ".desktop"@,
        ).map_values(|name: Seq<char>| path::join(dir, name)),
    decreases names.len(),
{
    reveal(Seq::filter);
    reveal_strlit(".desktop");
    let kept = |name: Seq<char>| name.len() > 8 && name.skip(name.len() - 8) == ".desktop"@;
    let joined = |name: Seq<char>| path::join(dir, name);
    if names.len() > 0 {
        lemma_desktop_files(dir, names.drop_last());
        let before = names.drop_last().filter(kept);
        if kept(names.last()) {
            assert(before.push(names.last()).map_values(joined) == before.map_values(joined).push(
                joined(names.last()),
            ));
        }
    } else {
        assert(names.filter(kept).map_values(joined) == Seq::<Seq<char>>::empty());
    }
}

/// `p` stands somewhere in `s`.
pub open spec fn stands_in(p: Seq<char>, s: Seq<char>) -> bool {
    exists|before: Seq<char>, after: Seq<char>| s == #[trigger] (before + p + after)
}

/// `s` holds two dots.
pub open spec fn has_two_dots(s: Seq<char>) -> bool {
    exists|i: int, j: int| 0 <= i < j < s.len() && #[trigger] s[i] == '.' && #[trigger] s[j] == '.'
}

proof fn lemma_stands_in(p: Seq<char>, s: Seq<char>)
    ensures
        stands_in(p, s) <==> text::find(s, p) is Some,
{
    if stands_in(p, s) {
        let (before, after) = choose|before: Seq<char>, after: Seq<char>|
            s == #[trigger] (before + p + after);
        text::lemma_find_somewhere(before, p, after);
    }
    if let Some(k) = text::find(s, p) {
        text::lemma_find_from(s, p, 0);
        let before = s.take(k);
        let after = s.skip(k + p.len());
        assert(s == before + p + after);
    }
}

proof fn lemma_two_dots(s: Seq<char>)
    ensures
        count(s, '.') > 1 <==> has_two_dots(s),
        count(s, '.') > 0 <==> s.contains('.'),
    decreases s.len(),
{
    if s.len() > 0 {
        let fewer = s.drop_last();
        lemma_two_dots(fewer);
        lemma_count_is_not_negative(fewer, '.');
        if fewer.contains('.') {
            let i = choose|i: int| 0 <= i < fewer.len() && fewer[i] == '.';
            assert(s[i] == '.');
            if s.last() == '.' {
                assert(s[i] == '.' && s[s.len() - 1] == '.');
            }
        }
        if has_two_dots(fewer) {
            let (i, j) = choose|i: int, j: int|
                0 <= i < j < fewer.len() && #[trigger] fewer[i] == '.' && #[trigger] fewer[j]
                    == '.';
            assert(s[i] == '.' && s[j] == '.');
        }
        if has_two_dots(s) {
            let (i, j) = choose|i: int, j: int|
                0 <= i < j < s.len() && #[trigger] s[i] == '.' && #[trigger] s[j] == '.';
            assert(fewer[i] == '.');
            if j < fewer.len() {
                assert(fewer[j] == '.');
            }
        }
        if s.contains('.') {
            let i = choose|i: int| 0 <= i < s.len() && s[i] == '.';
            if i < fewer.len() {
                assert(fewer[i] == '.');
            }
        }
        if s.last() == '.' {
            assert(s[s.len() - 1] == '.');
        }
    }
}

/// A file matches an application in one of five ways: its name has two dots, holds
/// the name of the application up to a dash, and ends with the whole of it; it is
/// that name; it holds that name up to a space; its content names the window class;
/// or its name is that of the application up to a dash, alone or behind a dot. But
/// for the first way and the content, letter case makes no difference.
pub proof fn files_match_in_five_ways(
    app_id: Seq<char>,
    name: Seq<char>,
    content: Option<String>,
    up_to_space: Seq<char>,
    up_to_dash: Seq<char>,
)
    requires
        up_to_space == text::before(app_id, ' '),
        up_to_dash == text::before(app_id, '-'),
    ensures
        file_matches(FileMatch::Qualified, app_id, name, content) <==> has_two_dots(name)
            && stands_in(up_to_dash, name) && exists|before: Seq<char>|
            name == #[trigger] (before + (app_id + ".desktop"@)),
        file_matches(FileMatch::Exact, app_id, name, content) <==> encoding::uppercase(name)
            == encoding::uppercase(app_id) + ".DESKTOP"@,
        file_matches(FileMatch::Within, app_id, name, content) <==> stands_in(
            encoding::uppercase(up_to_space),
            encoding::uppercase(name),
        ),
        file_matches(FileMatch::WindowClass, app_id, name, content) <==> content is Some
            && stands_in("StartupWMClass="@ + up_to_space, content->0@),
        file_matches(FileMatch::Unversioned, app_id, name, content) <==> app_id.contains('-') && (
        encoding::uppercase(name) == encoding::uppercase(up_to_dash) + ".DESKTOP"@
            || exists|before: Seq<char>|
            encoding::uppercase(name) == #[trigger] (before + ("."@ + encoding::uppercase(up_to_dash)
                + ".DESKTOP"@))),
{
    lemma_stands_in(up_to_dash, name);
    lemma_stands_in(encoding::uppercase(up_to_space), encoding::uppercase(name));
    if let Some(c) = content {
        lemma_stands_in("StartupWMClass="@ + up_to_space, c@);
    }
    lemma_two_dots(name);
    lemma_ends_with(name, app_id + ".desktop"@);
    lemma_ends_with(
        encoding::uppercase(name),
        "."@ + encoding::uppercase(up_to_dash) + ".DESKTOP"@,
    );
}

proof fn lemma_ends_with(s: Seq<char>, p: Seq<char>)
    ensures
        text::ends_with(s, p) <==> exists|before: Seq<char>| s == #[trigger] (before + p),
{
    if text::ends_with(s, p) {
        let before = s.take(s.len() - p.len());
        assert(s == before + p);
    }
    if exists|before: Seq<char>| s == #[trigger] (before + p) {
        let before = choose|before: Seq<char>| s == #[trigger] (before + p);
        assert(s.skip(s.len() - p.len()) == p);
    }
}

/// Some file matches in this way.
pub open spec fn matches_somewhere(how: FileMatch, app_id: Seq<char>, dirs: Seq<Vec<DirFile>>) -> bool {
    exists|d: int, i: int| #[trigger] matches_at(how, app_id, dirs, d, i)
}

/// A qualified name comes before a whole name in any letter case, that before a name
/// with the application's in it, that before a window class, and that before a name
/// up to a dash. What is found is a file, and no directory.
pub proof fn closer_ways_of_matching_come_first(
    app_id: &str,
    dirs: Vec<Vec<DirFile>>,
    r: Option<(usize, usize)>,
)
    requires
        call_ensures(search_desktop_dirs, (app_id, &dirs), r),
    ensures
        ({
            let qualified = matches_somewhere(FileMatch::Qualified, app_id@, dirs@);
            let exact = matches_somewhere(FileMatch::Exact, app_id@, dirs@);
            let within = matches_somewhere(FileMatch::Within, app_id@, dirs@);
            let class = matches_somewhere(FileMatch::WindowClass, app_id@, dirs@);
            let unversioned = matches_somewhere(FileMatch::Unversioned, app_id@, dirs@);
            &&& r is Some <==> qualified || exact || within || class || unversioned
            &&& r matches Some((d, i)) ==> {
                let how = if qualified {
                    FileMatch::Qualified
                } else if exact {
                    FileMatch::Exact
                } else if within {
                    FileMatch::Within
                } else if class {
                    FileMatch::WindowClass
                } else {
                    FileMatch::Unversioned
                };
                &&& matches_at(how, app_id@, dirs@, d as int, i as int)
                &&& d < dirs@.len() && i < dirs@[d as int]@.len()
                &&& !dirs@[d as int]@[i as int].is_dir
            }
        }),
{
    let id = app_id@;
    let all = dirs@;
    lemma_somewhere(FileMatch::Qualified, id, all);
    lemma_somewhere(FileMatch::Exact, id, all);
    lemma_somewhere(FileMatch::Within, id, all);
    lemma_somewhere(FileMatch::WindowClass, id, all);
    lemma_somewhere(FileMatch::Unversioned, id, all);
}

proof fn lemma_somewhere(how: FileMatch, app_id: Seq<char>, dirs: Seq<Vec<DirFile>>)
    ensures
        matches_somewhere(how, app_id, dirs) <==> first_match(how, app_id, dirs, 0) is Some,
        first_match(how, app_id, dirs, 0) matches Some((d, i)) ==> matches_at(
            how,
            app_id,
            dirs,
            d,
            i,
        ),
{
    lemma_first_match(how, app_id, dirs, 0);
    earliest_match_is_found(how, app_id, dirs, 0);
}

} // verus!
