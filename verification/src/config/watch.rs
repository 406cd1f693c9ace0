//! Watching a stylesheet and what it imports.
//!
//! The functions here decide; the caller has the watcher, the timer and the
//! style provider.
//!
//! A stylesheet has two paths. As it is referenced it is loaded, and its
//! imports are relative to that. In canonical form it is watched, as that is
//! the form in which changes are reported.

use vstd::prelude::*;
use crate::error::{IpcError, IpcErrorKind};
use crate::path;
use crate::path::PathSet;
use crate::text;

verus! {

/// Debounce interval for CSS file change detection (milliseconds).
pub const CSS_RELOAD_DEBOUNCE_MS: u64 = 100;

/// Which stylesheet a provider holds.
#[derive(Debug, Clone, Copy, PartialEq, Eq, Structural)]
pub enum CssLayer {
    /// Embedded defaults (base layer).
    Embedded,
    /// Programmatic overrides like --opacity (middle layer).
    Override,
    /// User CSS file (highest: always wins, including after hot-reload).
    User,
}

/// How far above that of an application's own styles the priority lies.
pub open spec fn priority_above(layer: CssLayer) -> u32 {
    match layer {
        CssLayer::Embedded => 0,
        CssLayer::Override => 1,
        CssLayer::User => 2,
    }
}

/// How far above that of an application's own styles the priority of a layer
/// lies.
pub fn css_priority_offset(layer: CssLayer) -> (r: u32)
    ensures
        r == priority_above(layer),
{
    match layer {
        CssLayer::Embedded => 0,
        CssLayer::Override => 1,
        CssLayer::User => 2,
    }
}

/// Overrides win over defaults, and the user's stylesheet wins over both.
pub proof fn user_css_always_wins()
    ensures
        priority_above(CssLayer::Embedded) < priority_above(CssLayer::Override),
        priority_above(CssLayer::Override) < priority_above(CssLayer::User),
{
}

/// Where a provider gets its styles.
#[derive(Debug, Clone, Copy, PartialEq, Eq, Structural)]
pub enum ProviderSource {
    /// From the file.
    File,
    /// There is no file: no styles, so that the defaults show through.
    Nothing,
}

/// Where a provider for a file gets its styles.
pub fn provider_source(file_exists: bool) -> (r: ProviderSource)
    ensures
        r == (if file_exists {
            ProviderSource::File
        } else {
            ProviderSource::Nothing
        }),
{
    if file_exists {
        ProviderSource::File
    } else {
        ProviderSource::Nothing
    }
}

/// Error returned when the watcher cannot be moved to a new CSS file path.
///
/// The old watcher is then preserved and hot-reload continues on
/// the old file.
#[derive(Debug)]
#[non_exhaustive]
pub enum CssRebindError {
    /// The new CSS file path could not be accessed, for the given reason.
    Io { path: String, source: IpcError },
    /// A new watcher could not be set up on the new path.
    WatcherSetup { path: String, message: String },
}

impl CssRebindError {
    /// How this error reads.
    pub open spec fn text(self) -> Seq<char> {
        match self {
            CssRebindError::Io { path, source } => "cannot read new CSS file '"@ + path@ + "': "@
                + source.message@,
            CssRebindError::WatcherSetup { path, message } =>
                "failed to set up CSS file watcher for '"@ + path@ + "': "@ + message@,
        }
    }

    /// How this error reads.
    pub fn message(&self) -> (r: String)
        ensures
            r@ == self.text(),
    {
        match self {
            CssRebindError::Io { path, source } => {
                let mut out = text::concat3("cannot read new CSS file '", path.as_str(), "': ");
                out.append(source.message.as_str());
                out
            },
            CssRebindError::WatcherSetup { path, message } => {
                let mut out = text::concat3(
                    "failed to set up CSS file watcher for '",
                    path.as_str(),
                    "': ",
                );
                out.append(message.as_str());
                out
            },
        }
    }
}

/// Why a watcher could not be set up.
#[derive(Debug)]
pub enum BuildWatchError {
    /// The watcher itself could not be created.
    CreateFailed(String),
    /// A directory could not be watched.
    WatchFailed { dir: String, source: String },
}

impl BuildWatchError {
    /// How this error reads.
    pub open spec fn text(self) -> Seq<char> {
        match self {
            BuildWatchError::CreateFailed(e) => "failed to create notify watcher: "@ + e@,
            BuildWatchError::WatchFailed { dir, source } => "failed to watch directory '"@ + dir@
                + "': "@ + source@,
        }
    }

    /// How this error reads.
    pub fn message(&self) -> (r: String)
        ensures
            r@ == self.text(),
    {
        match self {
            BuildWatchError::CreateFailed(e) => {
                let mut out = "failed to create notify watcher: ".to_owned();
                out.append(e.as_str());
                out
            },
            BuildWatchError::WatchFailed { dir, source } => {
                let mut out = text::concat3("failed to watch directory '", dir.as_str(), "': ");
                out.append(source.as_str());
                out
            },
        }
    }
}

/// The first directory from index `from` on that could not be watched.
pub open spec fn first_failure(dirs: Seq<(String, Option<String>)>, from: int) -> Option<int>
    decreases dirs.len() - from,
{
    if from < 0 || from >= dirs.len() {
        None
    } else if dirs[from].1 is Some {
        Some(from)
    } else {
        first_failure(dirs, from + 1)
    }
}

/// What setting up a watcher comes to. `create_error` says why it could not be
/// created; else each directory comes with why it could not be watched. One
/// that is not watched makes the whole a failure, and the first is reported:
/// a watch that claims files which it does not see would never be mended.
pub fn watch_outcome(create_error: Option<String>, dirs: &Vec<(String, Option<String>)>) -> (r:
    Result<(), BuildWatchError>)
    ensures
        match create_error {
            Some(e) => r matches Err(BuildWatchError::CreateFailed(shown)) && shown@ == e@,
            None => match (r, first_failure(dirs@, 0)) {
                (Ok(_), None) => true,
                (Err(BuildWatchError::WatchFailed { dir, source }), Some(i)) => dir@
                    == dirs@[i].0@ && source@ == dirs@[i].1->0@,
                _ => false,
            },
        },
{
    if let Some(e) = create_error {
        return Err(BuildWatchError::CreateFailed(e));
    }
    let mut i: usize = 0;
    while i < dirs.len()
        invariant
            i <= dirs@.len(),
            create_error is None,
            first_failure(dirs@, 0) == first_failure(dirs@, i as int),
        decreases dirs@.len() - i,
    {
        if let Some(e) = &dirs[i].1 {
            return Err(
                BuildWatchError::WatchFailed { dir: dirs[i].0.clone(), source: e.clone() },
            );
        }
        i += 1;
    }
    Ok(())
}

/// The paths to fire reloads for: the stylesheet and every target.
pub open spec fn watched_files(main: Seq<char>, imports: Seq<Seq<char>>) -> Set<
    (bool, Seq<Seq<char>>),
> {
    path::keys(imports).to_set().insert(path::key(main))
}

/// The directories of the files.
pub open spec fn directories(files: Seq<Seq<char>>) -> Set<(bool, Seq<Seq<char>>)>
    decreases files.len(),
{
    if files.len() == 0 {
        Set::empty()
    } else {
        let before = directories(files.drop_last());
        match path::parent(files.last()) {
            Some(dir) => before.insert(path::key(dir)),
            None => before,
        }
    }
}

/// Computes the full set of paths we want to fire reloads for:
/// the main CSS and every currently-discovered `@import` target.
pub fn compute_watched_set(main_css: &str, imports: &[String]) -> (r: PathSet)
    ensures
        r.wf(),
        r@ == watched_files(main_css@, text::strings(imports@)),
{
    let mut out = PathSet::new();
    out.insert(main_css);
    let ghost all = path::keys(text::strings(imports@));
    let ghost main = path::key(main_css@);
    let mut i: usize = 0;
    assert(all.take(0).to_set() =~= Set::<(bool, Seq<Seq<char>>)>::empty());
    assert(out@ =~= all.take(0).to_set().insert(main));
    while i < imports.len()
        invariant
            i <= imports@.len(),
            all == path::keys(text::strings(imports@)),
            out.wf(),
            out@ == all.take(i as int).to_set().insert(main),
        decreases imports@.len() - i,
    {
        out.insert(imports[i].as_str());
        let ghost k = path::key(imports@[i as int]@);
        assert(all[i as int] == k);
        assert(all.take(i as int + 1) == all.take(i as int).push(k));
        proof {
            lemma_set_of_push(all.take(i as int), k);
        }
        assert(out@ =~= all.take(i as int + 1).to_set().insert(main));
        i += 1;
    }
    assert(all.take(i as int) == all);
    out
}

proof fn lemma_set_of_push<A>(s: Seq<A>, x: A)
    ensures
        s.push(x).to_set() == s.to_set().insert(x),
{
    let t = s.push(x);
    assert forall|y: A| t.contains(y) <==> (s.contains(y) || y == x) by {
        if s.contains(y) {
            let i = choose|i: int| 0 <= i < s.len() && s[i] == y;
            assert(t[i] == y);
        }
        assert(t[s.len() as int] == x);
    }
    assert(t.to_set() =~= s.to_set().insert(x));
}

/// Computes the set of parent directories that need watching
/// in order to observe every watched file.
pub fn compute_watched_dirs(main_css: &str, imports: &[String]) -> (r: PathSet)
    ensures
        r.wf(),
        r@ == directories(seq![main_css@] + text::strings(imports@)),
{
    let mut out = PathSet::new();
    let ghost files = seq![main_css@] + text::strings(imports@);
    assert(files.take(1).drop_last() == files.take(0));
    assert(files.take(0) == Seq::<Seq<char>>::empty());
    assert(directories(files.take(0)) == Set::<(bool, Seq<Seq<char>>)>::empty());
    if let Some(dir) = path::parent_of(main_css) {
        out.insert(dir.as_str());
    }
    assert(out@ =~= directories(files.take(1)));
    let mut i: usize = 0;
    while i < imports.len()
        invariant
            i <= imports@.len(),
            files == seq![main_css@] + text::strings(imports@),
            out.wf(),
            out@ == directories(files.take(i as int + 1)),
        decreases imports@.len() - i,
    {
        let ghost next = files.take(i as int + 2);
        assert(next.drop_last() == files.take(i as int + 1));
        assert(next.last() == imports@[i as int]@);
        if let Some(dir) = path::parent_of(imports[i].as_str()) {
            out.insert(dir.as_str());
        }
        i += 1;
    }
    assert(files.take(i as int + 1) == files);
    out
}

/// The same imports in another order, or listed more than once, are the same
/// set of watched files.
pub proof fn watched_files_ignore_order(main: Seq<char>, a: Seq<Seq<char>>, b: Seq<Seq<char>>)
    requires
        forall|file: Seq<char>| a.contains(file) <==> b.contains(file),
    ensures
        watched_files(main, a) == watched_files(main, b),
{
    assert forall|k: (bool, Seq<Seq<char>>)| path::keys(a).contains(k) implies path::keys(
        b,
    ).contains(k) by {
        lemma_same_keys(a, b, k);
    }
    assert forall|k: (bool, Seq<Seq<char>>)| path::keys(b).contains(k) implies path::keys(
        a,
    ).contains(k) by {
        lemma_same_keys(b, a, k);
    }
    assert(watched_files(main, a) =~= watched_files(main, b));
}

proof fn lemma_same_keys(a: Seq<Seq<char>>, b: Seq<Seq<char>>, k: (bool, Seq<Seq<char>>))
    requires
        forall|file: Seq<char>| a.contains(file) ==> b.contains(file),
        path::keys(a).contains(k),
    ensures
        path::keys(b).contains(k),
{
    let i = choose|i: int| 0 <= i < path::keys(a).len() && path::keys(a)[i] == k;
    assert(a.contains(a[i]));
    let j = choose|j: int| 0 <= j < b.len() && b[j] == a[i];
    assert(path::keys(b)[j] == k);
}

/// The directory of every watched file is watched.
pub proof fn every_file_is_in_a_watched_directory(files: Seq<Seq<char>>, i: int)
    requires
        0 <= i < files.len(),
    ensures
        path::parent(files[i]) matches Some(dir) ==> directories(files).contains(path::key(dir)),
    decreases files.len(),
{
    if i < files.len() - 1 {
        assert(files.drop_last()[i] == files[i]);
        every_file_is_in_a_watched_directory(files.drop_last(), i);
    }
}

/// The canonical form of a path whose directory has the canonical form `dir`.
pub open spec fn canonical_in(file: Seq<char>, dir: Seq<char>) -> Option<Seq<char>> {
    match path::file_name(file) {
        Some(name) => Some(path::join(dir, name)),
        None => None,
    }
}

/// Computes the `(as_referenced, canonical)` path pair used throughout the
/// watcher. `canonical_dir` is what resolving the directory of the path came
/// to; why that failed is passed on. Only the directory is resolved, so that
/// a file can be watched that does not exist yet.
pub fn compute_canonical_pair(file: &str, canonical_dir: Result<String, IpcError>) -> (r: Result<
    (String, String),
    IpcError,
>)
    ensures
        match r {
            Ok((as_referenced, canonical)) => path::parent(file@) is Some && as_referenced@ == file@
                && canonical_dir is Ok && canonical_in(file@, canonical_dir->Ok_0@) == Some(
                canonical@,
            ),
            Err(e) => if path::parent(file@) is None {
                e.is(
                    IpcErrorKind::NotFound,
                    "path '"@ + file@ + "' has no parent directory to canonicalize"@,
                )
            } else if path::file_name(file@) is None {
                e.is(
                    IpcErrorKind::NotFound,
                    "path '"@ + file@ + "' has no file-name component"@,
                )
            } else {
                canonical_dir == Err::<String, IpcError>(e)
            },
        },
{
    if path::parent_of(file).is_none() {
        return Err(
            IpcError::new(
                IpcErrorKind::NotFound,
                text::concat3("path '", file, "' has no parent directory to canonicalize"),
            ),
        );
    }
    let name = match path::file_name_of(file) {
        Some(name) => name,
        None => {
            return Err(
                IpcError::new(
                    IpcErrorKind::NotFound,
                    text::concat3("path '", file, "' has no file-name component"),
                ),
            );
        },
    };
    match canonical_dir {
        Ok(dir) => Ok((file.to_owned(), path::join_path(dir.as_str(), name.as_str()))),
        Err(e) => Err(e),
    }
}

/// What a watcher reports about a path.
#[derive(Debug, Clone, Copy, PartialEq, Eq, Structural)]
pub enum ChangeKind {
    Any,
    Access,
    Create,
    Modify,
    Remove,
    Other,
}

/// The report is about what is in the file, or about whether it is there.
pub open spec fn changes_content(kind: ChangeKind) -> bool {
    kind == ChangeKind::Create || kind == ChangeKind::Modify || kind == ChangeKind::Remove
}

/// Filters event kinds to just the ones that indicate the file's
/// *content* changed (or the file was created/removed). Access events
/// fire when *any* reader opens the
/// file, including our own reload. Treating those as change signals creates an
/// infinite feedback loop.
pub fn is_content_change(kind: ChangeKind) -> (r: bool)
    ensures
        r == changes_content(kind),
{
    matches!(kind, ChangeKind::Create | ChangeKind::Modify | ChangeKind::Remove)
}

/// A report leads to a reload: content changed, and it is about at least one of
/// the watched files.
pub open spec fn signals(
    kind: ChangeKind,
    paths: Seq<Seq<char>>,
    watched: Set<(bool, Seq<Seq<char>>)>,
) -> bool {
    changes_content(kind) && exists|i: int|
        0 <= i < paths.len() && watched.contains(path::key(#[trigger] paths[i]))
}

/// Decides whether a report leads to a reload.
pub fn should_signal(kind: ChangeKind, paths: &Vec<String>, watched: &PathSet) -> (r: bool)
    ensures
        r == signals(kind, text::strings(paths@), watched@),
{
    let ghost all = text::strings(paths@);
    if !is_content_change(kind) {
        return false;
    }
    let mut i: usize = 0;
    while i < paths.len()
        invariant
            i <= paths@.len(),
            changes_content(kind),
            all == text::strings(paths@),
            forall|k: int| 0 <= k < i ==> !watched@.contains(path::key(#[trigger] all[k])),
        decreases paths@.len() - i,
    {
        assert(all[i as int] == paths@[i as int]@);
        if watched.contains(paths[i].as_str()) {
            return true;
        }
        i += 1;
    }
    false
}

/// Every way of saving a watched file is noticed: in place, which modifies it,
/// by another file taking its place, which creates it, and by removing it.
pub proof fn every_save_is_noticed(
    kind: ChangeKind,
    paths: Seq<Seq<char>>,
    main: Seq<char>,
    imports: Seq<Seq<char>>,
    file: Seq<char>,
)
    requires
        kind == ChangeKind::Create || kind == ChangeKind::Modify || kind == ChangeKind::Remove,
        file == main || imports.contains(file),
        paths.contains(file),
    ensures
        signals(kind, paths, watched_files(main, imports)),
{
    let i = choose|i: int| 0 <= i < paths.len() && paths[i] == file;
    if file != main {
        let k = choose|k: int| 0 <= k < imports.len() && imports[k] == file;
        assert(path::keys(imports)[k] == path::key(file));
        assert(path::keys(imports).to_set().contains(path::keys(imports)[k]));
    }
    assert(watched_files(main, imports).contains(path::key(paths[i])));
}

/// Reading a file, as a reload does, leads to no reload, whatever is watched.
pub proof fn reading_leads_to_no_reload(
    paths: Seq<Seq<char>>,
    watched: Set<(bool, Seq<Seq<char>>)>,
)
    ensures
        !signals(ChangeKind::Access, paths, watched),
{
}

/// What the channel from the watcher holds.
#[derive(Debug, Clone, Copy, PartialEq, Eq, Structural)]
pub enum ChannelState {
    Message,
    Empty,
    Disconnected,
}

/// What draining the channel came to.
#[derive(Debug, Clone, Copy, PartialEq, Eq, Structural)]
pub enum DrainResult {
    Changed,
    Empty,
    Disconnected,
}

/// What draining comes to, one state of the channel after the other.
pub open spec fn drained(changed: bool, states: Seq<ChannelState>) -> Option<DrainResult>
    decreases states.len(),
{
    if states.len() == 0 {
        None
    } else {
        match states[0] {
            ChannelState::Message => drained(true, states.skip(1)),
            ChannelState::Empty => Some(
                if changed {
                    DrainResult::Changed
                } else {
                    DrainResult::Empty
                },
            ),
            ChannelState::Disconnected => Some(DrainResult::Disconnected),
        }
    }
}

/// One step of draining: `changed` says whether a message has come up. The
/// result says so for the next step, and what it came to at the end.
pub fn drain_step(changed: bool, state: ChannelState) -> (r: (bool, Option<DrainResult>))
    ensures
        r.0 == (changed || state == ChannelState::Message),
        r.1 == drained(changed, seq![state]),
{
    proof {
        assert(seq![state].skip(1) == Seq::<ChannelState>::empty());
        assert(drained(true, seq![state].skip(1)) is None);
    }
    match state {
        ChannelState::Message => (true, None),
        ChannelState::Empty => {
            if changed {
                (changed, Some(DrainResult::Changed))
            } else {
                (changed, Some(DrainResult::Empty))
            }
        },
        ChannelState::Disconnected => (changed, Some(DrainResult::Disconnected)),
    }
}

/// However many messages are pending, they fold into one reload.
pub proof fn messages_fold_into_one_reload(changed: bool, n: nat)
    ensures
        drained(
            changed,
            Seq::new(n, |i: int| ChannelState::Message).push(ChannelState::Empty),
        ) == Some(
            if changed || n > 0 {
                DrainResult::Changed
            } else {
                DrainResult::Empty
            },
        ),
    decreases n,
{
    let states = Seq::new(n, |i: int| ChannelState::Message).push(ChannelState::Empty);
    if n > 0 {
        let fewer = Seq::new((n - 1) as nat, |i: int| ChannelState::Message).push(
            ChannelState::Empty,
        );
        assert(states.skip(1) == fewer);
        messages_fold_into_one_reload(true, (n - 1) as nat);
    }
}

/// What a tick of the reload timer does.
#[derive(Debug, Clone, Copy, PartialEq, Eq, Structural)]
pub enum TickAction {
    /// Load the stylesheet again, and see what it imports now.
    Reload,
    /// Nothing; the timer goes on.
    Idle,
    /// The timer stops.
    Stop,
}

/// Decides what a tick of the reload timer does. Without a handle, or without
/// a watcher that could still report, the timer stops.
pub fn on_tick(handle_alive: bool, drained: DrainResult) -> (r: TickAction)
    ensures
        r == (if !handle_alive || drained == DrainResult::Disconnected {
            TickAction::Stop
        } else if drained == DrainResult::Changed {
            TickAction::Reload
        } else {
            TickAction::Idle
        }),
{
    if !handle_alive {
        return TickAction::Stop;
    }
    match drained {
        DrainResult::Changed => TickAction::Reload,
        DrainResult::Empty => TickAction::Idle,
        DrainResult::Disconnected => TickAction::Stop,
    }
}

/// What is being watched.
#[derive(Debug)]
pub struct CssBinding {
    as_referenced: String,
    canonical: String,
    watched: PathSet,
}

/// What a binding is made of.
#[verifier::ext_equal]
pub struct CssBindingView {
    pub as_referenced: Seq<char>,
    pub canonical: Seq<char>,
    pub watched: Set<(bool, Seq<Seq<char>>)>,
}

impl View for CssBinding {
    type V = CssBindingView;

    closed spec fn view(&self) -> CssBindingView {
        CssBindingView {
            as_referenced: self.as_referenced@,
            canonical: self.canonical@,
            watched: self.watched@,
        }
    }
}

/// The paths to begin with: those of the stylesheet, or where they cannot be
/// had, the path itself for both. Watching is then dormant.
pub fn initial_paths(file: &str, pair: Result<(String, String), IpcError>) -> (r: (String, String))
    ensures
        match pair {
            Ok((as_referenced, canonical)) => r.0@ == as_referenced@ && r.1@ == canonical@,
            Err(_) => r.0@ == file@ && r.1@ == file@,
        },
{
    match pair {
        Ok((as_referenced, canonical)) => (as_referenced, canonical),
        Err(_) => (file.to_owned(), file.to_owned()),
    }
}

/// The binding for a stylesheet with these imports.
pub open spec fn bound(
    as_referenced: Seq<char>,
    canonical: Seq<char>,
    imports: Seq<Seq<char>>,
) -> CssBindingView {
    CssBindingView { as_referenced, canonical, watched: watched_files(canonical, imports) }
}

impl CssBinding {
    /// The set of watched files is in order.
    pub closed spec fn wf(&self) -> bool {
        self.watched.wf()
    }

    /// Binds to a stylesheet. Where the watcher could not be set up, nothing
    /// is watched until a later rebind.
    pub fn new(as_referenced: String, canonical: String, imports: &[String], built: bool) -> (r:
        CssBinding)
        ensures
            r.wf(),
            r@ == (if built {
                bound(as_referenced@, canonical@, text::strings(imports@))
            } else {
                CssBindingView {
                    as_referenced: as_referenced@,
                    canonical: canonical@,
                    watched: Set::empty(),
                }
            }),
    {
        let watched = if built {
            compute_watched_set(canonical.as_str(), imports)
        } else {
            PathSet::new()
        };
        CssBinding { as_referenced, canonical, watched }
    }

    /// The path as it is referenced.
    pub fn as_referenced(&self) -> (r: &str)
        ensures
            r@ == self@.as_referenced,
    {
        self.as_referenced.as_str()
    }

    /// The path in canonical form.
    pub fn canonical(&self) -> (r: &str)
        ensures
            r@ == self@.canonical,
    {
        self.canonical.as_str()
    }

    /// Whether the watcher has to be replaced, as the stylesheet has come to
    /// import other files.
    pub fn needs_rebuild(&self, imports: &[String]) -> (r: bool)
        ensures
            r == (watched_files(self@.canonical, text::strings(imports@)) != self@.watched),
    {
        let new_watched = compute_watched_set(self.canonical.as_str(), imports);
        !(new_watched == self.watched)
    }

    /// Takes note of whether a watcher for the new imports could be built. A
    /// failure keeps the previous watch set.
    pub fn rebuilt(&mut self, imports: &[String], built: bool)
        requires
            old(self).wf(),
        ensures
            final(self).wf(),
            final(self)@ == (if built {
                bound(old(self)@.as_referenced, old(self)@.canonical, text::strings(imports@))
            } else {
                old(self)@
            }),
    {
        if built {
            self.watched = compute_watched_set(self.canonical.as_str(), imports);
        }
    }

    /// Moves to another stylesheet, once it is known whether a watcher for it
    /// could be built. A failure leaves everything as it was.
    pub fn finish_rebind(
        &mut self,
        new_path: &str,
        as_referenced: String,
        canonical: String,
        imports: &[String],
        built: Result<(), BuildWatchError>,
    ) -> (r: Result<(), CssRebindError>)
        requires
            old(self).wf(),
        ensures
            final(self).wf(),
            match built {
                Ok(_) => r is Ok && final(self)@ == bound(
                    as_referenced@,
                    canonical@,
                    text::strings(imports@),
                ),
                Err(e) => {
                    &&& final(self)@ == old(self)@
                    &&& r matches Err(CssRebindError::WatcherSetup { path, message })
                        && path@ == new_path@ && message@ == e.text()
                },
            },
    {
        match built {
            Ok(_) => {
                self.watched = compute_watched_set(canonical.as_str(), imports);
                self.as_referenced = as_referenced;
                self.canonical = canonical;
                Ok(())
            },
            Err(e) => Err(
                CssRebindError::WatcherSetup { path: new_path.to_owned(), message: e.message() },
            ),
        }
    }
}

/// Begins to move to another stylesheet, with what resolving its path came to.
/// Why that failed is passed on as it is.
pub fn begin_rebind(new_path: &str, pair: Result<(String, String), IpcError>) -> (r: Result<
    (String, String),
    CssRebindError,
>)
    ensures
        match (r, pair) {
            (Ok((a, c)), Ok((as_referenced, canonical))) => a@ == as_referenced@ && c@
                == canonical@,
            (Err(CssRebindError::Io { path, source }), Err(e)) => path@ == new_path@ && source
                == e,
            _ => false,
        },
{
    match pair {
        Ok((as_referenced, canonical)) => Ok((as_referenced, canonical)),
        Err(e) => Err(CssRebindError::Io { path: new_path.to_owned(), source: e }),
    }
}

/// `p` is the same path as one of `files`.
pub open spec fn is_among(p: Seq<char>, files: Seq<String>) -> bool {
    exists|i: int| 0 <= i < files.len() && path::key(#[trigger] files[i]@) == path::key(p)
}

proof fn lemma_watched(main: Seq<char>, imports: Seq<String>, k: (bool, Seq<Seq<char>>))
    ensures
        watched_files(main, text::strings(imports)).contains(k) <==> k == path::key(main)
            || exists|i: int| 0 <= i < imports.len() && path::key(#[trigger] imports[i]@) == k,
{
    let all = path::keys(text::strings(imports));
    if exists|i: int| 0 <= i < imports.len() && path::key(#[trigger] imports[i]@) == k {
        let i = choose|i: int| 0 <= i < imports.len() && path::key(#[trigger] imports[i]@) == k;
        assert(all[i] == k);
        assert(all.contains(k));
    }
    if all.contains(k) {
        let i = choose|i: int| 0 <= i < all.len() && all[i] == k;
        assert(path::key(imports[i]@) == k);
    }
}

/// A report leads to a reload exactly where a file was created, modified or removed
/// that is the stylesheet or one of its imports.
pub proof fn only_watched_files_lead_to_a_reload(
    kind: ChangeKind,
    main: &str,
    imports: &[String],
    paths: Vec<String>,
    watched: PathSet,
    r: bool,
)
    requires
        call_ensures(compute_watched_set, (main, imports), watched),
        call_ensures(should_signal, (kind, &paths, &watched), r),
    ensures
        r <==> {
            &&& kind == ChangeKind::Create || kind == ChangeKind::Modify || kind
                == ChangeKind::Remove
            &&& exists|i: int|
                0 <= i < paths@.len() && (path::key(#[trigger] paths@[i]@) == path::key(main@)
                    || is_among(paths@[i]@, imports@))
        },
{
    let all = text::strings(paths@);
    if r {
        let i = choose|i: int|
            0 <= i < all.len() && watched@.contains(path::key(#[trigger] all[i]));
        assert(all[i] == paths@[i]@);
        lemma_watched(main@, imports@, path::key(all[i]));
        assert(path::key(paths@[i]@) == path::key(main@) || is_among(paths@[i]@, imports@));
    }
    if exists|i: int|
        0 <= i < paths@.len() && (path::key(#[trigger] paths@[i]@) == path::key(main@) || is_among(
            paths@[i]@,
            imports@,
        )) {
        let i = choose|i: int|
            0 <= i < paths@.len() && (path::key(#[trigger] paths@[i]@) == path::key(main@)
                || is_among(paths@[i]@, imports@));
        assert(all[i] == paths@[i]@);
        lemma_watched(main@, imports@, path::key(all[i]));
        assert(watched@.contains(path::key(all[i])));
    }
}

/// A watcher is replaced exactly where the files to watch are others than before:
/// an import came up that is neither watched already nor the stylesheet itself, or
/// one that was watched is gone.
pub proof fn watcher_is_replaced_for_other_imports(
    as_referenced: String,
    canonical: String,
    imports: &[String],
    binding: CssBinding,
    now: &[String],
    r: bool,
)
    requires
        call_ensures(CssBinding::new, (as_referenced, canonical, imports, true), binding),
        call_ensures(CssBinding::needs_rebuild, (&binding, now), r),
    ensures
        r <==> {
            ||| exists|i: int|
                0 <= i < now@.len() && path::key((#[trigger] now@[i])@) != path::key(canonical@)
                    && !is_among(now@[i]@, imports@)
            ||| exists|i: int|
                0 <= i < imports@.len() && path::key((#[trigger] imports@[i])@) != path::key(
                    canonical@,
                ) && !is_among(imports@[i]@, now@)
        },
{
    let before = watched_files(canonical@, text::strings(imports@));
    let after = watched_files(canonical@, text::strings(now@));
    if before != after {
        if forall|k: (bool, Seq<Seq<char>>)| before.contains(k) <==> after.contains(k) {
            assert(before =~= after);
        }
        let k = choose|k: (bool, Seq<Seq<char>>)| before.contains(k) != after.contains(k);
        lemma_watched(canonical@, imports@, k);
        lemma_watched(canonical@, now@, k);
        if after.contains(k) {
            let i = choose|i: int| 0 <= i < now@.len() && path::key(#[trigger] now@[i]@) == k;
            assert(path::key(now@[i]@) != path::key(canonical@) && !is_among(now@[i]@, imports@));
        } else {
            let i = choose|i: int|
                0 <= i < imports@.len() && path::key(#[trigger] imports@[i]@) == k;
            assert(path::key(imports@[i]@) != path::key(canonical@) && !is_among(
                imports@[i]@,
                now@,
            ));
        }
    } else {
        assert forall|i: int| 0 <= i < now@.len() implies path::key((#[trigger] now@[i])@)
            == path::key(canonical@) || is_among(now@[i]@, imports@) by {
            let k = path::key(now@[i]@);
            lemma_watched(canonical@, imports@, k);
            lemma_watched(canonical@, now@, k);
        }
        assert forall|i: int| 0 <= i < imports@.len() implies path::key((#[trigger] imports@[i])@)
            == path::key(canonical@) || is_among(imports@[i]@, now@) by {
            let k = path::key(imports@[i]@);
            lemma_watched(canonical@, imports@, k);
            lemma_watched(canonical@, now@, k);
        }
    }
}

proof fn lemma_directories(files: Seq<Seq<char>>, k: (bool, Seq<Seq<char>>))
    ensures
        directories(files).contains(k) <==> exists|i: int|
            0 <= i < files.len() && path::parent(#[trigger] files[i]) is Some && path::key(
                path::parent(files[i])->0,
            ) == k,
    decreases files.len(),
{
    if files.len() > 0 {
        let fewer = files.drop_last();
        lemma_directories(fewer, k);
        if exists|i: int|
            0 <= i < fewer.len() && path::parent(#[trigger] fewer[i]) is Some && path::key(
                path::parent(fewer[i])->0,
            ) == k {
            let i = choose|i: int|
                0 <= i < fewer.len() && path::parent(#[trigger] fewer[i]) is Some && path::key(
                    path::parent(fewer[i])->0,
                ) == k;
            assert(files[i] == fewer[i]);
        }
        if exists|i: int|
            0 <= i < files.len() && path::parent(#[trigger] files[i]) is Some && path::key(
                path::parent(files[i])->0,
            ) == k {
            let i = choose|i: int|
                0 <= i < files.len() && path::parent(#[trigger] files[i]) is Some && path::key(
                    path::parent(files[i])->0,
                ) == k;
            if i < fewer.len() {
                assert(fewer[i] == files[i]);
            }
        }
        let last = files.len() - 1;
        assert(files[last] == files.last());
    }
}

/// The directories to watch are those of the stylesheet and of its imports, and no
/// others.
pub proof fn only_directories_of_files_are_watched(
    main: &str,
    imports: &[String],
    r: PathSet,
    k: (bool, Seq<Seq<char>>),
)
    requires
        call_ensures(compute_watched_dirs, (main, imports), r),
    ensures
        r@.contains(k) <==> {
            ||| path::parent(main@) is Some && path::key(path::parent(main@)->0) == k
            ||| exists|i: int|
                0 <= i < imports@.len() && path::parent((#[trigger] imports@[i])@) is Some
                    && path::key(path::parent(imports@[i]@)->0) == k
        },
{
    let files = seq![main@] + text::strings(imports@);
    lemma_directories(files, k);
    if r@.contains(k) {
        let i = choose|i: int|
            0 <= i < files.len() && path::parent(#[trigger] files[i]) is Some && path::key(
                path::parent(files[i])->0,
            ) == k;
        if i > 0 {
            assert(files[i] == imports@[i - 1]@);
            assert(path::parent(imports@[i - 1]@) is Some);
        }
    }
    assert(files[0] == main@);
    if exists|i: int|
        0 <= i < imports@.len() && path::parent((#[trigger] imports@[i])@) is Some && path::key(
            path::parent(imports@[i]@)->0,
        ) == k {
        let i = choose|i: int|
            0 <= i < imports@.len() && path::parent((#[trigger] imports@[i])@) is Some
                && path::key(path::parent(imports@[i]@)->0) == k;
        assert(files[i + 1] == imports@[i]@);
    }
}

/// A watcher is set up exactly where it could be created and every directory is
/// watched. Else the first failure is reported.
pub proof fn first_failure_is_reported(
    create_error: Option<String>,
    dirs: Vec<(String, Option<String>)>,
    i: int,
    r: Result<(), BuildWatchError>,
)
    requires
        call_ensures(watch_outcome, (create_error, &dirs), r),
    ensures
        r is Ok <==> create_error is None && forall|k: int|
            0 <= k < dirs@.len() ==> (#[trigger] dirs@[k]).1 is None,
        create_error is Some ==> (r matches Err(BuildWatchError::CreateFailed(shown)) && shown@
            == create_error->0@),
        create_error is None && 0 <= i < dirs@.len() && dirs@[i].1 is Some && (forall|k: int|
            0 <= k < i ==> (#[trigger] dirs@[k]).1 is None) ==> (r matches Err(
            BuildWatchError::WatchFailed { dir, source },
        ) && dir@ == dirs@[i].0@ && source@ == dirs@[i].1->0@),
{
    lemma_first_failure(dirs@, 0, i);
}

proof fn lemma_first_failure(dirs: Seq<(String, Option<String>)>, from: int, i: int)
    requires
        0 <= from <= dirs.len(),
    ensures
        first_failure(dirs, from) is None <==> forall|k: int|
            from <= k < dirs.len() ==> (#[trigger] dirs[k]).1 is None,
        from <= i < dirs.len() && dirs[i].1 is Some && (forall|k: int|
            from <= k < i ==> (#[trigger] dirs[k]).1 is None) ==> first_failure(dirs, from) == Some(
            i,
        ),
    decreases dirs.len() - from,
{
    if from < dirs.len() && dirs[from].1 is None {
        lemma_first_failure(dirs, from + 1, i);
    }
}

/// The two paths of a stylesheet: as it is referenced, and its last component in the
/// resolved directory. There are none where it has no such component, or where the
/// directory could not be resolved.
pub proof fn canonical_path_keeps_the_file_name(
    file: &str,
    name: Option<String>,
    dir: Result<String, IpcError>,
    r: Result<(String, String), IpcError>,
)
    requires
        call_ensures(path::file_name_of, (file,), name),
        call_ensures(compute_canonical_pair, (file, dir), r),
    ensures
        r is Ok <==> name is Some && dir is Ok,
        r matches Ok((as_referenced, canonical)) ==> as_referenced@ == file@ && canonical@
            == path::join(dir->Ok_0@, name->0@),
{
    path::file_name_has_a_parent(file@);
}

/// Draining ends at the first state that is no message. A channel that is closed
/// says so, whatever came before; an empty one says whether a message came.
pub proof fn draining_ends_behind_the_messages(changed: bool, n: nat, rest: Seq<ChannelState>)
    ensures
        drained(
            changed,
            Seq::new(n, |i: int| ChannelState::Message) + seq![ChannelState::Disconnected] + rest,
        ) == Some(DrainResult::Disconnected),
        drained(
            changed,
            Seq::new(n, |i: int| ChannelState::Message) + seq![ChannelState::Empty] + rest,
        ) == Some(
            if changed || n > 0 {
                DrainResult::Changed
            } else {
                DrainResult::Empty
            },
        ),
        drained(changed, Seq::new(n, |i: int| ChannelState::Message)) is None,
    decreases n,
{
    let messages = Seq::new(n, |i: int| ChannelState::Message);
    let closed = messages + seq![ChannelState::Disconnected] + rest;
    let empty = messages + seq![ChannelState::Empty] + rest;
    if n > 0 {
        let fewer = Seq::new((n - 1) as nat, |i: int| ChannelState::Message);
        assert(messages.skip(1) == fewer);
        assert(closed.skip(1) == fewer + seq![ChannelState::Disconnected] + rest);
        assert(empty.skip(1) == fewer + seq![ChannelState::Empty] + rest);
        draining_ends_behind_the_messages(true, (n - 1) as nat, rest);
    } else {
        assert(closed[0] == ChannelState::Disconnected);
        assert(empty[0] == ChannelState::Empty);
    }
}

/// The timer reloads exactly where there is a handle and something changed, and stops
/// exactly where there is no handle or no watcher any more.
pub proof fn timer_reloads_on_changes(handle_alive: bool, came_to: DrainResult, r: TickAction)
    requires
        call_ensures(on_tick, (handle_alive, came_to), r),
    ensures
        r == TickAction::Reload <==> handle_alive && came_to == DrainResult::Changed,
        r == TickAction::Stop <==> !handle_alive || came_to == DrainResult::Disconnected,
{
}

/// The error of a rebind names the path, and why it failed.
pub proof fn rebind_errors_name_the_path(e: CssRebindError, r: String)
    requires
        call_ensures(CssRebindError::message, (&e,), r),
    ensures
        match e {
            CssRebindError::Io { path, source } => r@ == "cannot read new CSS file "@ + seq!['\'']
                + path@ + seq!['\'', ':', ' '] + source.message@,
            CssRebindError::WatcherSetup { path, message } => r@
                == "failed to set up CSS file watcher for "@ + seq!['\''] + path@ + seq![
                '\'',
                ':',
                ' ',
            ] + message@,
        },
{
    reveal_strlit("': ");
    reveal_strlit("cannot read new CSS file '");
    reveal_strlit("cannot read new CSS file ");
    reveal_strlit("failed to set up CSS file watcher for '");
    reveal_strlit("failed to set up CSS file watcher for ");
    assert("': "@ == seq!['\'', ':', ' ']);
    assert("cannot read new CSS file '"@ == "cannot read new CSS file "@ + seq!['\'']);
    assert("failed to set up CSS file watcher for '"@ == "failed to set up CSS file watcher for "@
        + seq!['\'']);
}

/// The error of a watcher names the directory that could not be watched, and why.
pub proof fn watch_errors_name_the_directory(e: BuildWatchError, r: String)
    requires
        call_ensures(BuildWatchError::message, (&e,), r),
    ensures
        match e {
            BuildWatchError::CreateFailed(why) => r@ == "failed to create notify watcher: "@ + why@,
            BuildWatchError::WatchFailed { dir, source } => r@ == "failed to watch directory "@
                + seq!['\''] + dir@ + seq!['\'', ':', ' '] + source@,
        },
{
    reveal_strlit("': ");
    reveal_strlit("failed to watch directory '");
    reveal_strlit("failed to watch directory ");
    assert("': "@ == seq!['\'', ':', ' ']);
    assert("failed to watch directory '"@ == "failed to watch directory "@ + seq!['\'']);
}

/// The paths of a stylesheet are taken as they were resolved. Where they could not be
/// resolved, watching begins with the path itself, and a rebind fails with the path
/// and the reason.
pub proof fn resolved_paths_are_taken_as_they_are(
    file: &str,
    as_referenced: String,
    canonical: String,
    e: IpcError,
    resolved: (String, String),
    unresolved: (String, String),
    rebound: Result<(String, String), CssRebindError>,
    failed: Result<(String, String), CssRebindError>,
)
    requires
        call_ensures(initial_paths, (file, Ok((as_referenced, canonical))), resolved),
        call_ensures(initial_paths, (file, Err(e)), unresolved),
        call_ensures(begin_rebind, (file, Ok((as_referenced, canonical))), rebound),
        call_ensures(begin_rebind, (file, Err(e)), failed),
    ensures
        resolved.0@ == as_referenced@ && resolved.1@ == canonical@,
        unresolved.0@ == file@ && unresolved.1@ == file@,
        rebound matches Ok(paths) && paths.0@ == as_referenced@ && paths.1@ == canonical@,
        failed matches Err(CssRebindError::Io { path, source }) && path@ == file@ && source == e,
{
}

/// A new binding has the paths given, and watches nothing where no watcher could be
/// set up.
pub proof fn bindings_without_a_watcher_watch_nothing(
    as_referenced: String,
    canonical: String,
    imports: &[String],
    built: CssBinding,
    dormant: CssBinding,
)
    requires
        call_ensures(CssBinding::new, (as_referenced, canonical, imports, true), built),
        call_ensures(CssBinding::new, (as_referenced, canonical, imports, false), dormant),
    ensures
        built@.as_referenced == as_referenced@ && dormant@.as_referenced == as_referenced@,
        built@.canonical == canonical@ && dormant@.canonical == canonical@,
        built@.watched.contains(path::key(canonical@)),
        forall|i: int|
            0 <= i < imports@.len() ==> built@.watched.contains(
                path::key((#[trigger] imports@[i])@),
            ),
        forall|k: (bool, Seq<Seq<char>>)| !#[trigger] dormant@.watched.contains(k),
{
    assert forall|i: int| 0 <= i < imports@.len() implies built@.watched.contains(
        path::key((#[trigger] imports@[i])@),
    ) by {
        lemma_watched(canonical@, imports@, path::key(imports@[i]@));
    }
    lemma_watched(canonical@, imports@, path::key(canonical@));
}

/// A provider reads its file exactly where there is one, and the layers have their
/// priorities right above each other, the defaults lowest.
pub proof fn layers_lie_right_above_each_other(
    exists_source: ProviderSource,
    missing_source: ProviderSource,
    embedded: u32,
    overrides: u32,
    user: u32,
)
    requires
        call_ensures(provider_source, (true,), exists_source),
        call_ensures(provider_source, (false,), missing_source),
        call_ensures(css_priority_offset, (CssLayer::Embedded,), embedded),
        call_ensures(css_priority_offset, (CssLayer::Override,), overrides),
        call_ensures(css_priority_offset, (CssLayer::User,), user),
    ensures
        exists_source == ProviderSource::File,
        missing_source == ProviderSource::Nothing,
        embedded == 0 && overrides == embedded + 1 && user == overrides + 1,
{
}

} // verus!
