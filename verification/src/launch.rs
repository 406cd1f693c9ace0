//! Application launching helpers.
//!
//! A command is either started directly or handed to the compositor, so that
//! it inherits the session environment. The functions here decide which, and
//! what exactly to start; starting it is up to the caller.

use vstd::prelude::*;
use vstd::slice::slice_subrange;
use crate::desktop::entry;
use crate::shell;
use crate::text;

verus! {

/// How commands are launched, set once at startup.
#[derive(Debug, Clone, Copy, PartialEq, Eq, Structural)]
pub struct LaunchMode {
    /// Whether `uwsm` launches them.
    pub uwsm: bool,
}

impl Default for LaunchMode {
    fn default() -> (r: LaunchMode)
        ensures
            r == (LaunchMode { uwsm: false }),
    {
        LaunchMode { uwsm: false }
    }
}

impl LaunchMode {
    /// Enables uwsm launch mode, or disables it.
    pub fn set_uwsm_mode(&mut self, enabled: bool)
        ensures
            *final(self) == (LaunchMode { uwsm: enabled }),
    {
        self.uwsm = enabled;
    }
}

/// A process to start.
#[derive(Debug, Clone)]
pub struct SpawnPlan {
    pub program: String,
    pub args: Vec<String>,
    /// What to set in its environment.
    pub env: Vec<(String, String)>,
    /// What to call it in messages.
    pub label: String,
}

/// What a process to start is made of.
#[verifier::ext_equal]
pub struct SpawnPlanView {
    pub program: Seq<char>,
    pub args: Seq<Seq<char>>,
    pub env: Seq<(Seq<char>, Seq<char>)>,
    pub label: Seq<char>,
}

impl View for SpawnPlan {
    type V = SpawnPlanView;

    open spec fn view(&self) -> SpawnPlanView {
        SpawnPlanView {
            program: self.program@,
            args: text::strings(self.args@),
            env: self.env@.map_values(|p: (String, String)| (p.0@, p.1@)),
            label: self.label@,
        }
    }
}

/// `r` is `plan`.
pub open spec fn is_plan(r: Option<SpawnPlan>, plan: Option<SpawnPlanView>) -> bool {
    match (r, plan) {
        (Some(p), Some(v)) => p@ == v,
        (None, None) => true,
        _ => false,
    }
}

/// A letter or an underscore.
pub open spec fn is_name_start(c: char) -> bool {
    'a' <= c <= 'z' || 'A' <= c <= 'Z' || c == '_'
}

/// A letter, a digit or an underscore.
pub open spec fn is_name_char(c: char) -> bool {
    is_name_start(c) || '0' <= c <= '9'
}

/// The name of an environment variable.
pub open spec fn is_env_name(s: Seq<char>) -> bool {
    s.len() > 0 && is_name_start(s[0]) && forall|i: int|
        0 <= i < s.len() ==> is_name_char(#[trigger] s[i])
}

/// The word sets an environment variable: a name, `=`, and a value.
pub open spec fn is_assignment(word: Seq<char>) -> bool {
    text::split_once(word, '=') matches Some((name, _)) && is_env_name(name)
}

/// The name and the value in a word that sets an environment variable.
pub open spec fn name_and_value(word: Seq<char>) -> (Seq<char>, Seq<char>) {
    text::split_once(word, '=')->0
}

/// How many words at the start of `words`, from index `from` on, set
/// environment variables.
pub open spec fn assignments_from(words: Seq<Seq<char>>, from: int) -> int
    decreases words.len() - from,
{
    if from < 0 || from >= words.len() || !is_assignment(words[from]) {
        0
    } else {
        1 + assignments_from(words, from + 1)
    }
}

/// How many words at the start of `words` set environment variables.
pub open spec fn assignments(words: Seq<Seq<char>>) -> int {
    assignments_from(words, 0)
}

/// The names and values that the first words set.
pub open spec fn env_of(words: Seq<Seq<char>>) -> Seq<(Seq<char>, Seq<char>)> {
    words.take(assignments(words)).map_values(|word: Seq<char>| name_and_value(word))
}

/// The words behind those that set environment variables.
pub open spec fn command_of(words: Seq<Seq<char>>) -> Seq<Seq<char>> {
    words.skip(assignments(words))
}

/// The process that a split command line starts directly; none where it has no
/// word but assignments.
pub open spec fn direct_plan(words: Seq<Seq<char>>) -> Option<SpawnPlanView> {
    let command = command_of(words);
    if command.len() == 0 {
        None
    } else {
        Some(
            SpawnPlanView {
                program: command[0],
                args: command.skip(1),
                env: env_of(words),
                label: text::join(command, seq![' ']),
            },
        )
    }
}

/// The process that has `uwsm` start a split command line.
pub open spec fn uwsm_plan(line: Seq<char>, words: Seq<Seq<char>>) -> Option<SpawnPlanView> {
    let command = command_of(words);
    if command.len() == 0 {
        None
    } else {
        Some(
            SpawnPlanView {
                program: "uwsm"@,
                args: seq!["app"@, "--"@] + command,
                env: env_of(words),
                label: line,
            },
        )
    }
}

/// The process that has a shell run `line`.
pub open spec fn shell_plan(line: Seq<char>) -> Option<SpawnPlanView> {
    let trimmed = text::trim(line);
    if trimmed.len() == 0 {
        None
    } else {
        Some(
            SpawnPlanView {
                program: "sh"@,
                args: seq!["-c"@, trimmed],
                env: Seq::empty(),
                label: trimmed,
            },
        )
    }
}

/// The words of a command line, as a shell has them; where its quotes do not
/// match, what stands between white space.
pub open spec fn command_words(line: Seq<char>) -> Seq<Seq<char>> {
    match shell::shell_split(line) {
        Some(words) => words,
        None => text::words(line),
    }
}

proof fn lemma_assignments(words: Seq<Seq<char>>, from: int)
    requires
        0 <= from <= words.len(),
    ensures
        0 <= assignments_from(words, from) <= words.len() - from,
        forall|i: int|
            from <= i < from + assignments_from(words, from) ==> is_assignment(
                #[trigger] words[i],
            ),
        from + assignments_from(words, from) < words.len() ==> !is_assignment(
            words[from + assignments_from(words, from)],
        ),
    decreases words.len() - from,
{
    if from < words.len() && is_assignment(words[from]) {
        lemma_assignments(words, from + 1);
    }
}

/// The environment assignments and the command are the whole command line: no
/// word is lost, and the command does not begin with an assignment.
pub proof fn command_line_is_split_completely(words: Seq<Seq<char>>)
    ensures
        env_of(words).len() + command_of(words).len() == words.len(),
        command_of(words).len() > 0 ==> !is_assignment(command_of(words)[0]),
        forall|i: int|
            0 <= i < env_of(words).len() ==> is_env_name((#[trigger] env_of(words)[i]).0)
                && words[i] == env_of(words)[i].0 + seq!['='] + env_of(words)[i].1,
{
    lemma_assignments(words, 0);
    assert forall|i: int| 0 <= i < env_of(words).len() implies is_env_name(
        (#[trigger] env_of(words)[i]).0,
    ) && words[i] == env_of(words)[i].0 + seq!['='] + env_of(words)[i].1 by {
        let word = words[i];
        assert(is_assignment(word));
        text::lemma_index_from(word, '=', 0);
        let k = text::index_of(word, '=')->0;
        assert(word == word.take(k) + seq!['='] + word.skip(k + 1));
    }
}

fn name_start(c: char) -> (r: bool)
    ensures
        r == is_name_start(c),
{
    ('a' <= c && c <= 'z') || ('A' <= c && c <= 'Z') || c == '_'
}

fn env_name(s: &[char]) -> (r: bool)
    ensures
        r == is_env_name(s@),
{
    if s.len() == 0 || !name_start(s[0]) {
        return false;
    }
    let mut i: usize = 0;
    while i < s.len()
        invariant
            i <= s@.len(),
            forall|k: int| 0 <= k < i ==> is_name_char(#[trigger] s@[k]),
        decreases s@.len() - i,
    {
        let c = s[i];
        if !(name_start(c) || ('0' <= c && c <= '9')) {
            assert(!is_name_char(s@[i as int]));
            return false;
        }
        i += 1;
    }
    true
}

/// What borrowed pairs hold.
pub open spec fn borrowed_pairs(v: Seq<(&str, &str)>) -> Seq<(Seq<char>, Seq<char>)> {
    v.map_values(|p: (&str, &str)| (p.0@, p.1@))
}

/// Extracts leading KEY=VALUE env assignments from a split command.
/// Returns (env_vars, remaining_args).
pub fn extract_env_prefix(elements: &[String]) -> (r: (Vec<(&str, &str)>, &[String]))
    ensures
        borrowed_pairs(r.0@) == env_of(text::strings(elements@)),
        text::strings(r.1@) == command_of(text::strings(elements@)),
{
    let ghost words = text::strings(elements@);
    let mut env: Vec<(&str, &str)> = Vec::new();
    let mut i: usize = 0;
    proof {
        lemma_assignments(words, 0);
    }
    while i < elements.len()
        invariant_except_break
            i <= elements@.len(),
            words == text::strings(elements@),
            assignments(words) == i + assignments_from(words, i as int),
            env@.len() == i,
            forall|k: int|
                0 <= k < i ==> (#[trigger] env@[k]).0@ == name_and_value(words[k]).0
                    && env@[k].1@ == name_and_value(words[k]).1,
        ensures
            i <= elements@.len(),
            words == text::strings(elements@),
            assignments(words) == i,
            env@.len() == i,
            forall|k: int|
                0 <= k < i ==> (#[trigger] env@[k]).0@ == name_and_value(words[k]).0
                    && env@[k].1@ == name_and_value(words[k]).1,
        decreases elements@.len() - i,
    {
        let word = elements[i].as_str();
        assert(words[i as int] == word@);
        let chars = text::chars_of(word);
        match text::find_char(chars.as_slice(), '=') {
            Some(k) => {
                if !env_name(text::take(chars.as_slice(), k)) {
                    break;
                }
                let name = word.substring_char(0, k);
                let value = word.substring_char(k + 1, chars.len());
                env.push((name, value));
            },
            None => {
                break;
            },
        }
        i += 1;
    }
    assert(borrowed_pairs(env@) == env_of(words));
    let rest = slice_subrange(elements, i, elements.len());
    assert(text::strings(rest@) == words.skip(i as int));
    (env, rest)
}

fn own_pairs(v: &Vec<(&str, &str)>) -> (r: Vec<(String, String)>)
    ensures
        r@.map_values(|p: (String, String)| (p.0@, p.1@)) == borrowed_pairs(v@),
{
    let mut out: Vec<(String, String)> = Vec::new();
    let mut i: usize = 0;
    while i < v.len()
        invariant
            i <= v@.len(),
            out@.len() == i,
            forall|k: int|
                0 <= k < i ==> (#[trigger] out@[k]).0@ == v@[k].0@ && out@[k].1@ == v@[k].1@,
        decreases v@.len() - i,
    {
        out.push((v[i].0.to_owned(), v[i].1.to_owned()));
        i += 1;
    }
    assert(out@.map_values(|p: (String, String)| (p.0@, p.1@)) == borrowed_pairs(v@));
    out
}

/// Splits a command string into arguments using POSIX shell quoting rules.
/// Falls back to splitting at white space if the command has unbalanced quotes.
pub fn split_command(command: &str) -> (r: Vec<String>)
    ensures
        text::strings(r@) == command_words(command@),
        command@.len() == 0 ==> r@.len() == 0,
{
    match shell_words::split(command) {
        Ok(words) => words,
        Err(_) => split_at_white_space(command),
    }
}

/// Splits a command string at white space.
pub fn split_at_white_space(command: &str) -> (r: Vec<String>)
    ensures
        text::strings(r@) == text::words(command@),
{
    let chars = text::chars_of(command);
    let words = text::split_words(chars.as_slice());
    text::strings_of(&words)
}

/// The process that a split command starts directly.
pub fn plan_direct(elements: &Vec<String>) -> (r: Option<SpawnPlan>)
    ensures
        is_plan(r, direct_plan(text::strings(elements@))),
{
    let ghost words = text::strings(elements@);
    let (env, command) = extract_env_prefix(elements.as_slice());
    assert(text::strings(command@).len() == command@.len());
    if command.len() == 0 {
        return None;
    }
    assert(command_of(words)[0] == command@[0]@);
    let rest = slice_subrange(command, 1, command.len());
    assert(text::strings(rest@) == command_of(words).skip(1));
    proof {
        reveal_strlit(" ");
        assert(" "@ == seq![' ']);
    }
    Some(
        SpawnPlan {
            program: command[0].clone(),
            args: text::copy_strings(rest),
            env: own_pairs(&env),
            label: text::join_strings(command, " "),
        },
    )
}

/// The process that has `uwsm` start a split command, of which `line` is the
/// whole.
pub fn plan_uwsm(line: &str, elements: &Vec<String>) -> (r: Option<SpawnPlan>)
    ensures
        is_plan(r, uwsm_plan(line@, text::strings(elements@))),
{
    let ghost words = text::strings(elements@);
    let (env, command) = extract_env_prefix(elements.as_slice());
    assert(text::strings(command@).len() == command@.len());
    if command.len() == 0 {
        return None;
    }
    let mut args: Vec<String> = Vec::new();
    args.push("app".to_owned());
    args.push("--".to_owned());
    let ghost lead = seq!["app"@, "--"@];
    assert(text::strings(args@) == lead);
    let mut i: usize = 0;
    while i < command.len()
        invariant
            i <= command@.len(),
            text::strings(command@) == command_of(words),
            command@.len() == command_of(words).len(),
            text::strings(args@) == lead + command_of(words).take(i as int),
        decreases command@.len() - i,
    {
        let ghost before = text::strings(args@);
        assert(command_of(words)[i as int] == command@[i as int]@);
        args.push(command[i].clone());
        assert(text::strings(args@) == before.push(command@[i as int]@));
        i += 1;
    }
    assert(command_of(words).take(i as int) == command_of(words));
    Some(
        SpawnPlan {
            program: "uwsm".to_owned(),
            args,
            env: own_pairs(&env),
            label: line.to_owned(),
        },
    )
}

/// Launches a raw command string directly (without WM dispatch): the process
/// to start, if the command has one.
pub fn launch_command(command: &str) -> (r: Option<SpawnPlan>)
    ensures
        is_plan(r, direct_plan(command_words(command@))),
{
    plan_direct(&split_command(command))
}

/// Launches a command via `uwsm app --` for proper session management: the
/// process to start, if the command has one. Where it cannot be started,
/// [`launch_command`] on the same command serves.
pub fn launch_via_uwsm(command: &str) -> (r: Option<SpawnPlan>)
    ensures
        is_plan(
            r,
            if text::trim(command@).len() == 0 {
                None
            } else {
                uwsm_plan(text::trim(command@), command_words(text::trim(command@)))
            },
        ),
{
    let command = text::trimmed_text(command);
    if command.as_str().is_empty() {
        return None;
    }
    plan_uwsm(command.as_str(), &split_command(command.as_str()))
}

/// Launches a user-provided shell command string via `sh -c`: the process to
/// start, unless the command is blank.
///
/// Use this for user-configured commands (power bar, launcher button, etc.)
/// where the command string is a full shell expression.
pub fn launch_shell_command(command: &str) -> (r: Option<SpawnPlan>)
    ensures
        is_plan(r, shell_plan(command@)),
{
    let command = text::trimmed_text(command);
    if command.as_str().is_empty() {
        return None;
    }
    let mut args: Vec<String> = Vec::new();
    args.push("-c".to_owned());
    args.push(command.clone());
    assert(text::strings(args@) == seq!["-c"@, command@]);
    let env: Vec<(String, String)> = Vec::new();
    assert(env@.map_values(|p: (String, String)| (p.0@, p.1@)) == Seq::<
        (Seq<char>, Seq<char>),
    >::empty());
    Some(SpawnPlan { program: "sh".to_owned(), args, env, label: command })
}

/// Launches an application by its class/app ID: the process to start, if there
/// is one. `command` is what its desktop entry has it run; without one, the
/// class itself is the command.
pub fn launch(app_id: &str, command: Option<&str>) -> (r: Option<SpawnPlan>)
    ensures
        is_plan(
            r,
            direct_plan(
                command_words(
                    match command {
                        Some(line) => line@,
                        None => app_id@,
                    },
                ),
            ),
        ),
{
    match command {
        Some(line) => launch_command(line),
        None => launch_command(app_id),
    }
}

/// `command` behind the theme prefix, where there is one.
pub open spec fn themed(command: Seq<char>, prefix: Seq<char>) -> Seq<char> {
    if prefix.len() == 0 {
        command
    } else {
        prefix + " "@ + command
    }
}

/// Prepends `GTK_THEME=` to a command if force-theme is enabled.
pub fn prepend_theme(cmd: &str, theme_prefix: &str) -> (r: String)
    ensures
        r@ == themed(cmd@, theme_prefix@),
{
    if theme_prefix.is_empty() {
        cmd.to_owned()
    } else {
        let mut out = theme_prefix.to_owned();
        out.append(" ");
        out.append(cmd);
        out
    }
}

/// How to launch a command in a session.
#[derive(Debug, Clone)]
pub enum LaunchAction {
    /// There is nothing to launch.
    Nothing,
    /// Have `uwsm` launch it.
    Uwsm(String),
    /// Have the compositor launch it.
    Compositor(String),
}

/// `r` is how to launch `command`.
pub open spec fn is_action(r: LaunchAction, command: Seq<char>, mode: LaunchMode) -> bool {
    match r {
        LaunchAction::Nothing => text::trim(command).len() == 0,
        LaunchAction::Uwsm(line) => text::trim(command).len() > 0 && mode.uwsm && line@ == command,
        LaunchAction::Compositor(line) => text::trim(command).len() > 0 && !mode.uwsm && line@
            == command,
    }
}

/// Launches a command via the compositor's exec mechanism,
/// or via uwsm if that is the launch mode. A blank command is not launched.
pub fn launch_via_compositor(command: &str, mode: LaunchMode) -> (r: LaunchAction)
    ensures
        is_action(r, command@, mode),
{
    if text::trimmed_text(command).as_str().is_empty() {
        return LaunchAction::Nothing;
    }
    if mode.uwsm {
        LaunchAction::Uwsm(command.to_owned())
    } else {
        LaunchAction::Compositor(command.to_owned())
    }
}

/// `command` run in the terminal emulator `term`.
pub open spec fn in_terminal(command: Seq<char>, term: Seq<char>) -> Seq<char> {
    term + " -e "@ + command
}

/// Launches a command with terminal wrapping via the compositor.
pub fn launch_terminal_via_compositor(command: &str, term: &str, mode: LaunchMode) -> (r:
    LaunchAction)
    ensures
        is_action(r, in_terminal(command@, term@), mode),
{
    let mut full = term.to_owned();
    full.append(" -e ");
    full.append(command);
    launch_via_compositor(full.as_str(), mode)
}

/// Launches a .desktop entry's Exec command via the compositor.
///
/// Handles the full pipeline: field code stripping, theme prepend,
/// and terminal detection. Quotes are preserved end-to-end. An entry without a
/// command is not launched.
pub fn launch_desktop_entry(
    line: &str,
    terminal: bool,
    term_cmd: &str,
    theme_prefix: &str,
    mode: LaunchMode,
) -> (r: LaunchAction)
    ensures
        ({
            let clean = entry::stripped(line@);
            let command = themed(clean, theme_prefix@);
            if clean.len() == 0 {
                r is Nothing
            } else if terminal {
                is_action(r, in_terminal(command, term_cmd@), mode)
            } else {
                is_action(r, command, mode)
            }
        }),
{
    let clean = entry::strip_field_codes(line);
    if clean.as_str().is_empty() {
        return LaunchAction::Nothing;
    }
    let cmd = prepend_theme(clean.as_str(), theme_prefix);
    if terminal {
        launch_terminal_via_compositor(cmd.as_str(), term_cmd, mode)
    } else {
        launch_via_compositor(cmd.as_str(), mode)
    }
}

/// What comes to the thread that waits for finished children.
#[derive(Debug, Clone, Copy, PartialEq, Eq, Structural)]
pub enum ReaperEvent {
    /// A child to wait for.
    Job,
    /// Nothing for a while.
    Timeout,
    /// No more children will come.
    Disconnected,
}

/// Whether the waiting thread ends: once no more children will come and none
/// is left.
pub fn reaper_ends(event: ReaperEvent, children: usize) -> (r: bool)
    ensures
        r == (event == ReaperEvent::Disconnected && children == 0),
{
    event == ReaperEvent::Disconnected && children == 0
}

/// What asking after a child comes to.
#[derive(Debug, Clone, Copy, PartialEq, Eq, Structural)]
pub enum ChildState {
    Running,
    Exited { success: bool },
    /// It could not be waited for.
    Lost,
}

/// Those of the first `n` children that are no longer waited for.
pub open spec fn finished_among(states: Seq<ChildState>, n: int) -> Seq<usize>
    decreases n,
{
    if n <= 0 {
        Seq::empty()
    } else if states[n - 1] == ChildState::Running {
        finished_among(states, n - 1)
    } else {
        finished_among(states, n - 1).push((n - 1) as usize)
    }
}

/// Which children are no longer waited for: all but those that still run. One
/// that runs long does not keep the others.
pub fn finished_children(states: &Vec<ChildState>) -> (r: Vec<usize>)
    ensures
        r@ == finished_among(states@, states@.len() as int),
{
    let mut out: Vec<usize> = Vec::new();
    let mut i: usize = 0;
    while i < states.len()
        invariant
            i <= states@.len(),
            out@ == finished_among(states@, i as int),
        decreases states@.len() - i,
    {
        if states[i] != ChildState::Running {
            out.push(i);
        }
        i += 1;
    }
    out
}

/// Whether the end of a child is worth a warning.
pub fn child_failed(state: ChildState) -> (r: bool)
    ensures
        r == (state == ChildState::Lost || state == ChildState::Exited { success: false }),
{
    match state {
        ChildState::Running => false,
        ChildState::Exited { success } => !success,
        ChildState::Lost => true,
    }
}

/// A child is waited for exactly as long as it runs.
pub proof fn running_children_are_kept(states: Seq<ChildState>, n: int, i: int)
    requires
        0 <= i < n <= states.len() <= usize::MAX,
    ensures
        finished_among(states, n).contains(i as usize) == (states[i] != ChildState::Running),
    decreases n,
{
    let before = finished_among(states, n - 1);
    let all = finished_among(states, n);
    if i < n - 1 {
        running_children_are_kept(states, n - 1, i);
        if before.contains(i as usize) {
            let k = choose|k: int| 0 <= k < before.len() && before[k] == i as usize;
            assert(all[k] == i as usize);
        }
        if all.contains(i as usize) {
            let k = choose|k: int| 0 <= k < all.len() && all[k] == i as usize;
            assert(k < before.len());
            assert(before[k] == i as usize);
        }
    } else if states[i] != ChildState::Running {
        assert(all[before.len() as int] == i as usize);
    } else {
        lemma_finished_are_below(states, n - 1);
    }
}

proof fn lemma_finished_are_below(states: Seq<ChildState>, n: int)
    requires
        0 <= n <= states.len() <= usize::MAX,
    ensures
        forall|k: int|
            0 <= k < finished_among(states, n).len() ==> #[trigger] finished_among(states, n)[k]
                < n,
    decreases n,
{
    if n > 0 {
        lemma_finished_are_below(states, n - 1);
        let before = finished_among(states, n - 1);
        let all = finished_among(states, n);
        assert forall|k: int| 0 <= k < all.len() implies #[trigger] all[k] < n by {
            if k < before.len() {
                assert(all[k] == before[k]);
            }
        }
    }
}

/// `word` is `name`, `=` and `value`, and `name` may be that of a variable: letters,
/// digits and underscores, the first no digit.
pub open spec fn sets_variable(word: Seq<char>, name: Seq<char>, value: Seq<char>) -> bool {
    &&& word == name + seq!['='] + value
    &&& name.len() > 0
    &&& !('0' <= name[0] <= '9')
    &&& forall|i: int|
        0 <= i < name.len() ==> {
            ||| 'a' <= #[trigger] name[i] <= 'z'
            ||| 'A' <= name[i] <= 'Z'
            ||| '0' <= name[i] <= '9'
            ||| name[i] == '_'
        }
}

proof fn lemma_sets_variable(word: Seq<char>, name: Seq<char>, value: Seq<char>)
    ensures
        sets_variable(word, name, value) ==> is_assignment(word) && name_and_value(word) == (
            name,
            value,
        ),
        is_assignment(word) && name_and_value(word) == (name, value) ==> sets_variable(
            word,
            name,
            value,
        ),
{
    text::first_separator_splits(word, '=', name, value);
    if sets_variable(word, name, value) {
        assert(!name.contains('='));
        assert(is_name_start(name[0]));
        assert forall|i: int| 0 <= i < name.len() implies is_name_char(#[trigger] name[i]) by {}
    }
    if is_assignment(word) && name_and_value(word) == (name, value) {
        assert forall|i: int| 0 <= i < name.len() implies {
            ||| 'a' <= #[trigger] name[i] <= 'z'
            ||| 'A' <= name[i] <= 'Z'
            ||| '0' <= name[i] <= '9'
            ||| name[i] == '_'
        } by {
            assert(is_name_char(name[i]));
        }
    }
}

/// The first words are those that set `env`, each a name and a value, and the word
/// behind them sets nothing.
pub open spec fn begins_with_env(words: Seq<Seq<char>>, env: Seq<(Seq<char>, Seq<char>)>) -> bool {
    &&& env.len() <= words.len()
    &&& forall|i: int|
        0 <= i < env.len() ==> sets_variable(words[i], (#[trigger] env[i]).0, env[i].1)
    &&& env.len() < words.len() ==> forall|name: Seq<char>, value: Seq<char>|
        !#[trigger] sets_variable(words[env.len() as int], name, value)
}

proof fn lemma_begins_with_env(words: Seq<Seq<char>>)
    ensures
        begins_with_env(words, env_of(words)),
        command_of(words) == words.skip(env_of(words).len() as int),
{
    lemma_assignments(words, 0);
    let env = env_of(words);
    assert forall|i: int| 0 <= i < env.len() implies sets_variable(
        words[i],
        (#[trigger] env[i]).0,
        env[i].1,
    ) by {
        lemma_sets_variable(words[i], env[i].0, env[i].1);
    }
    if env.len() < words.len() {
        assert forall|name: Seq<char>, value: Seq<char>| !#[trigger] sets_variable(
            words[env.len() as int],
            name,
            value,
        ) by {
            lemma_sets_variable(words[env.len() as int], name, value);
        }
    }
}

/// A command started directly is the command line, word for word: first the
/// environment, then the program, then all that follows as its arguments. There is
/// nothing to start only where every word sets a variable.
pub proof fn direct_command_keeps_every_word(elements: Vec<String>, r: Option<SpawnPlan>)
    requires
        call_ensures(plan_direct, (&elements,), r),
    ensures
        match r {
            Some(plan) => {
                &&& begins_with_env(text::strings(elements@), plan@.env)
                &&& text::strings(elements@).skip(plan@.env.len() as int) == seq![plan.program@]
                    + text::strings(plan.args@)
                &&& plan.env@.len() + 1 + plan.args@.len() == elements@.len()
                &&& plan.label@ == text::join(seq![plan.program@] + text::strings(plan.args@), " "@)
            },
            None => exists|env: Seq<(Seq<char>, Seq<char>)>|
                #[trigger] begins_with_env(text::strings(elements@), env) && env.len()
                    == elements@.len(),
        },
{
    let words = text::strings(elements@);
    lemma_begins_with_env(words);
    reveal_strlit(" ");
    assert(" "@ == seq![' ']);
    if let Some(plan) = r {
        let command = command_of(words);
        assert(command == seq![command[0]] + command.skip(1));
        assert(plan.env@.len() == plan@.env.len());
        assert(plan.args@.len() == text::strings(plan.args@).len());
    } else {
        assert(env_of(words).len() == words.len());
    }
}

/// A command that `uwsm` starts is the command line, word for word: the environment
/// is set, and all that follows it stands behind `app --`.
pub proof fn uwsm_command_keeps_every_word(line: &str, elements: Vec<String>, r: Option<SpawnPlan>)
    requires
        call_ensures(plan_uwsm, (line, &elements), r),
    ensures
        match r {
            Some(plan) => {
                &&& plan.program@ == "uwsm"@
                &&& begins_with_env(text::strings(elements@), plan@.env)
                &&& text::strings(plan.args@) == seq!["app"@, "--"@] + text::strings(
                    elements@,
                ).skip(plan@.env.len() as int)
                &&& plan.env@.len() < elements@.len()
                &&& plan.label@ == line@
            },
            None => exists|env: Seq<(Seq<char>, Seq<char>)>|
                #[trigger] begins_with_env(text::strings(elements@), env) && env.len()
                    == elements@.len(),
        },
{
    let words = text::strings(elements@);
    lemma_begins_with_env(words);
    if let Some(plan) = r {
        assert(plan.env@.len() == plan@.env.len());
    } else {
        assert(env_of(words).len() == words.len());
    }
}

/// A shell is handed the trimmed command as it stands. There is nothing to start
/// only where the command is blank.
pub proof fn shell_command_is_handed_over_whole(command: &str, r: Option<SpawnPlan>)
    requires
        call_ensures(launch_shell_command, (command,), r),
    ensures
        match r {
            Some(plan) => {
                &&& plan.program@ == "sh"@
                &&& plan.args@.len() == 2
                &&& plan.args@[0]@ == "-c"@
                &&& plan.args@[1]@.len() > 0
                &&& exists|before: Seq<char>, behind: Seq<char>|
                    #[trigger] text::is_trimmed(plan.args@[1]@, command@, before, behind)
                &&& plan.env@.len() == 0
                &&& plan.label@ == plan.args@[1]@
            },
            None => text::all_white(command@),
        },
{
    let (before, behind) = text::trim_leaves_the_middle(command@);
    assert(text::is_trimmed(text::trim(command@), command@, before, behind));
    if let Some(plan) = r {
        let args = text::strings(plan.args@);
        assert(args.len() == plan.args@.len());
        assert(args[0] == plan.args@[0]@ && args[1] == plan.args@[1]@);
        assert(plan.env@.len() == plan@.env.len());
    } else {
        assert(command@ == before + behind);
        assert forall|i: int| 0 <= i < command@.len() implies text::is_white_space(
            #[trigger] command@[i],
        ) by {
            if i < before.len() {
                assert(command@[i] == before[i]);
            } else {
                assert(command@[i] == behind[i - before.len()]);
            }
        }
    }
}

/// A command line is started as its words are; an application by its command, and
/// by its class where it has none.
pub proof fn command_line_is_started_by_its_words(
    app_id: &str,
    line: &str,
    words: Vec<String>,
    direct: Option<SpawnPlan>,
    from_line: Option<SpawnPlan>,
    with_command: Option<SpawnPlan>,
    by_class: Option<SpawnPlan>,
)
    requires
        call_ensures(split_command, (line,), words),
        call_ensures(plan_direct, (&words,), direct),
        call_ensures(launch_command, (line,), from_line),
        call_ensures(launch, (app_id, Some(line)), with_command),
        call_ensures(launch, (line, None), by_class),
    ensures
        direct is Some <==> from_line is Some,
        direct is Some <==> with_command is Some,
        direct is Some <==> by_class is Some,
        direct is Some ==> direct->0@ == from_line->0@ && direct->0@ == with_command->0@
            && direct->0@ == by_class->0@,
{
}

/// What `uwsm` starts is made of the words of the trimmed command line, which is
/// also what it is called in messages.
pub proof fn uwsm_starts_the_trimmed_line(
    line: &str,
    trimmed: &str,
    words: Vec<String>,
    from_words: Option<SpawnPlan>,
    r: Option<SpawnPlan>,
)
    requires
        trimmed@ == text::trim(line@),
        call_ensures(split_command, (trimmed,), words),
        call_ensures(plan_uwsm, (trimmed, &words), from_words),
        call_ensures(launch_via_uwsm, (line,), r),
    ensures
        r is Some <==> trimmed@.len() > 0 && from_words is Some,
        r is Some ==> r->0@ == from_words->0@,
{
}

/// A command line is split as a shell does it; where its quotes do not match, the
/// words are what stands between white space.
pub proof fn unmatched_quotes_split_at_white_space(line: &str, r: Vec<String>, plain: Vec<String>)
    requires
        call_ensures(split_command, (line,), r),
        call_ensures(split_at_white_space, (line,), plain),
    ensures
        shell::shell_split(line@) is None ==> text::strings(r@) == text::strings(plain@),
        shell::shell_split(line@) is Some ==> text::strings(r@) == shell::shell_split(line@)->0,
{
}

/// The command line of an action.
pub open spec fn action_line(r: LaunchAction) -> Seq<char> {
    match r {
        LaunchAction::Nothing => Seq::empty(),
        LaunchAction::Uwsm(line) => line@,
        LaunchAction::Compositor(line) => line@,
    }
}

/// A desktop entry is launched where its command without the field codes is not
/// empty. The line that is launched ends with that command; before it stand the
/// theme, where one is forced, and before that the terminal, where one is wanted.
/// Who launches it is up to the mode alone.
pub proof fn desktop_entry_is_launched_as_it_asks(
    line: &str,
    terminal: bool,
    term_cmd: &str,
    theme_prefix: &str,
    mode: LaunchMode,
    clean: String,
    r: LaunchAction,
)
    requires
        call_ensures(entry::strip_field_codes, (line,), clean),
        call_ensures(launch_desktop_entry, (line, terminal, term_cmd, theme_prefix, mode), r),
    ensures
        r is Nothing <==> clean@.len() == 0,
        r is Uwsm ==> mode.uwsm,
        r is Compositor ==> !mode.uwsm,
        !(r is Nothing) && !terminal && theme_prefix@.len() == 0 ==> action_line(r) == clean@,
        !(r is Nothing) && !terminal && theme_prefix@.len() > 0 ==> action_line(r)
            == theme_prefix@ + seq![' '] + clean@,
        !(r is Nothing) && terminal && theme_prefix@.len() == 0 ==> action_line(r) == term_cmd@
            + seq![' ', '-', 'e', ' '] + clean@,
        !(r is Nothing) && terminal && theme_prefix@.len() > 0 ==> action_line(r) == term_cmd@
            + seq![' ', '-', 'e', ' '] + (theme_prefix@ + seq![' '] + clean@),
{
    reveal_strlit(" ");
    reveal_strlit(" -e ");
    assert(" "@ == seq![' ']);
    assert(" -e "@ == seq![' ', '-', 'e', ' ']);
    let stripped = entry::stripped(line@);
    if stripped.len() > 0 {
        let whole = entry::stripped_from(line@, 0, Seq::empty());
        let (before, behind) = text::trim_leaves_the_middle(whole);
        let command = themed(stripped, theme_prefix@);
        let last = stripped.len() - 1;
        assert(command[command.len() - 1] == stripped[last]);
        lemma_not_blank(command, command.len() - 1);
        let full = in_terminal(command, term_cmd@);
        assert(full[full.len() - 1] == command[command.len() - 1]);
        lemma_not_blank(full, full.len() - 1);
    }
}

proof fn lemma_not_blank(s: Seq<char>, i: int)
    requires
        0 <= i < s.len(),
        !text::is_white_space(s[i]),
    ensures
        text::trim(s).len() > 0,
{
    let (before, behind) = text::trim_leaves_the_middle(s);
    if text::trim(s).len() == 0 {
        assert(s == before + behind);
        if i < before.len() {
            assert(s[i] == before[i]);
        } else {
            assert(s[i] == behind[i - before.len()]);
        }
    }
}

/// A command that is not blank is launched as it stands, by whom the mode says; in
/// a terminal, behind the terminal's own command and `-e`.
pub proof fn command_is_launched_as_it_stands(
    command: &str,
    term: &str,
    mode: LaunchMode,
    r: LaunchAction,
    in_term: LaunchAction,
)
    requires
        call_ensures(launch_via_compositor, (command, mode), r),
        call_ensures(launch_terminal_via_compositor, (command, term, mode), in_term),
    ensures
        r is Nothing <==> text::all_white(command@),
        r is Uwsm <==> !text::all_white(command@) && mode.uwsm,
        !(r is Nothing) ==> action_line(r) == command@,
        in_term is Uwsm <==> mode.uwsm,
        in_term is Compositor <==> !mode.uwsm,
        action_line(in_term) == term@ + seq![' ', '-', 'e', ' '] + command@,
{
    reveal_strlit(" -e ");
    assert(" -e "@ == seq![' ', '-', 'e', ' ']);
    let full = in_terminal(command@, term@);
    let dash = term@.len() as int + 1;
    assert(full[dash] == '-');
    lemma_not_blank(full, dash);
    let (before, behind) = text::trim_leaves_the_middle(command@);
    if text::trim(command@).len() == 0 {
        assert(command@ == before + behind);
        assert forall|i: int| 0 <= i < command@.len() implies text::is_white_space(
            #[trigger] command@[i],
        ) by {
            if i < before.len() {
                assert(command@[i] == before[i]);
            } else {
                assert(command@[i] == behind[i - before.len()]);
            }
        }
    } else {
        let i = before.len() as int;
        assert(command@[i] == text::trim(command@)[0]);
    }
}

/// A child is no longer waited for exactly where it does not run any more, and each
/// is named once, in order.
pub proof fn only_running_children_are_waited_for(states: Vec<ChildState>, r: Vec<usize>)
    requires
        call_ensures(finished_children, (&states,), r),
    ensures
        forall|i: usize| #[trigger]
            r@.contains(i) <==> i < states@.len() && states@[i as int] != ChildState::Running,
        forall|k: int, l: int| 0 <= k < l < r@.len() ==> r@[k] < r@[l],
{
    assert(states.len() == states@.len());
    lemma_finished(states@, states@.len() as int);
}

proof fn lemma_finished(states: Seq<ChildState>, n: int)
    requires
        0 <= n <= states.len(),
        states.len() <= usize::MAX,
    ensures
        forall|i: usize| #[trigger]
            finished_among(states, n).contains(i) <==> i < n && states[i as int]
                != ChildState::Running,
        forall|k: int, l: int|
            0 <= k < l < finished_among(states, n).len() ==> finished_among(states, n)[k]
                < finished_among(states, n)[l],
    decreases n,
{
    if n > 0 {
        lemma_finished(states, n - 1);
        let before = finished_among(states, n - 1);
        if states[n - 1] != ChildState::Running {
            let all = before.push((n - 1) as usize);
            assert forall|i: usize| #[trigger] all.contains(i) <==> i < n && states[i as int]
                != ChildState::Running by {
                if all.contains(i) {
                    let k = choose|k: int| 0 <= k < all.len() && all[k] == i;
                    if k < before.len() {
                        assert(before[k] == i);
                        assert(before.contains(i));
                    }
                }
                if i < n - 1 && states[i as int] != ChildState::Running {
                    assert(before.contains(i));
                    let k = choose|k: int| 0 <= k < before.len() && before[k] == i;
                    assert(all[k] == i);
                }
                if i == n - 1 {
                    assert(all[before.len() as int] == i);
                }
            }
            assert forall|k: int, l: int| 0 <= k < l < all.len() implies all[k] < all[l] by {
                assert(all[k] == before[k]);
                if l == before.len() {
                    let i = before[k];
                    assert(before[k] == i);
                    assert(before.contains(i));
                    assert(i < n - 1);
                    assert(all[l] == n - 1);
                } else {
                    assert(all[l] == before[l]);
                    assert(before[k] < before[l]);
                }
            }
        }
    }
}

/// The thread that waits for children ends exactly where no more will come and none
/// is left.
pub proof fn waiting_ends_without_children(event: ReaperEvent, children: usize, r: bool)
    requires
        call_ensures(reaper_ends, (event, children), r),
    ensures
        children > 0 ==> !r,
        event == ReaperEvent::Job || event == ReaperEvent::Timeout ==> !r,
        event == ReaperEvent::Disconnected && children == 0 ==> r,
{
}

/// A theme stands before the command, with a space between them; without a theme the
/// command stays as it is.
pub proof fn theme_stands_before_the_command(cmd: &str, theme: &str, r: String)
    requires
        call_ensures(prepend_theme, (cmd, theme), r),
    ensures
        theme@.len() == 0 ==> r@ == cmd@,
        theme@.len() > 0 ==> r@ == theme@ + seq![' '] + cmd@,
{
    reveal_strlit(" ");
    assert(" "@ == seq![' ']);
}

/// The leading assignments and the rest of a split command are all of it, in order.
pub proof fn environment_and_command_are_the_whole(
    elements: &[String],
    r: (Vec<(&str, &str)>, &[String]),
)
    requires
        call_ensures(extract_env_prefix, (elements,), r),
    ensures
        begins_with_env(text::strings(elements@), borrowed_pairs(r.0@)),
        r.0@.len() + r.1@.len() == elements@.len(),
        forall|i: int| 0 <= i < r.1@.len() ==> (#[trigger] r.1@[i])@ == elements@[r.0@.len() + i]@,
{
    let words = text::strings(elements@);
    lemma_begins_with_env(words);
    assert(borrowed_pairs(r.0@).len() == r.0@.len());
    assert(text::strings(r.1@).len() == r.1@.len());
    assert forall|i: int| 0 <= i < r.1@.len() implies (#[trigger] r.1@[i])@
        == elements@[r.0@.len() + i]@ by {
        assert(text::strings(r.1@)[i] == r.1@[i]@);
        assert(words[r.0@.len() + i] == elements@[r.0@.len() + i]@);
    }
}

} // verus!
