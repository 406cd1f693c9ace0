//! Real-time signals for inter-process control.
//!
//! The dock, drawer, and notification daemon use `SIGRTMIN+N` signals for
//! user-driven toggle / show / hide actions.

use vstd::prelude::*;

verus! {

/// `libc::SIGRTMIN`: the first real-time signal. It differs between C
/// libraries, so nothing is claimed of its number.
#[verifier::external_body]
fn sigrtmin() -> (r: i32) {
    libc::SIGRTMIN()
}

/// The C library may give this number when it is asked for the first real-time
/// signal. No number is known to be one but those that it has given.
pub closed spec fn is_rtmin(n: i32) -> bool {
    call_ensures(sigrtmin, (), n)
}

/// The first user-defined signal has this number on some machine: 10 on most,
/// 16 or 30 on the rest.
pub open spec fn is_usr1_number(n: i32) -> bool {
    n == 10 || n == 16 || n == 30
}

/// `libc::SIGUSR1`: the first user-defined signal. It differs between machines.
/// The contract names the numbers that it has on those that have real-time
/// signals to ask for with `libc::SIGRTMIN`. Which of them it is on this one is
/// left unsaid.
#[verifier::external_body]
fn sigusr1() -> (r: i32)
    ensures
        is_usr1_number(r),
{
    libc::SIGUSR1
}

/// `libc` may give this number for the first user-defined signal. No number is
/// known to be one but those that it has given.
pub closed spec fn is_usr1(n: i32) -> bool {
    call_ensures(sigusr1, (), n)
}

/// The signal numbers that vary with the machine and its C library.
#[derive(Debug, Clone, Copy, PartialEq, Eq, Structural)]
pub struct SignalNumbers {
    /// The first real-time signal.
    pub rtmin: i32,
    /// The first user-defined signal.
    pub usr1: i32,
}

/// The real-time signal `n` places behind the first.
pub open spec fn rt_signal(numbers: SignalNumbers, n: int) -> i32 {
    let sum = numbers.rtmin + n;
    if sum > i32::MAX {
        (sum - 0x1_0000_0000) as i32
    } else {
        sum as i32
    }
}

impl SignalNumbers {
    /// The numbers on this machine. The C library is asked for the first
    /// real-time signal, each time anew.
    pub fn current() -> (r: SignalNumbers)
        ensures
            r.are_current(),
    {
        let ask_rtmin = sigrtmin;
        let rtmin: i32 = ask_rtmin();
        let ask_usr1 = sigusr1;
        let usr1: i32 = ask_usr1();
        SignalNumbers { rtmin, usr1 }
    }

    /// The C library gave the first real-time signal, and `libc` the first
    /// user-defined signal, which is one that some machine has.
    pub open spec fn are_current(self) -> bool {
        is_rtmin(self.rtmin) && is_usr1(self.usr1) && is_usr1_number(self.usr1)
    }

    /// Signal used to toggle the dock/drawer window (`SIGRTMIN+1`).
    pub fn toggle(&self) -> (r: i32)
        ensures
            r == rt_signal(*self, 1),
    {
        self.rtmin.wrapping_add(1)
    }

    /// Signal used to show the dock/drawer window (`SIGRTMIN+2`).
    pub fn show(&self) -> (r: i32)
        ensures
            r == rt_signal(*self, 2),
    {
        self.rtmin.wrapping_add(2)
    }

    /// Signal used to hide the dock/drawer window (`SIGRTMIN+3`).
    pub fn hide_window(&self) -> (r: i32)
        ensures
            r == rt_signal(*self, 3),
    {
        self.rtmin.wrapping_add(3)
    }

    /// Signal used to toggle the notification panel (`SIGRTMIN+4`).
    pub fn notification_toggle(&self) -> (r: i32)
        ensures
            r == rt_signal(*self, 4),
    {
        self.rtmin.wrapping_add(4)
    }

    /// Signal used to toggle Do-Not-Disturb (`SIGRTMIN+5`).
    pub fn notification_dnd(&self) -> (r: i32)
        ensures
            r == rt_signal(*self, 5),
    {
        self.rtmin.wrapping_add(5)
    }

    /// Signal used to show the DND duration menu (`SIGRTMIN+6`).
    pub fn notification_dnd_menu(&self) -> (r: i32)
        ensures
            r == rt_signal(*self, 6),
    {
        self.rtmin.wrapping_add(6)
    }
}

/// Signal used to toggle the dock/drawer window (`SIGRTMIN+1`), on this machine.
pub fn sig_toggle() -> (r: i32)
    ensures
        exists|numbers: SignalNumbers|
            numbers.are_current() && r == #[trigger] rt_signal(numbers, 1),
{
    SignalNumbers::current().toggle()
}

/// Signal used to show the dock/drawer window (`SIGRTMIN+2`), on this machine.
pub fn sig_show() -> (r: i32)
    ensures
        exists|numbers: SignalNumbers|
            numbers.are_current() && r == #[trigger] rt_signal(numbers, 2),
{
    SignalNumbers::current().show()
}

/// Signal used to hide the dock/drawer window (`SIGRTMIN+3`), on this machine.
pub fn sig_hide() -> (r: i32)
    ensures
        exists|numbers: SignalNumbers|
            numbers.are_current() && r == #[trigger] rt_signal(numbers, 3),
{
    SignalNumbers::current().hide_window()
}

/// Signal used to toggle the notification panel (`SIGRTMIN+4`), on this machine.
pub fn sig_notification_toggle() -> (r: i32)
    ensures
        exists|numbers: SignalNumbers|
            numbers.are_current() && r == #[trigger] rt_signal(numbers, 4),
{
    SignalNumbers::current().notification_toggle()
}

/// Signal used to toggle Do-Not-Disturb (`SIGRTMIN+5`), on this machine.
pub fn sig_notification_dnd() -> (r: i32)
    ensures
        exists|numbers: SignalNumbers|
            numbers.are_current() && r == #[trigger] rt_signal(numbers, 5),
{
    SignalNumbers::current().notification_dnd()
}

/// Signal used to show the DND duration menu (`SIGRTMIN+6`), on this machine.
pub fn sig_notification_dnd_menu() -> (r: i32)
    ensures
        exists|numbers: SignalNumbers|
            numbers.are_current() && r == #[trigger] rt_signal(numbers, 6),
{
    SignalNumbers::current().notification_dnd_menu()
}

/// Window visibility commands sent via signal handling.
#[derive(Debug, Clone, Copy, PartialEq, Eq, Structural)]
pub enum WindowCommand {
    /// Show the window.
    Show,
    /// Hide the window.
    Hide,
    /// Toggle visibility; on non-resident programs this means "quit".
    Toggle,
    /// Quit the program.
    Quit,
}

/// The command that a signal stands for. The first user-defined signal is an
/// older way to toggle. A program that is not resident only toggles.
pub open spec fn command_of(sig: i32, is_resident: bool, numbers: SignalNumbers) -> Option<
    WindowCommand,
> {
    if sig == numbers.usr1 || sig == rt_signal(numbers, 1) {
        Some(WindowCommand::Toggle)
    } else if !is_resident {
        None
    } else if sig == rt_signal(numbers, 2) {
        Some(WindowCommand::Show)
    } else if sig == rt_signal(numbers, 3) {
        Some(WindowCommand::Hide)
    } else {
        None
    }
}

/// Maps a received signal number to a `WindowCommand`, if applicable, with the
/// given signal numbers.
pub fn map_signal(sig: i32, is_resident: bool, numbers: &SignalNumbers) -> (r: Option<
    WindowCommand,
>)
    ensures
        r == command_of(sig, is_resident, *numbers),
{
    if sig == numbers.usr1 || sig == numbers.toggle() {
        Some(WindowCommand::Toggle)
    } else if !is_resident {
        None
    } else if sig == numbers.show() {
        Some(WindowCommand::Show)
    } else if sig == numbers.hide_window() {
        Some(WindowCommand::Hide)
    } else {
        None
    }
}

/// Maps a received signal number to a `WindowCommand`, if applicable, on this
/// machine.
pub fn map_signal_to_command(sig: i32, is_resident: bool) -> (r: Option<WindowCommand>)
    ensures
        exists|numbers: SignalNumbers|
            numbers.are_current() && r == #[trigger] command_of(sig, is_resident, numbers),
{
    map_signal(sig, is_resident, &SignalNumbers::current())
}

/// The signals that the handler thread waits for.
pub fn handled_signals(numbers: &SignalNumbers) -> (r: Vec<i32>)
    ensures
        r@ == seq![
            numbers.usr1,
            rt_signal(*numbers, 1),
            rt_signal(*numbers, 2),
            rt_signal(*numbers, 3),
        ],
{
    let mut out: Vec<i32> = Vec::new();
    out.push(numbers.usr1);
    out.push(numbers.toggle());
    out.push(numbers.show());
    out.push(numbers.hide_window());
    out
}

/// What the handler thread does after waiting.
#[derive(Debug, Clone, Copy, PartialEq, Eq, Structural)]
pub enum WaitStep {
    /// Send this command, and wait again while someone receives it.
    Send(WindowCommand),
    /// Wait again.
    Wait,
    /// Waiting failed: end.
    Stop,
}

/// Decides what to do after `sigwait` has returned `ret` with the signal `sig`.
pub fn after_wait(ret: i32, sig: i32, is_resident: bool, numbers: &SignalNumbers) -> (r: WaitStep)
    ensures
        r == (if ret != 0 {
            WaitStep::Stop
        } else {
            match command_of(sig, is_resident, *numbers) {
                Some(command) => WaitStep::Send(command),
                None => WaitStep::Wait,
            }
        }),
{
    if ret != 0 {
        return WaitStep::Stop;
    }
    match map_signal(sig, is_resident, numbers) {
        Some(command) => WaitStep::Send(command),
        None => WaitStep::Wait,
    }
}

/// The signals of the six actions follow the first real-time signal, whichever
/// it is, in order and without a gap: each is the first plus its place, in the
/// arithmetic of its type, and so the plain sum wherever the type has it.
pub proof fn rt_signals_follow_the_first(numbers: SignalNumbers)
    ensures
        forall|n: i32|
            1 <= n <= 6 ==> #[trigger] rt_signal(numbers, n as int) == numbers.rtmin.wrapping_add(n),
        forall|n: int|
            1 <= n <= 6 && numbers.rtmin + n <= i32::MAX ==> #[trigger] rt_signal(numbers, n)
                == numbers.rtmin + n,
        forall|n: i32|
            1 <= n <= 6 ==> #[trigger] rt_signal(numbers, n as int) == rt_signal(
                numbers,
                1,
            ).wrapping_add((n - 1) as i32),
{
}

/// No two of the six actions share a signal.
pub proof fn rt_signals_are_distinct(numbers: SignalNumbers, i: int, j: int)
    requires
        1 <= i < j <= 6,
    ensures
        rt_signal(numbers, i) != rt_signal(numbers, j),
{
}

/// Every signal that the handler waits for stands for a command in a resident
/// program, and a toggle signal does in every program.
pub proof fn handled_signals_have_commands(numbers: SignalNumbers)
    ensures
        command_of(numbers.usr1, true, numbers) is Some,
        command_of(rt_signal(numbers, 1), true, numbers) is Some,
        command_of(rt_signal(numbers, 2), true, numbers) is Some,
        command_of(rt_signal(numbers, 3), true, numbers) is Some,
        command_of(numbers.usr1, false, numbers) == Some(WindowCommand::Toggle),
        command_of(rt_signal(numbers, 1), false, numbers) == Some(WindowCommand::Toggle),
{
}

/// A signal stands for its command: the first user-defined signal and the first of
/// the six toggle, in every program; in a resident one the second shows and the
/// third hides. No other signal stands for anything.
pub proof fn signals_stand_for_their_commands(
    sig: i32,
    is_resident: bool,
    numbers: SignalNumbers,
    toggle: i32,
    show: i32,
    hide_window: i32,
    r: Option<WindowCommand>,
)
    requires
        call_ensures(map_signal, (sig, is_resident, &numbers), r),
        call_ensures(SignalNumbers::toggle, (&numbers,), toggle),
        call_ensures(SignalNumbers::show, (&numbers,), show),
        call_ensures(SignalNumbers::hide_window, (&numbers,), hide_window),
    ensures
        r == Some(WindowCommand::Toggle) <==> sig == numbers.usr1 || sig == toggle,
        r == Some(WindowCommand::Show) <==> is_resident && sig == show && sig != numbers.usr1,
        r == Some(WindowCommand::Hide) <==> is_resident && sig == hide_window && sig
            != numbers.usr1,
        r != Some(WindowCommand::Quit),
{
}

/// The handler waits for the signals that stand for a command, and for no others; it
/// sends the command that a signal stands for, waits on where it stands for none,
/// and ends where waiting failed.
pub proof fn handler_waits_for_what_it_sends(
    ret: i32,
    sig: i32,
    is_resident: bool,
    numbers: SignalNumbers,
    handled: Vec<i32>,
    command: Option<WindowCommand>,
    r: WaitStep,
)
    requires
        call_ensures(handled_signals, (&numbers,), handled),
        call_ensures(map_signal, (sig, is_resident, &numbers), command),
        call_ensures(after_wait, (ret, sig, is_resident, &numbers), r),
    ensures
        command is Some ==> handled@.contains(sig),
        is_resident && handled@.contains(sig) ==> command is Some,
        r == WaitStep::Stop <==> ret != 0,
        ret == 0 && command is None ==> r == WaitStep::Wait,
        ret == 0 && command is Some ==> r == WaitStep::Send(command->0),
{
    let all = handled@;
    assert(all[0] == numbers.usr1 && all[1] == rt_signal(numbers, 1) && all[2] == rt_signal(
        numbers,
        2,
    ) && all[3] == rt_signal(numbers, 3));
}

/// The signals of the six actions are the first real-time signal plus one to plus
/// six, wherever the type has the sum.
pub proof fn six_actions_have_six_signals(
    numbers: SignalNumbers,
    toggle: i32,
    show: i32,
    hide_window: i32,
    notifications: i32,
    dnd: i32,
    dnd_menu: i32,
)
    requires
        call_ensures(SignalNumbers::toggle, (&numbers,), toggle),
        call_ensures(SignalNumbers::show, (&numbers,), show),
        call_ensures(SignalNumbers::hide_window, (&numbers,), hide_window),
        call_ensures(SignalNumbers::notification_toggle, (&numbers,), notifications),
        call_ensures(SignalNumbers::notification_dnd, (&numbers,), dnd),
        call_ensures(SignalNumbers::notification_dnd_menu, (&numbers,), dnd_menu),
    ensures
        numbers.rtmin <= i32::MAX - 6 ==> {
            &&& toggle == numbers.rtmin + 1
            &&& show == numbers.rtmin + 2
            &&& hide_window == numbers.rtmin + 3
            &&& notifications == numbers.rtmin + 4
            &&& dnd == numbers.rtmin + 5
            &&& dnd_menu == numbers.rtmin + 6
        },
        toggle == numbers.rtmin.wrapping_add(1),
        show == numbers.rtmin.wrapping_add(2),
        hide_window == numbers.rtmin.wrapping_add(3),
        notifications == numbers.rtmin.wrapping_add(4),
        dnd == numbers.rtmin.wrapping_add(5),
        dnd_menu == numbers.rtmin.wrapping_add(6),
{
}

} // verus!
