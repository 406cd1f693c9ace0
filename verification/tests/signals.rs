//! Signals and what they command.

use nwg_common::layer_shell::backdrop_monitors;
use nwg_common::signals::{
    after_wait, handled_signals, map_signal, map_signal_to_command, sig_hide,
    sig_notification_dnd, sig_notification_dnd_menu, sig_notification_toggle, sig_show,
    sig_toggle, SignalNumbers, WaitStep, WindowCommand,
};

const NUMBERS: SignalNumbers = SignalNumbers { rtmin: 34, usr1: 10 };

#[test]
fn rt_offsets_are_stable() {
    let base = libc::SIGRTMIN();
    assert_eq!(sig_toggle(), base + 1);
    assert_eq!(sig_show(), base + 2);
    assert_eq!(sig_hide(), base + 3);
    assert_eq!(sig_notification_toggle(), base + 4);
    assert_eq!(sig_notification_dnd(), base + 5);
    assert_eq!(sig_notification_dnd_menu(), base + 6);
}

#[test]
fn non_resident_only_accepts_toggle() {
    assert_eq!(
        map_signal_to_command(sig_toggle(), false),
        Some(WindowCommand::Toggle)
    );
    assert_eq!(map_signal_to_command(sig_show(), false), None);
    assert_eq!(map_signal_to_command(sig_hide(), false), None);
}

#[test]
fn resident_maps_toggle_show_hide() {
    assert_eq!(
        map_signal_to_command(sig_toggle(), true),
        Some(WindowCommand::Toggle)
    );
    assert_eq!(
        map_signal_to_command(sig_show(), true),
        Some(WindowCommand::Show)
    );
    assert_eq!(
        map_signal_to_command(sig_hide(), true),
        Some(WindowCommand::Hide)
    );
}

#[test]
fn sigusr1_maps_to_toggle_for_compat() {
    // SIGUSR1 is the pre-RT-signals toggle mechanism, still honored
    // (with a deprecation warning) in both resident and non-resident modes.
    assert_eq!(
        map_signal_to_command(libc::SIGUSR1, true),
        Some(WindowCommand::Toggle)
    );
    assert_eq!(
        map_signal_to_command(libc::SIGUSR1, false),
        Some(WindowCommand::Toggle)
    );
}

#[test]
fn unknown_signal_returns_none() {
    assert_eq!(map_signal_to_command(libc::SIGTERM, true), None);
    assert_eq!(map_signal_to_command(libc::SIGTERM, false), None);
    // Higher RT signal we don't dispatch on
    assert_eq!(map_signal_to_command(libc::SIGRTMIN() + 99, true), None);
}

#[test]
fn numbers_of_this_machine() {
    let numbers = SignalNumbers::current();
    assert_eq!(numbers.rtmin, libc::SIGRTMIN());
    assert_eq!(numbers.usr1, libc::SIGUSR1);
}

#[test]
fn given_numbers_are_used() {
    assert_eq!(NUMBERS.toggle(), 35);
    assert_eq!(NUMBERS.show(), 36);
    assert_eq!(NUMBERS.hide_window(), 37);
    assert_eq!(NUMBERS.notification_toggle(), 38);
    assert_eq!(NUMBERS.notification_dnd(), 39);
    assert_eq!(NUMBERS.notification_dnd_menu(), 40);
    assert_eq!(map_signal(36, true, &NUMBERS), Some(WindowCommand::Show));
    assert_eq!(map_signal(37, true, &NUMBERS), Some(WindowCommand::Hide));
    assert_eq!(map_signal(37, false, &NUMBERS), None);
    assert_eq!(map_signal(38, true, &NUMBERS), None);
}

#[test]
fn handled_signals_all_have_commands() {
    let signals = handled_signals(&NUMBERS);
    assert_eq!(signals, vec![10, 35, 36, 37]);
    for sig in signals {
        assert!(map_signal(sig, true, &NUMBERS).is_some());
    }
}

#[test]
fn steps_after_waiting() {
    assert_eq!(after_wait(0, 35, false, &NUMBERS), WaitStep::Send(WindowCommand::Toggle));
    assert_eq!(after_wait(0, 36, false, &NUMBERS), WaitStep::Wait);
    assert_eq!(after_wait(0, 36, true, &NUMBERS), WaitStep::Send(WindowCommand::Show));
    assert_eq!(after_wait(22, 35, true, &NUMBERS), WaitStep::Stop);
}

#[test]
fn backdrops_on_all_monitors_but_one() {
    let connectors = vec![
        Some("DP-1".to_string()),
        None,
        Some("DP-2".to_string()),
        Some("DP-1".to_string()),
    ];
    assert_eq!(backdrop_monitors(&connectors, None), vec![0, 1, 2, 3]);
    assert_eq!(backdrop_monitors(&connectors, Some("DP-1")), vec![1, 2]);
    assert_eq!(backdrop_monitors(&connectors, Some("DP-9")), vec![0, 1, 2, 3]);
}
