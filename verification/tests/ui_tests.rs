use std::collections::VecDeque;

use systemstat_core::cli::{
    clamp_scroll, handle_key, parse_args, ArgsOutcome, Key, KeyAction, Mode, ProcSort, Screen, UiState,
};
use systemstat_core::config::{default_refresh_secs, sanitise_refresh_secs};
use systemstat_core::history::{push_capped, HISTORY_LEN};
use systemstat_core::ui::{doc_left_value, fmt_uptime, max_scroll, pad_between, truncate_fit};

#[test]
fn uptime_formats_with_and_without_days() {
    assert_eq!(fmt_uptime(0), "0h 0m 0s");
    assert_eq!(fmt_uptime(7 * 3600 + 58 * 60 + 41), "7h 58m 41s");
    assert_eq!(fmt_uptime(2 * 86400 + 3 * 3600 + 5), "2d 3h 0m 5s");
    assert_eq!(fmt_uptime(u64::MAX), "213503982334601d 7h 0m 15s");
}

#[test]
fn truncate_fit_marks_elision() {
    assert_eq!(truncate_fit("short", 10), "short");
    assert_eq!(truncate_fit("exactly", 7), "exactly");
    assert_eq!(truncate_fit("too long here", 5), "too …");
    assert_eq!(truncate_fit("x", 0), "");
    assert_eq!(truncate_fit("", 0), "");
    assert_eq!(truncate_fit("ÄÖÜäöü", 3), "ÄÖ…");
}

fn args(v: &[&str]) -> Vec<String> {
    v.iter().map(|s| s.to_string()).collect()
}

#[test]
fn args_pick_mode_and_stop_at_help() {
    assert_eq!(parse_args(&args(&[])), ArgsOutcome::Run { mode: Mode::Interactive, kiosk: false });
    assert_eq!(parse_args(&args(&["--once"])), ArgsOutcome::Run { mode: Mode::Once, kiosk: false });
    assert_eq!(parse_args(&args(&["--snapshot", "--json"])), ArgsOutcome::Run { mode: Mode::Json, kiosk: false });
    assert_eq!(parse_args(&args(&["--kiosk"])), ArgsOutcome::Run { mode: Mode::Interactive, kiosk: true });
    assert_eq!(parse_args(&args(&["--json", "-h", "--bogus"])), ArgsOutcome::Help);
    assert_eq!(parse_args(&args(&["--version"])), ArgsOutcome::Version);
    assert_eq!(parse_args(&args(&["-V"])), ArgsOutcome::Version);
    assert_eq!(parse_args(&args(&["--once", "--bogus", "--help"])), ArgsOutcome::Unknown(1));
}

fn at(scroll: u16) -> UiState {
    UiState { screen: Screen::Dashboard, sort: ProcSort::Cpu, scroll }
}

fn scrolled_to(scroll: u16) -> KeyAction {
    KeyAction::Show(at(scroll))
}

#[test]
fn keys_scroll_within_bounds_and_quit() {
    assert_eq!(handle_key(Key::Char('q'), false, at(0), 5, false), KeyAction::Quit);
    assert_eq!(handle_key(Key::Esc, false, at(0), 5, false), KeyAction::Quit);
    assert_eq!(handle_key(Key::Char('c'), true, at(0), 5, false), KeyAction::Quit);
    assert_eq!(handle_key(Key::Char('c'), false, at(3), 5, false), scrolled_to(3));
    // kiosk mode ignores q/Esc but not Ctrl-C
    assert_eq!(handle_key(Key::Char('q'), false, at(2), 5, true), scrolled_to(2));
    assert_eq!(handle_key(Key::Esc, false, at(2), 5, true), scrolled_to(2));
    assert_eq!(handle_key(Key::Char('c'), true, at(2), 5, true), KeyAction::Quit);
    assert_eq!(handle_key(Key::Down, false, at(5), 5, false), scrolled_to(5));
    assert_eq!(handle_key(Key::Char('j'), false, at(1), 5, false), scrolled_to(2));
    assert_eq!(handle_key(Key::Up, false, at(0), 5, false), scrolled_to(0));
    assert_eq!(handle_key(Key::Char('k'), false, at(4), 5, false), scrolled_to(3));
    assert_eq!(handle_key(Key::PageDown, false, at(1), 25, false), scrolled_to(11));
    assert_eq!(handle_key(Key::PageDown, false, at(20), 25, false), scrolled_to(25));
    assert_eq!(handle_key(Key::PageUp, false, at(4), 25, false), scrolled_to(0));
    assert_eq!(handle_key(Key::Home, false, at(9), 25, false), scrolled_to(0));
    assert_eq!(handle_key(Key::End, false, at(9), 25, false), scrolled_to(25));
    assert_eq!(handle_key(Key::Other, false, at(9), 25, false), scrolled_to(9));
    assert_eq!(clamp_scroll(30, 25), 25);
    assert_eq!(clamp_scroll(3, 25), 3);
}

#[test]
fn tab_cycles_screens_and_s_toggles_process_sort() {
    let procs = match handle_key(Key::Tab, false, at(7), 25, false) {
        KeyAction::Show(s) => s,
        KeyAction::Quit => panic!("Tab must not quit"),
    };
    assert_eq!(procs, UiState { screen: Screen::Processes, sort: ProcSort::Cpu, scroll: 0 });
    assert_eq!(
        handle_key(Key::Char('s'), false, procs, 25, false),
        KeyAction::Show(UiState { screen: Screen::Processes, sort: ProcSort::Memory, scroll: 0 })
    );
    let detail = UiState { screen: Screen::Detail, sort: ProcSort::Memory, scroll: 3 };
    assert_eq!(
        handle_key(Key::Tab, false, UiState { screen: Screen::Processes, sort: ProcSort::Memory, scroll: 3 }, 25, false),
        KeyAction::Show(UiState { screen: Screen::Detail, sort: ProcSort::Memory, scroll: 0 })
    );
    // `s` does nothing outside the process view
    assert_eq!(handle_key(Key::Char('s'), false, detail, 25, false), KeyAction::Show(detail));
    assert_eq!(
        handle_key(Key::Tab, false, detail, 25, false),
        KeyAction::Show(UiState { screen: Screen::Dashboard, sort: ProcSort::Memory, scroll: 0 })
    );
    assert_eq!(UiState::new(), at(0));
}

#[test]
fn history_keeps_latest_samples() {
    let mut buf: VecDeque<u32> = VecDeque::new();
    for v in 0..(HISTORY_LEN as u32 + 5) {
        push_capped(&mut buf, v);
    }
    assert_eq!(buf.len(), HISTORY_LEN);
    assert_eq!(buf.front(), Some(&5));
    assert_eq!(buf.back(), Some(&(HISTORY_LEN as u32 + 4)));
}

#[test]
fn refresh_interval_defaults_and_floor() {
    assert_eq!(default_refresh_secs(), 1);
    assert_eq!(sanitise_refresh_secs(0), 1);
    assert_eq!(sanitise_refresh_secs(3), 3);
}

#[test]
fn max_scroll_counts_rows_that_do_not_fit() {
    assert_eq!(max_scroll(10, 20), 0);
    assert_eq!(max_scroll(20, 20), 0);
    assert_eq!(max_scroll(25, 20), 5);
    assert_eq!(max_scroll(100_000, 10), u16::MAX);
}

#[test]
fn pad_between_fills_the_row() {
    assert_eq!(pad_between("CPU", "42%", 10), 4);
    assert_eq!(pad_between("héllo", "wörld", 12), 2);
    assert_eq!(pad_between("abcdef", "ghij", 10), 0);
    assert_eq!(pad_between("abcdefgh", "ijkl", 10), 0);
}

#[test]
fn doc_left_value_keeps_a_space_before_the_right_column() {
    let (v, pad) = doc_left_value("Normal");
    assert_eq!(v, "Normal");
    assert_eq!(pad, 42 - 11 - 6);
    let long = "x".repeat(40);
    let (v, pad) = doc_left_value(&long);
    assert_eq!(v, format!("{}…", "x".repeat(29)));
    assert_eq!(pad, 1);
}
