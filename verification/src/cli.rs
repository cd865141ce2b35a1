//! Command-line arguments and the interactive keys of the dashboard.

use vstd::prelude::*;
use crate::text::{chars_eq, to_chars};

verus! {

/// How the dashboard runs.
#[derive(Clone, Copy, Debug, PartialEq, Eq, Structural)]
pub enum Mode {
    /// The interactive dashboard.
    Interactive,
    /// Print one plain-text frame and exit.
    Once,
    /// Print the current metrics as JSON and exit.
    Json,
}

/// What the command line asks for.
#[derive(Clone, Copy, Debug, PartialEq, Eq, Structural)]
pub enum ArgsOutcome {
    /// Run in `mode`; `kiosk` ignores `q`/`Esc` in the interactive dashboard.
    Run { mode: Mode, kiosk: bool },
    /// Show the usage text and exit successfully.
    Help,
    /// Show the version and exit successfully.
    Version,
    /// The argument at this position is not known: report it and exit with an error.
    Unknown(usize),
}

/// What one argument means.
pub enum ArgKind {
    Once,
    Json,
    Kiosk,
    Help,
    Version,
    Other,
}

/// The meaning of one argument.
pub open spec fn arg_kind(a: Seq<char>) -> ArgKind {
    if a == "--once"@ || a == "--snapshot"@ {
        ArgKind::Once
    } else if a == "--json"@ {
        ArgKind::Json
    } else if a == "--kiosk"@ {
        ArgKind::Kiosk
    } else if a == "-h"@ || a == "--help"@ {
        ArgKind::Help
    } else if a == "-V"@ || a == "--version"@ {
        ArgKind::Version
    } else {
        ArgKind::Other
    }
}

/// The outcome of the arguments from position `i` on, given the mode and
/// kiosk setting chosen so far: a later mode flag overrides an earlier one,
/// and the first help, version or unknown argument ends the scan.
pub open spec fn args_from(args: Seq<Seq<char>>, i: int, mode: Mode, kiosk: bool) -> ArgsOutcome
    decreases args.len() - i,
{
    if i < 0 || i >= args.len() {
        ArgsOutcome::Run { mode, kiosk }
    } else {
        match arg_kind(args[i]) {
            ArgKind::Once => args_from(args, i + 1, Mode::Once, kiosk),
            ArgKind::Json => args_from(args, i + 1, Mode::Json, kiosk),
            ArgKind::Kiosk => args_from(args, i + 1, mode, true),
            ArgKind::Help => ArgsOutcome::Help,
            ArgKind::Version => ArgsOutcome::Version,
            ArgKind::Other => ArgsOutcome::Unknown(i as usize),
        }
    }
}

/// The views of a sequence of strings.
pub open spec fn string_views(v: Seq<String>) -> Seq<Seq<char>> {
    v.map_values(|s: String| s@)
}

fn is_arg(a: &Vec<char>, lit: &str) -> (r: bool)
    ensures
        r == (a@ == lit@),
{
    let l = to_chars(lit);
    chars_eq(a, &l)
}

/// Read the command-line arguments (without the program name): `--once` or
/// `--snapshot`, `--json`, `--kiosk`, `-h`/`--help`, `-V`/`--version`.
pub fn parse_args(args: &Vec<String>) -> (r: ArgsOutcome)
    ensures
        r == args_from(string_views(args@), 0, Mode::Interactive, false),
{
    let ghost av = string_views(args@);
    let mut mode = Mode::Interactive;
    let mut kiosk = false;
    let mut i: usize = 0;
    while i < args.len()
        invariant
            av == string_views(args@),
            0 <= i <= args.len(),
            args_from(av, 0, Mode::Interactive, false) == args_from(av, i as int, mode, kiosk),
        decreases args.len() - i,
    {
        let a = to_chars(args[i].as_str());
        assert(a@ == av[i as int]);
        if is_arg(&a, "--once") || is_arg(&a, "--snapshot") {
            mode = Mode::Once;
        } else if is_arg(&a, "--json") {
            mode = Mode::Json;
        } else if is_arg(&a, "--kiosk") {
            kiosk = true;
        } else if is_arg(&a, "-h") || is_arg(&a, "--help") {
            return ArgsOutcome::Help;
        } else if is_arg(&a, "-V") || is_arg(&a, "--version") {
            return ArgsOutcome::Version;
        } else {
            return ArgsOutcome::Unknown(i);
        }
        i += 1;
    }
    ArgsOutcome::Run { mode, kiosk }
}

/// A key press, as far as the dashboard tells keys apart.
#[derive(Clone, Copy, Debug, PartialEq, Eq, Structural)]
pub enum Key {
    Char(char),
    Up,
    Down,
    PageUp,
    PageDown,
    Home,
    End,
    Esc,
    Tab,
    Other,
}

/// The screen the dashboard shows; `Tab` cycles through them in this order.
#[derive(Clone, Copy, Debug, PartialEq, Eq, Structural)]
pub enum Screen {
    /// All panels.
    Dashboard,
    /// The top processes.
    Processes,
    /// Every mounted filesystem and every non-loopback interface.
    Detail,
}

/// What the process view is sorted by.
#[derive(Clone, Copy, Debug, PartialEq, Eq, Structural)]
pub enum ProcSort {
    Cpu,
    Memory,
}

/// The interactive state: the screen, the process sort, and the scroll row.
#[derive(Clone, Copy, Debug, PartialEq, Eq, Structural)]
pub struct UiState {
    pub screen: Screen,
    pub sort: ProcSort,
    pub scroll: u16,
}

impl UiState {
    /// The dashboard screen, unscrolled, processes by CPU.
    pub fn new() -> (r: Self)
        ensures
            r == (UiState { screen: Screen::Dashboard, sort: ProcSort::Cpu, scroll: 0 }),
    {
        UiState { screen: Screen::Dashboard, sort: ProcSort::Cpu, scroll: 0 }
    }
}

/// What a key press does.
#[derive(Clone, Copy, Debug, PartialEq, Eq, Structural)]
pub enum KeyAction {
    /// Leave the dashboard.
    Quit,
    /// Show this state.
    Show(UiState),
}

/// Rows scrolled per PageUp/PageDown, roughly one dashboard section.
pub const PAGE: u16 = 10;

/// `a - b`, or 0 below it.
pub open spec fn sat_sub(a: u16, b: u16) -> u16 {
    if a >= b {
        (a - b) as u16
    } else {
        0
    }
}

/// `a + b`, capped at `u16::MAX`.
pub open spec fn sat_add(a: u16, b: u16) -> u16 {
    if a + b > u16::MAX {
        u16::MAX
    } else {
        (a + b) as u16
    }
}

/// The smaller of two rows.
pub open spec fn min_u16(a: u16, b: u16) -> u16 {
    if a <= b {
        a
    } else {
        b
    }
}

/// The screen after `v` in the `Tab` cycle.
pub open spec fn next_screen(v: Screen) -> Screen {
    match v {
        Screen::Dashboard => Screen::Processes,
        Screen::Processes => Screen::Detail,
        Screen::Detail => Screen::Dashboard,
    }
}

/// The other process sort.
pub open spec fn other_sort(s: ProcSort) -> ProcSort {
    match s {
        ProcSort::Cpu => ProcSort::Memory,
        ProcSort::Memory => ProcSort::Cpu,
    }
}

/// The scroll row after a movement key.
pub open spec fn scrolled(key: Key, scroll: u16, max_scroll: u16) -> u16 {
    match key {
        Key::Up => sat_sub(scroll, 1),
        Key::Char('k') => sat_sub(scroll, 1),
        Key::Down => min_u16(sat_add(scroll, 1), max_scroll),
        Key::Char('j') => min_u16(sat_add(scroll, 1), max_scroll),
        Key::PageUp => sat_sub(scroll, PAGE),
        Key::PageDown => min_u16(sat_add(scroll, PAGE), max_scroll),
        Key::Home => 0,
        Key::End => max_scroll,
        _ => scroll,
    }
}

/// What a key does: `Ctrl-C` quits, and so do `q` and `Esc` unless in kiosk
/// mode; `Tab` moves to the next screen, at its top; `s` in the process view
/// switches its sort between CPU and memory; `Up`/`k` and `Down`/`j` scroll
/// one row, `PageUp`/`PageDown` ten, `Home` and `End` go to the top and
/// bottom; downward moves stop at `max_scroll`; any other key changes nothing.
pub open spec fn key_action_spec(key: Key, ctrl: bool, st: UiState, max_scroll: u16, kiosk: bool) -> KeyAction {
    if (key == Key::Char('c') && ctrl) || (!kiosk && (key == Key::Char('q') || key == Key::Esc)) {
        KeyAction::Quit
    } else if key == Key::Tab {
        KeyAction::Show(UiState { screen: next_screen(st.screen), sort: st.sort, scroll: 0 })
    } else if key == Key::Char('s') && st.screen == Screen::Processes {
        KeyAction::Show(UiState { screen: st.screen, sort: other_sort(st.sort), scroll: st.scroll })
    } else {
        KeyAction::Show(UiState { screen: st.screen, sort: st.sort, scroll: scrolled(key, st.scroll, max_scroll) })
    }
}

/// Apply a key press (with `ctrl` telling whether Control was held) to the
/// interactive state. A scroll row within `0..=max_scroll` stays within it.
pub fn handle_key(key: Key, ctrl: bool, st: UiState, max_scroll: u16, kiosk: bool) -> (r: KeyAction)
    ensures
        r == key_action_spec(key, ctrl, st, max_scroll, kiosk),
        st.scroll <= max_scroll ==> (r matches KeyAction::Show(n) ==> n.scroll <= max_scroll),
{
    let ctrl_c = key == Key::Char('c') && ctrl;
    if ctrl_c || (!kiosk && (key == Key::Char('q') || key == Key::Esc)) {
        return KeyAction::Quit;
    }
    if key == Key::Tab {
        let next = match st.screen {
            Screen::Dashboard => Screen::Processes,
            Screen::Processes => Screen::Detail,
            Screen::Detail => Screen::Dashboard,
        };
        return KeyAction::Show(UiState { screen: next, sort: st.sort, scroll: 0 });
    }
    if key == Key::Char('s') && st.screen == Screen::Processes {
        let sort = match st.sort {
            ProcSort::Cpu => ProcSort::Memory,
            ProcSort::Memory => ProcSort::Cpu,
        };
        return KeyAction::Show(UiState { screen: st.screen, sort, scroll: st.scroll });
    }
    let scroll = st.scroll;
    let s = match key {
        Key::Up | Key::Char('k') => scroll.saturating_sub(1),
        Key::Down | Key::Char('j') => {
            let t = scroll.saturating_add(1);
            if t <= max_scroll {
                t
            } else {
                max_scroll
            }
        },
        Key::PageUp => scroll.saturating_sub(PAGE),
        Key::PageDown => {
            let t = scroll.saturating_add(PAGE);
            if t <= max_scroll {
                t
            } else {
                max_scroll
            }
        },
        Key::Home => 0,
        Key::End => max_scroll,
        _ => scroll,
    };
    KeyAction::Show(UiState { screen: st.screen, sort: st.sort, scroll: s })
}

/// After a redraw, keep the scroll position within the rows that exist.
pub fn clamp_scroll(scroll: u16, max_scroll: u16) -> (r: u16)
    ensures
        r == min_u16(scroll, max_scroll),
{
    if scroll <= max_scroll {
        scroll
    } else {
        max_scroll
    }
}


/// Which keys leave the dashboard: `Ctrl-C` always, `q` and `Esc` exactly
/// outside kiosk mode, and nothing else.
pub proof fn lemma_quit_keys(key: Key, ctrl: bool, st: UiState, max_scroll: u16, kiosk: bool)
    ensures
        key_action_spec(key, ctrl, st, max_scroll, kiosk) == KeyAction::Quit <==> (key == Key::Char(
            'c',
        ) && ctrl) || (!kiosk && (key == Key::Char('q') || key == Key::Esc)),
{
}

/// `Tab` moves to another screen at its top, keeping the sort, and three
/// presses come back to the screen they started from.
pub proof fn lemma_tab_cycles(st: UiState, max_scroll: u16, kiosk: bool)
    ensures
        key_action_spec(Key::Tab, false, st, max_scroll, kiosk) matches KeyAction::Show(n1) && n1.screen
            != st.screen && n1.scroll == 0 && n1.sort == st.sort && (key_action_spec(
            Key::Tab,
            false,
            n1,
            max_scroll,
            kiosk,
        ) matches KeyAction::Show(n2) && n2.screen != st.screen && n2.screen != n1.screen && (
        key_action_spec(Key::Tab, false, n2, max_scroll, kiosk) matches KeyAction::Show(n3)
            && n3.screen == st.screen)),
{
}

/// `s` in the process view switches the sort and nothing else, and a second
/// `s` switches it back; elsewhere `s` changes nothing.
pub proof fn lemma_sort_key(st: UiState, max_scroll: u16, kiosk: bool)
    ensures
        st.screen == Screen::Processes ==> (key_action_spec(
            Key::Char('s'),
            false,
            st,
            max_scroll,
            kiosk,
        ) matches KeyAction::Show(n) && n.sort != st.sort && n.screen == st.screen && n.scroll
            == st.scroll && key_action_spec(Key::Char('s'), false, n, max_scroll, kiosk)
            == KeyAction::Show(st)),
        st.screen != Screen::Processes ==> key_action_spec(
            Key::Char('s'),
            false,
            st,
            max_scroll,
            kiosk,
        ) == KeyAction::Show(st),
{
}

/// Movement keys change only the scroll row: `Down`/`j` one row further but
/// not past `max_scroll`, `Up`/`k` one row back but not before the top,
/// `PageDown`/`PageUp` ten rows likewise, `Home` the top, `End` the bottom.
/// A key with no meaning changes nothing.
pub proof fn lemma_scroll_keys(ctrl: bool, st: UiState, max_scroll: u16, kiosk: bool)
    requires
        st.scroll <= max_scroll,
    ensures
        key_action_spec(Key::Down, ctrl, st, max_scroll, kiosk) == KeyAction::Show(
            UiState { scroll: if st.scroll < max_scroll { (st.scroll + 1) as u16 } else { max_scroll }, ..st },
        ),
        key_action_spec(Key::Char('j'), ctrl, st, max_scroll, kiosk) == key_action_spec(
            Key::Down,
            ctrl,
            st,
            max_scroll,
            kiosk,
        ),
        key_action_spec(Key::Up, ctrl, st, max_scroll, kiosk) == KeyAction::Show(
            UiState { scroll: if st.scroll > 0 { (st.scroll - 1) as u16 } else { 0 }, ..st },
        ),
        key_action_spec(Key::Char('k'), ctrl, st, max_scroll, kiosk) == key_action_spec(
            Key::Up,
            ctrl,
            st,
            max_scroll,
            kiosk,
        ),
        key_action_spec(Key::PageDown, ctrl, st, max_scroll, kiosk) == KeyAction::Show(
            UiState { scroll: if st.scroll + 10 < max_scroll { (st.scroll + 10) as u16 } else { max_scroll }, ..st },
        ),
        key_action_spec(Key::PageUp, ctrl, st, max_scroll, kiosk) == KeyAction::Show(
            UiState { scroll: if st.scroll > 10 { (st.scroll - 10) as u16 } else { 0 }, ..st },
        ),
        key_action_spec(Key::Home, ctrl, st, max_scroll, kiosk) == KeyAction::Show(
            UiState { scroll: 0, ..st },
        ),
        key_action_spec(Key::End, ctrl, st, max_scroll, kiosk) == KeyAction::Show(
            UiState { scroll: max_scroll, ..st },
        ),
        key_action_spec(Key::Other, ctrl, st, max_scroll, kiosk) == KeyAction::Show(st),
{
}


/// `a` picks a mode: `--once`, `--snapshot` or `--json`.
pub open spec fn is_mode_flag(a: Seq<char>) -> bool {
    a == "--once"@ || a == "--snapshot"@ || a == "--json"@
}

/// `a` asks for help: `-h` or `--help`.
pub open spec fn is_help_flag(a: Seq<char>) -> bool {
    a == "-h"@ || a == "--help"@
}

/// `a` asks for the version: `-V` or `--version`.
pub open spec fn is_version_flag(a: Seq<char>) -> bool {
    a == "-V"@ || a == "--version"@
}

/// `a` lets the run go on: a mode flag or `--kiosk`.
pub open spec fn is_run_flag(a: Seq<char>) -> bool {
    is_mode_flag(a) || a == "--kiosk"@
}

/// The mode a mode flag picks.
pub open spec fn flag_mode(a: Seq<char>) -> Mode {
    if a == "--json"@ {
        Mode::Json
    } else {
        Mode::Once
    }
}

proof fn lemma_flag_literals()
    ensures
        "--once"@ != "--json"@,
        "--snapshot"@ != "--json"@,
        "--kiosk"@ != "--once"@ && "--kiosk"@ != "--snapshot"@ && "--kiosk"@ != "--json"@,
        "-h"@ != "--once"@ && "-h"@ != "--snapshot"@ && "-h"@ != "--json"@ && "-h"@ != "--kiosk"@,
        "--help"@ != "--once"@ && "--help"@ != "--snapshot"@ && "--help"@ != "--json"@ && "--help"@
            != "--kiosk"@,
        "-V"@ != "--once"@ && "-V"@ != "--snapshot"@ && "-V"@ != "--json"@ && "-V"@ != "--kiosk"@
            && "-V"@ != "-h"@ && "-V"@ != "--help"@,
        "--version"@ != "--once"@ && "--version"@ != "--snapshot"@ && "--version"@ != "--json"@
            && "--version"@ != "--kiosk"@ && "--version"@ != "-h"@ && "--version"@ != "--help"@,
{
    reveal_strlit("--once");
    reveal_strlit("--snapshot");
    reveal_strlit("--json");
    reveal_strlit("--kiosk");
    reveal_strlit("-h");
    reveal_strlit("--help");
    reveal_strlit("-V");
    reveal_strlit("--version");
    assert("--once"@[2] != "--json"@[2]);
    assert("--snapshot"@.len() != "--json"@.len());
    assert("--kiosk"@.len() != "--once"@.len());
    assert("--kiosk"@.len() != "--snapshot"@.len());
    assert("--kiosk"@.len() != "--json"@.len());
    assert("-h"@.len() != "--once"@.len());
    assert("-h"@.len() != "--snapshot"@.len());
    assert("-h"@.len() != "--json"@.len());
    assert("-h"@.len() != "--kiosk"@.len());
    assert("--help"@[2] != "--once"@[2]);
    assert("--help"@.len() != "--snapshot"@.len());
    assert("--help"@[2] != "--json"@[2]);
    assert("--help"@.len() != "--kiosk"@.len());
    assert("-V"@.len() != "--once"@.len());
    assert("-V"@.len() != "--snapshot"@.len());
    assert("-V"@.len() != "--json"@.len());
    assert("-V"@.len() != "--kiosk"@.len());
    assert("-V"@[1] != "-h"@[1]);
    assert("-V"@.len() != "--help"@.len());
    assert("--version"@.len() != "--once"@.len());
    assert("--version"@[2] != "--snapshot"@[2]);
    assert("--version"@.len() != "--json"@.len());
    assert("--version"@.len() != "--kiosk"@.len());
    assert("--version"@.len() != "-h"@.len());
    assert("--version"@.len() != "--help"@.len());
}

/// What the command line asks for, read left to right: the run goes on
/// while the arguments are mode flags or `--kiosk`. The first argument that
/// is neither decides: help, the version, or an unknown argument at its
/// position. When every argument is such a flag the dashboard runs, in
/// kiosk mode exactly when `--kiosk` is among them, in the mode of the last
/// mode flag (`--json` for JSON, `--once` or `--snapshot` for one frame),
/// interactive when there is none. (A list of arguments is a `Vec`, so it
/// has at most `usize::MAX` of them.)
pub proof fn lemma_args_outcome(args: Seq<Seq<char>>)
    requires
        args.len() <= usize::MAX,
    ensures
        args_from(args, 0, Mode::Interactive, false) matches ArgsOutcome::Unknown(i) ==> i
            < args.len() && !is_run_flag(args[i as int]) && !is_help_flag(args[i as int])
            && !is_version_flag(args[i as int]) && forall|j: int|
            0 <= j < i ==> is_run_flag(#[trigger] args[j]),
        args_from(args, 0, Mode::Interactive, false) == ArgsOutcome::Help ==> exists|i: int|
            0 <= i < args.len() && is_help_flag(#[trigger] args[i]) && forall|j: int|
                0 <= j < i ==> is_run_flag(#[trigger] args[j]),
        args_from(args, 0, Mode::Interactive, false) == ArgsOutcome::Version ==> exists|i: int|
            0 <= i < args.len() && is_version_flag(#[trigger] args[i]) && forall|j: int|
                0 <= j < i ==> is_run_flag(#[trigger] args[j]),
        args_from(args, 0, Mode::Interactive, false) is Run <==> forall|j: int|
            0 <= j < args.len() ==> is_run_flag(#[trigger] args[j]),
        args_from(args, 0, Mode::Interactive, false) matches ArgsOutcome::Run { mode, kiosk } ==> (
        kiosk <==> exists|j: int| 0 <= j < args.len() && #[trigger] args[j] == "--kiosk"@) && ((
        forall|j: int| 0 <= j < args.len() ==> !is_mode_flag(#[trigger] args[j])) ==> mode
            == Mode::Interactive) && forall|j: int|
            0 <= j < args.len() && is_mode_flag(#[trigger] args[j]) && (forall|l: int|
                j < l < args.len() ==> !is_mode_flag(#[trigger] args[l])) ==> mode == flag_mode(
                args[j],
            ),
{
    lemma_args_from(args, 0, Mode::Interactive, false);
}

proof fn lemma_args_from(args: Seq<Seq<char>>, i: int, mode: Mode, kiosk: bool)
    requires
        0 <= i,
        args.len() <= usize::MAX,
    ensures
        args_from(args, i, mode, kiosk) matches ArgsOutcome::Unknown(u) ==> i <= u < args.len()
            && !is_run_flag(args[u as int]) && !is_help_flag(args[u as int]) && !is_version_flag(
            args[u as int],
        ) && forall|j: int| i <= j < u ==> is_run_flag(#[trigger] args[j]),
        args_from(args, i, mode, kiosk) == ArgsOutcome::Help ==> exists|h: int|
            i <= h < args.len() && is_help_flag(#[trigger] args[h]) && forall|j: int|
                i <= j < h ==> is_run_flag(#[trigger] args[j]),
        args_from(args, i, mode, kiosk) == ArgsOutcome::Version ==> exists|h: int|
            i <= h < args.len() && is_version_flag(#[trigger] args[h]) && forall|j: int|
                i <= j < h ==> is_run_flag(#[trigger] args[j]),
        args_from(args, i, mode, kiosk) is Run <==> forall|j: int|
            i <= j < args.len() ==> is_run_flag(#[trigger] args[j]),
        args_from(args, i, mode, kiosk) matches ArgsOutcome::Run { mode: m, kiosk: k } ==> (k <==> (
        kiosk || exists|j: int| i <= j < args.len() && #[trigger] args[j] == "--kiosk"@)) && ((
        forall|j: int| i <= j < args.len() ==> !is_mode_flag(#[trigger] args[j])) ==> m == mode)
            && forall|j: int|
            i <= j < args.len() && is_mode_flag(#[trigger] args[j]) && (forall|l: int|
                j < l < args.len() ==> !is_mode_flag(#[trigger] args[l])) ==> m == flag_mode(
                args[j],
            ),
    decreases args.len() - i,
{
    lemma_flag_literals();
    if i < args.len() {
        let a = args[i];
        match arg_kind(a) {
            ArgKind::Once => {
                lemma_args_from(args, i + 1, Mode::Once, kiosk);
            },
            ArgKind::Json => {
                lemma_args_from(args, i + 1, Mode::Json, kiosk);
            },
            ArgKind::Kiosk => {
                lemma_args_from(args, i + 1, mode, true);
            },
            ArgKind::Help => {
                assert(is_help_flag(args[i]));
            },
            ArgKind::Version => {
                assert(is_version_flag(args[i]));
            },
            ArgKind::Other => {
                assert((i as usize) as int == i);
                assert(!is_run_flag(args[i]));
            },
        }
    }
}

} // verus!
