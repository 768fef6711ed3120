//! Keys on the process list and on the screens it opens without a dialog
//! of their own: the filter and sort menu, the sort menu, the filter menu
//! and its input, the advanced filter and rule inputs, the statistics tabs
//! and the help page.
//!
//! `browse_step` takes a key to the next state and tells the caller what to
//! do (sort, filter, open another screen). The other screens have steps of
//! their own (`kill_stop_step`, `nice_step`, `grouped_view_step`, ...).

use vstd::prelude::*;
use crate::kill_dialog::{Key, ListCursor, move_down, move_up, moved_down, moved_up};
use crate::procinfo::{ProcessInfo, ProcessView, copy_opt, opt_view, views};
use crate::text::{backspaced, is_digit, owned, push_char, push_str, str_eq, trim, trimmed};

verus! {

/// The screens of the program.
#[derive(Clone, Copy, Debug, PartialEq, Eq, Structural)]
pub enum Screen {
    ProcessList,
    Statistics,
    FilterSort,
    Sort,
    Filter,
    FilterInput,
    AdvancedFilter,
    RuleInput,
    ChangeNice,
    KillStop,
    PerProcessGraph,
    ProcessLog,
    Help,
    Grouped,
    Scheduler,
    StartProcess,
    Profiles,
    Alerts,
    Checkpoints,
    Hosts,
}

/// The tabs of the statistics page.
#[derive(Clone, Copy, Debug, PartialEq, Eq, Structural)]
pub enum StatsTab {
    Graphs,
    Overview,
    Cpu,
    Memory,
    Disk,
    Processes,
    Advanced,
    Help,
}

/// What the process list and its menus keep between keys.
#[derive(Debug)]
pub struct BrowseState {
    pub screen: Screen,
    pub cursor: ListCursor,
    /// Whether Space and Enter select processes for a batch.
    pub multi_select: bool,
    /// The PIDs selected for a batch, each once.
    pub selected: Vec<u32>,
    pub sort_mode: Option<String>,
    pub sort_ascending: bool,
    pub filter_mode: Option<String>,
    pub filter_input: String,
    pub advanced_input: String,
    pub rule_input: String,
    pub stats_tab: StatsTab,
    pub stats_scroll: usize,
}

/// The model of a `BrowseState`.
pub struct BrowseModel {
    pub screen: Screen,
    pub cursor: ListCursor,
    pub multi_select: bool,
    pub selected: Seq<u32>,
    pub sort_mode: Option<Seq<char>>,
    pub sort_ascending: bool,
    pub filter_mode: Option<Seq<char>>,
    pub filter_input: Seq<char>,
    pub advanced_input: Seq<char>,
    pub rule_input: Seq<char>,
    pub stats_tab: StatsTab,
    pub stats_scroll: usize,
}

impl View for BrowseState {
    type V = BrowseModel;

    open spec fn view(&self) -> BrowseModel {
        BrowseModel {
            screen: self.screen,
            cursor: self.cursor,
            multi_select: self.multi_select,
            selected: self.selected@,
            sort_mode: opt_view(self.sort_mode),
            sort_ascending: self.sort_ascending,
            filter_mode: opt_view(self.filter_mode),
            filter_input: self.filter_input@,
            advanced_input: self.advanced_input@,
            rule_input: self.rule_input@,
            stats_tab: self.stats_tab,
            stats_scroll: self.stats_scroll,
        }
    }
}

/// The rows of the process list shown at once.
pub const DISPLAY_LIMIT: usize = 20;

impl BrowseState {
    /// The process list as the program starts: at the top, sorted by PID
    /// in ascending order, nothing selected, filtered or typed.
    pub fn new() -> (st: BrowseState)
        ensures
            st@ == (BrowseModel {
                screen: Screen::ProcessList,
                cursor: ListCursor { selected: 0, scroll: 0, display_limit: DISPLAY_LIMIT },
                multi_select: false,
                selected: seq![],
                sort_mode: Some("pid"@),
                sort_ascending: true,
                filter_mode: None,
                filter_input: seq![],
                advanced_input: seq![],
                rule_input: seq![],
                stats_tab: StatsTab::Graphs,
                stats_scroll: 0,
            }),
    {
        BrowseState {
            screen: Screen::ProcessList,
            cursor: ListCursor { selected: 0, scroll: 0, display_limit: DISPLAY_LIMIT },
            multi_select: false,
            selected: Vec::new(),
            sort_mode: Some(owned("pid")),
            sort_ascending: true,
            filter_mode: None,
            filter_input: String::new(),
            advanced_input: String::new(),
            rule_input: String::new(),
            stats_tab: StatsTab::Graphs,
            stats_scroll: 0,
        }
    }
}

/// What the caller does after a key.
#[derive(Debug)]
pub enum BrowseEffect {
    Nothing,
    /// Leave the program.
    Quit,
    /// Order the process list by `mode`.
    Sort { mode: String, ascending: bool },
    /// Filter the process list by `mode` and `value`; both `None` lifts the
    /// filter.
    Filter { mode: Option<String>, value: Option<String> },
    /// Set the advanced filter to this text (empty lifts it), then report
    /// the outcome with `advanced_filter_done`.
    AdvancedFilter(String),
    /// Set the scripted rule to this text and apply it.
    Rule(String),
    /// Open `screen` afresh: its list at the top and its inputs empty.
    Open(Screen),
    /// Open the kill/stop dialog, at the choice of a signal when processes
    /// are selected for a batch, else at the choice of a process.
    KillStop { batch: bool },
}

/// The model of a `BrowseEffect`.
pub enum EffectModel {
    Nothing,
    Quit,
    Sort { mode: Seq<char>, ascending: bool },
    Filter { mode: Option<Seq<char>>, value: Option<Seq<char>> },
    AdvancedFilter(Seq<char>),
    Rule(Seq<char>),
    Open(Screen),
    KillStop { batch: bool },
}

impl View for BrowseEffect {
    type V = EffectModel;

    open spec fn view(&self) -> EffectModel {
        match self {
            BrowseEffect::Nothing => EffectModel::Nothing,
            BrowseEffect::Quit => EffectModel::Quit,
            BrowseEffect::Sort { mode, ascending } => EffectModel::Sort {
                mode: mode@,
                ascending: *ascending,
            },
            BrowseEffect::Filter { mode, value } => EffectModel::Filter {
                mode: opt_view(*mode),
                value: opt_view(*value),
            },
            BrowseEffect::AdvancedFilter(t) => EffectModel::AdvancedFilter(t@),
            BrowseEffect::Rule(t) => EffectModel::Rule(t@),
            BrowseEffect::Open(s) => EffectModel::Open(*s),
            BrowseEffect::KillStop { batch } => EffectModel::KillStop { batch: *batch },
        }
    }
}

// ---------------------------------------------------------------------------
// The specification
// ---------------------------------------------------------------------------

/// The PIDs of the listed processes, in order.
pub open spec fn pids_of(ps: Seq<ProcessView>) -> Seq<u32> {
    ps.map_values(|p: ProcessView| p.pid)
}

/// Any PID but `pid`.
pub open spec fn other_than(pid: u32) -> spec_fn(u32) -> bool {
    |x: u32| x != pid
}

/// `set` with `pid` taken out when it is in it, else added at the end.
pub open spec fn toggled(set: Seq<u32>, pid: u32) -> Seq<u32> {
    if set.contains(pid) {
        set.filter(other_than(pid))
    } else {
        set.push(pid)
    }
}

/// The screen that a key of the process list opens afresh.
pub open spec fn opened_by(c: char) -> Option<Screen> {
    if c == 'g' || c == 'G' {
        Some(Screen::Grouped)
    } else if c == 'j' || c == 'J' {
        Some(Screen::Scheduler)
    } else if c == 'n' || c == 'N' {
        Some(Screen::StartProcess)
    } else if c == 'p' || c == 'P' {
        Some(Screen::Profiles)
    } else if c == 'A' {
        Some(Screen::Alerts)
    } else if c == 'c' || c == 'C' {
        Some(Screen::Checkpoints)
    } else if c == 'h' || c == 'H' {
        Some(Screen::Hosts)
    } else {
        None
    }
}

/// The screen that a key of the process list switches to as it was left.
pub open spec fn shown_by(c: char) -> Option<Screen> {
    if c == 's' || c == 'S' {
        Some(Screen::Statistics)
    } else if c == '1' {
        Some(Screen::FilterSort)
    } else if c == '2' {
        Some(Screen::ChangeNice)
    } else if c == '5' {
        Some(Screen::ProcessLog)
    } else if c == '6' {
        Some(Screen::Help)
    } else {
        None
    }
}

/// The sort mode that a key of the sort menu picks.
pub open spec fn sort_mode_for(c: char) -> Option<Seq<char>> {
    if c == '1' {
        Some("pid"@)
    } else if c == '2' {
        Some("mem"@)
    } else if c == '3' {
        Some("ppid"@)
    } else if c == '4' {
        Some("start"@)
    } else if c == '5' {
        Some("nice"@)
    } else if c == '6' {
        Some("cpu"@)
    } else {
        None
    }
}

/// The filter mode that a key of the filter menu picks.
pub open spec fn filter_mode_for(c: char) -> Option<Seq<char>> {
    if c == '1' {
        Some("user"@)
    } else if c == '2' {
        Some("name"@)
    } else if c == '3' {
        Some("pid"@)
    } else if c == '4' {
        Some("ppid"@)
    } else {
        None
    }
}

/// The statistics tab that a key picks.
pub open spec fn tab_for(c: char) -> Option<StatsTab> {
    if c == '1' {
        Some(StatsTab::Graphs)
    } else if c == '2' {
        Some(StatsTab::Overview)
    } else if c == '3' {
        Some(StatsTab::Cpu)
    } else if c == '4' {
        Some(StatsTab::Memory)
    } else if c == '5' {
        Some(StatsTab::Disk)
    } else if c == '6' {
        Some(StatsTab::Processes)
    } else if c == '7' {
        Some(StatsTab::Advanced)
    } else if c == '8' {
        Some(StatsTab::Help)
    } else {
        None
    }
}

/// The sort direction flipped; the list is sorted again when a mode is in
/// force.
pub open spec fn flipped(st: BrowseModel) -> (BrowseModel, EffectModel) {
    (
        BrowseModel { sort_ascending: !st.sort_ascending, ..st },
        match st.sort_mode {
            Some(m) => EffectModel::Sort { mode: m, ascending: !st.sort_ascending },
            None => EffectModel::Nothing,
        },
    )
}

/// Only digits can be typed for a PID or parent PID filter.
pub open spec fn digits_only(mode: Option<Seq<char>>) -> bool {
    mode == Some("pid"@) || mode == Some("ppid"@)
}

/// `input` with the last character taken away, if any.
pub open spec fn erased(input: Seq<char>) -> Seq<char> {
    if input.len() > 0 {
        input.drop_last()
    } else {
        input
    }
}

/// `x` less `d`, down to zero.
pub open spec fn less(x: usize, d: usize) -> usize {
    if x >= d {
        (x - d) as usize
    } else {
        0
    }
}

/// `x` plus `d`, up to `usize::MAX`.
pub open spec fn more(x: usize, d: usize) -> usize {
    if x + d <= usize::MAX {
        (x + d) as usize
    } else {
        usize::MAX
    }
}

/// The next state and effect after `key` on the process list and its
/// menus, given the PIDs of the listed processes.
pub open spec fn browse_next(st: BrowseModel, key: Key, pids: Seq<u32>) -> (BrowseModel, EffectModel) {
    let nothing = EffectModel::Nothing;
    match st.screen {
        Screen::ProcessList => match key {
            Key::Up => (BrowseModel { cursor: moved_up(st.cursor), ..st }, nothing),
            Key::Down => (BrowseModel { cursor: moved_down(st.cursor, pids.len()), ..st }, nothing),
            Key::Enter => if st.multi_select && st.cursor.selected < pids.len() {
                (
                    BrowseModel {
                        selected: toggled(st.selected, pids[st.cursor.selected as int]),
                        ..st
                    },
                    nothing,
                )
            } else {
                (st, nothing)
            },
            Key::Char(c) => if c == 'a' {
                flipped(st)
            } else if c == 'q' {
                (st, EffectModel::Quit)
            } else if shown_by(c) is Some {
                (BrowseModel { screen: shown_by(c)->0, ..st }, nothing)
            } else if c == '3' {
                (
                    BrowseModel { screen: Screen::KillStop, ..st },
                    EffectModel::KillStop { batch: st.selected.len() > 0 },
                )
            } else if c == '4' {
                (
                    BrowseModel {
                        screen: Screen::PerProcessGraph,
                        cursor: ListCursor { selected: 0, ..st.cursor },
                        ..st
                    },
                    EffectModel::Open(Screen::PerProcessGraph),
                )
            } else if opened_by(c) is Some {
                (
                    BrowseModel { screen: opened_by(c)->0, ..st },
                    EffectModel::Open(opened_by(c)->0),
                )
            } else if c == 'm' || c == 'M' {
                (
                    BrowseModel {
                        multi_select: !st.multi_select,
                        selected: if st.multi_select {
                            seq![]
                        } else {
                            st.selected
                        },
                        ..st
                    },
                    nothing,
                )
            } else if c == ' ' && st.multi_select && st.cursor.selected < pids.len() {
                (
                    BrowseModel {
                        selected: toggled(st.selected, pids[st.cursor.selected as int]),
                        ..st
                    },
                    nothing,
                )
            } else {
                (st, nothing)
            },
            _ => (st, nothing),
        },
        Screen::FilterSort => match key {
            Key::Char(c) => if c == '1' {
                (BrowseModel { screen: Screen::Sort, ..st }, nothing)
            } else if c == '2' {
                (BrowseModel { screen: Screen::Filter, ..st }, nothing)
            } else if c == '3' {
                (
                    BrowseModel { screen: Screen::AdvancedFilter, advanced_input: seq![], ..st },
                    nothing,
                )
            } else if c == 'x' {
                (BrowseModel { screen: Screen::RuleInput, rule_input: seq![], ..st }, nothing)
            } else {
                (st, nothing)
            },
            Key::Backspace | Key::Esc => (BrowseModel { screen: Screen::ProcessList, ..st }, nothing),
            _ => (st, nothing),
        },
        Screen::Sort => match key {
            Key::Char(c) => if sort_mode_for(c) is Some {
                (
                    BrowseModel { screen: Screen::ProcessList, sort_mode: sort_mode_for(c), ..st },
                    EffectModel::Sort { mode: sort_mode_for(c)->0, ascending: st.sort_ascending },
                )
            } else if c == 'a' {
                flipped(st)
            } else {
                (st, nothing)
            },
            Key::Backspace | Key::Esc => (BrowseModel { screen: Screen::FilterSort, ..st }, nothing),
            _ => (st, nothing),
        },
        Screen::Filter => match key {
            Key::Char(c) => if filter_mode_for(c) is Some {
                (
                    BrowseModel {
                        screen: Screen::FilterInput,
                        filter_mode: filter_mode_for(c),
                        filter_input: seq![],
                        ..st
                    },
                    nothing,
                )
            } else {
                (st, nothing)
            },
            Key::Esc => (
                BrowseModel {
                    screen: Screen::ProcessList,
                    filter_mode: None,
                    filter_input: seq![],
                    ..st
                },
                EffectModel::Filter { mode: None, value: None },
            ),
            Key::Backspace | Key::Left => (BrowseModel { screen: Screen::FilterSort, ..st }, nothing),
            _ => (st, nothing),
        },
        Screen::FilterInput => match key {
            Key::Char(c) => if digits_only(st.filter_mode) && !is_digit(c) {
                (st, nothing)
            } else {
                (BrowseModel { filter_input: st.filter_input.push(c), ..st }, nothing)
            },
            Key::Backspace => (BrowseModel { filter_input: erased(st.filter_input), ..st }, nothing),
            Key::Enter => if st.filter_input.len() > 0 {
                (
                    BrowseModel { screen: Screen::ProcessList, ..st },
                    EffectModel::Filter { mode: st.filter_mode, value: Some(st.filter_input) },
                )
            } else {
                (st, nothing)
            },
            Key::Left => (BrowseModel { screen: Screen::Filter, filter_input: seq![], ..st }, nothing),
            Key::Esc => (
                BrowseModel {
                    screen: Screen::ProcessList,
                    filter_mode: None,
                    filter_input: seq![],
                    ..st
                },
                EffectModel::Filter { mode: None, value: None },
            ),
            _ => (st, nothing),
        },
        Screen::AdvancedFilter => match key {
            Key::Char(c) => (BrowseModel { advanced_input: st.advanced_input.push(c), ..st }, nothing),
            Key::Backspace => (
                BrowseModel { advanced_input: erased(st.advanced_input), ..st },
                nothing,
            ),
            Key::Enter => (st, EffectModel::AdvancedFilter(trim(st.advanced_input))),
            Key::Esc => (
                BrowseModel { screen: Screen::FilterSort, advanced_input: seq![], ..st },
                nothing,
            ),
            _ => (st, nothing),
        },
        Screen::RuleInput => match key {
            Key::Esc => (BrowseModel { screen: Screen::ProcessList, ..st }, nothing),
            Key::Enter => (
                BrowseModel { screen: Screen::ProcessList, ..st },
                EffectModel::Rule(trim(st.rule_input)),
            ),
            Key::Char(c) => (BrowseModel { rule_input: st.rule_input.push(c), ..st }, nothing),
            Key::Backspace => (BrowseModel { rule_input: erased(st.rule_input), ..st }, nothing),
            _ => (st, nothing),
        },
        Screen::Statistics => match key {
            Key::Esc => (
                BrowseModel {
                    screen: Screen::ProcessList,
                    stats_scroll: 0,
                    stats_tab: StatsTab::Graphs,
                    ..st
                },
                nothing,
            ),
            Key::Char(c) => if c == 'q' || c == 's' || c == 'S' {
                (
                    BrowseModel {
                        screen: Screen::ProcessList,
                        stats_scroll: 0,
                        stats_tab: StatsTab::Graphs,
                        ..st
                    },
                    nothing,
                )
            } else if tab_for(c) is Some {
                (BrowseModel { stats_tab: tab_for(c)->0, stats_scroll: 0, ..st }, nothing)
            } else {
                (st, nothing)
            },
            Key::Up if st.stats_tab == StatsTab::Cpu => (
                BrowseModel { stats_scroll: less(st.stats_scroll, 3), ..st },
                nothing,
            ),
            Key::Down if st.stats_tab == StatsTab::Cpu => (
                BrowseModel { stats_scroll: more(st.stats_scroll, 3), ..st },
                nothing,
            ),
            Key::PageUp if st.stats_tab == StatsTab::Cpu => (
                BrowseModel { stats_scroll: less(st.stats_scroll, 10), ..st },
                nothing,
            ),
            Key::PageDown if st.stats_tab == StatsTab::Cpu => (
                BrowseModel { stats_scroll: more(st.stats_scroll, 10), ..st },
                nothing,
            ),
            Key::Home if st.stats_tab == StatsTab::Cpu => (BrowseModel { stats_scroll: 0, ..st }, nothing),
            Key::End if st.stats_tab == StatsTab::Cpu => (
                BrowseModel { stats_scroll: usize::MAX, ..st },
                nothing,
            ),
            _ => (st, nothing),
        },
        Screen::Help => match key {
            Key::Esc => (BrowseModel { screen: Screen::ProcessList, ..st }, nothing),
            Key::Char(c) => if c == 'q' || c == 'Q' {
                (BrowseModel { screen: Screen::ProcessList, ..st }, nothing)
            } else {
                (st, nothing)
            },
            _ => (st, nothing),
        },
        _ => (st, nothing),
    }
}

/// The state and the message, with whether it tells of an error, once the
/// advanced filter was set to `text`: `error` is what setting it failed
/// with, if it failed. An empty text lifts the filter and goes back to the
/// list; a filter that was set goes back to the list too; one that failed
/// stays to be corrected.
pub open spec fn advanced_filter_after(st: BrowseModel, text: Seq<char>, error: Option<Seq<char>>) -> (
    BrowseModel,
    Seq<char>,
    bool,
) {
    let back = BrowseModel { screen: Screen::ProcessList, ..st };
    if text.len() == 0 {
        match error {
            Some(e) => (back, "Error: "@ + e, true),
            None => (back, "Filter cleared"@, false),
        }
    } else {
        match error {
            Some(e) => (st, "Filter error: "@ + e, true),
            None => (back, "Filter applied: "@ + text, false),
        }
    }
}

proof fn lemma_filter_no_duplicates(s: Seq<u32>, pred: spec_fn(u32) -> bool)
    requires
        s.no_duplicates(),
    ensures
        s.filter(pred).no_duplicates(),
    decreases s.len(),
{
    reveal(Seq::filter);
    if s.len() > 0 {
        let rest = s.drop_last();
        assert(rest.no_duplicates()) by {
            assert forall|i: int, j: int| 0 <= i < rest.len() && 0 <= j < rest.len() && i != j implies rest[i]
                != rest[j] by {
                assert(rest[i] == s[i] && rest[j] == s[j]);
            }
        }
        lemma_filter_no_duplicates(rest, pred);
        if pred(s.last()) {
            let f = rest.filter(pred);
            assert(!f.contains(s.last())) by {
                if f.contains(s.last()) {
                    rest.lemma_filter_contains_rev(pred, s.last());
                    let k = choose|k: int| 0 <= k < rest.len() && rest[k] == s.last();
                    assert(s[k] == s[s.len() - 1]);
                }
            }
            assert forall|i: int, j: int|
                0 <= i < f.len() + 1 && 0 <= j < f.len() + 1 && i != j implies f.push(s.last())[i]
                != f.push(s.last())[j] by {
                if i < f.len() && j < f.len() {
                } else if i == f.len() {
                    assert(f[j] != s.last());
                } else {
                    assert(f[i] != s.last());
                }
            }
        }
    }
}

/// Selecting a process for a batch flips whether it is selected and leaves
/// the others as they were; a selection that holds each PID once still
/// does.
pub proof fn lemma_toggle_flips_membership(set: Seq<u32>, pid: u32)
    requires
        set.no_duplicates(),
    ensures
        toggled(set, pid).no_duplicates(),
        toggled(set, pid).contains(pid) != set.contains(pid),
        forall|x: u32| x != pid ==> (toggled(set, pid).contains(x) <==> set.contains(x)),
{
    if set.contains(pid) {
        let f = set.filter(other_than(pid));
        lemma_filter_no_duplicates(set, other_than(pid));
        assert(!f.contains(pid)) by {
            if f.contains(pid) {
                let k = choose|k: int| 0 <= k < f.len() && f[k] == pid;
                set.lemma_filter_pred(other_than(pid), k);
            }
        }
        assert forall|x: u32| x != pid implies (f.contains(x) <==> set.contains(x)) by {
            if set.contains(x) {
                let k = choose|k: int| 0 <= k < set.len() && set[k] == x;
                set.lemma_filter_contains(other_than(pid), k);
            }
            if f.contains(x) {
                set.lemma_filter_contains_rev(other_than(pid), x);
            }
        }
    } else {
        assert(set.push(pid)[set.len() as int] == pid);
        assert forall|x: u32| x != pid implies (set.push(pid).contains(x) <==> set.contains(x)) by {
            if set.contains(x) {
                let j = choose|j: int| 0 <= j < set.len() && set[j] == x;
                assert(set.push(pid)[j] == x);
            }
            if set.push(pid).contains(x) {
                let j = choose|j: int| 0 <= j < set.len() + 1 && set.push(pid)[j] == x;
                assert(set[j] == x);
            }
        }
        assert forall|i: int, j: int|
            0 <= i < set.len() + 1 && 0 <= j < set.len() + 1 && i != j implies set.push(pid)[i]
            != set.push(pid)[j] by {
            if i < set.len() && j < set.len() {
            } else if i == set.len() {
                assert(set[j] != pid);
            } else {
                assert(set[i] != pid);
            }
        }
    }
}

/// Whatever key is pressed, a selection that holds each PID once still does.
pub proof fn lemma_selection_stays_distinct(st: BrowseModel, key: Key, pids: Seq<u32>)
    requires
        st.selected.no_duplicates(),
    ensures
        browse_next(st, key, pids).0.selected.no_duplicates(),
{
    if st.cursor.selected < pids.len() {
        lemma_toggle_flips_membership(st.selected, pids[st.cursor.selected as int]);
    }
    assert(Seq::<u32>::empty().no_duplicates());
}

/// The highlighted row of the process list stays on screen and in the list:
/// moving up or down keeps it among the `display_limit` rows shown from
/// `scroll`.
pub proof fn lemma_cursor_stays_on_screen(c: ListCursor, len: nat)
    requires
        c.display_limit > 0,
        c.scroll <= c.selected < c.scroll + c.display_limit,
        c.selected < len,
        len <= usize::MAX,
    ensures
        moved_up(c).scroll <= moved_up(c).selected < moved_up(c).scroll + moved_up(c).display_limit,
        moved_up(c).selected < len,
        moved_down(c, len).scroll <= moved_down(c, len).selected < moved_down(c, len).scroll + moved_down(
            c,
            len,
        ).display_limit,
        moved_down(c, len).selected < len,
{
}

// ---------------------------------------------------------------------------
// The step
// ---------------------------------------------------------------------------

fn has_pid(set: &Vec<u32>, pid: u32) -> (res: bool)
    ensures
        res == set@.contains(pid),
{
    let mut i: usize = 0;
    while i < set.len()
        invariant
            i <= set.len(),
            forall|j: int| 0 <= j < i ==> set@[j] != pid,
        decreases set.len() - i,
    {
        if set[i] == pid {
            return true;
        }
        i += 1;
    }
    false
}

/// `set` with `pid` taken out when it is in it, else added at the end.
pub fn toggle_pid(set: Vec<u32>, pid: u32) -> (res: Vec<u32>)
    ensures
        res@ == toggled(set@, pid),
{
    if !has_pid(&set, pid) {
        let mut set = set;
        set.push(pid);
        return set;
    }
    let mut res: Vec<u32> = Vec::new();
    let mut i: usize = 0;
    while i < set.len()
        invariant
            i <= set.len(),
            set@.contains(pid),
            res@ == set@.take(i as int).filter(other_than(pid)),
        decreases set.len() - i,
    {
        proof {
            assert(set@.take(i + 1).drop_last() =~= set@.take(i as int));
            assert(set@.take(i + 1).last() == set@[i as int]);
            reveal(Seq::filter);
        }
        if set[i] != pid {
            res.push(set[i]);
        }
        i += 1;
    }
    assert(set@.take(set.len() as int) =~= set@);
    res
}

fn opened_by_exec(c: char) -> (res: Option<Screen>)
    ensures
        res == opened_by(c),
{
    if c == 'g' || c == 'G' {
        Some(Screen::Grouped)
    } else if c == 'j' || c == 'J' {
        Some(Screen::Scheduler)
    } else if c == 'n' || c == 'N' {
        Some(Screen::StartProcess)
    } else if c == 'p' || c == 'P' {
        Some(Screen::Profiles)
    } else if c == 'A' {
        Some(Screen::Alerts)
    } else if c == 'c' || c == 'C' {
        Some(Screen::Checkpoints)
    } else if c == 'h' || c == 'H' {
        Some(Screen::Hosts)
    } else {
        None
    }
}

fn shown_by_exec(c: char) -> (res: Option<Screen>)
    ensures
        res == shown_by(c),
{
    if c == 's' || c == 'S' {
        Some(Screen::Statistics)
    } else if c == '1' {
        Some(Screen::FilterSort)
    } else if c == '2' {
        Some(Screen::ChangeNice)
    } else if c == '5' {
        Some(Screen::ProcessLog)
    } else if c == '6' {
        Some(Screen::Help)
    } else {
        None
    }
}

fn sort_mode_exec(c: char) -> (res: Option<String>)
    ensures
        opt_view(res) == sort_mode_for(c),
{
    if c == '1' {
        Some(owned("pid"))
    } else if c == '2' {
        Some(owned("mem"))
    } else if c == '3' {
        Some(owned("ppid"))
    } else if c == '4' {
        Some(owned("start"))
    } else if c == '5' {
        Some(owned("nice"))
    } else if c == '6' {
        Some(owned("cpu"))
    } else {
        None
    }
}

fn filter_mode_exec(c: char) -> (res: Option<String>)
    ensures
        opt_view(res) == filter_mode_for(c),
{
    if c == '1' {
        Some(owned("user"))
    } else if c == '2' {
        Some(owned("name"))
    } else if c == '3' {
        Some(owned("pid"))
    } else if c == '4' {
        Some(owned("ppid"))
    } else {
        None
    }
}

fn tab_exec(c: char) -> (res: Option<StatsTab>)
    ensures
        res == tab_for(c),
{
    if c == '1' {
        Some(StatsTab::Graphs)
    } else if c == '2' {
        Some(StatsTab::Overview)
    } else if c == '3' {
        Some(StatsTab::Cpu)
    } else if c == '4' {
        Some(StatsTab::Memory)
    } else if c == '5' {
        Some(StatsTab::Disk)
    } else if c == '6' {
        Some(StatsTab::Processes)
    } else if c == '7' {
        Some(StatsTab::Advanced)
    } else if c == '8' {
        Some(StatsTab::Help)
    } else {
        None
    }
}

fn flip(st: BrowseState) -> (res: (BrowseState, BrowseEffect))
    ensures
        (res.0@, res.1@) == flipped(st@),
{
    let ascending = !st.sort_ascending;
    let effect = match &st.sort_mode {
        Some(m) => BrowseEffect::Sort { mode: owned(m.as_str()), ascending },
        None => BrowseEffect::Nothing,
    };
    (BrowseState { sort_ascending: ascending, ..st }, effect)
}

fn is_digits_only(mode: &Option<String>) -> (res: bool)
    ensures
        res == digits_only(opt_view(*mode)),
{
    match mode {
        Some(m) => str_eq(m.as_str(), "pid") || str_eq(m.as_str(), "ppid"),
        None => false,
    }
}

fn process_list_key(st: BrowseState, key: Key, processes: &[ProcessInfo]) -> (res: (BrowseState, BrowseEffect))
    requires
        st.screen == Screen::ProcessList,
        key == Key::Down && st.cursor.selected + 1 < processes.len() ==> st.cursor.scroll
            + st.cursor.display_limit <= usize::MAX,
    ensures
        (res.0@, res.1@) == browse_next(st@, key, pids_of(views(processes@))),
{
    let ghost pids = pids_of(views(processes@));
    let at_cursor = st.cursor.selected < processes.len();
    match key {
        Key::Up => (BrowseState { cursor: move_up(st.cursor), ..st }, BrowseEffect::Nothing),
        Key::Down => {
            if processes.len() > 0 && st.cursor.selected < processes.len() - 1 {
                (BrowseState { cursor: move_down(st.cursor, processes.len()), ..st }, BrowseEffect::Nothing)
            } else {
                (st, BrowseEffect::Nothing)
            }
        },
        Key::Enter => {
            if st.multi_select && at_cursor {
                let pid = processes[st.cursor.selected].pid;
                assert(pids[st.cursor.selected as int] == pid);
                let selected = toggle_pid(st.selected, pid);
                (BrowseState { selected, ..st }, BrowseEffect::Nothing)
            } else {
                (st, BrowseEffect::Nothing)
            }
        },
        Key::Char(c) => {
            if c == 'a' {
                flip(st)
            } else if c == 'q' {
                (st, BrowseEffect::Quit)
            } else if let Some(screen) = shown_by_exec(c) {
                (BrowseState { screen, ..st }, BrowseEffect::Nothing)
            } else if c == '3' {
                let batch = st.selected.len() > 0;
                (BrowseState { screen: Screen::KillStop, ..st }, BrowseEffect::KillStop { batch })
            } else if c == '4' {
                let cursor = ListCursor { selected: 0, ..st.cursor };
                (
                    BrowseState { screen: Screen::PerProcessGraph, cursor, ..st },
                    BrowseEffect::Open(Screen::PerProcessGraph),
                )
            } else if let Some(screen) = opened_by_exec(c) {
                (BrowseState { screen, ..st }, BrowseEffect::Open(screen))
            } else if c == 'm' || c == 'M' {
                let on = st.multi_select;
                let selected = if on {
                    Vec::new()
                } else {
                    st.selected
                };
                (BrowseState { multi_select: !on, selected, ..st }, BrowseEffect::Nothing)
            } else if c == ' ' && st.multi_select && at_cursor {
                let pid = processes[st.cursor.selected].pid;
                assert(pids[st.cursor.selected as int] == pid);
                let selected = toggle_pid(st.selected, pid);
                (BrowseState { selected, ..st }, BrowseEffect::Nothing)
            } else {
                (st, BrowseEffect::Nothing)
            }
        },
        _ => (st, BrowseEffect::Nothing),
    }
}

fn menu_key(st: BrowseState, key: Key) -> (res: (BrowseState, BrowseEffect))
    requires
        st.screen == Screen::FilterSort || st.screen == Screen::Sort || st.screen == Screen::Filter
            || st.screen == Screen::FilterInput,
    ensures
        (res.0@, res.1@) == browse_next(st@, key, seq![]),
{
    match st.screen {
        Screen::FilterSort => match key {
            Key::Char(c) => {
                if c == '1' {
                    (BrowseState { screen: Screen::Sort, ..st }, BrowseEffect::Nothing)
                } else if c == '2' {
                    (BrowseState { screen: Screen::Filter, ..st }, BrowseEffect::Nothing)
                } else if c == '3' {
                    (
                        BrowseState { screen: Screen::AdvancedFilter, advanced_input: String::new(), ..st },
                        BrowseEffect::Nothing,
                    )
                } else if c == 'x' {
                    (
                        BrowseState { screen: Screen::RuleInput, rule_input: String::new(), ..st },
                        BrowseEffect::Nothing,
                    )
                } else {
                    (st, BrowseEffect::Nothing)
                }
            },
            Key::Backspace | Key::Esc => (
                BrowseState { screen: Screen::ProcessList, ..st },
                BrowseEffect::Nothing,
            ),
            _ => (st, BrowseEffect::Nothing),
        },
        Screen::Sort => match key {
            Key::Char(c) => {
                if let Some(mode) = sort_mode_exec(c) {
                    let effect = BrowseEffect::Sort { mode: owned(mode.as_str()), ascending: st.sort_ascending };
                    (BrowseState { screen: Screen::ProcessList, sort_mode: Some(mode), ..st }, effect)
                } else if c == 'a' {
                    flip(st)
                } else {
                    (st, BrowseEffect::Nothing)
                }
            },
            Key::Backspace | Key::Esc => (
                BrowseState { screen: Screen::FilterSort, ..st },
                BrowseEffect::Nothing,
            ),
            _ => (st, BrowseEffect::Nothing),
        },
        Screen::Filter => match key {
            Key::Char(c) => {
                let mode = filter_mode_exec(c);
                if mode.is_some() {
                    (
                        BrowseState {
                            screen: Screen::FilterInput,
                            filter_mode: mode,
                            filter_input: String::new(),
                            ..st
                        },
                        BrowseEffect::Nothing,
                    )
                } else {
                    (st, BrowseEffect::Nothing)
                }
            },
            Key::Esc => (
                BrowseState {
                    screen: Screen::ProcessList,
                    filter_mode: None,
                    filter_input: String::new(),
                    ..st
                },
                BrowseEffect::Filter { mode: None, value: None },
            ),
            Key::Backspace | Key::Left => (
                BrowseState { screen: Screen::FilterSort, ..st },
                BrowseEffect::Nothing,
            ),
            _ => (st, BrowseEffect::Nothing),
        },
        _ => match key {
            Key::Char(c) => {
                if is_digits_only(&st.filter_mode) && !('0' <= c && c <= '9') {
                    (st, BrowseEffect::Nothing)
                } else {
                    let mut input = st.filter_input;
                    push_char(&mut input, c);
                    (BrowseState { filter_input: input, ..st }, BrowseEffect::Nothing)
                }
            },
            Key::Backspace => {
                let input = backspaced(st.filter_input.as_str());
                (BrowseState { filter_input: input, ..st }, BrowseEffect::Nothing)
            },
            Key::Enter => {
                if crate::text::chars_of(st.filter_input.as_str()).len() > 0 {
                    let effect = BrowseEffect::Filter {
                        mode: copy_opt(&st.filter_mode),
                        value: Some(owned(st.filter_input.as_str())),
                    };
                    (BrowseState { screen: Screen::ProcessList, ..st }, effect)
                } else {
                    (st, BrowseEffect::Nothing)
                }
            },
            Key::Left => (
                BrowseState { screen: Screen::Filter, filter_input: String::new(), ..st },
                BrowseEffect::Nothing,
            ),
            Key::Esc => (
                BrowseState {
                    screen: Screen::ProcessList,
                    filter_mode: None,
                    filter_input: String::new(),
                    ..st
                },
                BrowseEffect::Filter { mode: None, value: None },
            ),
            _ => (st, BrowseEffect::Nothing),
        },
    }
}

fn input_key(st: BrowseState, key: Key) -> (res: (BrowseState, BrowseEffect))
    requires
        st.screen == Screen::AdvancedFilter || st.screen == Screen::RuleInput,
    ensures
        (res.0@, res.1@) == browse_next(st@, key, seq![]),
{
    if st.screen == Screen::AdvancedFilter {
        match key {
            Key::Char(c) => {
                let mut input = st.advanced_input;
                push_char(&mut input, c);
                (BrowseState { advanced_input: input, ..st }, BrowseEffect::Nothing)
            },
            Key::Backspace => {
                let input = backspaced(st.advanced_input.as_str());
                (BrowseState { advanced_input: input, ..st }, BrowseEffect::Nothing)
            },
            Key::Enter => {
                let text = trimmed(st.advanced_input.as_str());
                (st, BrowseEffect::AdvancedFilter(text))
            },
            Key::Esc => (
                BrowseState { screen: Screen::FilterSort, advanced_input: String::new(), ..st },
                BrowseEffect::Nothing,
            ),
            _ => (st, BrowseEffect::Nothing),
        }
    } else {
        match key {
            Key::Esc => (BrowseState { screen: Screen::ProcessList, ..st }, BrowseEffect::Nothing),
            Key::Enter => {
                let text = trimmed(st.rule_input.as_str());
                (BrowseState { screen: Screen::ProcessList, ..st }, BrowseEffect::Rule(text))
            },
            Key::Char(c) => {
                let mut input = st.rule_input;
                push_char(&mut input, c);
                (BrowseState { rule_input: input, ..st }, BrowseEffect::Nothing)
            },
            Key::Backspace => {
                let input = backspaced(st.rule_input.as_str());
                (BrowseState { rule_input: input, ..st }, BrowseEffect::Nothing)
            },
            _ => (st, BrowseEffect::Nothing),
        }
    }
}

fn less_exec(x: usize, d: usize) -> (res: usize)
    ensures
        res == less(x, d),
{
    if x >= d {
        x - d
    } else {
        0
    }
}

fn more_exec(x: usize, d: usize) -> (res: usize)
    ensures
        res == more(x, d),
{
    if x <= usize::MAX - d {
        x + d
    } else {
        usize::MAX
    }
}

fn page_key(st: BrowseState, key: Key) -> (res: (BrowseState, BrowseEffect))
    requires
        st.screen == Screen::Statistics || st.screen == Screen::Help,
    ensures
        (res.0@, res.1@) == browse_next(st@, key, seq![]),
{
    if st.screen == Screen::Help {
        return match key {
            Key::Esc => (BrowseState { screen: Screen::ProcessList, ..st }, BrowseEffect::Nothing),
            Key::Char(c) => {
                if c == 'q' || c == 'Q' {
                    (BrowseState { screen: Screen::ProcessList, ..st }, BrowseEffect::Nothing)
                } else {
                    (st, BrowseEffect::Nothing)
                }
            },
            _ => (st, BrowseEffect::Nothing),
        };
    }
    let cpu = st.stats_tab == StatsTab::Cpu;
    match key {
        Key::Esc => (
            BrowseState { screen: Screen::ProcessList, stats_scroll: 0, stats_tab: StatsTab::Graphs, ..st },
            BrowseEffect::Nothing,
        ),
        Key::Char(c) => {
            if c == 'q' || c == 's' || c == 'S' {
                (
                    BrowseState {
                        screen: Screen::ProcessList,
                        stats_scroll: 0,
                        stats_tab: StatsTab::Graphs,
                        ..st
                    },
                    BrowseEffect::Nothing,
                )
            } else if let Some(tab) = tab_exec(c) {
                (BrowseState { stats_tab: tab, stats_scroll: 0, ..st }, BrowseEffect::Nothing)
            } else {
                (st, BrowseEffect::Nothing)
            }
        },
        Key::Up if cpu => {
            let scroll = less_exec(st.stats_scroll, 3);
            (BrowseState { stats_scroll: scroll, ..st }, BrowseEffect::Nothing)
        },
        Key::Down if cpu => {
            let scroll = more_exec(st.stats_scroll, 3);
            (BrowseState { stats_scroll: scroll, ..st }, BrowseEffect::Nothing)
        },
        Key::PageUp if cpu => {
            let scroll = less_exec(st.stats_scroll, 10);
            (BrowseState { stats_scroll: scroll, ..st }, BrowseEffect::Nothing)
        },
        Key::PageDown if cpu => {
            let scroll = more_exec(st.stats_scroll, 10);
            (BrowseState { stats_scroll: scroll, ..st }, BrowseEffect::Nothing)
        },
        Key::Home if cpu => (BrowseState { stats_scroll: 0, ..st }, BrowseEffect::Nothing),
        Key::End if cpu => (BrowseState { stats_scroll: usize::MAX, ..st }, BrowseEffect::Nothing),
        _ => (st, BrowseEffect::Nothing),
    }
}

/// The next state and effect after `key` (see `browse_next`), given the
/// listed processes. On the screens that have steps of their own nothing
/// changes.
pub fn browse_step(st: BrowseState, key: Key, processes: &[ProcessInfo]) -> (res: (BrowseState, BrowseEffect))
    requires
        st.screen == Screen::ProcessList && key == Key::Down && st.cursor.selected + 1
            < processes.len() ==> st.cursor.scroll + st.cursor.display_limit <= usize::MAX,
    ensures
        (res.0@, res.1@) == browse_next(st@, key, pids_of(views(processes@))),
{
    match st.screen {
        Screen::ProcessList => process_list_key(st, key, processes),
        Screen::FilterSort | Screen::Sort | Screen::Filter | Screen::FilterInput => menu_key(st, key),
        Screen::AdvancedFilter | Screen::RuleInput => input_key(st, key),
        Screen::Statistics | Screen::Help => page_key(st, key),
        _ => (st, BrowseEffect::Nothing),
    }
}

/// The state and message once the advanced filter was set to `text` (see
/// `advanced_filter_after`).
pub fn advanced_filter_done(st: BrowseState, text: &str, error: Option<&str>) -> (res: (BrowseState, String, bool))
    ensures
        (res.0@, res.1@, res.2) == advanced_filter_after(
            st@,
            text@,
            match error {
                Some(e) => Some(e@),
                None => None,
            },
        ),
{
    let empty = crate::text::chars_of(text).len() == 0;
    match error {
        Some(e) => {
            let mut m = if empty {
                owned("Error: ")
            } else {
                owned("Filter error: ")
            };
            push_str(&mut m, e);
            if empty {
                (BrowseState { screen: Screen::ProcessList, ..st }, m, true)
            } else {
                (st, m, true)
            }
        },
        None => {
            if empty {
                (BrowseState { screen: Screen::ProcessList, ..st }, owned("Filter cleared"), false)
            } else {
                let mut m = owned("Filter applied: ");
                push_str(&mut m, text);
                (BrowseState { screen: Screen::ProcessList, ..st }, m, false)
            }
        },
    }
}

} // verus!
