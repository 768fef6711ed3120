//! The dialog for signalling processes: choose a process, choose an action,
//! be warned about its children, confirm. Each key press moves the dialog
//! to its next state and tells the caller what to do; sending signals and
//! showing the outcome are the caller's work.

use vstd::prelude::*;
use crate::process::child_of;
use crate::procinfo::{ProcessInfo, ProcessView, views};
use crate::text::{decimal, decimal_string, owned, push_str, strings_view};

verus! {

/// A key press, as far as the dialog tells keys apart.
#[derive(Clone, Copy, Debug, PartialEq, Eq, Structural)]
pub enum Key {
    Up,
    Down,
    Left,
    Right,
    PageUp,
    PageDown,
    Home,
    End,
    Enter,
    Esc,
    Backspace,
    Tab,
    BackTab,
    Char(char),
    Other,
}

/// A signal the dialog can send.
#[derive(Clone, Copy, Debug, PartialEq, Eq, Structural)]
pub enum SignalKind {
    Kill,
    Stop,
    Continue,
    Terminate,
}

/// The action key `c` chooses: `k`ill, `s`top, `c`ontinue or `t`erminate.
pub open spec fn action_for(c: char) -> Option<SignalKind> {
    if c == 'k' {
        Some(SignalKind::Kill)
    } else if c == 's' {
        Some(SignalKind::Stop)
    } else if c == 'c' {
        Some(SignalKind::Continue)
    } else if c == 't' {
        Some(SignalKind::Terminate)
    } else {
        None
    }
}

/// Where the dialog is.
#[derive(Debug)]
pub enum KillStopState {
    SelectingPid,
    EnteringAction,
    ConfirmingAction { pid: u32, process_name: String, action: SignalKind },
    DependencyWarning {
        pid: u32,
        process_name: String,
        action: SignalKind,
        child_count: usize,
        children: Vec<(u32, String)>,
    },
    ConfirmingBatchAction { pids: Vec<u32>, process_names: Vec<String>, action: SignalKind },
}

/// The model of a dialog state.
pub enum StateView {
    SelectingPid,
    EnteringAction,
    ConfirmingAction { pid: u32, process_name: Seq<char>, action: SignalKind },
    DependencyWarning {
        pid: u32,
        process_name: Seq<char>,
        action: SignalKind,
        child_count: nat,
        children: Seq<(u32, Seq<char>)>,
    },
    ConfirmingBatchAction { pids: Seq<u32>, process_names: Seq<Seq<char>>, action: SignalKind },
}

pub open spec fn pairs_view(v: Seq<(u32, String)>) -> Seq<(u32, Seq<char>)> {
    v.map_values(|e: (u32, String)| (e.0, e.1@))
}


impl View for KillStopState {
    type V = StateView;

    open spec fn view(&self) -> StateView {
        match self {
            KillStopState::SelectingPid => StateView::SelectingPid,
            KillStopState::EnteringAction => StateView::EnteringAction,
            KillStopState::ConfirmingAction { pid, process_name, action } => StateView::ConfirmingAction {
                pid: *pid,
                process_name: process_name@,
                action: *action,
            },
            KillStopState::DependencyWarning { pid, process_name, action, child_count, children } =>
                StateView::DependencyWarning {
                pid: *pid,
                process_name: process_name@,
                action: *action,
                child_count: *child_count as nat,
                children: pairs_view(children@),
            },
            KillStopState::ConfirmingBatchAction { pids, process_names, action } =>
                StateView::ConfirmingBatchAction {
                pids: pids@,
                process_names: strings_view(process_names@),
                action: *action,
            },
        }
    }
}

/// The highlighted row of the process list and the first row shown.
#[derive(Clone, Copy, Debug, PartialEq, Eq, Structural)]
pub struct ListCursor {
    pub selected: usize,
    pub scroll: usize,
    pub display_limit: usize,
}

/// What the caller does after a key.
#[derive(Debug)]
pub enum KillStopEffect {
    Nothing,
    /// Leave the dialog for the process list, forgetting what was typed.
    Leave,
    /// Start choosing an action: clear the typed PID and the message.
    StartAction,
    /// Back to choosing a process: clear the typed PID.
    ClearInput,
    /// Send `action` to `pid` and report the outcome (`signal_report`).
    Signal { pid: u32, action: SignalKind },
    /// Kill `pid` and its children, and report how many (`kill_tree_report`).
    KillTree { pid: u32, child_count: usize },
    /// Terminate each child, then the parent, stopping at the first failure
    /// (`child_failure_report`, `terminate_tree_report`).
    TerminateTree { pid: u32, children: Vec<u32>, child_count: usize },
    /// Send `action` to each of `pids`, count the outcomes (`batch_report`),
    /// and clear the multiple selection.
    Batch { pids: Vec<u32>, action: SignalKind },
}

pub enum EffectView {
    Nothing,
    Leave,
    StartAction,
    ClearInput,
    Signal { pid: u32, action: SignalKind },
    KillTree { pid: u32, child_count: nat },
    TerminateTree { pid: u32, children: Seq<u32>, child_count: nat },
    Batch { pids: Seq<u32>, action: SignalKind },
}

impl View for KillStopEffect {
    type V = EffectView;

    open spec fn view(&self) -> EffectView {
        match self {
            KillStopEffect::Nothing => EffectView::Nothing,
            KillStopEffect::Leave => EffectView::Leave,
            KillStopEffect::StartAction => EffectView::StartAction,
            KillStopEffect::ClearInput => EffectView::ClearInput,
            KillStopEffect::Signal { pid, action } => EffectView::Signal { pid: *pid, action: *action },
            KillStopEffect::KillTree { pid, child_count } => EffectView::KillTree {
                pid: *pid,
                child_count: *child_count as nat,
            },
            KillStopEffect::TerminateTree { pid, children, child_count } => EffectView::TerminateTree {
                pid: *pid,
                children: children@,
                child_count: *child_count as nat,
            },
            KillStopEffect::Batch { pids, action } => EffectView::Batch { pids: pids@, action: *action },
        }
    }
}

/// The position of the first process with PID `pid`.
pub open spec fn first_with_pid(ps: Seq<ProcessView>, pid: u32) -> Option<int>
    decreases ps.len(),
{
    if ps.len() == 0 {
        None
    } else {
        match first_with_pid(ps.drop_last(), pid) {
            Some(i) => Some(i),
            None => if ps.last().pid == pid {
                Some(ps.len() - 1)
            } else {
                None
            },
        }
    }
}

/// The names of the selected processes that are still listed, in the order selected.
pub open spec fn names_of(selected: Seq<u32>, ps: Seq<ProcessView>) -> Seq<Seq<char>>
    decreases selected.len(),
{
    if selected.len() == 0 {
        seq![]
    } else {
        let rest = names_of(selected.drop_last(), ps);
        match first_with_pid(ps, selected.last()) {
            Some(i) => rest.push(ps[i].name),
            None => rest,
        }
    }
}

/// The PIDs and names of the processes whose parent is `parent`, in list order.
pub open spec fn child_pairs(ps: Seq<ProcessView>, parent: u32) -> Seq<(u32, Seq<char>)> {
    ps.filter(child_of(parent)).map_values(|k: ProcessView| (k.pid, k.name))
}

/// The PIDs of `pairs`, in order.
pub open spec fn pair_pids(pairs: Seq<(u32, Seq<char>)>) -> Seq<u32> {
    pairs.map_values(|k: (u32, Seq<char>)| k.0)
}

/// The cursor moved one row up.
pub open spec fn moved_up(c: ListCursor) -> ListCursor {
    if c.selected > 0 {
        let s = (c.selected - 1) as usize;
        ListCursor { selected: s, scroll: if s < c.scroll { s } else { c.scroll }, ..c }
    } else {
        c
    }
}

/// The cursor moved one row down, within `len` rows.
pub open spec fn moved_down(c: ListCursor, len: nat) -> ListCursor {
    if c.selected + 1 < len {
        let s = (c.selected + 1) as usize;
        ListCursor {
            selected: s,
            scroll: if s >= c.scroll + c.display_limit {
                (s - c.display_limit + 1) as usize
            } else {
                c.scroll
            },
            ..c
        }
    } else {
        c
    }
}

/// The next state, cursor and effect of the dialog after `key`, given the
/// listed processes and the processes selected for a batch.
pub open spec fn next(
    state: StateView,
    key: Key,
    cur: ListCursor,
    ps: Seq<ProcessView>,
    selected: Seq<u32>,
) -> (StateView, ListCursor, EffectView) {
    match state {
        StateView::SelectingPid => match key {
            Key::Up => (state, moved_up(cur), EffectView::Nothing),
            Key::Down => (state, moved_down(cur, ps.len()), EffectView::Nothing),
            Key::Enter => if ps.len() > 0 {
                (StateView::EnteringAction, cur, EffectView::StartAction)
            } else {
                (state, cur, EffectView::Nothing)
            },
            Key::Esc => (StateView::SelectingPid, cur, EffectView::Leave),
            _ => (state, cur, EffectView::Nothing),
        },
        StateView::EnteringAction => match key {
            Key::Char(c) => match action_for(c) {
                Some(a) => if selected.len() > 0 {
                    (
                        StateView::ConfirmingBatchAction {
                            pids: selected,
                            process_names: names_of(selected, ps),
                            action: a,
                        },
                        cur,
                        EffectView::Nothing,
                    )
                } else if cur.selected < ps.len() {
                    let p = ps[cur.selected as int];
                    let kids = ps.filter(child_of(p.pid));
                    if kids.len() > 0 && (a == SignalKind::Kill || a == SignalKind::Terminate) {
                        (
                            StateView::DependencyWarning {
                                pid: p.pid,
                                process_name: p.name,
                                action: a,
                                child_count: kids.len(),
                                children: child_pairs(ps, p.pid),
                            },
                            cur,
                            EffectView::Nothing,
                        )
                    } else {
                        (
                            StateView::ConfirmingAction { pid: p.pid, process_name: p.name, action: a },
                            cur,
                            EffectView::Nothing,
                        )
                    }
                } else {
                    (state, cur, EffectView::Nothing)
                },
                None => (state, cur, EffectView::Nothing),
            },
            Key::Esc => (StateView::SelectingPid, cur, EffectView::ClearInput),
            _ => (state, cur, EffectView::Nothing),
        },
        StateView::DependencyWarning { pid, process_name, action, child_count, children } => match key {
            Key::Char(c) => if c == 'p' || c == '1' {
                (StateView::ConfirmingAction { pid, process_name, action }, cur, EffectView::Nothing)
            } else if c == 'a' || c == '2' {
                if action == SignalKind::Kill {
                    (StateView::SelectingPid, cur, EffectView::KillTree { pid, child_count })
                } else {
                    (
                        StateView::SelectingPid,
                        cur,
                        EffectView::TerminateTree {
                            pid,
                            children: pair_pids(children),
                            child_count,
                        },
                    )
                }
            } else if c == 'n' {
                (StateView::EnteringAction, cur, EffectView::Nothing)
            } else {
                (state, cur, EffectView::Nothing)
            },
            Key::Esc => (StateView::EnteringAction, cur, EffectView::Nothing),
            _ => (state, cur, EffectView::Nothing),
        },
        StateView::ConfirmingAction { pid, process_name, action } => match key {
            Key::Char(c) => if c == 'y' {
                (StateView::SelectingPid, cur, EffectView::Signal { pid, action })
            } else if c == 'n' {
                (StateView::EnteringAction, cur, EffectView::Nothing)
            } else {
                (state, cur, EffectView::Nothing)
            },
            Key::Enter => (StateView::SelectingPid, cur, EffectView::Signal { pid, action }),
            Key::Esc => (StateView::EnteringAction, cur, EffectView::Nothing),
            _ => (state, cur, EffectView::Nothing),
        },
        StateView::ConfirmingBatchAction { pids, process_names, action } => match key {
            Key::Char(c) => if c == 'y' {
                (StateView::SelectingPid, cur, EffectView::Batch { pids, action })
            } else if c == 'n' {
                (StateView::EnteringAction, cur, EffectView::Nothing)
            } else {
                (state, cur, EffectView::Nothing)
            },
            Key::Enter => (StateView::SelectingPid, cur, EffectView::Batch { pids, action }),
            Key::Esc => (StateView::EnteringAction, cur, EffectView::Nothing),
            _ => (state, cur, EffectView::Nothing),
        },
    }
}

/// No key signals a process unless the dialog was asking for that very
/// confirmation: a single signal comes only from confirming it (`y` or
/// Enter) and goes to the confirmed process with the confirmed action; a
/// batch only from confirming the batch; a tree kill or termination only from
/// choosing "parent and children" (`a` or `2`) in the children warning.
pub proof fn lemma_signals_need_confirmation(
    state: StateView,
    key: Key,
    cur: ListCursor,
    ps: Seq<ProcessView>,
    selected: Seq<u32>,
)
    ensures
        ({
            let effect = next(state, key, cur, ps, selected).2;
            &&& effect matches EffectView::Signal { pid, action } ==> {
                &&& state matches StateView::ConfirmingAction { pid: p, action: a, .. }
                &&& pid == p && action == a
                &&& (key == Key::Enter || key == Key::Char('y'))
            }
            &&& effect matches EffectView::Batch { pids, action } ==> {
                &&& state matches StateView::ConfirmingBatchAction { pids: p, action: a, .. }
                &&& pids == p && action == a
                &&& (key == Key::Enter || key == Key::Char('y'))
            }
            &&& (effect is KillTree || effect is TerminateTree) ==> {
                &&& state is DependencyWarning
                &&& (key == Key::Char('a') || key == Key::Char('2'))
            }
        }),
{
}

fn action_of(c: char) -> (r: Option<SignalKind>)
    ensures
        r == action_for(c),
{
    if c == 'k' {
        Some(SignalKind::Kill)
    } else if c == 's' {
        Some(SignalKind::Stop)
    } else if c == 'c' {
        Some(SignalKind::Continue)
    } else if c == 't' {
        Some(SignalKind::Terminate)
    } else {
        None
    }
}

pub(crate) fn move_up(c: ListCursor) -> (r: ListCursor)
    ensures
        r == moved_up(c),
{
    if c.selected > 0 {
        let s = c.selected - 1;
        ListCursor { selected: s, scroll: if s < c.scroll { s } else { c.scroll }, ..c }
    } else {
        c
    }
}

pub(crate) fn move_down(c: ListCursor, len: usize) -> (r: ListCursor)
    requires
        c.scroll + c.display_limit <= usize::MAX,
    ensures
        r == moved_down(c, len as nat),
{
    if len > 0 && c.selected < len - 1 {
        let s = c.selected + 1;
        let bottom = c.scroll + c.display_limit;
        ListCursor { selected: s, scroll: if s >= bottom { s - c.display_limit + 1 } else { c.scroll }, ..c }
    } else {
        c
    }
}

fn find_pid(ps: &[ProcessInfo], pid: u32) -> (r: Option<usize>)
    ensures
        r matches Some(i) ==> first_with_pid(views(ps@), pid) == Some(i as int),
        r is None ==> first_with_pid(views(ps@), pid) is None,
{
    let ghost pv = views(ps@);
    let mut i: usize = 0;
    assert(pv.take(0) =~= Seq::<ProcessView>::empty());
    while i < ps.len()
        invariant
            i <= ps.len(),
            pv == views(ps@),
            first_with_pid(pv.take(i as int), pid) is None,
        decreases ps.len() - i,
    {
        assert(pv.take(i + 1).drop_last() =~= pv.take(i as int));
        assert(pv.take(i + 1).last() == ps@[i as int]@);
        if ps[i].pid == pid {
            proof {
                lemma_first_with_pid_prefix(pv, i + 1);
            }
            return Some(i);
        }
        i += 1;
    }
    assert(pv.take(ps.len() as int) =~= pv);
    None
}

proof fn lemma_first_with_pid(pv: Seq<ProcessView>, pid: u32)
    ensures
        first_with_pid(pv, pid) matches Some(i) ==> 0 <= i < pv.len() && pv[i].pid == pid,
    decreases pv.len(),
{
    if pv.len() > 0 {
        lemma_first_with_pid(pv.drop_last(), pid);
    }
}

/// The first process with a PID found in a prefix is the first in the whole list.
proof fn lemma_first_with_pid_prefix(pv: Seq<ProcessView>, n: int)
    requires
        0 <= n <= pv.len(),
    ensures
        forall|pid: u32|
            first_with_pid(pv.take(n), pid) is Some ==> first_with_pid(pv, pid) == first_with_pid(
                pv.take(n),
                pid,
            ),
    decreases pv.len() - n,
{
    if n < pv.len() {
        lemma_first_with_pid_prefix(pv, n + 1);
        assert(pv.take(n + 1).drop_last() =~= pv.take(n));
    } else {
        assert(pv.take(n) =~= pv);
    }
}

fn selected_names(selected: &[u32], ps: &[ProcessInfo]) -> (r: Vec<String>)
    ensures
        strings_view(r@) == names_of(selected@, views(ps@)),
{
    let mut r: Vec<String> = Vec::new();
    let mut k: usize = 0;
    while k < selected.len()
        invariant
            k <= selected.len(),
            strings_view(r@) == names_of(selected@.take(k as int), views(ps@)),
        decreases selected.len() - k,
    {
        assert(selected@.take(k + 1).drop_last() =~= selected@.take(k as int));
        assert(selected@.take(k + 1).last() == selected@[k as int]);
        if let Some(i) = find_pid(ps, selected[k]) {
            proof {
                lemma_first_with_pid(views(ps@), selected@[k as int]);
            }
            let ghost before = r@;
            r.push(ps[i].name.clone());
            assert(strings_view(r@) =~= strings_view(before).push(views(ps@)[i as int].name));
        }
        k += 1;
    }
    assert(selected@.take(selected.len() as int) =~= selected@);
    r
}

fn children_pairs(ps: &[ProcessInfo], parent: u32) -> (r: Vec<(u32, String)>)
    ensures
        pairs_view(r@) == child_pairs(views(ps@), parent),
{
    let ghost pv = views(ps@);
    let mut r: Vec<(u32, String)> = Vec::new();
    let mut i: usize = 0;
    while i < ps.len()
        invariant
            i <= ps.len(),
            pv == views(ps@),
            pairs_view(r@) == pv.take(i as int).filter(child_of(parent)).map_values(
                |k: ProcessView| (k.pid, k.name),
            ),
        decreases ps.len() - i,
    {
        proof {
            assert(pv.take(i + 1).drop_last() =~= pv.take(i as int));
            assert(pv.take(i + 1).last() == pv[i as int]);
            reveal(Seq::filter);
        }
        if ps[i].parent_pid == Some(parent) {
            let ghost before = r@;
            r.push((ps[i].pid, ps[i].name.clone()));
            assert(pv[i as int] == ps@[i as int]@);
            assert(pv.take(i + 1).filter(child_of(parent)) == pv.take(i as int).filter(
                child_of(parent),
            ).push(pv[i as int]));
            assert(pairs_view(r@) =~= pairs_view(before).push((pv[i as int].pid, pv[i as int].name)));
            assert(pairs_view(r@) =~= pv.take(i + 1).filter(child_of(parent)).map_values(
                |k: ProcessView| (k.pid, k.name),
            ));
        } else {
            assert(pairs_view(r@) =~= pv.take(i + 1).filter(child_of(parent)).map_values(
                |k: ProcessView| (k.pid, k.name),
            ));
        }
        i += 1;
    }
    assert(pv.take(ps.len() as int) =~= pv);
    assert(pairs_view(r@) =~= child_pairs(pv, parent));
    r
}

/// Moves the dialog on after `key`: its next state, cursor and effect are
/// those that `next` gives.
pub fn kill_stop_step(
    state: KillStopState,
    key: Key,
    cursor: ListCursor,
    processes: &[ProcessInfo],
    selected: &[u32],
) -> (res: (KillStopState, ListCursor, KillStopEffect))
    requires
        cursor.scroll + cursor.display_limit <= usize::MAX,
    ensures
        (res.0@, res.1, res.2@) == next(state@, key, cursor, views(processes@), selected@),
{
    let ghost sv = state@;
    match state {
        KillStopState::SelectingPid => match key {
            Key::Up => (KillStopState::SelectingPid, move_up(cursor), KillStopEffect::Nothing),
            Key::Down => (
                KillStopState::SelectingPid,
                move_down(cursor, processes.len()),
                KillStopEffect::Nothing,
            ),
            Key::Enter => if processes.len() > 0 {
                (KillStopState::EnteringAction, cursor, KillStopEffect::StartAction)
            } else {
                (KillStopState::SelectingPid, cursor, KillStopEffect::Nothing)
            },
            Key::Esc => (KillStopState::SelectingPid, cursor, KillStopEffect::Leave),
            _ => (KillStopState::SelectingPid, cursor, KillStopEffect::Nothing),
        },
        KillStopState::EnteringAction => match key {
            Key::Char(c) => match action_of(c) {
                Some(a) => if selected.len() > 0 {
                    let names = selected_names(selected, processes);
                    let pids = vstd::slice::slice_to_vec(selected);
                    (
                        KillStopState::ConfirmingBatchAction { pids, process_names: names, action: a },
                        cursor,
                        KillStopEffect::Nothing,
                    )
                } else if cursor.selected < processes.len() {
                    let p = &processes[cursor.selected];
                    let kids = children_pairs(processes, p.pid);
                    proof {
                        let pv = views(processes@);
                        assert(pv[cursor.selected as int] == p@);
                        assert(kids@.len() == pairs_view(kids@).len());
                        assert(child_pairs(pv, p.pid).len() == pv.filter(child_of(p.pid)).len());
                    }
                    if kids.len() > 0 && (a == SignalKind::Kill || a == SignalKind::Terminate) {
                        let n = kids.len();
                        (
                            KillStopState::DependencyWarning {
                                pid: p.pid,
                                process_name: p.name.clone(),
                                action: a,
                                child_count: n,
                                children: kids,
                            },
                            cursor,
                            KillStopEffect::Nothing,
                        )
                    } else {
                        (
                            KillStopState::ConfirmingAction {
                                pid: p.pid,
                                process_name: p.name.clone(),
                                action: a,
                            },
                            cursor,
                            KillStopEffect::Nothing,
                        )
                    }
                } else {
                    (KillStopState::EnteringAction, cursor, KillStopEffect::Nothing)
                },
                None => (KillStopState::EnteringAction, cursor, KillStopEffect::Nothing),
            },
            Key::Esc => (KillStopState::SelectingPid, cursor, KillStopEffect::ClearInput),
            _ => (KillStopState::EnteringAction, cursor, KillStopEffect::Nothing),
        },
        KillStopState::DependencyWarning { pid, process_name, action, child_count, children } => {
            match key {
                Key::Char(c) => if c == 'p' || c == '1' {
                    (
                        KillStopState::ConfirmingAction { pid, process_name, action },
                        cursor,
                        KillStopEffect::Nothing,
                    )
                } else if c == 'a' || c == '2' {
                    if action == SignalKind::Kill {
                        (
                            KillStopState::SelectingPid,
                            cursor,
                            KillStopEffect::KillTree { pid, child_count },
                        )
                    } else {
                        let mut kids: Vec<u32> = Vec::new();
                        let mut i: usize = 0;
                        while i < children.len()
                            invariant
                                i <= children.len(),
                                kids@ == pairs_view(children@).take(i as int).map_values(
                                    |k: (u32, Seq<char>)| k.0,
                                ),
                            decreases children.len() - i,
                        {
                            kids.push(children[i].0);
                            assert(kids@ =~= pairs_view(children@).take(i + 1).map_values(
                                |k: (u32, Seq<char>)| k.0,
                            ));
                            i += 1;
                        }
                        assert(pairs_view(children@).take(children.len() as int) =~= pairs_view(
                            children@,
                        ));
                        assert(kids@ =~= pair_pids(pairs_view(children@)));
                        (
                            KillStopState::SelectingPid,
                            cursor,
                            KillStopEffect::TerminateTree { pid, children: kids, child_count },
                        )
                    }
                } else if c == 'n' {
                    (KillStopState::EnteringAction, cursor, KillStopEffect::Nothing)
                } else {
                    (
                        KillStopState::DependencyWarning {
                            pid,
                            process_name,
                            action,
                            child_count,
                            children,
                        },
                        cursor,
                        KillStopEffect::Nothing,
                    )
                },
                Key::Esc => (KillStopState::EnteringAction, cursor, KillStopEffect::Nothing),
                _ => (
                    KillStopState::DependencyWarning {
                        pid,
                        process_name,
                        action,
                        child_count,
                        children,
                    },
                    cursor,
                    KillStopEffect::Nothing,
                ),
            }
        },
        KillStopState::ConfirmingAction { pid, process_name, action } => match key {
            Key::Char(c) => if c == 'y' {
                (KillStopState::SelectingPid, cursor, KillStopEffect::Signal { pid, action })
            } else if c == 'n' {
                (KillStopState::EnteringAction, cursor, KillStopEffect::Nothing)
            } else {
                (
                    KillStopState::ConfirmingAction { pid, process_name, action },
                    cursor,
                    KillStopEffect::Nothing,
                )
            },
            Key::Enter => (KillStopState::SelectingPid, cursor, KillStopEffect::Signal { pid, action }),
            Key::Esc => (KillStopState::EnteringAction, cursor, KillStopEffect::Nothing),
            _ => (
                KillStopState::ConfirmingAction { pid, process_name, action },
                cursor,
                KillStopEffect::Nothing,
            ),
        },
        KillStopState::ConfirmingBatchAction { pids, process_names, action } => match key {
            Key::Char(c) => if c == 'y' {
                (KillStopState::SelectingPid, cursor, KillStopEffect::Batch { pids, action })
            } else if c == 'n' {
                (KillStopState::EnteringAction, cursor, KillStopEffect::Nothing)
            } else {
                (
                    KillStopState::ConfirmingBatchAction { pids, process_names, action },
                    cursor,
                    KillStopEffect::Nothing,
                )
            },
            Key::Enter => (KillStopState::SelectingPid, cursor, KillStopEffect::Batch { pids, action }),
            Key::Esc => (KillStopState::EnteringAction, cursor, KillStopEffect::Nothing),
            _ => (
                KillStopState::ConfirmingBatchAction { pids, process_names, action },
                cursor,
                KillStopEffect::Nothing,
            ),
        },
    }
}

// ---------------------------------------------------------------------------
// Reports
// ---------------------------------------------------------------------------

/// The report of one signal: `(message, is_error)`. `error` is the text of
/// the failure, if the signal failed.
pub open spec fn signal_report_text(action: SignalKind, pid: u32, error: Option<Seq<char>>) -> Seq<char> {
    let msg = match (action, error) {
        (SignalKind::Kill, None) => "Successfully killed process"@,
        (SignalKind::Kill, Some(e)) => "Error killing process: "@ + e,
        (SignalKind::Stop, None) => "Successfully stopped process"@,
        (SignalKind::Stop, Some(e)) => "Error stopping process: "@ + e,
        (SignalKind::Continue, None) => "Successfully continued process"@,
        (SignalKind::Continue, Some(e)) => "Error continuing process: "@ + e,
        (SignalKind::Terminate, None) => "Successfully sent termination request to process"@,
        (SignalKind::Terminate, Some(e)) => "Error sending termination request: "@ + e,
    };
    msg + " "@ + decimal(pid as nat)
}

pub fn signal_report(action: SignalKind, pid: u32, error: Option<&str>) -> (res: (String, bool))
    ensures
        res.0@ == signal_report_text(
            action,
            pid,
            match error {
                Some(e) => Some(e@),
                None => None,
            },
        ),
        res.1 == error is Some,
{
    let mut m = match (action, error) {
        (SignalKind::Kill, None) => owned("Successfully killed process"),
        (SignalKind::Kill, Some(e)) => {
            let mut m = owned("Error killing process: ");
            push_str(&mut m, e);
            m
        },
        (SignalKind::Stop, None) => owned("Successfully stopped process"),
        (SignalKind::Stop, Some(e)) => {
            let mut m = owned("Error stopping process: ");
            push_str(&mut m, e);
            m
        },
        (SignalKind::Continue, None) => owned("Successfully continued process"),
        (SignalKind::Continue, Some(e)) => {
            let mut m = owned("Error continuing process: ");
            push_str(&mut m, e);
            m
        },
        (SignalKind::Terminate, None) => owned("Successfully sent termination request to process"),
        (SignalKind::Terminate, Some(e)) => {
            let mut m = owned("Error sending termination request: ");
            push_str(&mut m, e);
            m
        },
    };
    push_str(&mut m, " ");
    let d = decimal_string(pid as u64);
    push_str(&mut m, d.as_str());
    (m, error.is_some())
}

/// The name by which reports call an action (`kill`, `stop`, `continue`, `terminate`).
pub open spec fn action_name(a: SignalKind) -> Seq<char> {
    match a {
        SignalKind::Kill => "kill"@,
        SignalKind::Stop => "stop"@,
        SignalKind::Continue => "continue"@,
        SignalKind::Terminate => "terminate"@,
    }
}

/// The report of a batch: `Batch <action>: <n> succeeded, <m> failed`, an
/// error when anything failed.
pub fn batch_report(action: SignalKind, succeeded: u64, failed: u64) -> (res: (String, bool))
    ensures
        res.0@ == "Batch "@ + action_name(action) + ": "@ + decimal(succeeded as nat)
            + " succeeded, "@ + decimal(failed as nat) + " failed"@,
        res.1 == (failed > 0),
{
    let mut m = owned("Batch ");
    match action {
        SignalKind::Kill => push_str(&mut m, "kill"),
        SignalKind::Stop => push_str(&mut m, "stop"),
        SignalKind::Continue => push_str(&mut m, "continue"),
        SignalKind::Terminate => push_str(&mut m, "terminate"),
    }
    push_str(&mut m, ": ");
    let s = decimal_string(succeeded);
    push_str(&mut m, s.as_str());
    push_str(&mut m, " succeeded, ");
    let f = decimal_string(failed);
    push_str(&mut m, f.as_str());
    push_str(&mut m, " failed");
    (m, failed > 0)
}

/// The report of killing a process with its children: how many processes
/// were killed (the parent included), or why it failed.
pub fn kill_tree_report(outcome: Result<usize, &str>, child_count: usize) -> (res: (String, bool))
    ensures
        res.0@ == match outcome {
            Ok(n) => "Successfully killed "@ + decimal(n as nat) + " processes (parent + "@ + decimal(
                child_count as nat,
            ) + " children)"@,
            Err(e) => "Error killing processes: "@ + e@,
        },
        res.1 == outcome is Err,
{
    match outcome {
        Ok(n) => {
            let mut m = owned("Successfully killed ");
            let d = decimal_string(n as u64);
            push_str(&mut m, d.as_str());
            push_str(&mut m, " processes (parent + ");
            let c = decimal_string(child_count as u64);
            push_str(&mut m, c.as_str());
            push_str(&mut m, " children)");
            (m, false)
        },
        Err(e) => {
            let mut m = owned("Error killing processes: ");
            push_str(&mut m, e);
            (m, true)
        },
    }
}

/// The report when terminating the child `child_pid` failed; the parent is
/// then left alone.
pub fn child_failure_report(child_pid: u32, error: &str) -> (res: (String, bool))
    ensures
        res.0@ == "Error terminating child process "@ + decimal(child_pid as nat) + ": "@ + error@,
        res.1,
{
    let mut m = owned("Error terminating child process ");
    let d = decimal_string(child_pid as u64);
    push_str(&mut m, d.as_str());
    push_str(&mut m, ": ");
    push_str(&mut m, error);
    (m, true)
}

/// The report once every child was terminated and the parent's turn came:
/// the parent's failure, or the count of processes terminated (the
/// `terminated_children` and the parent).
pub fn terminate_tree_report(
    terminated_children: usize,
    child_count: usize,
    parent_error: Option<&str>,
) -> (res: (String, bool))
    requires
        terminated_children < usize::MAX,
    ensures
        res.0@ == match parent_error {
            Some(e) => "Error terminating parent process: "@ + e@,
            None => "Successfully terminated "@ + decimal((terminated_children + 1) as nat)
                + " processes (parent + "@ + decimal(child_count as nat) + " children)"@,
        },
        res.1 == parent_error is Some,
{
    match parent_error {
        Some(e) => {
            let mut m = owned("Error terminating parent process: ");
            push_str(&mut m, e);
            (m, true)
        },
        None => {
            let mut m = owned("Successfully terminated ");
            let d = decimal_string((terminated_children + 1) as u64);
            push_str(&mut m, d.as_str());
            push_str(&mut m, " processes (parent + ");
            let c = decimal_string(child_count as u64);
            push_str(&mut m, c.as_str());
            push_str(&mut m, " children)");
            (m, false)
        },
    }
}

} // verus!
