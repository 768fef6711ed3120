//! The dialog for changing a process's nice value: choose a process, type
//! the value, press Enter. Each key press moves the dialog on and tells the
//! caller what to do; changing the priority is the caller's work.

use vstd::prelude::*;
use crate::kill_dialog::{Key, ListCursor, moved_up, move_up};
use crate::procinfo::{ProcessInfo, ProcessView, views};
use crate::text::{
    decimal, decimal_string, i32_string, is_digit, owned, parse_i32, parse_signed, push_char,
    push_str, signed_decimal,
};

verus! {

/// Where the dialog is.
#[derive(Clone, Copy, Debug, PartialEq, Eq, Structural)]
pub enum NiceInputState {
    SelectingPid,
    EnteringNice,
}

/// What the caller does after a key.
#[derive(Clone, Copy, Debug, PartialEq, Eq, Structural)]
pub enum NiceEffect {
    Nothing,
    /// Leave the dialog for the process list, forgetting what was typed.
    Leave,
    /// Start typing a value: clear the message.
    StartNice,
    /// Give `pid` the nice value `nice` and report the outcome (`nice_report`).
    SetNice { pid: u32, nice: i32 },
    /// Report that the value is out of range (`nice_range_report`).
    OutOfRange,
}

/// The cursor moved one row down within `len` rows; once the new row is
/// below the `display_limit` rows shown, the view scrolls by one row.
pub open spec fn stepped_down(c: ListCursor, len: nat) -> ListCursor {
    if c.selected + 1 < len {
        let s = (c.selected + 1) as usize;
        ListCursor {
            selected: s,
            scroll: if s >= c.scroll + c.display_limit {
                (c.scroll + 1) as usize
            } else {
                c.scroll
            },
            ..c
        }
    } else {
        c
    }
}

/// The typed text after character `c`: digits are taken, and a minus sign
/// as the first character; anything else is ignored.
pub open spec fn typed(input: Seq<char>, c: char) -> Seq<char> {
    if is_digit(c) || (c == '-' && input.len() == 0) {
        input.push(c)
    } else {
        input
    }
}

/// The next state, typed text, cursor and effect after `key`.
pub open spec fn nice_next(
    state: NiceInputState,
    input: Seq<char>,
    key: Key,
    cur: ListCursor,
    ps: Seq<ProcessView>,
) -> (NiceInputState, Seq<char>, ListCursor, NiceEffect) {
    match state {
        NiceInputState::SelectingPid => match key {
            Key::Up => (state, input, moved_up(cur), NiceEffect::Nothing),
            Key::Down => (state, input, stepped_down(cur, ps.len()), NiceEffect::Nothing),
            Key::Enter => if ps.len() > 0 {
                (NiceInputState::EnteringNice, seq![], cur, NiceEffect::StartNice)
            } else {
                (state, input, cur, NiceEffect::Nothing)
            },
            Key::Esc => (NiceInputState::SelectingPid, seq![], cur, NiceEffect::Leave),
            _ => (state, input, cur, NiceEffect::Nothing),
        },
        NiceInputState::EnteringNice => match key {
            Key::Char(c) => (state, typed(input, c), cur, NiceEffect::Nothing),
            Key::Backspace => (
                state,
                if input.len() > 0 { input.drop_last() } else { input },
                cur,
                NiceEffect::Nothing,
            ),
            Key::Enter => if input.len() > 0 && cur.selected < ps.len() {
                match parse_signed(input, 0x8000_0000, i32::MAX as nat) {
                    Some(n) => if -20 <= n <= 19 {
                        (
                            NiceInputState::SelectingPid,
                            seq![],
                            cur,
                            NiceEffect::SetNice { pid: ps[cur.selected as int].pid, nice: n as i32 },
                        )
                    } else {
                        (NiceInputState::SelectingPid, seq![], cur, NiceEffect::OutOfRange)
                    },
                    None => (state, input, cur, NiceEffect::Nothing),
                }
            } else {
                (state, input, cur, NiceEffect::Nothing)
            },
            Key::Esc => (NiceInputState::SelectingPid, seq![], cur, NiceEffect::Nothing),
            _ => (state, input, cur, NiceEffect::Nothing),
        },
    }
}

fn step_down(c: ListCursor, len: usize) -> (r: ListCursor)
    requires
        c.scroll + c.display_limit <= usize::MAX,
    ensures
        r == stepped_down(c, len as nat),
{
    if len > 0 && c.selected < len - 1 {
        let s = c.selected + 1;
        let bottom = c.scroll + c.display_limit;
        ListCursor { selected: s, scroll: if s >= bottom { c.scroll + 1 } else { c.scroll }, ..c }
    } else {
        c
    }
}

/// Moves the dialog on after `key`: its next state, typed text, cursor and
/// effect are those that `nice_next` gives.
pub fn nice_step(
    state: NiceInputState,
    input: String,
    key: Key,
    cursor: ListCursor,
    processes: &[ProcessInfo],
) -> (res: (NiceInputState, String, ListCursor, NiceEffect))
    requires
        cursor.scroll + cursor.display_limit <= usize::MAX,
    ensures
        (res.0, res.1@, res.2, res.3) == nice_next(state, input@, key, cursor, views(processes@)),
{
    let ghost pv = views(processes@);
    match state {
        NiceInputState::SelectingPid => match key {
            Key::Up => (state, input, move_up(cursor), NiceEffect::Nothing),
            Key::Down => (state, input, step_down(cursor, processes.len()), NiceEffect::Nothing),
            Key::Enter => if processes.len() > 0 {
                (NiceInputState::EnteringNice, String::new(), cursor, NiceEffect::StartNice)
            } else {
                (state, input, cursor, NiceEffect::Nothing)
            },
            Key::Esc => (NiceInputState::SelectingPid, String::new(), cursor, NiceEffect::Leave),
            _ => (state, input, cursor, NiceEffect::Nothing),
        },
        NiceInputState::EnteringNice => match key {
            Key::Char(c) => {
                let mut input = input;
                let empty = crate::text::chars_of(input.as_str()).len() == 0;
                if ('0' <= c && c <= '9') || (c == '-' && empty) {
                    push_char(&mut input, c);
                }
                (state, input, cursor, NiceEffect::Nothing)
            },
            Key::Backspace => {
                let mut input = input;
                let kept = crate::text::chars_of(input.as_str());
                let n = kept.len();
                if n > 0 {
                    input = crate::text::string_of(&kept, 0, n - 1);
                    assert(kept@.subrange(0, n - 1) =~= kept@.drop_last());
                }
                (state, input, cursor, NiceEffect::Nothing)
            },
            Key::Enter => {
                let typed_len = crate::text::chars_of(input.as_str()).len();
                if typed_len > 0 && cursor.selected < processes.len() {
                    match parse_i32(input.as_str()) {
                        Some(n) => if -20 <= n && n <= 19 {
                            let pid = processes[cursor.selected].pid;
                            assert(pv[cursor.selected as int].pid == pid);
                            (
                                NiceInputState::SelectingPid,
                                String::new(),
                                cursor,
                                NiceEffect::SetNice { pid, nice: n },
                            )
                        } else {
                            (NiceInputState::SelectingPid, String::new(), cursor, NiceEffect::OutOfRange)
                        },
                        None => (state, input, cursor, NiceEffect::Nothing),
                    }
                } else {
                    (state, input, cursor, NiceEffect::Nothing)
                }
            },
            Key::Esc => (NiceInputState::SelectingPid, String::new(), cursor, NiceEffect::Nothing),
            _ => (state, input, cursor, NiceEffect::Nothing),
        },
    }
}

/// The report of a nice change: success, or the failure's text.
pub fn nice_report(pid: u32, nice: i32, error: Option<&str>) -> (res: (String, bool))
    ensures
        res.0@ == match error {
            None => "Successfully changed nice value of process "@ + decimal(pid as nat) + " to "@
                + signed_decimal(nice as int),
            Some(e) => "Error changing nice value: "@ + e@,
        },
        res.1 == error is Some,
{
    match error {
        None => {
            let mut m = owned("Successfully changed nice value of process ");
            let p = decimal_string(pid as u64);
            push_str(&mut m, p.as_str());
            push_str(&mut m, " to ");
            let n = i32_string(nice);
            push_str(&mut m, n.as_str());
            (m, false)
        },
        Some(e) => {
            let mut m = owned("Error changing nice value: ");
            push_str(&mut m, e);
            (m, true)
        },
    }
}

/// The report of a value outside -20..=19.
pub fn nice_range_report() -> (res: (String, bool))
    ensures
        res.0@ == "Error: Nice value must be between -20 and 19"@,
        res.1,
{
    (owned("Error: Nice value must be between -20 and 19"), true)
}

/// Whatever the keys, the dialog asks to set only a value within -20..=19,
/// and only for a listed process.
pub proof fn lemma_nice_in_range(
    state: NiceInputState,
    input: Seq<char>,
    key: Key,
    cur: ListCursor,
    ps: Seq<ProcessView>,
)
    ensures
        nice_next(state, input, key, cur, ps).3 matches NiceEffect::SetNice { pid, nice } ==> {
            &&& -20 <= nice <= 19
            &&& exists|i: int| 0 <= i < ps.len() && ps[i].pid == pid
        },
{
    let r = nice_next(state, input, key, cur, ps);
    if r.3 is SetNice {
        assert(ps[cur.selected as int].pid == r.3->pid);
    }
}

} // verus!
