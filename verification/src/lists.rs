//! Keys on the list screens: checkpoints, alerts, profiles, scheduled
//! tasks, hosts, the exit log, the process history and the group detail
//! pages. Each step takes a key to the new position in the list and to what
//! the caller does (create, remove, toggle an entry, leave); the caller
//! does it and moves the selection with `selection_after_removal` where an
//! entry went away.

use vstd::prelude::*;
use crate::kill_dialog::Key;
use crate::text::{backspaced, chars_of, decimal, decimal_string, owned, push_char, push_str, trim, trimmed};

verus! {

// ---------------------------------------------------------------------------
// Moving in a list
// ---------------------------------------------------------------------------

/// The selection moved by Up or Down within `len` entries; other keys leave
/// it.
pub open spec fn stepped(selected: usize, key: Key, len: nat) -> usize {
    match key {
        Key::Up => if selected > 0 {
            (selected - 1) as usize
        } else {
            selected
        },
        Key::Down => if selected + 1 < len {
            (selected + 1) as usize
        } else {
            selected
        },
        _ => selected,
    }
}

fn step_selection(selected: usize, key: Key, len: usize) -> (res: usize)
    ensures
        res == stepped(selected, key, len as nat),
{
    match key {
        Key::Up => if selected > 0 {
            selected - 1
        } else {
            selected
        },
        Key::Down => if len > 0 && selected < len - 1 {
            selected + 1
        } else {
            selected
        },
        _ => selected,
    }
}

/// Where the selection goes once an entry was removed and `len` are left:
/// up one row when it fell off the end.
pub open spec fn after_removal(selected: usize, len: nat) -> usize {
    if selected >= len && selected > 0 {
        (selected - 1) as usize
    } else {
        selected
    }
}

/// Where the selection goes once an entry was removed and `len` are left
/// (see `after_removal`).
pub fn selection_after_removal(selected: usize, len: usize) -> (res: usize)
    ensures
        res == after_removal(selected, len as nat),
{
    if selected >= len && selected > 0 {
        selected - 1
    } else {
        selected
    }
}

/// The largest first row that still fills a page of `height` rows out of
/// `count`.
pub open spec fn max_scroll(count: nat, height: nat) -> nat {
    if count > height {
        (count - height) as nat
    } else {
        0
    }
}

/// The smaller of `a` and `b`.
pub open spec fn min_of(a: int, b: int) -> int {
    if a <= b {
        a
    } else {
        b
    }
}

/// The first row shown after a scrolling key, for `count` rows shown
/// `height` at a time: a row up or down, a page up or down, never past the
/// last full page.
pub open spec fn scrolled(offset: usize, key: Key, count: nat, height: nat) -> usize {
    let top = max_scroll(count, height) as int;
    match key {
        Key::Up => min_of(if offset >= 1 { offset - 1 } else { 0 }, top) as usize,
        Key::Down => min_of(offset + 1, top) as usize,
        Key::PageUp => min_of(if offset >= height { offset - height } else { 0 }, top) as usize,
        Key::PageDown => min_of(offset + height, top) as usize,
        _ => offset,
    }
}

/// The first row shown after a scrolling key (see `scrolled`).
pub fn scroll_page(offset: usize, key: Key, count: usize, height: usize) -> (res: usize)
    ensures
        res == scrolled(offset, key, count as nat, height as nat),
{
    let top = if count > height {
        count - height
    } else {
        0
    };
    match key {
        Key::Up => {
            let o = if offset >= 1 {
                offset - 1
            } else {
                0
            };
            if o <= top {
                o
            } else {
                top
            }
        },
        Key::Down => if offset >= top {
            top
        } else {
            offset + 1
        },
        Key::PageUp => {
            let o = if offset >= height {
                offset - height
            } else {
                0
            };
            if o <= top {
                o
            } else {
                top
            }
        },
        Key::PageDown => if offset >= top || top - offset <= height {
            top
        } else {
            offset + height
        },
        _ => offset,
    }
}

// ---------------------------------------------------------------------------
// Checkpoints
// ---------------------------------------------------------------------------

/// What the caller does after a key on the checkpoint list.
#[derive(Clone, Copy, Debug, PartialEq, Eq, Structural)]
pub enum CheckpointCommand {
    Nothing,
    Leave,
    /// Checkpoint the process under the cursor of the process list.
    Create,
    /// Restore the checkpoint at this row.
    Restore(usize),
    /// Delete the checkpoint at this row.
    Delete(usize),
}

/// The selection and command after `key` on the list of `count`
/// checkpoints; without CRIU only Esc does anything.
pub open spec fn checkpoints_next(available: bool, selected: usize, count: nat, key: Key) -> (
    usize,
    CheckpointCommand,
) {
    if !available {
        (selected, if key == Key::Esc { CheckpointCommand::Leave } else { CheckpointCommand::Nothing })
    } else {
        match key {
            Key::Esc => (selected, CheckpointCommand::Leave),
            Key::Up | Key::Down => (stepped(selected, key, count), CheckpointCommand::Nothing),
            Key::Char(c) => if c == '+' {
                (selected, CheckpointCommand::Create)
            } else if c == '-' && selected < count {
                (selected, CheckpointCommand::Delete(selected))
            } else {
                (selected, CheckpointCommand::Nothing)
            },
            Key::Enter => if selected < count {
                (selected, CheckpointCommand::Restore(selected))
            } else {
                (selected, CheckpointCommand::Nothing)
            },
            _ => (selected, CheckpointCommand::Nothing),
        }
    }
}

/// The selection and command after `key` on the checkpoint list (see
/// `checkpoints_next`).
pub fn checkpoints_step(available: bool, selected: usize, count: usize, key: Key) -> (res: (
    usize,
    CheckpointCommand,
))
    ensures
        res == checkpoints_next(available, selected, count as nat, key),
{
    if !available {
        return (selected, if key == Key::Esc { CheckpointCommand::Leave } else { CheckpointCommand::Nothing });
    }
    match key {
        Key::Esc => (selected, CheckpointCommand::Leave),
        Key::Up | Key::Down => (step_selection(selected, key, count), CheckpointCommand::Nothing),
        Key::Char(c) => if c == '+' {
            (selected, CheckpointCommand::Create)
        } else if c == '-' && selected < count {
            (selected, CheckpointCommand::Delete(selected))
        } else {
            (selected, CheckpointCommand::Nothing)
        },
        Key::Enter => if selected < count {
            (selected, CheckpointCommand::Restore(selected))
        } else {
            (selected, CheckpointCommand::Nothing)
        },
        _ => (selected, CheckpointCommand::Nothing),
    }
}

/// The message after checkpointing the process `pid` (`None` when no
/// process was under the cursor): the new checkpoint's ID, or the error.
pub open spec fn created_message(pid: Option<u32>, outcome: Result<Seq<char>, Seq<char>>) -> (Seq<char>, bool) {
    match pid {
        None => ("No process selected. Please select a process first."@, true),
        Some(p) => match outcome {
            Ok(id) => ("Checkpoint created: "@ + id + " for PID "@ + decimal(p as nat), false),
            Err(e) => ("Failed to create checkpoint: "@ + e, true),
        },
    }
}

/// The message after restoring checkpoint `id`: the new PID, or the error.
pub open spec fn restored_message(id: Seq<char>, outcome: Result<u32, Seq<char>>) -> (Seq<char>, bool) {
    match outcome {
        Ok(pid) => ("Process restored from checkpoint: "@ + id + " (PID: "@ + decimal(pid as nat) + ")"@, false),
        Err(e) => ("Failed to restore checkpoint: "@ + e, true),
    }
}

/// The message after deleting checkpoint `id`.
pub open spec fn deleted_message(id: Seq<char>, error: Option<Seq<char>>) -> (Seq<char>, bool) {
    match error {
        None => ("Checkpoint deleted: "@ + id, false),
        Some(e) => ("Failed to delete checkpoint: "@ + e, true),
    }
}

/// The message after checkpointing a process (see `created_message`).
pub fn created_report(pid: Option<u32>, outcome: Result<&str, &str>) -> (res: (String, bool))
    ensures
        (res.0@, res.1) == created_message(
            pid,
            match outcome {
                Ok(id) => Ok(id@),
                Err(e) => Err(e@),
            },
        ),
{
    match pid {
        None => (owned("No process selected. Please select a process first."), true),
        Some(p) => match outcome {
            Ok(id) => {
                let mut m = owned("Checkpoint created: ");
                push_str(&mut m, id);
                push_str(&mut m, " for PID ");
                let d = decimal_string(p as u64);
                push_str(&mut m, d.as_str());
                (m, false)
            },
            Err(e) => {
                let mut m = owned("Failed to create checkpoint: ");
                push_str(&mut m, e);
                (m, true)
            },
        },
    }
}

/// The message after restoring a checkpoint (see `restored_message`).
pub fn restored_report(id: &str, outcome: Result<u32, &str>) -> (res: (String, bool))
    ensures
        (res.0@, res.1) == restored_message(
            id@,
            match outcome {
                Ok(p) => Ok(p),
                Err(e) => Err(e@),
            },
        ),
{
    match outcome {
        Ok(pid) => {
            let mut m = owned("Process restored from checkpoint: ");
            push_str(&mut m, id);
            push_str(&mut m, " (PID: ");
            let d = decimal_string(pid as u64);
            push_str(&mut m, d.as_str());
            push_str(&mut m, ")");
            (m, false)
        },
        Err(e) => {
            let mut m = owned("Failed to restore checkpoint: ");
            push_str(&mut m, e);
            (m, true)
        },
    }
}

/// The message after deleting a checkpoint (see `deleted_message`).
pub fn deleted_report(id: &str, error: Option<&str>) -> (res: (String, bool))
    ensures
        (res.0@, res.1) == deleted_message(
            id@,
            match error {
                Some(e) => Some(e@),
                None => None,
            },
        ),
{
    match error {
        None => {
            let mut m = owned("Checkpoint deleted: ");
            push_str(&mut m, id);
            (m, false)
        },
        Some(e) => {
            let mut m = owned("Failed to delete checkpoint: ");
            push_str(&mut m, e);
            (m, true)
        },
    }
}

// ---------------------------------------------------------------------------
// Alerts
// ---------------------------------------------------------------------------

/// What the caller does after a key on the alert list.
#[derive(Clone, Copy, Debug, PartialEq, Eq, Structural)]
pub enum AlertCommand {
    Nothing,
    Leave,
    /// Add the preset alert of this kind (`preset_alert`) at the end.
    Add(char),
    /// Enable or disable the alert at this row.
    Toggle(usize),
    /// Edit the alert at this row.
    Edit(usize),
    /// Remove the alert at this row.
    Remove(usize),
    /// Dismiss every raised alert.
    ClearActive,
}

/// The selection and command after `key` on the list of `count` alerts. A
/// new alert is selected; after a removal the selection stays in the list.
pub open spec fn alerts_next(selected: usize, count: usize, key: Key) -> (usize, AlertCommand) {
    match key {
        Key::Esc => (selected, AlertCommand::Leave),
        Key::Up | Key::Down => (stepped(selected, key, count as nat), AlertCommand::Nothing),
        Key::Enter => (selected, AlertCommand::Toggle(selected)),
        Key::Char(c) => if c == 'c' || c == 'm' || c == 'd' {
            (count, AlertCommand::Add(c))
        } else if c == 'e' && selected < count {
            (selected, AlertCommand::Edit(selected))
        } else if c == '-' {
            (
                after_removal(selected, if selected < count { (count - 1) as nat } else { count as nat }),
                AlertCommand::Remove(selected),
            )
        } else if c == 'C' {
            (selected, AlertCommand::ClearActive)
        } else {
            (selected, AlertCommand::Nothing)
        },
        _ => (selected, AlertCommand::Nothing),
    }
}

/// The selection and command after `key` on the alert list (see
/// `alerts_next`).
pub fn alerts_step(selected: usize, count: usize, key: Key) -> (res: (usize, AlertCommand))
    ensures
        res == alerts_next(selected, count, key),
{
    match key {
        Key::Esc => (selected, AlertCommand::Leave),
        Key::Up | Key::Down => (step_selection(selected, key, count), AlertCommand::Nothing),
        Key::Enter => (selected, AlertCommand::Toggle(selected)),
        Key::Char(c) => if c == 'c' || c == 'm' || c == 'd' {
            (count, AlertCommand::Add(c))
        } else if c == 'e' && selected < count {
            (selected, AlertCommand::Edit(selected))
        } else if c == '-' {
            let left = if selected < count {
                count - 1
            } else {
                count
            };
            (selection_after_removal(selected, left), AlertCommand::Remove(selected))
        } else if c == 'C' {
            (selected, AlertCommand::ClearActive)
        } else {
            (selected, AlertCommand::Nothing)
        },
        _ => (selected, AlertCommand::Nothing),
    }
}

// ---------------------------------------------------------------------------
// Profiles
// ---------------------------------------------------------------------------

/// What the caller does after a key on the profile list.
#[derive(Clone, Copy, Debug, PartialEq, Eq, Structural)]
pub enum ProfileCommand {
    Nothing,
    Leave,
    /// Add a new profile named `Profile <n>`, `n` the new number of
    /// profiles.
    Add,
    /// Make the profile at this row the active one, or no profile active
    /// when it already is (see `active_after`).
    Toggle(usize),
    /// Remove the profile at this row.
    Remove(usize),
    /// Edit the profile at this row.
    Edit(usize),
}

/// The selection and command after `key` on the list of `count` profiles.
pub open spec fn profiles_next(selected: usize, count: usize, key: Key) -> (usize, ProfileCommand) {
    match key {
        Key::Esc => (selected, ProfileCommand::Leave),
        Key::Up | Key::Down => (stepped(selected, key, count as nat), ProfileCommand::Nothing),
        Key::Enter => if selected < count {
            (selected, ProfileCommand::Toggle(selected))
        } else {
            (selected, ProfileCommand::Nothing)
        },
        Key::Char(c) => if c == '+' {
            (count, ProfileCommand::Add)
        } else if c == '-' && selected < count {
            (after_removal(selected, (count - 1) as nat), ProfileCommand::Remove(selected))
        } else if (c == 'e' || c == 'E') && selected < count {
            (selected, ProfileCommand::Edit(selected))
        } else {
            (selected, ProfileCommand::Nothing)
        },
        _ => (selected, ProfileCommand::Nothing),
    }
}

/// The selection and command after `key` on the profile list (see
/// `profiles_next`).
pub fn profiles_step(selected: usize, count: usize, key: Key) -> (res: (usize, ProfileCommand))
    ensures
        res == profiles_next(selected, count, key),
{
    match key {
        Key::Esc => (selected, ProfileCommand::Leave),
        Key::Up | Key::Down => (step_selection(selected, key, count), ProfileCommand::Nothing),
        Key::Enter => if selected < count {
            (selected, ProfileCommand::Toggle(selected))
        } else {
            (selected, ProfileCommand::Nothing)
        },
        Key::Char(c) => if c == '+' {
            (count, ProfileCommand::Add)
        } else if c == '-' && selected < count {
            (selection_after_removal(selected, count - 1), ProfileCommand::Remove(selected))
        } else if (c == 'e' || c == 'E') && selected < count {
            (selected, ProfileCommand::Edit(selected))
        } else {
            (selected, ProfileCommand::Nothing)
        },
        _ => (selected, ProfileCommand::Nothing),
    }
}

/// The active profile once profile `name` was toggled: none when it was the
/// active one, else `name`.
pub open spec fn active_after(active: Option<Seq<char>>, name: Seq<char>) -> Option<Seq<char>> {
    if active == Some(name) {
        None
    } else {
        Some(name)
    }
}

/// The active profile once profile `name` was toggled (see `active_after`).
/// When it becomes active the caller applies its nice adjustments.
pub fn toggled_active(active: Option<&str>, name: &str) -> (res: Option<String>)
    ensures
        (match res {
            Some(n) => Some(n@),
            None => None,
        }) == active_after(
            match active {
                Some(a) => Some(a@),
                None => None,
            },
            name@,
        ),
{
    match active {
        Some(a) => if crate::text::str_eq(a, name) {
            None
        } else {
            Some(owned(name))
        },
        None => Some(owned(name)),
    }
}

/// The name of the profile that `+` adds to `count` profiles.
pub open spec fn new_profile_name(count: nat) -> Seq<char> {
    "Profile "@ + decimal(count + 1)
}

/// The name of the profile that `+` adds to `count` profiles
/// (`Profile <count + 1>`).
pub fn new_profile_name_for(count: usize) -> (res: String)
    requires
        count < u64::MAX,
    ensures
        res@ == new_profile_name(count as nat),
{
    let mut m = owned("Profile ");
    let d = decimal_string(count as u64 + 1);
    push_str(&mut m, d.as_str());
    m
}

// ---------------------------------------------------------------------------
// Scheduled tasks
// ---------------------------------------------------------------------------

/// The rows of the task list shown at once.
pub const TASK_ROWS: usize = 10;

/// What the caller does after a key on the task list.
#[derive(Clone, Copy, Debug, PartialEq, Eq, Structural)]
pub enum TaskCommand {
    Nothing,
    /// Back to the process list, the list at its top.
    Leave,
    /// Enable or disable the task at this row.
    Toggle(usize),
    /// Open the task editor with its fields empty.
    New,
    /// Remove the task at this row.
    Remove(usize),
    /// Save the tasks.
    Save,
}

/// The selection, first row shown and command after `key` on the list of
/// `count` tasks.
pub open spec fn tasks_next(selected: usize, scroll: usize, count: usize, key: Key) -> (usize, usize, TaskCommand) {
    match key {
        Key::Esc => (0, 0, TaskCommand::Leave),
        Key::Up => if selected > 0 {
            let s = (selected - 1) as usize;
            (s, if s < scroll { s } else { scroll }, TaskCommand::Nothing)
        } else {
            (selected, scroll, TaskCommand::Nothing)
        },
        Key::Down => if selected + 1 < count {
            let s = (selected + 1) as usize;
            (s, if s >= scroll + TASK_ROWS { (s - TASK_ROWS + 1) as usize } else { scroll }, TaskCommand::Nothing)
        } else {
            (selected, scroll, TaskCommand::Nothing)
        },
        Key::Enter => (selected, scroll, TaskCommand::Toggle(selected)),
        Key::Char(c) => if c == 'a' || c == 'A' || c == '+' || c == '=' {
            (selected, scroll, TaskCommand::New)
        } else if c == '-' && selected < count {
            (after_removal(selected, (count - 1) as nat), scroll, TaskCommand::Remove(selected))
        } else if c == 's' || c == 'S' {
            (selected, scroll, TaskCommand::Save)
        } else {
            (selected, scroll, TaskCommand::Nothing)
        },
        _ => (selected, scroll, TaskCommand::Nothing),
    }
}

/// The selection, first row shown and command after `key` on the task list
/// (see `tasks_next`).
pub fn tasks_step(selected: usize, scroll: usize, count: usize, key: Key) -> (res: (usize, usize, TaskCommand))
    requires
        key == Key::Down && selected + 1 < count ==> scroll + TASK_ROWS <= usize::MAX,
    ensures
        res == tasks_next(selected, scroll, count, key),
{
    match key {
        Key::Esc => (0, 0, TaskCommand::Leave),
        Key::Up => if selected > 0 {
            let s = selected - 1;
            (s, if s < scroll { s } else { scroll }, TaskCommand::Nothing)
        } else {
            (selected, scroll, TaskCommand::Nothing)
        },
        Key::Down => if count > 0 && selected < count - 1 {
            let s = selected + 1;
            (s, if s >= scroll + TASK_ROWS { s - TASK_ROWS + 1 } else { scroll }, TaskCommand::Nothing)
        } else {
            (selected, scroll, TaskCommand::Nothing)
        },
        Key::Enter => (selected, scroll, TaskCommand::Toggle(selected)),
        Key::Char(c) => if c == 'a' || c == 'A' || c == '+' || c == '=' {
            (selected, scroll, TaskCommand::New)
        } else if c == '-' && selected < count {
            (selection_after_removal(selected, count - 1), scroll, TaskCommand::Remove(selected))
        } else if c == 's' || c == 'S' {
            (selected, scroll, TaskCommand::Save)
        } else {
            (selected, scroll, TaskCommand::Nothing)
        },
        _ => (selected, scroll, TaskCommand::Nothing),
    }
}

// ---------------------------------------------------------------------------
// Hosts
// ---------------------------------------------------------------------------

/// What the caller does after a key on the host list.
#[derive(Debug)]
pub enum HostCommand {
    Nothing,
    Leave,
    /// Add the host at this address, named by its address.
    Add(String),
    /// Remove the host at this row.
    Remove(usize),
    /// Show the processes of every host in the process list, or stop, and
    /// go back to it.
    ToggleMultiHost,
}

/// The model of a `HostCommand`.
pub enum HostCommandView {
    Nothing,
    Leave,
    Add(Seq<char>),
    Remove(usize),
    ToggleMultiHost,
}

impl View for HostCommand {
    type V = HostCommandView;

    open spec fn view(&self) -> HostCommandView {
        match self {
            HostCommand::Nothing => HostCommandView::Nothing,
            HostCommand::Leave => HostCommandView::Leave,
            HostCommand::Add(a) => HostCommandView::Add(a@),
            HostCommand::Remove(i) => HostCommandView::Remove(*i),
            HostCommand::ToggleMultiHost => HostCommandView::ToggleMultiHost,
        }
    }
}

/// The selection, typed address and command after `key` on the list of
/// `count` hosts. While an address is being typed every character goes
/// into it; on an empty input `-` removes the selected host, `t` toggles
/// multi-host mode, `+` starts an address, and other characters start one.
pub open spec fn hosts_next(selected: usize, input: Seq<char>, count: usize, key: Key) -> (
    usize,
    Seq<char>,
    HostCommandView,
) {
    match key {
        Key::Esc => (selected, seq![], HostCommandView::Leave),
        Key::Up | Key::Down => (stepped(selected, key, count as nat), input, HostCommandView::Nothing),
        Key::Enter => if trim(input).len() > 0 {
            (selected, seq![], HostCommandView::Add(trim(input)))
        } else {
            (selected, input, HostCommandView::Nothing)
        },
        Key::Char(c) => if input.len() > 0 {
            (selected, input.push(c), HostCommandView::Nothing)
        } else if c == '-' {
            if selected < count {
                (after_removal(selected, (count - 1) as nat), input, HostCommandView::Remove(selected))
            } else {
                (selected, input, HostCommandView::Nothing)
            }
        } else if c == 't' || c == 'T' {
            (selected, input, HostCommandView::ToggleMultiHost)
        } else if c == '+' {
            (selected, seq![], HostCommandView::Nothing)
        } else {
            (selected, input.push(c), HostCommandView::Nothing)
        },
        Key::Backspace => (
            selected,
            if input.len() > 0 {
                input.drop_last()
            } else {
                input
            },
            HostCommandView::Nothing,
        ),
        _ => (selected, input, HostCommandView::Nothing),
    }
}

/// The selection, typed address and command after `key` on the host list
/// (see `hosts_next`).
pub fn hosts_step(selected: usize, input: String, count: usize, key: Key) -> (res: (usize, String, HostCommand))
    ensures
        (res.0, res.1@, res.2@) == hosts_next(selected, input@, count, key),
{
    match key {
        Key::Esc => (selected, String::new(), HostCommand::Leave),
        Key::Up | Key::Down => (step_selection(selected, key, count), input, HostCommand::Nothing),
        Key::Enter => {
            let address = trimmed(input.as_str());
            if chars_of(address.as_str()).len() > 0 {
                (selected, String::new(), HostCommand::Add(address))
            } else {
                (selected, input, HostCommand::Nothing)
            }
        },
        Key::Char(c) => {
            if chars_of(input.as_str()).len() > 0 {
                let mut input = input;
                push_char(&mut input, c);
                (selected, input, HostCommand::Nothing)
            } else if c == '-' {
                if selected < count {
                    (selection_after_removal(selected, count - 1), input, HostCommand::Remove(selected))
                } else {
                    (selected, input, HostCommand::Nothing)
                }
            } else if c == 't' || c == 'T' {
                (selected, input, HostCommand::ToggleMultiHost)
            } else if c == '+' {
                (selected, String::new(), HostCommand::Nothing)
            } else {
                let mut input = input;
                push_char(&mut input, c);
                (selected, input, HostCommand::Nothing)
            }
        },
        Key::Backspace => (selected, backspaced(input.as_str()), HostCommand::Nothing),
        _ => (selected, input, HostCommand::Nothing),
    }
}

/// The message once the host at `address` was added.
pub fn host_added_report(address: &str) -> (res: String)
    ensures
        res@ == "Host added: "@ + address@ + ". Connection will be tested on refresh."@,
{
    let mut m = owned("Host added: ");
    push_str(&mut m, address);
    push_str(&mut m, ". Connection will be tested on refresh.");
    m
}

/// The message once multi-host mode was turned on or off.
pub fn multi_host_report(on: bool) -> (res: String)
    ensures
        res@ == "Multi-host mode: "@ + (if on {
            "ON"@
        } else {
            "OFF"@
        }),
{
    let mut m = owned("Multi-host mode: ");
    push_str(&mut m, if on { "ON" } else { "OFF" });
    m
}

// ---------------------------------------------------------------------------
// The exit log
// ---------------------------------------------------------------------------

/// The rows of the exit log shown at once.
pub const LOG_ROWS: usize = 10;

/// How the exit log groups its entries.
#[derive(Clone, Copy, Debug, PartialEq, Eq, Structural)]
pub enum LogGroup {
    /// Not grouped.
    Flat,
    Name,
    Ppid,
    User,
}

/// What the exit log keeps between keys.
#[derive(Debug)]
pub struct LogState {
    /// Whether keys go into the search text.
    pub searching: bool,
    pub search: String,
    pub group: LogGroup,
    /// The first entry shown.
    pub scroll: usize,
}

/// The model of a `LogState`.
pub struct LogModel {
    pub searching: bool,
    pub search: Seq<char>,
    pub group: LogGroup,
    pub scroll: usize,
}

impl View for LogState {
    type V = LogModel;

    open spec fn view(&self) -> LogModel {
        LogModel { searching: self.searching, search: self.search@, group: self.group, scroll: self.scroll }
    }
}

/// The grouping after `g`.
pub open spec fn next_group(g: LogGroup) -> LogGroup {
    match g {
        LogGroup::Flat => LogGroup::Name,
        LogGroup::Name => LogGroup::Ppid,
        LogGroup::Ppid => LogGroup::User,
        LogGroup::User => LogGroup::Flat,
    }
}

/// The state after `key` on the exit log, which shows `count` entries
/// (those the search finds), and whether to leave it. While searching, keys
/// edit the search text; Enter keeps it and Esc drops it.
pub open spec fn log_next(st: LogModel, key: Key, count: nat) -> (LogModel, bool) {
    if st.searching {
        match key {
            Key::Esc => (LogModel { searching: false, search: seq![], scroll: 0, ..st }, false),
            Key::Enter => (LogModel { searching: false, scroll: 0, ..st }, false),
            Key::Backspace => (
                LogModel {
                    search: if st.search.len() > 0 {
                        st.search.drop_last()
                    } else {
                        st.search
                    },
                    scroll: 0,
                    ..st
                },
                false,
            ),
            Key::Char(c) => (LogModel { search: st.search.push(c), scroll: 0, ..st }, false),
            _ => (st, false),
        }
    } else {
        match key {
            Key::Char(c) => if c == 'g' {
                (LogModel { group: next_group(st.group), scroll: 0, ..st }, false)
            } else if c == 'u' {
                (LogModel { group: LogGroup::Flat, scroll: 0, ..st }, false)
            } else if c == '/' {
                (LogModel { searching: true, search: seq![], scroll: 0, ..st }, false)
            } else if c == 'q' {
                (LogModel { searching: false, search: seq![], scroll: 0, ..st }, true)
            } else {
                (st, false)
            },
            Key::Esc => (LogModel { searching: false, search: seq![], scroll: 0, ..st }, true),
            Key::Up | Key::Down | Key::PageUp | Key::PageDown => (
                LogModel { scroll: scrolled(st.scroll, key, count, LOG_ROWS as nat), ..st },
                false,
            ),
            _ => (st, false),
        }
    }
}

impl LogState {
    /// The exit log as first opened: every entry, ungrouped, at the top.
    pub fn new() -> (st: LogState)
        ensures
            st@ == (LogModel { searching: false, search: seq![], group: LogGroup::Flat, scroll: 0 }),
    {
        LogState { searching: false, search: String::new(), group: LogGroup::Flat, scroll: 0 }
    }
}

/// The state after `key` on the exit log and whether to leave it (see
/// `log_next`).
pub fn log_step(st: LogState, key: Key, count: usize) -> (res: (LogState, bool))
    ensures
        (res.0@, res.1) == log_next(st@, key, count as nat),
{
    if st.searching {
        match key {
            Key::Esc => (LogState { searching: false, search: String::new(), scroll: 0, ..st }, false),
            Key::Enter => (LogState { searching: false, scroll: 0, ..st }, false),
            Key::Backspace => {
                let search = backspaced(st.search.as_str());
                (LogState { search, scroll: 0, ..st }, false)
            },
            Key::Char(c) => {
                let mut search = st.search;
                push_char(&mut search, c);
                (LogState { search, scroll: 0, ..st }, false)
            },
            _ => (st, false),
        }
    } else {
        match key {
            Key::Char(c) => if c == 'g' {
                let group = match st.group {
                    LogGroup::Flat => LogGroup::Name,
                    LogGroup::Name => LogGroup::Ppid,
                    LogGroup::Ppid => LogGroup::User,
                    LogGroup::User => LogGroup::Flat,
                };
                (LogState { group, scroll: 0, ..st }, false)
            } else if c == 'u' {
                (LogState { group: LogGroup::Flat, scroll: 0, ..st }, false)
            } else if c == '/' {
                (LogState { searching: true, search: String::new(), scroll: 0, ..st }, false)
            } else if c == 'q' {
                (LogState { searching: false, search: String::new(), scroll: 0, ..st }, true)
            } else {
                (st, false)
            },
            Key::Esc => (LogState { searching: false, search: String::new(), scroll: 0, ..st }, true),
            Key::Up | Key::Down | Key::PageUp | Key::PageDown => {
                let scroll = scroll_page(st.scroll, key, count, LOG_ROWS);
                (LogState { scroll, ..st }, false)
            },
            _ => (st, false),
        }
    }
}

// ---------------------------------------------------------------------------
// The process history
// ---------------------------------------------------------------------------

/// The rows of the process table of the history screen shown at once.
pub const GRAPH_ROWS: usize = 10;

/// What the history screen keeps between keys: the row under the cursor
/// (that of the process list), the first row shown, and the process whose
/// history is shown, if one was picked.
#[derive(Clone, Copy, Debug, PartialEq, Eq, Structural)]
pub struct GraphState {
    pub selected: usize,
    pub scroll: usize,
    pub focus: Option<u32>,
}

/// What the caller does after a key on the history screen.
#[derive(Clone, Copy, Debug, PartialEq, Eq, Structural)]
pub enum GraphCommand {
    Nothing,
    /// Back to the process list.
    Leave,
    /// Leave the program.
    Quit,
}

/// The first position of `pid` in `pids`.
pub open spec fn pid_index(pids: Seq<u32>, pid: u32) -> Option<int>
    decreases pids.len(),
{
    if pids.len() == 0 {
        None
    } else if pids[0] == pid {
        Some(0)
    } else {
        match pid_index(pids.drop_first(), pid) {
            Some(i) => Some(i + 1),
            None => None,
        }
    }
}

/// The state and command after `key` on the history screen, given the PIDs
/// of the listed processes. Left and Right step to the neighbouring
/// process; Up and Down first let go of the shown process, then move the
/// cursor; Enter shows the process under the cursor; `q` leaves the
/// program.
pub open spec fn graph_next(st: GraphState, key: Key, pids: Seq<u32>) -> (GraphState, GraphCommand) {
    let nothing = GraphCommand::Nothing;
    match key {
        Key::Char(c) => if c == 'q' {
            (GraphState { focus: None, ..st }, GraphCommand::Quit)
        } else {
            (st, nothing)
        },
        Key::Left => match st.focus {
            Some(pid) => match pid_index(pids, pid) {
                Some(i) => if i > 0 {
                    (GraphState { focus: Some(pids[i - 1]), ..st }, nothing)
                } else {
                    (st, nothing)
                },
                None => (st, nothing),
            },
            None => (st, nothing),
        },
        Key::Right => match st.focus {
            Some(pid) => match pid_index(pids, pid) {
                Some(i) => if i + 1 < pids.len() {
                    (GraphState { focus: Some(pids[i + 1]), ..st }, nothing)
                } else {
                    (st, nothing)
                },
                None => (st, nothing),
            },
            None => (st, nothing),
        },
        Key::Up => if st.focus is Some {
            (GraphState { focus: None, ..st }, nothing)
        } else if st.selected > 0 {
            let s = (st.selected - 1) as usize;
            (GraphState { selected: s, scroll: if s < st.scroll { s } else { st.scroll }, ..st }, nothing)
        } else {
            (st, nothing)
        },
        Key::Down => if st.focus is Some {
            (GraphState { focus: None, ..st }, nothing)
        } else if st.selected + 1 < pids.len() {
            let s = (st.selected + 1) as usize;
            (
                GraphState {
                    selected: s,
                    scroll: if s >= st.scroll + GRAPH_ROWS {
                        (s - (GRAPH_ROWS - 1)) as usize
                    } else {
                        st.scroll
                    },
                    ..st
                },
                nothing,
            )
        } else {
            (st, nothing)
        },
        Key::Enter => if st.focus is None && st.selected < pids.len() {
            (GraphState { focus: Some(pids[st.selected as int]), ..st }, nothing)
        } else {
            (st, nothing)
        },
        Key::Esc => if st.focus is Some {
            (GraphState { focus: None, ..st }, nothing)
        } else {
            (st, GraphCommand::Leave)
        },
        _ => (st, nothing),
    }
}

fn index_of_pid(pids: &Vec<u32>, pid: u32) -> (res: Option<usize>)
    ensures
        match res {
            Some(i) => i < pids.len() && pid_index(pids@, pid) == Some(i as int),
            None => pid_index(pids@, pid) is None,
        },
{
    let mut i: usize = 0;
    assert(pids@.skip(0) =~= pids@);
    while i < pids.len()
        invariant
            i <= pids.len(),
            pid_index(pids@, pid) == (match pid_index(pids@.skip(i as int), pid) {
                Some(k) => Some(k + i),
                None => None,
            }),
        decreases pids.len() - i,
    {
        assert(pids@.skip(i as int).drop_first() =~= pids@.skip(i + 1));
        if pids[i] == pid {
            return Some(i);
        }
        i += 1;
    }
    None
}

/// The state and command after `key` on the history screen (see
/// `graph_next`).
pub fn graph_step(st: GraphState, key: Key, pids: &Vec<u32>) -> (res: (GraphState, GraphCommand))
    requires
        key == Key::Down && st.focus is None && st.selected + 1 < pids.len() ==> st.scroll + GRAPH_ROWS
            <= usize::MAX,
    ensures
        res == graph_next(st, key, pids@),
{
    proof {
        assert(pids@.skip(0) =~= pids@);
    }
    match key {
        Key::Char(c) => if c == 'q' {
            (GraphState { focus: None, ..st }, GraphCommand::Quit)
        } else {
            (st, GraphCommand::Nothing)
        },
        Key::Left => match st.focus {
            Some(pid) => match index_of_pid(pids, pid) {
                Some(i) => if i > 0 {
                    (GraphState { focus: Some(pids[i - 1]), ..st }, GraphCommand::Nothing)
                } else {
                    (st, GraphCommand::Nothing)
                },
                None => (st, GraphCommand::Nothing),
            },
            None => (st, GraphCommand::Nothing),
        },
        Key::Right => match st.focus {
            Some(pid) => match index_of_pid(pids, pid) {
                Some(i) => if i + 1 < pids.len() {
                    (GraphState { focus: Some(pids[i + 1]), ..st }, GraphCommand::Nothing)
                } else {
                    (st, GraphCommand::Nothing)
                },
                None => (st, GraphCommand::Nothing),
            },
            None => (st, GraphCommand::Nothing),
        },
        Key::Up => if st.focus.is_some() {
            (GraphState { focus: None, ..st }, GraphCommand::Nothing)
        } else if st.selected > 0 {
            let s = st.selected - 1;
            (GraphState { selected: s, scroll: if s < st.scroll { s } else { st.scroll }, ..st }, GraphCommand::Nothing)
        } else {
            (st, GraphCommand::Nothing)
        },
        Key::Down => if st.focus.is_some() {
            (GraphState { focus: None, ..st }, GraphCommand::Nothing)
        } else if pids.len() > 0 && st.selected < pids.len() - 1 {
            let s = st.selected + 1;
            let scroll = if s >= st.scroll + GRAPH_ROWS {
                s - (GRAPH_ROWS - 1)
            } else {
                st.scroll
            };
            (GraphState { selected: s, scroll, ..st }, GraphCommand::Nothing)
        } else {
            (st, GraphCommand::Nothing)
        },
        Key::Enter => if st.focus.is_none() && st.selected < pids.len() {
            (GraphState { focus: Some(pids[st.selected]), ..st }, GraphCommand::Nothing)
        } else {
            (st, GraphCommand::Nothing)
        },
        Key::Esc => if st.focus.is_some() {
            (GraphState { focus: None, ..st }, GraphCommand::Nothing)
        } else {
            (st, GraphCommand::Leave)
        },
        _ => (st, GraphCommand::Nothing),
    }
}

// ---------------------------------------------------------------------------
// Laws
// ---------------------------------------------------------------------------

/// After an entry is removed from a list, the selection still points at an
/// entry when one is left.
pub proof fn lemma_removal_keeps_selection_in_list(selected: usize, len: nat)
    requires
        selected <= len,
    ensures
        len > 0 ==> after_removal(selected, len) < len,
        after_removal(selected, len) <= selected,
{
}

/// Scrolling never goes past the last full page.
pub proof fn lemma_scroll_stays_on_the_last_page(offset: usize, key: Key, count: nat, height: nat)
    requires
        offset <= max_scroll(count, height),
        max_scroll(count, height) <= usize::MAX,
    ensures
        scrolled(offset, key, count, height) <= max_scroll(count, height),
{
}

/// Moving through a list of `len` entries keeps the selection in it.
pub proof fn lemma_step_stays_in_list(selected: usize, key: Key, len: nat)
    requires
        selected < len,
    ensures
        stepped(selected, key, len) < len,
{
}

} // verus!
