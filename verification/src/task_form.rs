//! The editor for a new scheduled task: five text fields (name, schedule
//! type, schedule value, action type, action value), moved between with Tab
//! and Shift-Tab, and checked when Enter is pressed.

use vstd::prelude::*;
use crate::filter::{lowercase, to_lowercase};
use crate::kill_dialog::Key;
use crate::text::strings_view;
use crate::scheduler::{
    MAX_CLOCK_SECS, Moment, ScheduleAction, ScheduleReading, ScheduleType, ScheduledTask, Scheduler,
    saved_form,
};
use crate::text::{
    chars_of, number_or_zero, owned, parse_u64_range, parse_unsigned, push_char, push_str, split_bounds, split_on,
    str_eq, string_of, trim, trim_bounds, trimmed, word_bounds, words,
};

verus! {

/// The five fields of the editor and the one being typed into
/// (0 name, 1 schedule type, 2 schedule value, 3 action type, 4 action value).
#[derive(Debug)]
pub struct TaskForm {
    pub name: String,
    pub schedule_type: String,
    pub schedule_value: String,
    pub action_type: String,
    pub action_value: String,
    pub field: usize,
}

/// The model of the editor's fields.
pub struct FormView {
    pub name: Seq<char>,
    pub schedule_type: Seq<char>,
    pub schedule_value: Seq<char>,
    pub action_type: Seq<char>,
    pub action_value: Seq<char>,
    pub field: usize,
}

impl View for TaskForm {
    type V = FormView;

    open spec fn view(&self) -> FormView {
        FormView {
            name: self.name@,
            schedule_type: self.schedule_type@,
            schedule_value: self.schedule_value@,
            action_type: self.action_type@,
            action_value: self.action_value@,
            field: self.field,
        }
    }
}

impl TaskForm {
    /// An empty form, typing into the name.
    pub fn new() -> (f: Self)
        ensures
            f@ == empty_form(0),
    {
        TaskForm {
            name: String::new(),
            schedule_type: String::new(),
            schedule_value: String::new(),
            action_type: String::new(),
            action_value: String::new(),
            field: 0,
        }
    }
}

/// A form whose fields are all empty, typing into `field`.
pub open spec fn empty_form(field: usize) -> FormView {
    FormView {
        name: seq![],
        schedule_type: seq![],
        schedule_value: seq![],
        action_type: seq![],
        action_value: seq![],
        field,
    }
}

/// The text of field `i` (empty for a field that does not exist).
pub open spec fn field_text(f: FormView, i: usize) -> Seq<char> {
    if i == 0 {
        f.name
    } else if i == 1 {
        f.schedule_type
    } else if i == 2 {
        f.schedule_value
    } else if i == 3 {
        f.action_type
    } else if i == 4 {
        f.action_value
    } else {
        seq![]
    }
}

/// `f` with field `i` set to `t` (unchanged for a field that does not exist).
pub open spec fn with_field(f: FormView, i: usize, t: Seq<char>) -> FormView {
    if i == 0 {
        FormView { name: t, ..f }
    } else if i == 1 {
        FormView { schedule_type: t, ..f }
    } else if i == 2 {
        FormView { schedule_value: t, ..f }
    } else if i == 3 {
        FormView { action_type: t, ..f }
    } else if i == 4 {
        FormView { action_value: t, ..f }
    } else {
        f
    }
}

/// What a task does, as the editor reads it.
pub enum ActionForm {
    Restart { pattern: Seq<char> },
    Start { program: Seq<char>, args: Seq<Seq<char>> },
    Cleanup { cpu_threshold_bits: u32, memory_threshold: nat, duration_seconds: nat, action: Seq<char> },
    Rule { rule: Seq<char> },
}

/// The model of an action the editor can make.
pub open spec fn action_form(a: ScheduleAction) -> Option<ActionForm> {
    match a {
        ScheduleAction::RestartProcess { pattern } => Some(ActionForm::Restart { pattern: pattern@ }),
        ScheduleAction::StartProcess { program, args } => Some(
            ActionForm::Start { program: program@, args: strings_view(args@) },
        ),
        ScheduleAction::CleanupIdle { cpu_threshold_bits, memory_threshold, duration_seconds, action } =>
            Some(
            ActionForm::Cleanup {
                cpu_threshold_bits,
                memory_threshold: memory_threshold as nat,
                duration_seconds: duration_seconds as nat,
                action: action@,
            },
        ),
        ScheduleAction::ApplyRule { rule } => Some(ActionForm::Rule { rule: rule@ }),
        _ => None,
    }
}

/// The schedule that the type and value fields describe, or the message
/// that says what is wrong with them. A one-off time beyond what the clock
/// holds reads as `Overflow`.
pub open spec fn form_schedule(kind: Seq<char>, value: Seq<char>) -> Result<ScheduleReading, Seq<char>> {
    let k = lowercase(trim(kind));
    let v = trim(value);
    if k == "cron"@ {
        if v.len() == 0 {
            Err("Cron expression is required"@)
        } else {
            Ok(ScheduleReading::Cron(v))
        }
    } else if k == "interval"@ {
        match parse_unsigned(v, u64::MAX as nat) {
            Some(n) => Ok(ScheduleReading::Interval(n)),
            None => Err("Invalid interval value (must be a number)"@),
        }
    } else if k == "once"@ {
        match parse_unsigned(v, u64::MAX as nat) {
            Some(n) => if n <= MAX_CLOCK_SECS {
                Ok(ScheduleReading::Once(n))
            } else {
                Ok(ScheduleReading::Overflow)
            },
            None => Err("Invalid timestamp value (must be a number)"@),
        }
    } else {
        Err("Invalid schedule type (must be 'cron', 'interval', or 'once')"@)
    }
}

/// The comma-separated parts of a cleanup value, each trimmed.
pub open spec fn cleanup_parts(value: Seq<char>) -> Seq<Seq<char>> {
    trim_each(split_on(value, ','))
}

/// Each of `parts`, trimmed.
pub open spec fn trim_each(parts: Seq<Seq<char>>) -> Seq<Seq<char>> {
    parts.map_values(|p: Seq<char>| trim(p))
}

/// The action that the type and value fields describe, or the message that
/// says what is wrong with them. A cleanup's CPU threshold is the float
/// whose bit pattern is `cpu_threshold_bits` (the caller reads it from the
/// first part of the value).
pub open spec fn form_action(kind: Seq<char>, value: Seq<char>, cpu_threshold_bits: u32) -> Result<
    ActionForm,
    Seq<char>,
> {
    let k = lowercase(trim(kind));
    let t = trim(value);
    if k == "restart"@ {
        if t.len() == 0 {
            Err("Process pattern is required for restart action"@)
        } else {
            Ok(ActionForm::Restart { pattern: t })
        }
    } else if k == "start"@ {
        if t.len() == 0 {
            Err("Program name/path is required for start action"@)
        } else {
            let w = words(value);
            Ok(ActionForm::Start { program: w[0], args: w.skip(1) })
        }
    } else if k == "cleanup"@ {
        let p = cleanup_parts(value);
        if p.len() != 4 {
            Err("Cleanup requires: cpu_threshold,memory_threshold,duration_seconds,action"@)
        } else {
            Ok(
                ActionForm::Cleanup {
                    cpu_threshold_bits,
                    memory_threshold: number_or_zero(p[1]),
                    duration_seconds: number_or_zero(p[2]),
                    action: p[3],
                },
            )
        }
    } else if k == "rule"@ {
        if t.len() == 0 {
            Err("Rule expression is required"@)
        } else {
            Ok(ActionForm::Rule { rule: t })
        }
    } else {
        Err("Invalid action type (must be 'restart', 'start', 'cleanup', or 'rule')"@)
    }
}

/// What pressing Enter on a form gives.
pub enum FormCheck {
    /// A task with this name, schedule and action.
    Valid { name: Seq<char>, schedule: ScheduleReading, action: ActionForm },
    /// The message that says what is wrong.
    Invalid(Seq<char>),
    /// A one-off time beyond what the clock holds.
    Overflow,
}

/// The fields are checked in order: the name, then the schedule, then the
/// action; the first fault found is reported.
pub open spec fn check_form(f: FormView, cpu_threshold_bits: u32) -> FormCheck {
    if trim(f.name).len() == 0 {
        FormCheck::Invalid("Task name is required"@)
    } else {
        match form_schedule(f.schedule_type, f.schedule_value) {
            Err(m) => FormCheck::Invalid(m),
            Ok(ScheduleReading::Overflow) => FormCheck::Overflow,
            Ok(s) => match form_action(f.action_type, f.action_value, cpu_threshold_bits) {
                Err(m) => FormCheck::Invalid(m),
                Ok(a) => FormCheck::Valid { name: trim(f.name), schedule: s, action: a },
            },
        }
    }
}

/// What the caller does after a key.
#[derive(Debug)]
pub enum EditorEffect {
    Nothing,
    /// Back to the scheduler view.
    Leave,
    /// Show this error and stay in the editor.
    Invalid(String),
    /// The task was added: show this message and go back to the scheduler view.
    Created(String),
}

pub enum EditorEffectView {
    Nothing,
    Leave,
    Invalid(Seq<char>),
    Created(Seq<char>),
}

impl View for EditorEffect {
    type V = EditorEffectView;

    open spec fn view(&self) -> EditorEffectView {
        match self {
            EditorEffect::Nothing => EditorEffectView::Nothing,
            EditorEffect::Leave => EditorEffectView::Leave,
            EditorEffect::Invalid(m) => EditorEffectView::Invalid(m@),
            EditorEffect::Created(m) => EditorEffectView::Created(m@),
        }
    }
}

/// The form and effect after `key`; on a valid Enter the task is added to
/// the scheduler as well (see `task_editor_step`).
pub open spec fn editor_next(f: FormView, key: Key, cpu_threshold_bits: u32) -> (FormView, EditorEffectView) {
    match key {
        Key::Tab => (FormView { field: ((f.field + 1) % 5) as usize, ..f }, EditorEffectView::Nothing),
        Key::BackTab => (
            FormView { field: if f.field == 0 { 4 } else { (f.field - 1) as usize }, ..f },
            EditorEffectView::Nothing,
        ),
        Key::Char(c) => (
            with_field(f, f.field, field_text(f, f.field).push(c)),
            EditorEffectView::Nothing,
        ),
        Key::Backspace => {
            let t = field_text(f, f.field);
            (
                with_field(f, f.field, if t.len() > 0 { t.drop_last() } else { t }),
                EditorEffectView::Nothing,
            )
        },
        Key::Enter => match check_form(f, cpu_threshold_bits) {
            FormCheck::Valid { name, .. } => (
                empty_form(f.field),
                EditorEffectView::Created("Task '"@ + name + "' created successfully"@),
            ),
            FormCheck::Invalid(m) => (f, EditorEffectView::Invalid(m)),
            FormCheck::Overflow => (f, EditorEffectView::Nothing),
        },
        Key::Esc => (empty_form(f.field), EditorEffectView::Leave),
        _ => (f, EditorEffectView::Nothing),
    }
}

/// The task `t` is the one a valid check describes: enabled, never run.
pub open spec fn is_task_of(t: ScheduledTask, check: FormCheck) -> bool {
    match check {
        FormCheck::Valid { name, schedule, action } => {
            &&& t.name@ == name
            &&& saved_form(t.schedule) == schedule
            &&& (t.schedule matches ScheduleType::Once(m) ==> m.total() == m.whole_secs()
                * 1_000_000_000)
            &&& action_form(t.action) == Some(action)
            &&& t.enabled
            &&& t.last_run is None
            &&& t.next_run is None
        },
        _ => false,
    }
}

// ---------------------------------------------------------------------------
// Reading the fields
// ---------------------------------------------------------------------------

/// The lower-cased, trimmed kind field.
fn kind_of(s: &str) -> (res: String)
    ensures
        res@ == lowercase(trim(s@)),
{
    let t = trimmed(s);
    to_lowercase(t.as_str())
}

/// What `str::parse::<u64>` gives for `s`.
fn parse_u64(s: &str) -> (res: Option<u64>)
    ensures
        res == (match parse_unsigned(s@, u64::MAX as nat) {
            Some(n) => Some(n as u64),
            None => None::<u64>,
        }),
{
    let v = chars_of(s);
    assert(v@.subrange(0, v.len() as int) =~= s@);
    parse_u64_range(&v, 0, v.len())
}

fn read_schedule(kind: &str, value: &str) -> (res: Option<Result<ScheduleType, String>>)
    ensures
        match form_schedule(kind@, value@) {
            Err(m) => res matches Some(Err(e)) && e@ == m,
            Ok(ScheduleReading::Overflow) => res is None,
            Ok(r) => res matches Some(Ok(t)) && saved_form(t) == r && (t matches ScheduleType::Once(m)
                ==> m.total() == m.whole_secs() * 1_000_000_000),
        },
{
    let k = kind_of(kind);
    let v = trimmed(value);
    proof {
        reveal_strlit("cron");
        reveal_strlit("interval");
        reveal_strlit("once");
    }
    if str_eq(k.as_str(), "cron") {
        if chars_of(v.as_str()).len() == 0 {
            Some(Err(owned("Cron expression is required")))
        } else {
            Some(Ok(ScheduleType::Cron(v)))
        }
    } else if str_eq(k.as_str(), "interval") {
        match parse_u64(v.as_str()) {
            Some(n) => Some(Ok(ScheduleType::Interval(n))),
            None => Some(Err(owned("Invalid interval value (must be a number)"))),
        }
    } else if str_eq(k.as_str(), "once") {
        match parse_u64(v.as_str()) {
            Some(n) => if n <= MAX_CLOCK_SECS {
                Some(Ok(ScheduleType::Once(Moment::from_secs(n))))
            } else {
                None
            },
            None => Some(Err(owned("Invalid timestamp value (must be a number)"))),
        }
    } else {
        Some(Err(owned("Invalid schedule type (must be 'cron', 'interval', or 'once')")))
    }
}

/// The comma-separated parts of a cleanup value, each trimmed.
#[verifier::rlimit(60)]
pub fn cleanup_fields(value: &str) -> (res: Vec<String>)
    ensures
        strings_view(res@) == cleanup_parts(value@),
{
    let v = chars_of(value);
    let b = split_bounds(&v, 0, v.len(), ',');
    assert(v@.subrange(0, v.len() as int) =~= value@);
    let ghost parts = split_on(value@, ',');
    let mut res: Vec<String> = Vec::new();
    let mut i: usize = 0;
    while i < b.len()
        invariant
            i <= b.len() == parts.len(),
            v@ == value@,
            parts == split_on(value@, ','),
            forall|k: int|
                0 <= k < b.len() ==> {
                    &&& (#[trigger] b[k]).0 <= b[k].1 <= v.len()
                    &&& v@.subrange(b[k].0 as int, b[k].1 as int) == parts[k]
                },
            strings_view(res@) == trim_each(parts.take(i as int)),
        decreases b.len() - i,
    {
        let (lo, hi) = b[i];
        let (a, c) = trim_bounds(&v, lo, hi);
        let piece = string_of(&v, a, c);
        let ghost before = res@;
        res.push(piece);
        proof {
            crate::text::lemma_strings_push(before, res@[i as int]);
            lemma_trim_each_push(parts, i as int);
        }
        i += 1;
    }
    assert(parts.take(parts.len() as int) =~= parts);
    res
}

proof fn lemma_trim_each_push(parts: Seq<Seq<char>>, i: int)
    requires
        0 <= i < parts.len(),
    ensures
        trim_each(parts.take(i + 1)) == trim_each(parts.take(i)).push(trim(parts[i])),
{
    assert(parts.take(i + 1) =~= parts.take(i).push(parts[i]));
    assert(trim_each(parts.take(i + 1)) =~= trim_each(parts.take(i)).push(trim(parts[i])));
}

/// `trim(s)` is empty when `s` has no word.
proof fn lemma_words_of_nonblank(s: Seq<char>)
    requires
        trim(s).len() > 0,
    ensures
        words(s).len() > 0,
{
    crate::text::lemma_trim_start_len(s);
    if crate::text::trim_start(s).len() == 0 {
        assert(trim(s) == crate::text::trim_end(crate::text::trim_start(s)));
    }
}

fn read_action(kind: &str, value: &str, cpu_threshold_bits: u32) -> (res: Result<ScheduleAction, String>)
    ensures
        match form_action(kind@, value@, cpu_threshold_bits) {
            Err(m) => res matches Err(e) && e@ == m,
            Ok(a) => res matches Ok(t) && action_form(t) == Some(a),
        },
{
    let k = kind_of(kind);
    let t = trimmed(value);
    let blank = chars_of(t.as_str()).len() == 0;
    proof {
        reveal_strlit("restart");
        reveal_strlit("start");
        reveal_strlit("cleanup");
        reveal_strlit("rule");
    }
    if str_eq(k.as_str(), "restart") {
        if blank {
            Err(owned("Process pattern is required for restart action"))
        } else {
            Ok(ScheduleAction::RestartProcess { pattern: t })
        }
    } else if str_eq(k.as_str(), "start") {
        if blank {
            Err(owned("Program name/path is required for start action"))
        } else {
            let w = crate::text::words_of(value);
            proof {
                lemma_words_of_nonblank(value@);
            }
            let mut args: Vec<String> = Vec::new();
            let mut i: usize = 1;
            let ghost ws = strings_view(w@);
            assert(ws.len() == w.len());
            assert(ws.subrange(1, 1) =~= Seq::<Seq<char>>::empty());
            assert(strings_view(args@) =~= Seq::<Seq<char>>::empty());
            while i < w.len()
                invariant
                    1 <= i <= w.len(),
                    ws == strings_view(w@),
                    strings_view(args@) == ws.subrange(1, i as int),
                decreases w.len() - i,
            {
                let x = owned(w[i].as_str());
                proof {
                    assert(ws[i as int] == w@[i as int]@);
                }
                let ghost before = args@;
                args.push(x);
                assert(strings_view(args@) =~= strings_view(before).push(ws[i as int]));
                assert(ws.subrange(1, i + 1) =~= ws.subrange(1, i as int).push(ws[i as int]));
                i += 1;
            }
            assert(ws.subrange(1, ws.len() as int) =~= ws.skip(1));
            let program = owned(w[0].as_str());
            assert(ws[0] == w@[0]@);
            Ok(ScheduleAction::StartProcess { program, args })
        }
    } else if str_eq(k.as_str(), "cleanup") {
        let p = cleanup_fields(value);
        let ghost pv = strings_view(p@);
        assert(pv.len() == p.len());
        if p.len() != 4 {
            Err(owned("Cleanup requires: cpu_threshold,memory_threshold,duration_seconds,action"))
        } else {
            assert(pv[1] == p@[1]@ && pv[2] == p@[2]@ && pv[3] == p@[3]@);
            let memory_threshold = match parse_u64(p[1].as_str()) {
                Some(n) => n,
                None => 0,
            };
            let duration_seconds = match parse_u64(p[2].as_str()) {
                Some(n) => n,
                None => 0,
            };
            let action = owned(p[3].as_str());
            Ok(ScheduleAction::CleanupIdle { cpu_threshold_bits, memory_threshold, duration_seconds, action })
        }
    } else if str_eq(k.as_str(), "rule") {
        if blank {
            Err(owned("Rule expression is required"))
        } else {
            Ok(ScheduleAction::ApplyRule { rule: t })
        }
    } else {
        Err(owned("Invalid action type (must be 'restart', 'start', 'cleanup', or 'rule')"))
    }
}

/// Checks the form as Enter does: the task it describes, or the message
/// that says what is wrong; `None` exactly where a one-off time is beyond
/// what the clock holds.
pub fn try_task_from_form(form: &TaskForm, cpu_threshold_bits: u32) -> (res: Option<Result<ScheduledTask, String>>)
    ensures
        match check_form(form@, cpu_threshold_bits) {
            FormCheck::Overflow => res is None,
            FormCheck::Invalid(m) => res matches Some(Err(e)) && e@ == m,
            c => res matches Some(Ok(t)) && is_task_of(t, c),
        },
{
    let name = trimmed(form.name.as_str());
    if chars_of(name.as_str()).len() == 0 {
        proof {
            reveal_strlit("Task name is required");
        }
        return Some(Err(owned("Task name is required")));
    }
    let schedule = match read_schedule(form.schedule_type.as_str(), form.schedule_value.as_str()) {
        None => return None,
        Some(Err(m)) => return Some(Err(m)),
        Some(Ok(s)) => s,
    };
    match read_action(form.action_type.as_str(), form.action_value.as_str(), cpu_threshold_bits) {
        Err(m) => Some(Err(m)),
        Ok(action) => Some(Ok(ScheduledTask::new(name, schedule, action))),
    }
}

fn typed_into(form: TaskForm, c: Option<char>) -> (res: TaskForm)
    ensures
        res@ == (match c {
            Some(ch) => with_field(form@, form.field, field_text(form@, form.field).push(ch)),
            None => {
                let t = field_text(form@, form.field);
                with_field(form@, form.field, if t.len() > 0 { t.drop_last() } else { t })
            },
        }),
{
    let mut form = form;
    let i = form.field;
    let mut text = if i == 0 {
        owned(form.name.as_str())
    } else if i == 1 {
        owned(form.schedule_type.as_str())
    } else if i == 2 {
        owned(form.schedule_value.as_str())
    } else if i == 3 {
        owned(form.action_type.as_str())
    } else if i == 4 {
        owned(form.action_value.as_str())
    } else {
        return form;
    };
    assert(text@ == field_text(form@, i));
    match c {
        Some(ch) => push_char(&mut text, ch),
        None => {
            let v = chars_of(text.as_str());
            if v.len() > 0 {
                text = string_of(&v, 0, v.len() - 1);
                assert(v@.subrange(0, v.len() - 1) =~= v@.drop_last());
            }
        },
    }
    if i == 0 {
        form.name = text;
    } else if i == 1 {
        form.schedule_type = text;
    } else if i == 2 {
        form.schedule_value = text;
    } else if i == 3 {
        form.action_type = text;
    } else {
        form.action_value = text;
    }
    form
}

/// Moves the editor on after `key`. Its next form and effect are those that
/// `editor_next` gives; when Enter finds the form valid, the task it
/// describes is added to `scheduler`, which is otherwise left as it was.
/// The caller reads `cpu_threshold_bits` from the first part of the action
/// value (`cleanup_fields`); it counts only for a cleanup action.
pub fn task_editor_step(form: TaskForm, key: Key, cpu_threshold_bits: u32, scheduler: &mut Scheduler) -> (res: (
    TaskForm,
    EditorEffect,
))
    requires
        key == Key::Enter ==> !(check_form(form@, cpu_threshold_bits) is Overflow),
    ensures
        (res.0@, res.1@) == editor_next(form@, key, cpu_threshold_bits),
        final(scheduler).spec_log() == old(scheduler).spec_log(),
        (key == Key::Enter && check_form(form@, cpu_threshold_bits) is Valid) ==> {
            &&& final(scheduler).spec_tasks().len() == old(scheduler).spec_tasks().len() + 1
            &&& final(scheduler).spec_tasks().drop_last() == old(scheduler).spec_tasks()
            &&& is_task_of(final(scheduler).spec_tasks().last(), check_form(form@, cpu_threshold_bits))
        },
        !(key == Key::Enter && check_form(form@, cpu_threshold_bits) is Valid)
            ==> final(scheduler).spec_tasks() == old(scheduler).spec_tasks(),
{
    match key {
        Key::Tab => {
            let mut form = form;
            form.field = (form.field % 5 + 1) % 5;
            (form, EditorEffect::Nothing)
        },
        Key::BackTab => {
            let mut form = form;
            form.field = if form.field == 0 { 4 } else { form.field - 1 };
            (form, EditorEffect::Nothing)
        },
        Key::Char(c) => (typed_into(form, Some(c)), EditorEffect::Nothing),
        Key::Backspace => (typed_into(form, None), EditorEffect::Nothing),
        Key::Enter => match try_task_from_form(&form, cpu_threshold_bits) {
            Some(Ok(task)) => {
                let mut m = owned("Task '");
                push_str(&mut m, task.name.as_str());
                push_str(&mut m, "' created successfully");
                scheduler.add_task(task);
                let field = form.field;
                let mut cleared = TaskForm::new();
                cleared.field = field;
                (cleared, EditorEffect::Created(m))
            },
            Some(Err(m)) => (form, EditorEffect::Invalid(m)),
            None => (form, EditorEffect::Nothing),
        },
        Key::Esc => {
            let field = form.field;
            let mut cleared = TaskForm::new();
            cleared.field = field;
            (cleared, EditorEffect::Leave)
        },
        _ => (form, EditorEffect::Nothing),
    }
}

} // verus!
