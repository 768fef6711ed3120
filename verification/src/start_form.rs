//! The form for launching a program: its path, a working directory and the
//! arguments, moved between with Tab. Launching is the caller's work.

use vstd::prelude::*;
use crate::kill_dialog::Key;
use crate::text::{chars_of, decimal, decimal_string, owned, push_char, push_str, string_of, strings_view, words, words_of};

verus! {

#[derive(Debug)]
pub struct StartForm {
    pub program_path: String,
    pub working_dir: String,
    pub arguments: String,
    pub field: usize,
}

pub struct StartFormView {
    pub program_path: Seq<char>,
    pub working_dir: Seq<char>,
    pub arguments: Seq<char>,
    pub field: usize,
}

impl View for StartForm {
    type V = StartFormView;

    open spec fn view(&self) -> StartFormView {
        StartFormView {
            program_path: self.program_path@,
            working_dir: self.working_dir@,
            arguments: self.arguments@,
            field: self.field,
        }
    }
}

pub open spec fn blank_start_form() -> StartFormView {
    StartFormView { program_path: seq![], working_dir: seq![], arguments: seq![], field: 0 }
}

impl StartForm {
    pub fn new() -> (f: Self)
        ensures
            f@ == blank_start_form(),
    {
        StartForm { program_path: String::new(), working_dir: String::new(), arguments: String::new(), field: 0 }
    }
}

/// What the caller does after a key.
#[derive(Debug)]
pub enum StartEffect {
    Nothing,
    /// Back to the process list.
    Leave,
    /// Show this error and stay.
    Invalid(String),
    /// Launch `program` with `args`, in `working_dir` when one is given, and
    /// report the outcome (`start_report`).
    Launch { program: String, args: Vec<String>, working_dir: Option<String> },
}

pub enum StartEffectView {
    Nothing,
    Leave,
    Invalid(Seq<char>),
    Launch { program: Seq<char>, args: Seq<Seq<char>>, working_dir: Option<Seq<char>> },
}

impl View for StartEffect {
    type V = StartEffectView;

    open spec fn view(&self) -> StartEffectView {
        match self {
            StartEffect::Nothing => StartEffectView::Nothing,
            StartEffect::Leave => StartEffectView::Leave,
            StartEffect::Invalid(m) => StartEffectView::Invalid(m@),
            StartEffect::Launch { program, args, working_dir } => StartEffectView::Launch {
                program: program@,
                args: strings_view(args@),
                working_dir: match working_dir {
                    Some(d) => Some(d@),
                    None => None,
                },
            },
        }
    }
}

pub open spec fn start_field(f: StartFormView, i: usize) -> Seq<char> {
    if i == 0 {
        f.program_path
    } else if i == 1 {
        f.working_dir
    } else if i == 2 {
        f.arguments
    } else {
        seq![]
    }
}

pub open spec fn with_start_field(f: StartFormView, i: usize, t: Seq<char>) -> StartFormView {
    if i == 0 {
        StartFormView { program_path: t, ..f }
    } else if i == 1 {
        StartFormView { working_dir: t, ..f }
    } else if i == 2 {
        StartFormView { arguments: t, ..f }
    } else {
        f
    }
}

/// The form and effect after `key`. Enter with a program asks for the
/// launch and leaves the form as it is (the caller clears it once the
/// program started); Esc clears it.
pub open spec fn start_next(f: StartFormView, key: Key) -> (StartFormView, StartEffectView) {
    match key {
        Key::Tab => (StartFormView { field: ((f.field + 1) % 3) as usize, ..f }, StartEffectView::Nothing),
        Key::Char(c) => (with_start_field(f, f.field, start_field(f, f.field).push(c)), StartEffectView::Nothing),
        Key::Backspace => {
            let t = start_field(f, f.field);
            (with_start_field(f, f.field, if t.len() > 0 { t.drop_last() } else { t }), StartEffectView::Nothing)
        },
        Key::Enter => if f.program_path.len() == 0 {
            (f, StartEffectView::Invalid("Error: Program path is required"@))
        } else {
            (
                f,
                StartEffectView::Launch {
                    program: f.program_path,
                    args: words(f.arguments),
                    working_dir: if f.working_dir.len() == 0 {
                        None
                    } else {
                        Some(f.working_dir)
                    },
                },
            )
        },
        Key::Esc => (blank_start_form(), StartEffectView::Leave),
        _ => (f, StartEffectView::Nothing),
    }
}

fn edit_field(form: StartForm, c: Option<char>) -> (res: StartForm)
    ensures
        res@ == (match c {
            Some(ch) => with_start_field(form@, form.field, start_field(form@, form.field).push(ch)),
            None => {
                let t = start_field(form@, form.field);
                with_start_field(form@, form.field, if t.len() > 0 { t.drop_last() } else { t })
            },
        }),
{
    let mut form = form;
    let i = form.field;
    let mut text = if i == 0 {
        owned(form.program_path.as_str())
    } else if i == 1 {
        owned(form.working_dir.as_str())
    } else if i == 2 {
        owned(form.arguments.as_str())
    } else {
        return form;
    };
    match c {
        Some(ch) => push_char(&mut text, ch),
        None => {
            let v = chars_of(text.as_str());
            if v.len() > 0 {
                text = string_of(&v, 0, v.len() - 1);
                assert(v@.subrange(0, v.len() - 1) =~= v@.drop_last());
            }
        },
    }
    if i == 0 {
        form.program_path = text;
    } else if i == 1 {
        form.working_dir = text;
    } else {
        form.arguments = text;
    }
    form
}

/// Moves the form on after `key` (see `start_next`).
pub fn start_form_step(form: StartForm, key: Key) -> (res: (StartForm, StartEffect))
    ensures
        (res.0@, res.1@) == start_next(form@, key),
{
    match key {
        Key::Tab => {
            let mut form = form;
            form.field = (form.field % 3 + 1) % 3;
            (form, StartEffect::Nothing)
        },
        Key::Char(c) => (edit_field(form, Some(c)), StartEffect::Nothing),
        Key::Backspace => (edit_field(form, None), StartEffect::Nothing),
        Key::Enter => {
            if chars_of(form.program_path.as_str()).len() == 0 {
                proof {
                    reveal_strlit("Error: Program path is required");
                }
                (form, StartEffect::Invalid(owned("Error: Program path is required")))
            } else {
                let program = owned(form.program_path.as_str());
                let args = words_of(form.arguments.as_str());
                let working_dir = if chars_of(form.working_dir.as_str()).len() == 0 {
                    None
                } else {
                    Some(owned(form.working_dir.as_str()))
                };
                (form, StartEffect::Launch { program, args, working_dir })
            }
        },
        Key::Esc => (StartForm::new(), StartEffect::Leave),
        _ => (form, StartEffect::Nothing),
    }
}

/// The report of a launch: the new PID, or the failure.
pub fn start_report(outcome: Result<u32, &str>) -> (res: (String, bool))
    ensures
        res.0@ == match outcome {
            Ok(pid) => "Successfully started process with PID: "@ + decimal(pid as nat),
            Err(e) => "Error starting process: "@ + e@,
        },
        res.1 == outcome is Err,
{
    match outcome {
        Ok(pid) => {
            let mut m = owned("Successfully started process with PID: ");
            let d = decimal_string(pid as u64);
            push_str(&mut m, d.as_str());
            (m, false)
        },
        Err(e) => {
            let mut m = owned("Error starting process: ");
            push_str(&mut m, e);
            (m, true)
        },
    }
}

} // verus!
