//! The alert editor: the name, threshold and duration of an alert, edited
//! as text, Tab moving between the three.
//!
//! A CPU threshold is a float: the caller writes it for the form and reads
//! it back from the form's text (`threshold_bits`, and its whole part as a
//! `u64` for a memory threshold), as `str::parse::<f32>` reads it.

use vstd::prelude::*;
use crate::alert::{Alert, AlertCondition, AlertManager, edited_condition};
use crate::kill_dialog::Key;
use crate::text::{backspaced, decimal, decimal_string, number_or_zero, owned, parse_u64_range, push_char, chars_of};

verus! {

/// The alert editor's fields and the one being typed in (0 name,
/// 1 threshold, 2 duration).
#[derive(Debug)]
pub struct AlertForm {
    pub name: String,
    pub threshold: String,
    pub duration: String,
    pub field: usize,
}

/// The model of an `AlertForm`.
pub struct AlertFormView {
    pub name: Seq<char>,
    pub threshold: Seq<char>,
    pub duration: Seq<char>,
    pub field: usize,
}

impl View for AlertForm {
    type V = AlertFormView;

    open spec fn view(&self) -> AlertFormView {
        AlertFormView {
            name: self.name@,
            threshold: self.threshold@,
            duration: self.duration@,
            field: self.field,
        }
    }
}

/// The form that edits `alert`: its name, and its threshold and duration
/// as text (`float_text` is the caller's writing of a CPU or I/O
/// threshold); both `N/A` for a death alert.
pub open spec fn form_of(alert: Alert, float_text: Seq<char>) -> AlertFormView {
    let (t, d) = match alert.condition {
        AlertCondition::CpuGreaterThan { duration_secs, .. } => (float_text, decimal(duration_secs as nat)),
        AlertCondition::MemoryGreaterThan { threshold_mb, duration_secs } => (
            decimal(threshold_mb as nat),
            decimal(duration_secs as nat),
        ),
        AlertCondition::IoGreaterThan { duration_secs, .. } => (float_text, decimal(duration_secs as nat)),
        AlertCondition::ProcessDied { .. } => ("N/A"@, "N/A"@),
    };
    AlertFormView { name: alert.name@, threshold: t, duration: d, field: 0 }
}

/// The form that edits `alert` (see `form_of`).
pub fn alert_form_for(alert: &Alert, float_text: &str) -> (res: AlertForm)
    ensures
        res@ == form_of(*alert, float_text@),
{
    let (threshold, duration) = match &alert.condition {
        AlertCondition::CpuGreaterThan { duration_secs, .. } => (owned(float_text), decimal_string(*duration_secs)),
        AlertCondition::MemoryGreaterThan { threshold_mb, duration_secs } => (
            decimal_string(*threshold_mb),
            decimal_string(*duration_secs),
        ),
        AlertCondition::IoGreaterThan { duration_secs, .. } => (owned(float_text), decimal_string(*duration_secs)),
        AlertCondition::ProcessDied { .. } => (owned("N/A"), owned("N/A")),
    };
    AlertForm { name: owned(alert.name.as_str()), threshold, duration, field: 0 }
}

/// The text of field `i` of the form.
pub open spec fn form_field(f: AlertFormView, i: usize) -> Seq<char> {
    if i == 0 {
        f.name
    } else if i == 1 {
        f.threshold
    } else {
        f.duration
    }
}

/// The form with field `i` set to `t`; a field past the third stays empty
/// of effect.
pub open spec fn with_form_field(f: AlertFormView, i: usize, t: Seq<char>) -> AlertFormView {
    if i == 0 {
        AlertFormView { name: t, ..f }
    } else if i == 1 {
        AlertFormView { threshold: t, ..f }
    } else if i == 2 {
        AlertFormView { duration: t, ..f }
    } else {
        f
    }
}

/// The form after `key`, and whether the editor closes (Esc, or Enter once
/// the alert was saved).
pub open spec fn alert_form_next(f: AlertFormView, key: Key) -> (AlertFormView, bool) {
    match key {
        Key::Esc => (f, true),
        Key::Enter => (f, true),
        Key::Tab => (AlertFormView { field: ((f.field + 1) % 3) as usize, ..f }, false),
        Key::BackTab => (
            AlertFormView {
                field: if f.field == 0 {
                    2
                } else {
                    (f.field - 1) as usize
                },
                ..f
            },
            false,
        ),
        Key::Char(c) => (with_form_field(f, f.field, form_field(f, f.field).push(c)), false),
        Key::Backspace => {
            let t = form_field(f, f.field);
            (with_form_field(f, f.field, if t.len() > 0 { t.drop_last() } else { t }), false)
        },
        _ => (f, false),
    }
}

fn edit_field(form: AlertForm, c: Option<char>) -> (res: AlertForm)
    ensures
        res@ == (match c {
            Some(ch) => with_form_field(form@, form.field, form_field(form@, form.field).push(ch)),
            None => {
                let t = form_field(form@, form.field);
                with_form_field(form@, form.field, if t.len() > 0 { t.drop_last() } else { t })
            },
        }),
{
    let mut form = form;
    let i = form.field;
    if i > 2 {
        return form;
    }
    let text = if i == 0 {
        owned(form.name.as_str())
    } else if i == 1 {
        owned(form.threshold.as_str())
    } else {
        owned(form.duration.as_str())
    };
    let text = match c {
        Some(ch) => {
            let mut t = text;
            push_char(&mut t, ch);
            t
        },
        None => backspaced(text.as_str()),
    };
    if i == 0 {
        form.name = text;
    } else if i == 1 {
        form.threshold = text;
    } else {
        form.duration = text;
    }
    form
}

fn number_or_zero_of(s: &str) -> (res: u64)
    ensures
        res == number_or_zero(s@),
{
    let v = chars_of(s);
    assert(v@.subrange(0, v.len() as int) =~= s@);
    match parse_u64_range(&v, 0, v.len()) {
        Some(n) => n,
        None => 0,
    }
}

/// The form after `key`, and whether the editor closes. Enter saves the form
/// into the alert at `index` first: its name, and for a CPU alert the
/// threshold `threshold_bits` (the caller's reading of the threshold text
/// as an `f32`), for a memory alert `threshold_mb` (that reading's whole
/// part), with the duration text read as a number (0 when it is none).
pub fn alert_editor_step(
    form: AlertForm,
    key: Key,
    threshold_bits: u32,
    threshold_mb: u64,
    alerts: &mut AlertManager,
    index: usize,
) -> (res: (AlertForm, bool))
    ensures
        (res.0@, res.1) == alert_form_next(form@, key),
        key == Key::Enter && index < old(alerts).spec_alerts().len() ==> final(alerts).spec_alerts()
            == old(alerts).spec_alerts().update(
            index as int,
            Alert {
                name: form.name,
                condition: edited_condition(
                    old(alerts).spec_alerts()[index as int].condition,
                    threshold_bits,
                    threshold_mb,
                    number_or_zero(form.duration@) as u64,
                ),
                ..old(alerts).spec_alerts()[index as int]
            },
        ),
        !(key == Key::Enter && index < old(alerts).spec_alerts().len()) ==> final(alerts).spec_alerts()
            == old(alerts).spec_alerts(),
        final(alerts).spec_active() == old(alerts).spec_active(),
        final(alerts).spec_tracking() == old(alerts).spec_tracking(),
        final(alerts).spec_config_path() == old(alerts).spec_config_path(),
{
    match key {
        Key::Esc => (form, true),
        Key::Enter => {
            let duration = number_or_zero_of(form.duration.as_str());
            let kept = owned(form.name.as_str());
            let AlertForm { name, threshold, duration: duration_text, field } = form;
            let _ = alerts.edit_alert(index, name, threshold_bits, threshold_mb, duration);
            (AlertForm { name: kept, threshold, duration: duration_text, field }, true)
        },
        Key::Tab => {
            let field = (form.field % 3 + 1) % 3;
            assert(field == (form.field + 1) % 3);
            (AlertForm { field, ..form }, false)
        },
        Key::BackTab => {
            let field = if form.field == 0 {
                2
            } else {
                form.field - 1
            };
            (AlertForm { field, ..form }, false)
        },
        Key::Char(c) => (edit_field(form, Some(c)), false),
        Key::Backspace => (edit_field(form, None), false),
        _ => (form, false),
    }
}

} // verus!
