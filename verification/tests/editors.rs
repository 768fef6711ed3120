use procsentinel::kill_dialog::{Key, ListCursor};
use procsentinel::nice_dialog::{nice_range_report, nice_report, nice_step, NiceEffect, NiceInputState};
use procsentinel::procinfo::ProcessInfo;
use procsentinel::scheduler::{ScheduleAction, ScheduleType, Scheduler};
use procsentinel::task_form::{cleanup_fields, task_editor_step, try_task_from_form, EditorEffect, TaskForm};
use procsentinel::text::{i32_string, parse_i32};
use procsentinel::alert::{preset_alert, AlertCondition, AlertTarget};
use procsentinel::profile_form::profile_from_fields;
use procsentinel::start_form::{start_form_step, start_report, StartEffect, StartForm};

fn proc(pid: u32, name: &str) -> ProcessInfo {
    ProcessInfo {
        pid,
        name: name.to_string(),
        cpu_usage_bits: 0.0f32.to_bits(),
        memory_usage: 0,
        parent_pid: None,
        status: "Sleeping".to_string(),
        user: None,
        nice: 0,
        start_time_str: "00:00:00".to_string(),
        start_timestamp: 0,
        cgroup: None,
        container_id: None,
        namespace_ids: Vec::new(),
        host: None,
    }
}

fn at(selected: usize) -> ListCursor {
    ListCursor { selected, scroll: 0, display_limit: 10 }
}

fn type_keys(mut input: String, keys: &[Key], ps: &[ProcessInfo]) -> (NiceInputState, String, NiceEffect) {
    let mut state = NiceInputState::EnteringNice;
    let mut effect = NiceEffect::Nothing;
    for k in keys {
        let (s, i, _, e) = nice_step(state, input, *k, at(1), ps);
        state = s;
        input = i;
        effect = e;
    }
    (state, input, effect)
}

#[test]
fn nice_value_typing_keeps_digits_and_a_leading_minus() {
    let ps = vec![proc(5, "a"), proc(6, "b")];
    let keys = [Key::Char('-'), Key::Char('1'), Key::Char('x'), Key::Char('-'), Key::Char('0')];
    let (state, input, effect) = type_keys(String::new(), &keys, &ps);
    assert_eq!(state, NiceInputState::EnteringNice);
    assert_eq!(input, "-10");
    assert_eq!(effect, NiceEffect::Nothing);
    let (_, input, _) = type_keys(input, &[Key::Backspace], &ps);
    assert_eq!(input, "-1");
    let (_, input, _) = type_keys(String::new(), &[Key::Backspace], &ps);
    assert_eq!(input, "");
}

#[test]
fn enter_sets_a_value_in_range_for_the_selected_process() {
    let ps = vec![proc(5, "a"), proc(6, "b")];
    let (state, input, effect) = type_keys("-5".to_string(), &[Key::Enter], &ps);
    assert_eq!(state, NiceInputState::SelectingPid);
    assert_eq!(input, "");
    assert_eq!(effect, NiceEffect::SetNice { pid: 6, nice: -5 });
    let (state, _, effect) = type_keys("25".to_string(), &[Key::Enter], &ps);
    assert_eq!(state, NiceInputState::SelectingPid);
    assert_eq!(effect, NiceEffect::OutOfRange);
    // A lone minus sign is no number: nothing happens.
    let (state, input, effect) = type_keys("-".to_string(), &[Key::Enter], &ps);
    assert_eq!((state, input.as_str(), effect), (NiceInputState::EnteringNice, "-", NiceEffect::Nothing));
    let (state, _, effect) = type_keys(String::new(), &[Key::Enter], &ps);
    assert_eq!((state, effect), (NiceInputState::EnteringNice, NiceEffect::Nothing));
    let (state, input, effect) = type_keys("7".to_string(), &[Key::Esc], &ps);
    assert_eq!((state, input.as_str(), effect), (NiceInputState::SelectingPid, "", NiceEffect::Nothing));
}

#[test]
fn nice_cursor_scrolls_one_row_at_a_time() {
    let ps: Vec<ProcessInfo> = (0..30).map(|i| proc(i, "p")).collect();
    let mut c = ListCursor { selected: 0, scroll: 0, display_limit: 10 };
    for _ in 0..12 {
        let (_, _, c2, _) = nice_step(NiceInputState::SelectingPid, String::new(), Key::Down, c, &ps);
        c = c2;
    }
    assert_eq!(c, ListCursor { selected: 12, scroll: 3, display_limit: 10 });
    let (s, _, _, e) = nice_step(NiceInputState::SelectingPid, String::new(), Key::Enter, c, &ps);
    assert_eq!((s, e), (NiceInputState::EnteringNice, NiceEffect::StartNice));
    let (s, _, _, e) = nice_step(NiceInputState::SelectingPid, String::new(), Key::Enter, c, &[]);
    assert_eq!((s, e), (NiceInputState::SelectingPid, NiceEffect::Nothing));
    let (_, _, _, e) = nice_step(NiceInputState::SelectingPid, String::new(), Key::Esc, c, &ps);
    assert_eq!(e, NiceEffect::Leave);
}

#[test]
fn nice_reports() {
    assert_eq!(
        nice_report(42, -5, None),
        ("Successfully changed nice value of process 42 to -5".to_string(), false)
    );
    assert_eq!(nice_report(42, 19, None).0, "Successfully changed nice value of process 42 to 19");
    assert_eq!(
        nice_report(1, 3, Some("Operation not permitted")),
        ("Error changing nice value: Operation not permitted".to_string(), true)
    );
    assert_eq!(
        nice_range_report(),
        ("Error: Nice value must be between -20 and 19".to_string(), true)
    );
}

#[test]
fn signed_numbers_parse_as_std_does() {
    for s in ["0", "-0", "+7", "-20", "19", "2147483647", "-2147483648", "2147483648", "-2147483649", "", "-", "+", "-+1", "+-1", "1a", " 1", "99999999999999999999"] {
        assert_eq!(parse_i32(s), s.parse::<i32>().ok(), "{s:?}");
    }
    for i in [0, 7, -7, i32::MIN, i32::MAX] {
        assert_eq!(i32_string(i), i.to_string());
    }
}

fn form(name: &str, st: &str, sv: &str, at: &str, av: &str) -> TaskForm {
    let mut f = TaskForm::new();
    f.name = name.to_string();
    f.schedule_type = st.to_string();
    f.schedule_value = sv.to_string();
    f.action_type = at.to_string();
    f.action_value = av.to_string();
    f
}

fn error_of(f: &TaskForm) -> String {
    match try_task_from_form(f, 0) {
        Some(Err(m)) => m,
        other => panic!("expected an error, got {:?}", other.map(|r| r.map(|t| t.name))),
    }
}

#[test]
fn form_errors_come_in_field_order() {
    assert_eq!(error_of(&form("  ", "bogus", "", "bogus", "")), "Task name is required");
    assert_eq!(error_of(&form("t", "Cron", "  ", "rule", "x")), "Cron expression is required");
    assert_eq!(
        error_of(&form("t", "interval", "ten", "rule", "x")),
        "Invalid interval value (must be a number)"
    );
    assert_eq!(
        error_of(&form("t", "once", "-1", "rule", "x")),
        "Invalid timestamp value (must be a number)"
    );
    assert_eq!(
        error_of(&form("t", "weekly", "1", "rule", "x")),
        "Invalid schedule type (must be 'cron', 'interval', or 'once')"
    );
    assert_eq!(
        error_of(&form("t", "interval", "60", "restart", " ")),
        "Process pattern is required for restart action"
    );
    assert_eq!(
        error_of(&form("t", "interval", "60", "start", "")),
        "Program name/path is required for start action"
    );
    assert_eq!(
        error_of(&form("t", "interval", "60", "cleanup", "1,2,3")),
        "Cleanup requires: cpu_threshold,memory_threshold,duration_seconds,action"
    );
    assert_eq!(error_of(&form("t", "interval", "60", "rule", "")), "Rule expression is required");
    assert_eq!(
        error_of(&form("t", "interval", "60", "kill", "1")),
        "Invalid action type (must be 'restart', 'start', 'cleanup', or 'rule')"
    );
}

#[test]
fn valid_forms_make_tasks() {
    let t = match try_task_from_form(&form(" nightly ", " ONCE ", " 3600 ", "Start", "  /bin/echo  hi there "), 0) {
        Some(Ok(t)) => t,
        _ => panic!("expected a task"),
    };
    assert_eq!(t.name, "nightly");
    assert!(t.enabled && t.last_run.is_none() && t.next_run.is_none());
    match t.schedule {
        ScheduleType::Once(m) => assert_eq!((m.as_secs(), m.subsec_nanos()), (3600, 0)),
        other => panic!("unexpected schedule {:?}", other),
    }
    match t.action {
        ScheduleAction::StartProcess { program, args } => {
            assert_eq!(program, "/bin/echo");
            assert_eq!(args, vec!["hi".to_string(), "there".to_string()]);
        }
        other => panic!("unexpected action {:?}", other),
    }
    let bits = 12.5f32.to_bits();
    let t = match try_task_from_form(&form("c", "interval", "60", "cleanup", " 12.5 , lots, 30 ,stop "), bits) {
        Some(Ok(t)) => t,
        _ => panic!("expected a task"),
    };
    assert!(matches!(t.schedule, ScheduleType::Interval(60)));
    match t.action {
        ScheduleAction::CleanupIdle { cpu_threshold_bits, memory_threshold, duration_seconds, action } => {
            assert_eq!(cpu_threshold_bits, bits);
            assert_eq!((memory_threshold, duration_seconds), (0, 30));
            assert_eq!(action, "stop");
        }
        other => panic!("unexpected action {:?}", other),
    }
    assert_eq!(cleanup_fields(" 12.5 , lots, 30 ,stop "), vec!["12.5", "lots", "30", "stop"]);
    let t = match try_task_from_form(&form("r", "cron", " 0 * * * * ", "rule", " cpu > 50 "), 0) {
        Some(Ok(t)) => t,
        _ => panic!("expected a task"),
    };
    match (t.schedule, t.action) {
        (ScheduleType::Cron(e), ScheduleAction::ApplyRule { rule }) => {
            assert_eq!((e.as_str(), rule.as_str()), ("0 * * * *", "cpu > 50"));
        }
        _ => panic!("unexpected task"),
    }
    // A one-off time the clock cannot hold is refused.
    assert!(try_task_from_form(&form("x", "once", "18446744073709551615", "rule", "r"), 0).is_none());
}

#[test]
fn editor_keys_fill_fields_and_enter_adds_the_task() {
    let mut sched = Scheduler::new();
    let mut f = TaskForm::new();
    let press = |f: TaskForm, k: Key, sched: &mut Scheduler| task_editor_step(f, k, 0, sched);
    for k in [Key::Char('j'), Key::Char('o'), Key::Char('b')] {
        f = press(f, k, &mut sched).0;
    }
    f = press(f, Key::Backspace, &mut sched).0;
    assert_eq!(f.name, "jo");
    f = press(f, Key::Tab, &mut sched).0;
    for c in "interval".chars() {
        f = press(f, Key::Char(c), &mut sched).0;
    }
    f = press(f, Key::Tab, &mut sched).0;
    f = press(f, Key::Char('5'), &mut sched).0;
    f = press(f, Key::Tab, &mut sched).0;
    for c in "rule".chars() {
        f = press(f, Key::Char(c), &mut sched).0;
    }
    let (g, e) = press(f, Key::Enter, &mut sched);
    match e {
        EditorEffect::Invalid(m) => assert_eq!(m, "Rule expression is required"),
        other => panic!("unexpected effect {:?}", other),
    }
    assert_eq!(sched.get_tasks().len(), 0);
    f = press(g, Key::Tab, &mut sched).0;
    assert_eq!(f.field, 4);
    f = press(f, Key::Char('x'), &mut sched).0;
    let (g, e) = press(f, Key::Enter, &mut sched);
    match e {
        EditorEffect::Created(m) => assert_eq!(m, "Task 'jo' created successfully"),
        other => panic!("unexpected effect {:?}", other),
    }
    assert_eq!(sched.get_tasks().len(), 1);
    assert_eq!(sched.get_tasks()[0].name, "jo");
    assert_eq!((g.name.as_str(), g.action_value.as_str(), g.field), ("", "", 4));
    let g = press(g, Key::Tab, &mut sched).0;
    assert_eq!(g.field, 0);
    let g = press(g, Key::BackTab, &mut sched).0;
    assert_eq!(g.field, 4);
    let (_, e) = press(g, Key::Esc, &mut sched);
    assert!(matches!(e, EditorEffect::Leave));
}

#[test]
fn profile_fields_are_read_as_lists_and_pairs() {
    let p = profile_from_fields("Work", " code, , term ", "", "a:1, b : -5, bad, c:x, a:7, d:1:2");
    assert_eq!(p.name, "Work");
    assert_eq!(p.prioritize_processes, vec!["code".to_string(), "term".to_string()]);
    assert!(p.hide_processes.is_empty());
    assert_eq!(p.nice_adjustments, vec![("a".to_string(), 7), ("b".to_string(), -5)]);
}

#[test]
fn start_form_asks_for_a_program() {
    let (f, e) = start_form_step(StartForm::new(), Key::Enter);
    match e {
        StartEffect::Invalid(m) => assert_eq!(m, "Error: Program path is required"),
        other => panic!("unexpected effect {:?}", other),
    }
    let mut f = f;
    for c in "/bin/sleep".chars() {
        f = start_form_step(f, Key::Char(c)).0;
    }
    f = start_form_step(f, Key::Tab).0;
    f = start_form_step(f, Key::Tab).0;
    for c in " 5  x ".chars() {
        f = start_form_step(f, Key::Char(c)).0;
    }
    assert_eq!(f.field, 2);
    let (f, e) = start_form_step(f, Key::Enter);
    match e {
        StartEffect::Launch { program, args, working_dir } => {
            assert_eq!(program, "/bin/sleep");
            assert_eq!(args, vec!["5".to_string(), "x".to_string()]);
            assert_eq!(working_dir, None);
        }
        other => panic!("unexpected effect {:?}", other),
    }
    let f = start_form_step(f, Key::Tab).0;
    assert_eq!(f.field, 0);
    let (f, e) = start_form_step(f, Key::Esc);
    assert!(matches!(e, StartEffect::Leave));
    assert_eq!((f.program_path.as_str(), f.arguments.as_str(), f.field), ("", "", 0));
    assert_eq!(start_report(Ok(77)), ("Successfully started process with PID: 77".to_string(), false));
    assert_eq!(start_report(Err("nope")), ("Error starting process: nope".to_string(), true));
}

#[test]
fn ready_made_alerts() {
    let a = preset_alert('c', 2).unwrap();
    assert_eq!(a.name, "High CPU Alert 3");
    assert!(a.enabled);
    match a.condition {
        AlertCondition::CpuGreaterThan { threshold_bits, duration_secs } => {
            assert_eq!((f32::from_bits(threshold_bits), duration_secs), (5.0, 5));
        }
        other => panic!("unexpected condition {:?}", other),
    }
    assert!(matches!(a.target, AlertTarget::All));
    let m = preset_alert('m', 0).unwrap();
    assert_eq!(m.name, "High Memory Alert 1");
    assert!(matches!(m.condition, AlertCondition::MemoryGreaterThan { threshold_mb: 100, duration_secs: 5 }));
    let d = preset_alert('d', 9).unwrap();
    assert_eq!(d.name, "Sleep Death Alert 10");
    match (d.condition, d.target) {
        (AlertCondition::ProcessDied { pattern }, AlertTarget::Pattern(p)) => {
            assert_eq!((pattern.as_str(), p.as_str()), ("sleep", "sleep"));
        }
        _ => panic!("unexpected alert"),
    }
    assert!(preset_alert('z', 0).is_none());
}
