use procsentinel::alert::{preset_alert, Alert, AlertCondition, AlertManager, AlertTarget, FIVE_PERCENT_BITS};
use procsentinel::alert_form::{alert_editor_step, alert_form_for, AlertForm};
use procsentinel::kill_dialog::Key;
use procsentinel::lists::{
    alerts_step, checkpoints_step, created_report, deleted_report, graph_step, host_added_report, hosts_step,
    log_step, multi_host_report, new_profile_name_for, profiles_step, restored_report, scroll_page,
    selection_after_removal, tasks_step, toggled_active, AlertCommand, CheckpointCommand, GraphCommand, GraphState,
    HostCommand, LogGroup, LogState, ProfileCommand, TaskCommand,
};
use procsentinel::profile::{Profile, ProfileManager};
use procsentinel::profile_form::{profile_editor_step, profile_fields, profile_form_for, profile_from_fields};

#[test]
fn removing_the_last_row_moves_the_selection_up() {
    assert_eq!(selection_after_removal(3, 3), 2);
    assert_eq!(selection_after_removal(1, 3), 1);
    assert_eq!(selection_after_removal(0, 0), 0);
}

#[test]
fn pages_scroll_within_the_last_full_page() {
    assert_eq!(scroll_page(0, Key::Down, 25, 10), 1);
    assert_eq!(scroll_page(15, Key::Down, 25, 10), 15);
    assert_eq!(scroll_page(0, Key::PageDown, 25, 10), 10);
    assert_eq!(scroll_page(10, Key::PageDown, 25, 10), 15);
    assert_eq!(scroll_page(15, Key::PageUp, 25, 10), 5);
    assert_eq!(scroll_page(3, Key::PageUp, 25, 10), 0);
    assert_eq!(scroll_page(0, Key::Up, 25, 10), 0);
    assert_eq!(scroll_page(7, Key::Down, 5, 10), 0);
    assert_eq!(scroll_page(4, Key::Enter, 25, 10), 4);
}

#[test]
fn checkpoint_keys() {
    assert_eq!(checkpoints_step(false, 0, 3, Key::Enter), (0, CheckpointCommand::Nothing));
    assert_eq!(checkpoints_step(false, 0, 3, Key::Esc), (0, CheckpointCommand::Leave));
    assert_eq!(checkpoints_step(true, 0, 3, Key::Down), (1, CheckpointCommand::Nothing));
    assert_eq!(checkpoints_step(true, 2, 3, Key::Down), (2, CheckpointCommand::Nothing));
    assert_eq!(checkpoints_step(true, 1, 3, Key::Char('+')), (1, CheckpointCommand::Create));
    assert_eq!(checkpoints_step(true, 1, 3, Key::Enter), (1, CheckpointCommand::Restore(1)));
    assert_eq!(checkpoints_step(true, 1, 3, Key::Char('-')), (1, CheckpointCommand::Delete(1)));
    assert_eq!(checkpoints_step(true, 0, 0, Key::Enter), (0, CheckpointCommand::Nothing));
    assert_eq!(checkpoints_step(true, 0, 0, Key::Char('-')), (0, CheckpointCommand::Nothing));
}

#[test]
fn checkpoint_messages() {
    assert_eq!(
        created_report(Some(42), Ok("ckpt-1")),
        ("Checkpoint created: ckpt-1 for PID 42".to_string(), false)
    );
    assert_eq!(created_report(Some(42), Err("no criu")), ("Failed to create checkpoint: no criu".to_string(), true));
    assert_eq!(
        created_report(None, Ok("x")),
        ("No process selected. Please select a process first.".to_string(), true)
    );
    assert_eq!(
        restored_report("ckpt-1", Ok(777)),
        ("Process restored from checkpoint: ckpt-1 (PID: 777)".to_string(), false)
    );
    assert_eq!(restored_report("ckpt-1", Err("bad")), ("Failed to restore checkpoint: bad".to_string(), true));
    assert_eq!(deleted_report("ckpt-1", None), ("Checkpoint deleted: ckpt-1".to_string(), false));
    assert_eq!(deleted_report("ckpt-1", Some("gone")), ("Failed to delete checkpoint: gone".to_string(), true));
}

#[test]
fn alert_keys() {
    assert_eq!(alerts_step(0, 2, Key::Char('c')), (2, AlertCommand::Add('c')));
    assert_eq!(alerts_step(0, 2, Key::Char('d')), (2, AlertCommand::Add('d')));
    assert_eq!(alerts_step(1, 2, Key::Enter), (1, AlertCommand::Toggle(1)));
    assert_eq!(alerts_step(1, 2, Key::Char('e')), (1, AlertCommand::Edit(1)));
    assert_eq!(alerts_step(2, 2, Key::Char('e')), (2, AlertCommand::Nothing));
    assert_eq!(alerts_step(1, 2, Key::Char('-')), (0, AlertCommand::Remove(1)));
    assert_eq!(alerts_step(0, 2, Key::Char('-')), (0, AlertCommand::Remove(0)));
    assert_eq!(alerts_step(0, 2, Key::Char('C')), (0, AlertCommand::ClearActive));
    assert_eq!(alerts_step(0, 2, Key::Esc), (0, AlertCommand::Leave));
    assert_eq!(alerts_step(0, 2, Key::Up), (0, AlertCommand::Nothing));
}

#[test]
fn profile_keys_and_activation() {
    assert_eq!(profiles_step(0, 2, Key::Char('+')), (2, ProfileCommand::Add));
    assert_eq!(profiles_step(1, 2, Key::Enter), (1, ProfileCommand::Toggle(1)));
    assert_eq!(profiles_step(1, 2, Key::Char('-')), (0, ProfileCommand::Remove(1)));
    assert_eq!(profiles_step(0, 2, Key::Char('E')), (0, ProfileCommand::Edit(0)));
    assert_eq!(profiles_step(0, 0, Key::Enter), (0, ProfileCommand::Nothing));
    assert_eq!(toggled_active(Some("work"), "work"), None);
    assert_eq!(toggled_active(Some("work"), "home"), Some("home".to_string()));
    assert_eq!(toggled_active(None, "home"), Some("home".to_string()));
    assert_eq!(new_profile_name_for(2), "Profile 3");
}

#[test]
fn task_keys_scroll_ten_rows() {
    let mut st = (0usize, 0usize);
    for _ in 0..12 {
        let (s, sc, c) = tasks_step(st.0, st.1, 15, Key::Down);
        assert_eq!(c, TaskCommand::Nothing);
        st = (s, sc);
    }
    assert_eq!(st, (12, 3));
    assert_eq!(tasks_step(12, 3, 15, Key::Esc), (0, 0, TaskCommand::Leave));
    assert_eq!(tasks_step(2, 0, 15, Key::Enter), (2, 0, TaskCommand::Toggle(2)));
    assert_eq!(tasks_step(2, 0, 15, Key::Char('=')), (2, 0, TaskCommand::New));
    assert_eq!(tasks_step(14, 5, 15, Key::Char('-')), (13, 5, TaskCommand::Remove(14)));
    assert_eq!(tasks_step(2, 0, 15, Key::Char('S')), (2, 0, TaskCommand::Save));
    assert_eq!(tasks_step(3, 3, 15, Key::Up), (2, 2, TaskCommand::Nothing));
}

#[test]
fn host_keys_type_an_address() {
    let (s, input, c) = hosts_step(0, String::new(), 2, Key::Char('-'));
    assert_eq!((s, input.as_str()), (0, ""));
    assert!(matches!(c, HostCommand::Remove(0)));
    let (_, input, _) = hosts_step(0, String::new(), 2, Key::Char('1'));
    let (_, input, _) = hosts_step(0, input, 2, Key::Char('-'));
    let (_, input, _) = hosts_step(0, input, 2, Key::Char('t'));
    assert_eq!(input, "1-t");
    let (_, input, c) = hosts_step(0, "  10.0.0.2:8080 ".to_string(), 2, Key::Enter);
    assert_eq!(input, "");
    assert!(matches!(c, HostCommand::Add(ref a) if a == "10.0.0.2:8080"));
    let (_, _, c) = hosts_step(0, String::new(), 2, Key::Char('T'));
    assert!(matches!(c, HostCommand::ToggleMultiHost));
    let (_, input, c) = hosts_step(1, "ab".to_string(), 2, Key::Backspace);
    assert_eq!(input, "a");
    assert!(matches!(c, HostCommand::Nothing));
    let (_, input, c) = hosts_step(1, "   ".to_string(), 2, Key::Enter);
    assert_eq!(input, "   ");
    assert!(matches!(c, HostCommand::Nothing));
    assert_eq!(host_added_report("h:1"), "Host added: h:1. Connection will be tested on refresh.");
    assert_eq!(multi_host_report(true), "Multi-host mode: ON");
    assert_eq!(multi_host_report(false), "Multi-host mode: OFF");
}

#[test]
fn exit_log_search_group_and_scroll() {
    let (st, leave) = log_step(LogState::new(), Key::Char('g'), 30);
    assert!(!leave);
    assert_eq!(st.group, LogGroup::Name);
    let (st, _) = log_step(st, Key::Char('g'), 30);
    let (st, _) = log_step(st, Key::Char('g'), 30);
    assert_eq!(st.group, LogGroup::User);
    let (st, _) = log_step(st, Key::Char('g'), 30);
    assert_eq!(st.group, LogGroup::Flat);
    let (st, _) = log_step(st, Key::PageDown, 30);
    let (st, _) = log_step(st, Key::PageDown, 30);
    let (st, _) = log_step(st, Key::PageDown, 30);
    assert_eq!(st.scroll, 20);
    let (st, _) = log_step(st, Key::Char('/'), 30);
    assert!(st.searching);
    assert_eq!(st.scroll, 0);
    let (st, _) = log_step(st, Key::Char('q'), 30);
    let (st, _) = log_step(st, Key::Char('x'), 30);
    let (st, _) = log_step(st, Key::Backspace, 30);
    assert_eq!(st.search, "q");
    let (st, leave) = log_step(st, Key::Enter, 30);
    assert!(!st.searching && !leave);
    assert_eq!(st.search, "q");
    let (st, leave) = log_step(st, Key::Char('q'), 30);
    assert!(leave);
    assert_eq!(st.search, "");
}

#[test]
fn history_screen_keys() {
    let pids = vec![10, 20, 30];
    let st = GraphState { selected: 1, scroll: 0, focus: None };
    let (st, c) = graph_step(st, Key::Enter, &pids);
    assert_eq!((st.focus, c), (Some(20), GraphCommand::Nothing));
    let (st, _) = graph_step(st, Key::Right, &pids);
    assert_eq!(st.focus, Some(30));
    let (st, _) = graph_step(st, Key::Right, &pids);
    assert_eq!(st.focus, Some(30));
    let (st, _) = graph_step(st, Key::Left, &pids);
    let (st, _) = graph_step(st, Key::Left, &pids);
    let (st, _) = graph_step(st, Key::Left, &pids);
    assert_eq!(st.focus, Some(10));
    let (st, c) = graph_step(st, Key::Esc, &pids);
    assert_eq!((st.focus, c), (None, GraphCommand::Nothing));
    let (st, c) = graph_step(st, Key::Esc, &pids);
    assert_eq!(c, GraphCommand::Leave);
    let (st, _) = graph_step(st, Key::Down, &pids);
    assert_eq!(st.selected, 2);
    let (st, c) = graph_step(st, Key::Char('q'), &pids);
    assert_eq!(c, GraphCommand::Quit);
    assert_eq!(st.focus, None);
    let mut st = GraphState { selected: 0, scroll: 0, focus: None };
    let many: Vec<u32> = (1..=20).collect();
    for _ in 0..12 {
        st = graph_step(st, Key::Down, &many).0;
    }
    assert_eq!((st.selected, st.scroll), (12, 3));
}

fn cpu_alert() -> Alert {
    Alert {
        name: "cpu".to_string(),
        condition: AlertCondition::CpuGreaterThan { threshold_bits: FIVE_PERCENT_BITS, duration_secs: 5 },
        target: AlertTarget::All,
        enabled: true,
    }
}

#[test]
fn the_alert_editor_saves_name_threshold_and_duration() {
    let alert = cpu_alert();
    let form = alert_form_for(&alert, "5");
    assert_eq!((form.name.as_str(), form.threshold.as_str(), form.duration.as_str(), form.field), ("cpu", "5", "5", 0));
    let memory = preset_alert('m', 0).unwrap();
    let form_m = alert_form_for(&memory, "ignored");
    assert_eq!((form_m.threshold.as_str(), form_m.duration.as_str()), ("100", "5"));
    let death = preset_alert('d', 0).unwrap();
    let form_d = alert_form_for(&death, "ignored");
    assert_eq!((form_d.threshold.as_str(), form_d.duration.as_str()), ("N/A", "N/A"));

    let mut alerts = AlertManager::with_config_path("/nonexistent/alerts.toml".to_string());
    alerts.add_alert(alert);
    alerts.add_alert(memory);
    let mut form = form;
    for k in [Key::Char('!'), Key::Tab, Key::Backspace, Key::Char('9'), Key::Tab, Key::Char('0'), Key::BackTab, Key::BackTab] {
        form = alert_editor_step(form, k, 0, 0, &mut alerts, 0).0;
    }
    assert_eq!((form.name.as_str(), form.threshold.as_str(), form.duration.as_str(), form.field), ("cpu!", "9", "50", 0));
    let (_, close) = alert_editor_step(form, Key::Enter, 9.0f32.to_bits(), 9, &mut alerts, 0);
    assert!(close);
    let a = &alerts.get_alerts()[0];
    assert_eq!(a.name, "cpu!");
    assert!(matches!(a.condition, AlertCondition::CpuGreaterThan { threshold_bits, duration_secs: 50 } if threshold_bits == 9.0f32.to_bits()));
    let form = AlertForm { name: "mem".to_string(), threshold: "250.7".to_string(), duration: "x".to_string(), field: 2 };
    let _ = alert_editor_step(form, Key::Enter, 250.7f32.to_bits(), 250, &mut alerts, 1);
    assert!(matches!(alerts.get_alerts()[1].condition, AlertCondition::MemoryGreaterThan { threshold_mb: 250, duration_secs: 0 }));
    let form = AlertForm { name: "z".to_string(), threshold: String::new(), duration: String::new(), field: 0 };
    let (_, close) = alert_editor_step(form, Key::Esc, 0, 0, &mut alerts, 0);
    assert!(close);
    assert_eq!(alerts.get_alerts()[0].name, "cpu!");
}

#[test]
fn a_profile_opens_in_the_editor_as_it_was_saved() {
    let p = profile_from_fields("work", "firefox, code", "tracker", "make:10, cc:-5");
    let (name, prioritize, hide, nice) = profile_fields(&p);
    assert_eq!(name, "work");
    assert_eq!(prioritize, "firefox, code");
    assert_eq!(hide, "tracker");
    assert_eq!(nice, "make:10, cc:-5");
    let again = profile_from_fields(&name, &prioritize, &hide, &nice);
    assert_eq!(again.prioritize_processes, p.prioritize_processes);
    assert_eq!(again.hide_processes, p.hide_processes);
    assert_eq!(again.nice_adjustments, p.nice_adjustments);
    let empty = Profile::new("blank".to_string());
    assert_eq!(profile_fields(&empty), ("blank".to_string(), String::new(), String::new(), String::new()));
}

#[test]
fn the_profile_editor_saves_over_the_profile_it_edits() {
    let work = profile_from_fields("work", "firefox", "", "make:10");
    let home = profile_from_fields("home", "", "", "");
    let mut profiles = ProfileManager::new("/nonexistent/profiles.toml".to_string(), vec![work, home]);
    let mut form = profile_form_for(&profiles.get_profiles()[0]);
    assert_eq!((form.prioritize.as_str(), form.nice.as_str(), form.field), ("firefox", "make:10", 0));
    for k in [Key::Char(','), Key::Char(' '), Key::Char('c'), Key::Tab, Key::Char('x'), Key::Tab, Key::Backspace, Key::Char('5')] {
        let (f, close) = profile_editor_step(form, k, &mut profiles);
        assert!(!close);
        form = f;
    }
    assert_eq!((form.prioritize.as_str(), form.hide.as_str(), form.nice.as_str()), ("firefox, c", "x", "make:15"));
    let (_, close) = profile_editor_step(form, Key::Enter, &mut profiles);
    assert!(close);
    let names: Vec<&str> = profiles.get_profiles().iter().map(|p| p.name.as_str()).collect();
    assert_eq!(names, vec!["home", "work"]);
    let saved = &profiles.get_profiles()[1];
    assert_eq!(saved.prioritize_processes, vec!["firefox".to_string(), "c".to_string()]);
    assert_eq!(saved.hide_processes, vec!["x".to_string()]);
    assert_eq!(saved.nice_adjustments, vec![("make".to_string(), 15)]);
    let form = profile_form_for(&profiles.get_profiles()[0]);
    let (_, close) = profile_editor_step(form, Key::Esc, &mut profiles);
    assert!(close);
    assert_eq!(profiles.get_profiles().len(), 2);
}
