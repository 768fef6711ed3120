use procsentinel::kill_dialog::{
    batch_report, child_failure_report, kill_stop_step, kill_tree_report, signal_report,
    terminate_tree_report, Key, KillStopEffect, KillStopState, ListCursor, SignalKind,
};
use procsentinel::procinfo::ProcessInfo;

fn proc(pid: u32, name: &str, parent: Option<u32>) -> ProcessInfo {
    ProcessInfo {
        pid,
        name: name.to_string(),
        cpu_usage_bits: 0.0f32.to_bits(),
        memory_usage: 0,
        parent_pid: parent,
        status: "Sleeping".to_string(),
        user: None,
        nice: 0,
        start_time_str: "00:00:00".to_string(),
        start_timestamp: 0,
        cgroup: None,
        container_id: None,
        namespace_ids: Vec::new(),
        host: None,
    }
}

fn cursor(selected: usize) -> ListCursor {
    ListCursor { selected, scroll: 0, display_limit: 2 }
}

fn listing() -> Vec<ProcessInfo> {
    vec![proc(10, "shell", None), proc(11, "child", Some(10)), proc(12, "other", None)]
}

#[test]
fn cursor_moves_and_scrolls_within_the_list() {
    let ps = listing();
    let (s, c, e) = kill_stop_step(KillStopState::SelectingPid, Key::Down, cursor(0), &ps, &[]);
    assert!(matches!(s, KillStopState::SelectingPid));
    assert!(matches!(e, KillStopEffect::Nothing));
    assert_eq!(c, ListCursor { selected: 1, scroll: 0, display_limit: 2 });
    let (_, c, _) = kill_stop_step(KillStopState::SelectingPid, Key::Down, c, &ps, &[]);
    assert_eq!(c, ListCursor { selected: 2, scroll: 1, display_limit: 2 });
    let (_, c2, _) = kill_stop_step(KillStopState::SelectingPid, Key::Down, c, &ps, &[]);
    assert_eq!(c2, c);
    let (_, c, _) = kill_stop_step(KillStopState::SelectingPid, Key::Up, c, &ps, &[]);
    let (_, c, _) = kill_stop_step(KillStopState::SelectingPid, Key::Up, c, &ps, &[]);
    assert_eq!(c, ListCursor { selected: 0, scroll: 0, display_limit: 2 });
    let (_, c, _) = kill_stop_step(KillStopState::SelectingPid, Key::Up, c, &ps, &[]);
    assert_eq!(c.selected, 0);
}

#[test]
fn enter_needs_a_process_and_esc_leaves() {
    let (s, _, e) = kill_stop_step(KillStopState::SelectingPid, Key::Enter, cursor(0), &[], &[]);
    assert!(matches!(s, KillStopState::SelectingPid));
    assert!(matches!(e, KillStopEffect::Nothing));
    let ps = listing();
    let (s, _, e) = kill_stop_step(KillStopState::SelectingPid, Key::Enter, cursor(0), &ps, &[]);
    assert!(matches!(s, KillStopState::EnteringAction));
    assert!(matches!(e, KillStopEffect::StartAction));
    let (s, _, e) = kill_stop_step(KillStopState::SelectingPid, Key::Esc, cursor(0), &ps, &[]);
    assert!(matches!(s, KillStopState::SelectingPid));
    assert!(matches!(e, KillStopEffect::Leave));
    let (s, _, e) = kill_stop_step(KillStopState::EnteringAction, Key::Esc, cursor(0), &ps, &[]);
    assert!(matches!(s, KillStopState::SelectingPid));
    assert!(matches!(e, KillStopEffect::ClearInput));
}

#[test]
fn killing_a_parent_warns_about_its_children() {
    let ps = listing();
    let (s, _, _) = kill_stop_step(KillStopState::EnteringAction, Key::Char('k'), cursor(0), &ps, &[]);
    match s {
        KillStopState::DependencyWarning { pid, process_name, action, child_count, children } => {
            assert_eq!(pid, 10);
            assert_eq!(process_name, "shell");
            assert_eq!(action, SignalKind::Kill);
            assert_eq!(child_count, 1);
            assert_eq!(children, vec![(11, "child".to_string())]);
        }
        other => panic!("unexpected state {:?}", other),
    }
    // Stopping a parent needs no warning.
    let (s, _, _) = kill_stop_step(KillStopState::EnteringAction, Key::Char('s'), cursor(0), &ps, &[]);
    match s {
        KillStopState::ConfirmingAction { pid, process_name, action } => {
            assert_eq!((pid, process_name.as_str(), action), (10, "shell", SignalKind::Stop));
        }
        other => panic!("unexpected state {:?}", other),
    }
    // An unknown key keeps the dialog where it is.
    let (s, _, _) = kill_stop_step(KillStopState::EnteringAction, Key::Char('x'), cursor(0), &ps, &[]);
    assert!(matches!(s, KillStopState::EnteringAction));
}

#[test]
fn warning_choices() {
    let warning = || KillStopState::DependencyWarning {
        pid: 10,
        process_name: "shell".to_string(),
        action: SignalKind::Terminate,
        child_count: 2,
        children: vec![(11, "a".to_string()), (12, "b".to_string())],
    };
    let ps = listing();
    let (s, _, e) = kill_stop_step(warning(), Key::Char('p'), cursor(0), &ps, &[]);
    assert!(matches!(s, KillStopState::ConfirmingAction { pid: 10, action: SignalKind::Terminate, .. }));
    assert!(matches!(e, KillStopEffect::Nothing));
    let (s, _, e) = kill_stop_step(warning(), Key::Char('2'), cursor(0), &ps, &[]);
    assert!(matches!(s, KillStopState::SelectingPid));
    match e {
        KillStopEffect::TerminateTree { pid, children, child_count } => {
            assert_eq!((pid, children, child_count), (10, vec![11, 12], 2));
        }
        other => panic!("unexpected effect {:?}", other),
    }
    let (s, _, _) = kill_stop_step(warning(), Key::Esc, cursor(0), &ps, &[]);
    assert!(matches!(s, KillStopState::EnteringAction));
    let kill_warning = KillStopState::DependencyWarning {
        pid: 10,
        process_name: "shell".to_string(),
        action: SignalKind::Kill,
        child_count: 1,
        children: vec![(11, "a".to_string())],
    };
    let (_, _, e) = kill_stop_step(kill_warning, Key::Char('a'), cursor(0), &ps, &[]);
    assert!(matches!(e, KillStopEffect::KillTree { pid: 10, child_count: 1 }));
}

#[test]
fn confirmation_signals_only_on_yes() {
    let confirming = || KillStopState::ConfirmingAction {
        pid: 12,
        process_name: "other".to_string(),
        action: SignalKind::Continue,
    };
    let ps = listing();
    let (s, _, e) = kill_stop_step(confirming(), Key::Char('y'), cursor(0), &ps, &[]);
    assert!(matches!(s, KillStopState::SelectingPid));
    assert!(matches!(e, KillStopEffect::Signal { pid: 12, action: SignalKind::Continue }));
    let (_, _, e) = kill_stop_step(confirming(), Key::Enter, cursor(0), &ps, &[]);
    assert!(matches!(e, KillStopEffect::Signal { pid: 12, .. }));
    let (s, _, e) = kill_stop_step(confirming(), Key::Char('n'), cursor(0), &ps, &[]);
    assert!(matches!(s, KillStopState::EnteringAction));
    assert!(matches!(e, KillStopEffect::Nothing));
    let (s, _, e) = kill_stop_step(confirming(), Key::Char('q'), cursor(0), &ps, &[]);
    assert!(matches!(s, KillStopState::ConfirmingAction { pid: 12, .. }));
    assert!(matches!(e, KillStopEffect::Nothing));
}

#[test]
fn batch_selection_is_confirmed_as_a_whole() {
    let ps = listing();
    let (s, _, _) = kill_stop_step(KillStopState::EnteringAction, Key::Char('t'), cursor(0), &ps, &[12, 99, 10]);
    match s {
        KillStopState::ConfirmingBatchAction { pids, process_names, action } => {
            assert_eq!(pids, vec![12, 99, 10]);
            assert_eq!(process_names, vec!["other".to_string(), "shell".to_string()]);
            assert_eq!(action, SignalKind::Terminate);
        }
        other => panic!("unexpected state {:?}", other),
    }
    let batch = KillStopState::ConfirmingBatchAction {
        pids: vec![1, 2],
        process_names: vec![],
        action: SignalKind::Kill,
    };
    let (s, _, e) = kill_stop_step(batch, Key::Enter, cursor(0), &ps, &[]);
    assert!(matches!(s, KillStopState::SelectingPid));
    match e {
        KillStopEffect::Batch { pids, action } => assert_eq!((pids, action), (vec![1, 2], SignalKind::Kill)),
        other => panic!("unexpected effect {:?}", other),
    }
}

#[test]
fn report_texts() {
    assert_eq!(signal_report(SignalKind::Kill, 42, None), ("Successfully killed process 42".to_string(), false));
    assert_eq!(
        signal_report(SignalKind::Terminate, 7, Some("denied")),
        ("Error sending termination request: denied 7".to_string(), true)
    );
    assert_eq!(
        signal_report(SignalKind::Stop, 3, None),
        ("Successfully stopped process 3".to_string(), false)
    );
    assert_eq!(batch_report(SignalKind::Stop, 2, 0), ("Batch stop: 2 succeeded, 0 failed".to_string(), false));
    assert_eq!(batch_report(SignalKind::Continue, 1, 3), ("Batch continue: 1 succeeded, 3 failed".to_string(), true));
    assert_eq!(
        kill_tree_report(Ok(3), 2),
        ("Successfully killed 3 processes (parent + 2 children)".to_string(), false)
    );
    assert_eq!(kill_tree_report(Err("gone"), 2), ("Error killing processes: gone".to_string(), true));
    assert_eq!(
        child_failure_report(11, "no such process"),
        ("Error terminating child process 11: no such process".to_string(), true)
    );
    assert_eq!(
        terminate_tree_report(2, 2, None),
        ("Successfully terminated 3 processes (parent + 2 children)".to_string(), false)
    );
    assert_eq!(
        terminate_tree_report(2, 2, Some("busy")),
        ("Error terminating parent process: busy".to_string(), true)
    );
}
