use procsentinel::kill_dialog::Key;
use procsentinel::procinfo::ProcessInfo;
use procsentinel::screens::{
    advanced_filter_done, browse_step, toggle_pid, BrowseEffect, BrowseState, Screen, StatsTab, DISPLAY_LIMIT,
};

fn proc(pid: u32) -> ProcessInfo {
    ProcessInfo {
        pid,
        name: format!("p{pid}"),
        cpu_usage_bits: 0.0f32.to_bits(),
        memory_usage: 0,
        parent_pid: None,
        status: "Running".to_string(),
        user: None,
        nice: 0,
        start_time_str: "00:00:00".to_string(),
        start_timestamp: 0,
        cgroup: None,
        container_id: None,
        namespace_ids: Vec::new(),
        host: None,
    }
}

fn press(st: BrowseState, key: Key, ps: &[ProcessInfo]) -> (BrowseState, BrowseEffect) {
    browse_step(st, key, ps)
}

fn keys(mut st: BrowseState, ks: &[Key], ps: &[ProcessInfo]) -> BrowseState {
    for k in ks {
        st = press(st, *k, ps).0;
    }
    st
}

#[test]
fn the_list_starts_sorted_by_pid() {
    let st = BrowseState::new();
    assert_eq!(st.screen, Screen::ProcessList);
    assert_eq!(st.cursor.selected, 0);
    assert_eq!(st.cursor.display_limit, DISPLAY_LIMIT);
    assert_eq!(st.sort_mode.as_deref(), Some("pid"));
    assert!(st.sort_ascending);
    assert!(st.selected.is_empty());
}

#[test]
fn the_cursor_scrolls_with_the_list() {
    let ps: Vec<ProcessInfo> = (1..=30).map(proc).collect();
    let st = keys(BrowseState::new(), &[Key::Down; 25], &ps);
    assert_eq!(st.cursor.selected, 25);
    assert_eq!(st.cursor.scroll, 6);
    let st = keys(st, &[Key::Down; 10], &ps);
    assert_eq!(st.cursor.selected, 29);
    let st = keys(st, &[Key::Up; 29], &ps);
    assert_eq!(st.cursor.selected, 0);
    assert_eq!(st.cursor.scroll, 0);
    let st = keys(st, &[Key::Up], &ps);
    assert_eq!(st.cursor.selected, 0);
}

#[test]
fn keys_of_the_list_open_screens() {
    let ps = vec![proc(1)];
    let (st, e) = press(BrowseState::new(), Key::Char('q'), &ps);
    assert!(matches!(e, BrowseEffect::Quit));
    assert_eq!(st.screen, Screen::ProcessList);
    for (c, screen) in [('s', Screen::Statistics), ('1', Screen::FilterSort), ('2', Screen::ChangeNice), ('5', Screen::ProcessLog), ('6', Screen::Help)] {
        let (st, e) = press(BrowseState::new(), Key::Char(c), &ps);
        assert_eq!(st.screen, screen);
        assert!(matches!(e, BrowseEffect::Nothing));
    }
    for (c, screen) in [
        ('g', Screen::Grouped),
        ('J', Screen::Scheduler),
        ('n', Screen::StartProcess),
        ('P', Screen::Profiles),
        ('A', Screen::Alerts),
        ('c', Screen::Checkpoints),
        ('h', Screen::Hosts),
    ] {
        let (st, e) = press(BrowseState::new(), Key::Char(c), &ps);
        assert_eq!(st.screen, screen);
        assert!(matches!(e, BrowseEffect::Open(s) if s == screen));
    }
    let st = keys(BrowseState::new(), &[Key::Down], &[proc(1), proc(2)]);
    let (st, e) = press(st, Key::Char('4'), &ps);
    assert_eq!(st.screen, Screen::PerProcessGraph);
    assert_eq!(st.cursor.selected, 0);
    assert!(matches!(e, BrowseEffect::Open(Screen::PerProcessGraph)));
    let (_, e) = press(BrowseState::new(), Key::Char('x'), &ps);
    assert!(matches!(e, BrowseEffect::Nothing));
}

#[test]
fn multi_select_marks_processes_for_a_batch() {
    let ps = vec![proc(10), proc(20), proc(30)];
    let (st, e) = press(BrowseState::new(), Key::Char('3'), &ps);
    assert!(matches!(e, BrowseEffect::KillStop { batch: false }));
    assert_eq!(st.screen, Screen::KillStop);
    // Space does nothing until multi-select is on.
    let st = keys(BrowseState::new(), &[Key::Char(' ')], &ps);
    assert!(st.selected.is_empty());
    let st = keys(BrowseState::new(), &[Key::Char('m'), Key::Char(' '), Key::Down, Key::Enter, Key::Down, Key::Char(' ')], &ps);
    assert!(st.multi_select);
    assert_eq!(st.selected, vec![10, 20, 30]);
    let st = keys(st, &[Key::Up, Key::Char(' ')], &ps);
    assert_eq!(st.selected, vec![10, 30]);
    let (st, e) = press(st, Key::Char('3'), &ps);
    assert!(matches!(e, BrowseEffect::KillStop { batch: true }));
    let st = BrowseState { screen: Screen::ProcessList, ..st };
    let st = keys(st, &[Key::Char('M')], &ps);
    assert!(!st.multi_select);
    assert!(st.selected.is_empty());
}

#[test]
fn toggling_a_pid_twice_restores_the_selection() {
    assert_eq!(toggle_pid(vec![1, 2], 3), vec![1, 2, 3]);
    assert_eq!(toggle_pid(vec![1, 2, 3], 2), vec![1, 3]);
    assert_eq!(toggle_pid(toggle_pid(vec![5, 6], 7), 7), vec![5, 6]);
    assert_eq!(toggle_pid(Vec::new(), 4), vec![4]);
}

#[test]
fn the_sort_menu_sorts_and_flips() {
    let ps = vec![proc(1)];
    let st = keys(BrowseState::new(), &[Key::Char('1'), Key::Char('1')], &ps);
    assert_eq!(st.screen, Screen::Sort);
    let (st, e) = press(st, Key::Char('6'), &ps);
    assert_eq!(st.screen, Screen::ProcessList);
    assert_eq!(st.sort_mode.as_deref(), Some("cpu"));
    match e {
        BrowseEffect::Sort { mode, ascending } => {
            assert_eq!(mode, "cpu");
            assert!(ascending);
        }
        other => panic!("unexpected {other:?}"),
    }
    let (st, e) = press(st, Key::Char('a'), &ps);
    assert!(!st.sort_ascending);
    assert!(matches!(e, BrowseEffect::Sort { ref mode, ascending: false } if mode == "cpu"));
    let st = BrowseState { sort_mode: None, ..st };
    let (st, e) = press(st, Key::Char('a'), &ps);
    assert!(st.sort_ascending);
    assert!(matches!(e, BrowseEffect::Nothing));
    for (c, mode) in [('1', "pid"), ('2', "mem"), ('3', "ppid"), ('4', "start"), ('5', "nice")] {
        let st = keys(BrowseState::new(), &[Key::Char('1'), Key::Char('1')], &ps);
        let (st, _) = press(st, Key::Char(c), &ps);
        assert_eq!(st.sort_mode.as_deref(), Some(mode));
    }
    let st = keys(BrowseState::new(), &[Key::Char('1'), Key::Char('1'), Key::Esc], &ps);
    assert_eq!(st.screen, Screen::FilterSort);
    let st = keys(st, &[Key::Backspace], &ps);
    assert_eq!(st.screen, Screen::ProcessList);
}

#[test]
fn the_filter_menu_takes_digits_for_pids() {
    let ps = vec![proc(1)];
    let st = keys(BrowseState::new(), &[Key::Char('1'), Key::Char('2'), Key::Char('3')], &ps);
    assert_eq!(st.screen, Screen::FilterInput);
    assert_eq!(st.filter_mode.as_deref(), Some("pid"));
    let st = keys(st, &[Key::Char('4'), Key::Char('x'), Key::Char('2'), Key::Char('9'), Key::Backspace], &ps);
    assert_eq!(st.filter_input, "42");
    let (st, e) = press(st, Key::Enter, &ps);
    assert_eq!(st.screen, Screen::ProcessList);
    match e {
        BrowseEffect::Filter { mode, value } => {
            assert_eq!(mode.as_deref(), Some("pid"));
            assert_eq!(value.as_deref(), Some("42"));
        }
        other => panic!("unexpected {other:?}"),
    }
    let st = keys(BrowseState::new(), &[Key::Char('1'), Key::Char('2'), Key::Char('2')], &ps);
    assert_eq!(st.filter_mode.as_deref(), Some("name"));
    let st = keys(st, &[Key::Char('f'), Key::Char('x')], &ps);
    assert_eq!(st.filter_input, "fx");
    let (st, e) = press(st, Key::Esc, &ps);
    assert_eq!(st.screen, Screen::ProcessList);
    assert!(st.filter_mode.is_none());
    assert!(st.filter_input.is_empty());
    assert!(matches!(e, BrowseEffect::Filter { mode: None, value: None }));
    // Enter on an empty input does nothing; Left goes back to the menu.
    let st = keys(BrowseState::new(), &[Key::Char('1'), Key::Char('2'), Key::Char('1')], &ps);
    let (st, e) = press(st, Key::Enter, &ps);
    assert_eq!(st.screen, Screen::FilterInput);
    assert!(matches!(e, BrowseEffect::Nothing));
    let st = keys(st, &[Key::Char('r'), Key::Left], &ps);
    assert_eq!(st.screen, Screen::Filter);
    assert!(st.filter_input.is_empty());
}

#[test]
fn advanced_filter_and_rule_inputs() {
    let ps = vec![proc(1)];
    let mut st = keys(BrowseState::new(), &[Key::Char('1'), Key::Char('3')], &ps);
    assert_eq!(st.screen, Screen::AdvancedFilter);
    for c in "  cpu > 5 ".chars() {
        st = press(st, Key::Char(c), &ps).0;
    }
    let (st, e) = press(st, Key::Enter, &ps);
    assert_eq!(st.screen, Screen::AdvancedFilter);
    assert!(matches!(e, BrowseEffect::AdvancedFilter(ref t) if t == "cpu > 5"));
    let (st2, m, err) = advanced_filter_done(st, "cpu > 5", None);
    assert_eq!(st2.screen, Screen::ProcessList);
    assert_eq!((m.as_str(), err), ("Filter applied: cpu > 5", false));
    let st = BrowseState { screen: Screen::AdvancedFilter, ..BrowseState::new() };
    let (st, m, err) = advanced_filter_done(st, "cpu >", Some("Invalid number: "));
    assert_eq!(st.screen, Screen::AdvancedFilter);
    assert_eq!((m.as_str(), err), ("Filter error: Invalid number: ", true));
    let (st, m, err) = advanced_filter_done(st, "", None);
    assert_eq!(st.screen, Screen::ProcessList);
    assert_eq!((m.as_str(), err), ("Filter cleared", false));
    let st = BrowseState { screen: Screen::AdvancedFilter, ..st };
    let (_, m, err) = advanced_filter_done(st, "", Some("boom"));
    assert_eq!((m.as_str(), err), ("Error: boom", true));

    let mut st = keys(BrowseState::new(), &[Key::Char('1'), Key::Char('x')], &ps);
    assert_eq!(st.screen, Screen::RuleInput);
    for c in " cpu > 1.0 ".chars() {
        st = press(st, Key::Char(c), &ps).0;
    }
    let (st, e) = press(st, Key::Enter, &ps);
    assert_eq!(st.screen, Screen::ProcessList);
    assert!(matches!(e, BrowseEffect::Rule(ref t) if t == "cpu > 1.0"));
}

#[test]
fn statistics_tabs_and_scrolling() {
    let ps = vec![proc(1)];
    let st = keys(BrowseState::new(), &[Key::Char('S'), Key::Char('3'), Key::Down, Key::Down, Key::PageDown, Key::Up], &ps);
    assert_eq!(st.screen, Screen::Statistics);
    assert_eq!(st.stats_tab, StatsTab::Cpu);
    assert_eq!(st.stats_scroll, 13);
    let st = keys(st, &[Key::PageUp, Key::PageUp], &ps);
    assert_eq!(st.stats_scroll, 0);
    let st = keys(st, &[Key::End], &ps);
    assert_eq!(st.stats_scroll, usize::MAX);
    let st = keys(st, &[Key::Down], &ps);
    assert_eq!(st.stats_scroll, usize::MAX);
    let st = keys(st, &[Key::Home, Key::Char('4'), Key::Down], &ps);
    assert_eq!(st.stats_tab, StatsTab::Memory);
    assert_eq!(st.stats_scroll, 0);
    let st = keys(st, &[Key::Char('q')], &ps);
    assert_eq!(st.screen, Screen::ProcessList);
    assert_eq!(st.stats_tab, StatsTab::Graphs);
    let st = keys(st, &[Key::Char('6'), Key::Char('x')], &ps);
    assert_eq!(st.screen, Screen::Help);
    let st = keys(st, &[Key::Char('Q')], &ps);
    assert_eq!(st.screen, Screen::ProcessList);
}
