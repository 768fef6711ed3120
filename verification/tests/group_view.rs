use procsentinel::group_view::{
    group_display_order, grouped_view_step, sort_rows_by_cpu, GroupEffect, GroupViewState,
};
use procsentinel::groups::GroupType;
use procsentinel::kill_dialog::Key;

fn row(id: &str, cpu: f32) -> (String, u32) {
    (id.to_string(), cpu.to_bits())
}

fn ids(rows: &[(String, u32)]) -> Vec<&str> {
    rows.iter().map(|r| r.0.as_str()).collect()
}

fn strings(v: &[&str]) -> Vec<String> {
    v.iter().map(|s| s.to_string()).collect()
}

#[test]
fn groups_are_shown_busiest_first_and_stably() {
    let rows = vec![row("a", 1.0), row("b", 5.0), row("c", 1.0), row("d", 7.5)];
    assert_eq!(ids(&sort_rows_by_cpu(rows.clone())), vec!["d", "b", "a", "c"]);
    assert_eq!(ids(&group_display_order(rows, false, &[], &[])), vec!["d", "b", "a", "c"]);
}

#[test]
fn a_frozen_order_holds_whatever_the_cpu_shares() {
    let order = strings(&["c", "a", "d", "b"]);
    let rows = vec![row("a", 1.0), row("b", 5.0), row("c", 1.0), row("d", 7.5)];
    assert_eq!(ids(&group_display_order(rows, true, &order, &[])), vec!["c", "a", "d", "b"]);
    // A group missing from the frozen order comes after, by CPU.
    let rows = vec![row("a", 1.0), row("e", 9.0), row("b", 5.0), row("x", 10.0)];
    assert_eq!(ids(&group_display_order(rows, true, &order, &[])), vec!["a", "b", "x", "e"]);
}

#[test]
fn expanded_groups_keep_their_frozen_place() {
    let order = strings(&["a", "b", "c"]);
    let rows = vec![row("a", 1.0), row("b", 2.0), row("c", 3.0)];
    let shown = group_display_order(rows, false, &order, &strings(&["b"]));
    assert_eq!(ids(&shown), vec!["b", "c", "a"]);
}

fn state() -> GroupViewState {
    GroupViewState::new()
}

#[test]
fn cursor_moves_within_ten_visible_rows() {
    let rows: Vec<(String, u32)> = (0..12).map(|i| row(&format!("g{i:02}"), (20 - i) as f32)).collect();
    let mut st = state();
    for _ in 0..9 {
        st = grouped_view_step(st, Key::Down, &rows, &[]).0;
    }
    assert_eq!((st.selected, st.scroll), (9, 0));
    st = grouped_view_step(st, Key::Down, &rows, &[]).0;
    assert_eq!((st.selected, st.scroll), (9, 1));
    st = grouped_view_step(st, Key::Down, &rows, &[]).0;
    assert_eq!((st.selected, st.scroll), (9, 2));
    st = grouped_view_step(st, Key::Down, &rows, &[]).0;
    assert_eq!((st.selected, st.scroll), (9, 2));
    for _ in 0..9 {
        st = grouped_view_step(st, Key::Up, &rows, &[]).0;
    }
    assert_eq!((st.selected, st.scroll), (0, 2));
    st = grouped_view_step(st, Key::Up, &rows, &[]).0;
    assert_eq!((st.selected, st.scroll), (0, 1));
}

#[test]
fn enter_expands_and_collapses_a_cgroup() {
    let rows = vec![row("/a", 1.0), row("/b", 2.0)];
    let (st, e) = grouped_view_step(state(), Key::Enter, &rows, &[]);
    assert!(matches!(e, GroupEffect::Nothing));
    assert_eq!(st.expanded, strings(&["/b"]));
    let (st, _) = grouped_view_step(st, Key::Enter, &rows, &[]);
    assert!(st.expanded.is_empty());
    let (_, e) = grouped_view_step(state(), Key::Enter, &[], &[]);
    assert!(matches!(e, GroupEffect::Nothing));
}

#[test]
fn enter_opens_containers_and_namespaces() {
    let mut st = state();
    st.group_type = GroupType::Container;
    let rows = vec![row("abc123", 1.0)];
    let (_, e) = grouped_view_step(st, Key::Enter, &rows, &[]);
    match e {
        GroupEffect::ContainerDetail(id) => assert_eq!(id, "abc123"),
        other => panic!("unexpected effect {:?}", other),
    }
    let mut st = state();
    st.group_type = GroupType::Namespace("net".to_string());
    let (_, e) = grouped_view_step(st, Key::Enter, &[row("net:4026531992", 1.0)], &[]);
    match e {
        GroupEffect::NamespaceDetail(t, id) => assert_eq!((t.as_str(), id), ("net", 4026531992)),
        other => panic!("unexpected effect {:?}", other),
    }
    let mut st = state();
    st.group_type = GroupType::Namespace("net".to_string());
    let (_, e) = grouped_view_step(st, Key::Enter, &[row("net:x1", 1.0)], &[]);
    match e {
        GroupEffect::Message(m, true) => assert_eq!(m, "Invalid namespace ID format: x1"),
        other => panic!("unexpected effect {:?}", other),
    }
    let mut st = state();
    st.group_type = GroupType::Namespace("net".to_string());
    let (_, e) = grouped_view_step(st, Key::Enter, &[row("plain", 1.0)], &[]);
    match e {
        GroupEffect::Message(m, true) => assert_eq!(m, "Invalid namespace group format: plain"),
        other => panic!("unexpected effect {:?}", other),
    }
}

#[test]
fn freezing_records_the_current_order() {
    let rows = vec![row("a", 1.0), row("b", 5.0)];
    let (st, e) = grouped_view_step(state(), Key::Char('f'), &rows, &[]);
    assert!(st.frozen);
    assert_eq!(st.frozen_order, strings(&["b", "a"]));
    match e {
        GroupEffect::Message(m, false) => assert_eq!(m, "Group order frozen - expanded groups will stay in place"),
        other => panic!("unexpected effect {:?}", other),
    }
    // The shares change; the order stays.
    let later = vec![row("a", 50.0), row("b", 5.0)];
    let shown = group_display_order(later.clone(), st.frozen, &st.frozen_order, &st.expanded);
    assert_eq!(ids(&shown), vec!["b", "a"]);
    let (st, e) = grouped_view_step(st, Key::Char('F'), &later, &[]);
    assert!(!st.frozen && st.frozen_order.is_empty());
    match e {
        GroupEffect::Message(m, false) => assert_eq!(m, "Group order unfrozen - groups will sort by CPU"),
        other => panic!("unexpected effect {:?}", other),
    }
}

#[test]
fn switching_groupings_and_cycling_namespace_types() {
    let types = strings(&["mnt", "net", "pid"]);
    let (st, _) = grouped_view_step(state(), Key::Char('3'), &[], &types);
    assert_eq!(st.group_type, GroupType::Namespace("mnt".to_string()));
    assert_eq!(st.namespace_type.as_deref(), Some("mnt"));
    let (st, _) = grouped_view_step(st, Key::Char('3'), &[], &types);
    assert_eq!(st.group_type, GroupType::Namespace("net".to_string()));
    let (st, _) = grouped_view_step(st, Key::Char('3'), &[], &types);
    let (st, _) = grouped_view_step(st, Key::Char('3'), &[], &types);
    assert_eq!(st.group_type, GroupType::Namespace("mnt".to_string()));
    let (st, e) = grouped_view_step(st, Key::Char('3'), &[], &[]);
    match e {
        GroupEffect::Message(m, true) => assert_eq!(m, "No namespace types available"),
        other => panic!("unexpected effect {:?}", other),
    }
    let (st, _) = grouped_view_step(st, Key::Char('4'), &[], &types);
    assert_eq!(st.group_type, GroupType::Username);
    assert_eq!(st.namespace_type, None);
    let (st, _) = grouped_view_step(st, Key::Char('2'), &[], &types);
    assert_eq!(st.group_type, GroupType::Container);
    let (st, e) = grouped_view_step(st, Key::Esc, &[], &types);
    assert!(matches!(e, GroupEffect::Leave));
    assert_eq!((st.selected, st.scroll, st.frozen), (0, 0, false));
}
