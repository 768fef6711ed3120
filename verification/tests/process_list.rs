use procsentinel::cpu::{f32_gt, f32_lt};
use procsentinel::process::{check_niceness, sort_by_mode, CleanupOp, NiceError, ProcessManager};
use procsentinel::procinfo::ProcessInfo;
use procsentinel::profile::{Profile, ProfileManager};

fn proc(pid: u32, name: &str) -> ProcessInfo {
    ProcessInfo {
        pid,
        name: name.to_string(),
        cpu_usage_bits: 0.0f32.to_bits(),
        memory_usage: 0,
        parent_pid: None,
        status: "Sleeping".to_string(),
        user: None,
        nice: 0,
        start_time_str: "00:00:00".to_string(),
        start_timestamp: 0,
        cgroup: None,
        container_id: None,
        namespace_ids: Vec::new(),
        host: None,
    }
}

fn pids(v: &[ProcessInfo]) -> Vec<u32> {
    v.iter().map(|p| p.pid).collect()
}

#[test]
fn float_order_on_bit_patterns() {
    let values = [-1.5f32, -0.0, 0.0, 1e-40, 2.5, 100.0, f32::INFINITY, f32::NEG_INFINITY, f32::NAN];
    for a in values {
        for b in values {
            assert_eq!(f32_lt(a.to_bits(), b.to_bits()), a < b, "{a} < {b}");
            assert_eq!(f32_gt(a.to_bits(), b.to_bits()), a > b, "{a} > {b}");
        }
    }
}

#[test]
fn sorting_is_stable_in_both_directions() {
    let mut a = proc(3, "b");
    a.memory_usage = 10;
    let mut b = proc(1, "a");
    b.memory_usage = 20;
    let mut c = proc(2, "c");
    c.memory_usage = 10;
    let list = vec![a.duplicate(), b.duplicate(), c.duplicate()];
    assert_eq!(pids(&sort_by_mode(list, "pid", true)), vec![1, 2, 3]);
    let list = vec![a.duplicate(), b.duplicate(), c.duplicate()];
    assert_eq!(pids(&sort_by_mode(list, "mem", true)), vec![3, 2, 1]);
    let list = vec![a.duplicate(), b.duplicate(), c.duplicate()];
    assert_eq!(pids(&sort_by_mode(list, "mem", false)), vec![1, 3, 2]);
    let list = vec![a.duplicate(), b.duplicate(), c.duplicate()];
    assert_eq!(pids(&sort_by_mode(list, "name", false)), vec![2, 3, 1]);
    let list = vec![a, b, c];
    assert_eq!(pids(&sort_by_mode(list, "bogus", true)), vec![3, 1, 2]);
}

#[test]
fn sorting_by_cpu_and_user() {
    let mut a = proc(1, "x");
    a.cpu_usage_bits = 5.0f32.to_bits();
    a.user = Some("zed".to_string());
    let mut b = proc(2, "y");
    b.cpu_usage_bits = 50.0f32.to_bits();
    let mut c = proc(3, "z");
    c.cpu_usage_bits = 0.5f32.to_bits();
    c.user = Some("amy".to_string());
    let list = vec![a.duplicate(), b.duplicate(), c.duplicate()];
    assert_eq!(pids(&sort_by_mode(list, "cpu", false)), vec![2, 1, 3]);
    let list = vec![a, b, c];
    assert_eq!(pids(&sort_by_mode(list, "user", true)), vec![2, 3, 1]);
}

#[test]
fn simple_filters() {
    let mut m = ProcessManager::new();
    let mut a = proc(123, "FireFox");
    a.user = Some("alice".to_string());
    a.parent_pid = Some(77);
    let b = proc(45, "bash");
    let all = || vec![a.duplicate(), b.duplicate()];
    m.set_filter(Some("name".to_string()), Some("fox".to_string()));
    m.refresh(all(), &[]);
    assert_eq!(pids(m.get_processes()), vec![123]);
    m.set_filter(Some("pid".to_string()), Some("4".to_string()));
    m.refresh(all(), &[]);
    assert_eq!(pids(m.get_processes()), vec![45]);
    m.set_filter(Some("ppid".to_string()), Some("7".to_string()));
    m.refresh(all(), &[]);
    assert_eq!(pids(m.get_processes()), vec![123]);
    m.set_filter(Some("user".to_string()), Some("ali".to_string()));
    m.refresh(all(), &[]);
    assert_eq!(pids(m.get_processes()), vec![123]);
    m.set_filter(Some("other".to_string()), Some("x".to_string()));
    m.refresh(all(), &[]);
    assert_eq!(pids(m.get_processes()), vec![123, 45]);
}

#[test]
fn advanced_filter_verdicts_and_parse_errors() {
    let mut m = ProcessManager::new();
    assert!(m.set_advanced_filter_string("name == bash").is_ok());
    m.refresh(vec![proc(1, "a"), proc(2, "bash")], &[false, true]);
    assert_eq!(pids(m.get_processes()), vec![2]);
    assert!(m.set_advanced_filter_string("   ").is_ok());
    m.refresh(vec![proc(1, "a"), proc(2, "bash")], &[]);
    assert_eq!(pids(m.get_processes()), vec![1, 2]);
    assert!(m.set_advanced_filter_string("name").is_err());
    assert!(m.get_advanced_filter_string().is_none());
}

#[test]
fn sort_is_kept_across_refreshes() {
    let mut m = ProcessManager::new();
    m.set_sort("pid", false);
    m.refresh(vec![proc(1, "a"), proc(3, "c"), proc(2, "b")], &[]);
    assert_eq!(pids(m.get_processes()), vec![3, 2, 1]);
}

#[test]
fn prioritized_processes_come_first() {
    let mut profile = Profile::new("work".to_string());
    profile.prioritize_processes.push("code".to_string());
    let mut pm = ProfileManager::new("/tmp/profiles.toml".to_string(), vec![profile]);
    pm.set_active_profile(Some("work".to_string()));
    let mut m = ProcessManager::new();
    m.refresh(vec![proc(1, "bash"), proc(2, "vscode"), proc(3, "zsh"), proc(4, "code-server")], &[]);
    m.apply_prioritization(&pm);
    assert_eq!(pids(m.get_processes()), vec![2, 4, 1, 3]);
}

#[test]
fn nice_plan_skips_processes_already_at_their_value() {
    let mut profile = Profile::new("p".to_string());
    profile.nice_adjustments.push(("make".to_string(), 10));
    let mut pm = ProfileManager::new("/tmp/profiles.toml".to_string(), vec![profile]);
    pm.set_active_profile(Some("p".to_string()));
    let mut done = proc(2, "make");
    done.nice = 10;
    let mut m = ProcessManager::new();
    m.refresh(vec![proc(1, "make"), done, proc(3, "cc")], &[]);
    assert_eq!(m.nice_adjustment_plan(&pm), vec![(1, 10)]);
}

#[test]
fn cleanup_plans() {
    let mut idle = proc(1, "idle");
    idle.cpu_usage_bits = 0.1f32.to_bits();
    idle.memory_usage = 500;
    idle.nice = 17;
    let mut busy = proc(2, "busy");
    busy.cpu_usage_bits = 90.0f32.to_bits();
    busy.memory_usage = 500;
    let mut m = ProcessManager::new();
    m.refresh(vec![idle, busy], &[]);
    let t = 1.0f32.to_bits();
    assert_eq!(m.cleanup_plan(t, 100, "kill"), vec![(1, CleanupOp::Kill)]);
    assert_eq!(m.cleanup_plan(t, 100, "stop"), vec![(1, CleanupOp::Stop)]);
    assert_eq!(m.cleanup_plan(t, 100, "lower_priority"), vec![(1, CleanupOp::Renice(19))]);
    assert!(m.cleanup_plan(t, 100, "explode").is_empty());
    assert!(m.cleanup_plan(t, 500, "kill").is_empty());
}

#[test]
fn children_and_matching_pids() {
    let mut a = proc(10, "child-a");
    a.parent_pid = Some(1);
    let mut b = proc(11, "other");
    b.parent_pid = Some(2);
    let mut c = proc(12, "child-c");
    c.parent_pid = Some(1);
    let mut m = ProcessManager::new();
    m.refresh(vec![a, b, c], &[]);
    assert_eq!(pids(&m.get_child_processes(1)), vec![10, 12]);
    assert!(m.get_child_processes(99).is_empty());
    assert_eq!(m.matching_pids("child"), vec![10, 12]);
    m.apply_rules(&[true, false, true]);
    assert_eq!(pids(m.get_filtered_processes()), vec![10, 12]);
}

#[test]
fn niceness_limits() {
    assert_eq!(check_niceness(20, 0), Err(NiceError::OutOfRange));
    assert_eq!(check_niceness(-21, 0), Err(NiceError::OutOfRange));
    assert_eq!(check_niceness(-5, 1000), Err(NiceError::NeedsRoot));
    assert_eq!(check_niceness(-5, 0), Ok(()));
    assert_eq!(check_niceness(19, 1000), Ok(()));
}

#[test]
fn nice_adjustment_outcomes_are_counted() {
    assert_eq!(ProcessManager::nice_adjustment_counts(&[]), (0, 0));
    assert_eq!(ProcessManager::nice_adjustment_counts(&[true, false, true, true]), (3, 1));
    assert_eq!(ProcessManager::nice_adjustment_counts(&[false, false]), (0, 2));
}

#[test]
fn an_active_profile_hides_matching_processes() {
    let mut profile = Profile::new("quiet".to_string());
    profile.hide_processes.push("kworker".to_string());
    let mut pm = ProfileManager::new("/tmp/profiles.toml".to_string(), vec![profile]);
    let mut m = ProcessManager::new();
    m.refresh(vec![proc(1, "kworker/0:1"), proc(2, "bash"), proc(3, "kworker/1:0"), proc(4, "vim")], &[]);
    assert_eq!(m.visible_positions(&pm), vec![0, 1, 2, 3]);
    pm.set_active_profile(Some("quiet".to_string()));
    assert_eq!(m.visible_positions(&pm), vec![1, 3]);
}
