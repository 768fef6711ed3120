use procsentinel::alert::{Alert, AlertCondition, AlertManager, AlertTarget};
use procsentinel::procinfo::ProcessInfo;
use procsentinel::scheduler::Moment;

fn proc(pid: u32, name: &str, cpu: f32, mem: u64) -> ProcessInfo {
    ProcessInfo {
        pid,
        name: name.to_string(),
        cpu_usage_bits: cpu.to_bits(),
        memory_usage: mem,
        parent_pid: None,
        status: "Running".to_string(),
        user: None,
        nice: 0,
        start_time_str: String::new(),
        start_timestamp: 0,
        cgroup: None,
        container_id: None,
        namespace_ids: Vec::new(),
        host: None,
    }
}

fn alert(name: &str, condition: AlertCondition, target: AlertTarget) -> Alert {
    Alert { name: name.to_string(), condition, target, enabled: true }
}

fn manager(alerts: Vec<Alert>) -> AlertManager {
    let mut m = AlertManager::with_config_path("/tmp/alerts.toml".to_string());
    for a in alerts {
        m.add_alert(a);
    }
    m
}

fn texts(m: &AlertManager) -> Vec<String> {
    m.get_alerts()
        .iter()
        .map(|a| match a.condition {
            AlertCondition::CpuGreaterThan { threshold_bits, .. } => format!("{}", f32::from_bits(threshold_bits)),
            _ => String::new(),
        })
        .collect()
}

#[test]
fn death_alert_is_raised_once() {
    let mut m = manager(vec![alert(
        "died",
        AlertCondition::ProcessDied { pattern: "fire".to_string() },
        AlertTarget::All,
    )]);
    let prev = vec![(10, "firefox".to_string()), (11, "bash".to_string())];
    let t = texts(&m);
    m.check_alerts_at(&[proc(11, "bash", 0.0, 0)], &prev, &t, Moment::from_secs(1000));
    let active = m.get_active_alerts();
    assert_eq!(active.len(), 1);
    assert_eq!(active[0].alert_name, "died");
    assert_eq!(active[0].process_pid, Some(10));
    assert_eq!(active[0].process_name.as_deref(), Some("firefox"));
    assert_eq!(active[0].message, "Process firefox (10) died");
    m.check_alerts_at(&[], &prev, &t, Moment::from_secs(1001));
    assert_eq!(m.get_active_alerts().len(), 1);
    let later = vec![(12, "firefox-bin".to_string())];
    m.check_alerts_at(&[], &later, &t, Moment::from_secs(1002));
    assert_eq!(m.get_active_alerts().len(), 2);
    assert_eq!(m.get_active_alerts()[1].process_pid, Some(12));
}

#[test]
fn star_pattern_matches_every_death() {
    let mut m = manager(vec![alert(
        "any",
        AlertCondition::ProcessDied { pattern: "*".to_string() },
        AlertTarget::All,
    )]);
    let t = texts(&m);
    m.check_alerts_at(&[], &[(1, "x".to_string())], &t, Moment::from_secs(5));
    assert_eq!(m.get_active_alerts().len(), 1);
}

#[test]
fn cpu_alert_waits_for_its_duration() {
    let mut m = manager(vec![alert(
        "hot",
        AlertCondition::CpuGreaterThan { threshold_bits: 50.0f32.to_bits(), duration_secs: 10 },
        AlertTarget::Pattern("work".to_string()),
    )]);
    let t = texts(&m);
    let busy = [proc(7, "worker", 80.5, 0)];
    m.check_alerts_at(&busy, &[], &t, Moment::from_secs(100));
    assert!(m.get_active_alerts().is_empty());
    m.check_alerts_at(&busy, &[], &t, Moment::from_secs(105));
    assert!(m.get_active_alerts().is_empty());
    m.check_alerts_at(&busy, &[], &t, Moment::from_secs(110));
    let active = m.get_active_alerts();
    assert_eq!(active.len(), 1);
    assert_eq!(active[0].message, "hot: Process worker (PID: 7) CPU > 50% for threshold duration");
    m.check_alerts_at(&busy, &[], &t, Moment::from_secs(111));
    assert_eq!(m.get_active_alerts().len(), 1);
}

#[test]
fn condition_that_stops_holding_starts_over() {
    let mut m = manager(vec![alert(
        "hot",
        AlertCondition::CpuGreaterThan { threshold_bits: 50.0f32.to_bits(), duration_secs: 10 },
        AlertTarget::Pid(7),
    )]);
    let t = texts(&m);
    m.check_alerts_at(&[proc(7, "w", 90.0, 0)], &[], &t, Moment::from_secs(100));
    m.check_alerts_at(&[proc(7, "w", 10.0, 0)], &[], &t, Moment::from_secs(105));
    m.check_alerts_at(&[proc(7, "w", 90.0, 0)], &[], &t, Moment::from_secs(111));
    assert!(m.get_active_alerts().is_empty());
    m.check_alerts_at(&[proc(7, "w", 90.0, 0)], &[], &t, Moment::from_secs(121));
    assert_eq!(m.get_active_alerts().len(), 1);
}

#[test]
fn memory_alert_with_zero_duration_fires_at_once() {
    let mut m = manager(vec![alert(
        "big",
        AlertCondition::MemoryGreaterThan { threshold_mb: 100, duration_secs: 0 },
        AlertTarget::All,
    )]);
    let t = texts(&m);
    let ps = [proc(1, "small", 0.0, 100 * 1024 * 1024), proc(2, "large", 0.0, 101 * 1024 * 1024)];
    m.check_alerts_at(&ps, &[], &t, Moment::from_secs(1));
    let active = m.get_active_alerts();
    assert_eq!(active.len(), 1);
    assert_eq!(active[0].process_pid, Some(2));
    assert_eq!(active[0].message, "big: Process large (PID: 2) Memory > 100MB for threshold duration");
}

#[test]
fn active_alerts_expire_after_five_minutes() {
    let mut m = manager(vec![alert(
        "big",
        AlertCondition::MemoryGreaterThan { threshold_mb: 0, duration_secs: 0 },
        AlertTarget::All,
    )]);
    let t = texts(&m);
    let ps = [proc(1, "p", 0.0, 10 * 1024 * 1024)];
    m.check_alerts_at(&ps, &[], &t, Moment::from_secs(1000));
    assert_eq!(m.get_active_alerts().len(), 1);
    m.check_alerts_at(&[], &[], &t, Moment::from_secs(1299));
    assert_eq!(m.get_active_alerts().len(), 1);
    m.check_alerts_at(&[], &[], &t, Moment::from_secs(1300));
    assert!(m.get_active_alerts().is_empty());
}

#[test]
fn disabled_and_io_alerts_never_fire() {
    let mut off = alert(
        "off",
        AlertCondition::MemoryGreaterThan { threshold_mb: 0, duration_secs: 0 },
        AlertTarget::All,
    );
    off.enabled = false;
    let io = alert(
        "io",
        AlertCondition::IoGreaterThan { threshold_mb_per_sec_bits: 0, duration_secs: 0 },
        AlertTarget::All,
    );
    let mut m = manager(vec![off, io]);
    let t = texts(&m);
    m.check_alerts_at(&[proc(1, "p", 99.0, 1 << 40)], &[], &t, Moment::from_secs(1));
    assert!(m.get_active_alerts().is_empty());
}

#[test]
fn alert_list_edits() {
    let mut m = manager(vec![
        alert("a", AlertCondition::ProcessDied { pattern: "*".to_string() }, AlertTarget::All),
        alert("b", AlertCondition::ProcessDied { pattern: "*".to_string() }, AlertTarget::All),
    ]);
    assert!(m.toggle_alert(1));
    assert!(!m.get_alerts()[1].enabled);
    assert!(!m.toggle_alert(2));
    assert_eq!(m.remove_alert(0).unwrap().name, "a");
    assert!(m.remove_alert(3).is_none());
    assert_eq!(m.get_alerts().len(), 1);
    assert_eq!(m.config_path(), "/tmp/alerts.toml");
    let t = vec![String::new()];
    m.get_alerts_mut()[0].enabled = true;
    m.check_alerts_at(&[], &[(3, "x".to_string()), (4, "y".to_string())], &t, Moment::from_secs(9));
    assert_eq!(m.get_active_alerts().len(), 2);
    m.clear_active_alert(0);
    assert_eq!(m.get_active_alerts()[0].process_pid, Some(4));
    m.clear_all_active_alerts();
    assert!(m.get_active_alerts().is_empty());
}

#[test]
fn processes_with_a_raised_alert_are_flagged() {
    let mut m = manager(vec![alert(
        "died",
        AlertCondition::ProcessDied { pattern: "fire".to_string() },
        AlertTarget::All,
    )]);
    assert!(!m.has_alert_for(10));
    let prev = vec![(10, "firefox".to_string()), (11, "bash".to_string())];
    let t = texts(&m);
    m.check_alerts_at(&[proc(11, "bash", 0.0, 0)], &prev, &t, Moment::from_secs(1000));
    assert!(m.has_alert_for(10));
    assert!(!m.has_alert_for(11));
    m.clear_all_active_alerts();
    assert!(!m.has_alert_for(10));
}

#[test]
fn cpu_alert_without_duration_fires_at_once_and_once() {
    let mut m = manager(vec![
        alert("hot", AlertCondition::CpuGreaterThan { threshold_bits: 50.0f32.to_bits(), duration_secs: 0 }, AlertTarget::All),
        Alert {
            name: "off".to_string(),
            condition: AlertCondition::CpuGreaterThan { threshold_bits: 0.0f32.to_bits(), duration_secs: 0 },
            target: AlertTarget::All,
            enabled: false,
        },
    ]);
    let t = texts(&m);
    let ps = [proc(1, "busy", 75.0, 0), proc(2, "idle", 10.0, 0)];
    m.check_alerts_at(&ps, &[], &t, Moment::from_secs(500));
    let active = m.get_active_alerts();
    assert_eq!(active.len(), 1);
    assert_eq!(active[0].alert_name, "hot");
    assert_eq!(active[0].process_pid, Some(1));
    assert_eq!(active[0].triggered_at, Moment::from_secs(500));
    m.check_alerts_at(&ps, &[], &t, Moment::from_secs(501));
    assert_eq!(m.get_active_alerts().len(), 1);
    assert_eq!(m.get_active_alerts()[0].triggered_at, Moment::from_secs(500));
}
