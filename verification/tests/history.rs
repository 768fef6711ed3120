use procsentinel::history::GraphData;
use procsentinel::scheduler::Moment;
use procsentinel::procinfo::ProcessInfo;

fn proc(pid: u32, cpu: f32, mem: u64) -> ProcessInfo {
    ProcessInfo {
        pid,
        name: format!("p{pid}"),
        cpu_usage_bits: cpu.to_bits(),
        memory_usage: mem,
        parent_pid: None,
        status: "Running".to_string(),
        user: None,
        nice: 0,
        start_time_str: "00:00:00".to_string(),
        start_timestamp: 0,
        cgroup: None,
        container_id: None,
        namespace_ids: Vec::new(),
        host: None,
    }
}

#[test]
fn histories_keep_the_newest_points() {
    let mut g = GraphData::new_at(3, 500, Moment::from_secs(0));
    for i in 0..5u64 {
        assert!(g.update_at(Moment::from_secs(i + 1), (i as f32).to_bits(), 100 + i, &[proc(1, i as f32, i)]));
    }
    let cpu: Vec<f32> = g.get_cpu_history().iter().map(|b| f32::from_bits(*b)).collect();
    assert_eq!(cpu, vec![2.0, 3.0, 4.0]);
    assert_eq!(g.get_memory_history(), &[102, 103, 104]);
    let (c, m) = g.get_process_history(1).unwrap();
    assert_eq!(c.len(), 3);
    assert_eq!(m, &[2, 3, 4]);
    assert!(g.get_process_history(2).is_none());
}

#[test]
fn exited_processes_lose_their_history() {
    let mut g = GraphData::new_at(10, 500, Moment::from_secs(0));
    assert!(g.update_at(Moment::from_secs(1), 0, 0, &[proc(1, 1.0, 10), proc(2, 2.0, 20)]));
    assert!(g.update_at(Moment::from_secs(2), 0, 0, &[proc(2, 3.0, 30), proc(3, 4.0, 40)]));
    assert!(g.get_process_history(1).is_none());
    assert_eq!(g.get_process_history(2).unwrap().1, &[20, 30]);
    assert_eq!(g.get_process_history(3).unwrap().1, &[40]);
}

#[test]
fn zero_points_keep_nothing() {
    let mut g = GraphData::new_at(0, 500, Moment::from_secs(0));
    assert!(g.update_at(Moment::from_secs(1), 1, 1, &[proc(1, 1.0, 1)]));
    assert!(g.get_cpu_history().is_empty());
    assert!(g.get_process_history(1).unwrap().0.is_empty());
}

#[test]
fn updates_closer_than_the_interval_are_ignored() {
    let mut g = GraphData::new_at(10, 2000, Moment::from_secs(100));
    assert!(!g.update_at(Moment::from_secs(101), 7, 70, &[proc(1, 1.0, 1)]));
    assert!(g.get_cpu_history().is_empty());
    assert!(g.get_process_history(1).is_none());
    assert!(g.update_at(Moment::from_secs(102), 7, 70, &[proc(1, 1.0, 1)]));
    assert_eq!(g.get_memory_history(), &[70]);
    assert!(!g.update_at(Moment::from_secs(103), 8, 80, &[]));
    assert!(!g.update_at(Moment::from_secs(50), 8, 80, &[]));
    assert_eq!(g.get_memory_history(), &[70]);
    assert!(g.update_at(Moment::from_secs(104), 8, 80, &[]));
    assert_eq!(g.get_memory_history(), &[70, 80]);
}

#[test]
fn a_fresh_graph_waits_for_the_interval() {
    let mut g = GraphData::new(10, 3_600_000);
    assert!(!g.update(1, 1, &[]));
    assert!(g.get_cpu_history().is_empty());
}
