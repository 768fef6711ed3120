use procsentinel::agent::agent_listen_addr;
use procsentinel::coordinator::{Coordinator, RemoteProcessInfo};
use procsentinel::scheduler::Moment;

#[test]
fn agent_never_binds_to_all_network_interfaces() {
    for port in [0, 3000, 8080, u16::MAX] {
        let addr = agent_listen_addr(port);
        assert!(addr.is_loopback(), "unexpected public bind: {:?}", addr);
        assert_eq!(addr.port, port);
    }
}

#[test]
fn agent_address_is_localhost() {
    assert_eq!(agent_listen_addr(3000).octets, [127, 0, 0, 1]);
}

fn remote(pid: u32, host: &str) -> RemoteProcessInfo {
    RemoteProcessInfo {
        pid,
        name: format!("p{pid}"),
        cpu_usage_bits: 1.5f32.to_bits(),
        memory_usage: 1,
        parent_pid: Some(1),
        status: "Running".to_string(),
        user: Some("u".to_string()),
        nice: 0,
        start_time_str: "10:00:00".to_string(),
        start_timestamp: 5,
        host: host.to_string(),
    }
}

#[test]
fn hosts_are_added_once_and_removed() {
    let mut c = Coordinator::new();
    c.add_host("10.0.0.1:3000".to_string(), "one".to_string());
    c.add_host("10.0.0.2:3000".to_string(), "two".to_string());
    c.add_host("10.0.0.1:3000".to_string(), "again".to_string());
    assert_eq!(c.get_hosts().len(), 2);
    assert_eq!(c.get_hosts()[0].name, "one");
    assert!(!c.get_hosts()[0].connected);
    c.remove_host("10.0.0.1:3000");
    assert_eq!(c.get_hosts().len(), 1);
    assert_eq!(c.get_hosts()[0].address, "10.0.0.2:3000");
}

#[test]
fn reports_replace_earlier_ones() {
    let mut c = Coordinator::new();
    c.add_host("a:1".to_string(), "a".to_string());
    c.add_host("b:1".to_string(), "b".to_string());
    c.update_host_data_at("a:1", vec![remote(1, "a"), remote(2, "a")], Moment::from_secs(50));
    c.update_host_data_at("b:1", vec![remote(3, "b")], Moment::from_secs(51));
    c.update_host_data_at("a:1", vec![remote(4, "a")], Moment::from_secs(52));
    let pids: Vec<u32> = c.get_remote_processes().iter().map(|p| p.pid).collect();
    assert_eq!(pids, vec![4, 3]);
    assert!(c.get_hosts()[0].connected);
    assert_eq!(c.get_hosts()[0].last_update.unwrap().as_secs(), 52);
    c.mark_host_disconnected("a:1");
    assert!(!c.get_hosts()[0].connected);
    c.remove_host("a:1");
    let pids: Vec<u32> = c.get_remote_processes().iter().map(|p| p.pid).collect();
    assert_eq!(pids, vec![3]);
    c.update_host_data("b:1", vec![]);
    assert!(c.get_remote_processes().is_empty());
    assert!(c.get_hosts()[0].last_update.is_some());
}

#[test]
fn reported_process_becomes_a_local_record() {
    let p = remote(9, "far").into_process_info();
    assert_eq!(p.pid, 9);
    assert_eq!(p.name, "p9");
    assert_eq!(p.host.as_deref(), Some("far"));
    assert!(p.cgroup.is_none());
    assert!(p.namespace_ids.is_empty());
    assert_eq!(f32::from_bits(p.cpu_usage_bits), 1.5);
}
