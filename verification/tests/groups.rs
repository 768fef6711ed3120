use procsentinel::container_view::{
    get_container_details, get_container_name, get_containers, try_container_name, ContainerInfo,
};
use procsentinel::groups::{GroupType, ProcessGroup, ProcessGroupManager};
use procsentinel::namespace_view::{get_namespace_group_details, get_namespace_groups, NamespaceGroup};
use procsentinel::procinfo::ProcessInfo;

fn proc(pid: u32, name: &str, mem: u64) -> ProcessInfo {
    ProcessInfo {
        pid,
        name: name.to_string(),
        cpu_usage_bits: 0,
        memory_usage: mem,
        parent_pid: None,
        status: "Running".to_string(),
        user: None,
        nice: 0,
        start_time_str: "00:00:00".to_string(),
        start_timestamp: 0,
        cgroup: None,
        container_id: None,
        namespace_ids: Vec::new(),
        host: None,
    }
}

fn pids(g: &ProcessGroup) -> Vec<u32> {
    g.processes.iter().map(|p| p.pid).collect()
}

#[test]
fn cgroup_groups_in_first_appearance_order() {
    let mut a = proc(1, "a", 10);
    a.cgroup = Some("/x".to_string());
    let b = proc(2, "b", 20);
    let mut c = proc(3, "c", 30);
    c.cgroup = Some("/x".to_string());
    let groups = ProcessGroupManager::group_by_cgroup(&[a, b, c]);
    assert_eq!(groups.len(), 2);
    assert_eq!(groups[0].group_id, "/x");
    assert_eq!(groups[0].group_type, GroupType::Cgroup);
    assert_eq!(pids(&groups[0]), vec![1, 3]);
    assert_eq!(groups[0].total_memory, 40);
    assert_eq!(groups[1].group_id, "No cgroup");
    assert_eq!(pids(&groups[1]), vec![2]);
    assert_eq!(groups[1].process_count(), 1);
}

#[test]
fn container_and_user_groups() {
    let mut a = proc(1, "a", 1);
    a.container_id = Some("abc".to_string());
    a.user = Some("root".to_string());
    let b = proc(2, "b", 2);
    let groups = ProcessGroupManager::group_by_container(&[a.duplicate(), b.duplicate()]);
    let ids: Vec<&str> = groups.iter().map(|g| g.group_id.as_str()).collect();
    assert_eq!(ids, vec!["abc", "No container"]);
    let users = ProcessGroupManager::group_by_username(&[a, b]);
    let ids: Vec<&str> = users.iter().map(|g| g.group_id.as_str()).collect();
    assert_eq!(ids, vec!["root", "Unknown"]);
    assert_eq!(users[0].group_type, GroupType::Username);
}

#[test]
fn namespace_groups_leave_out_unknown_namespaces() {
    let mut a = proc(1, "a", 5);
    a.namespace_ids = vec![("pid".to_string(), 7), ("net".to_string(), 100)];
    let mut b = proc(2, "b", 6);
    b.namespace_ids = vec![("pid".to_string(), 8)];
    let c = proc(3, "c", 7);
    let mut d = proc(4, "d", 8);
    d.namespace_ids = vec![("pid".to_string(), 7)];
    let ps = [a, b, c, d];
    let groups = ProcessGroupManager::group_by_namespace(&ps, "pid");
    let ids: Vec<&str> = groups.iter().map(|g| g.group_id.as_str()).collect();
    assert_eq!(ids, vec!["pid:7", "pid:8"]);
    assert_eq!(pids(&groups[0]), vec![1, 4]);
    assert_eq!(groups[0].total_memory, 13);
    assert_eq!(groups[0].group_type, GroupType::Namespace("pid".to_string()));
    let ns: Vec<NamespaceGroup> = get_namespace_groups(&ps, "pid");
    assert_eq!(ns.len(), 2);
    assert_eq!(ns[0].namespace_id, 7);
    assert_eq!(ns[0].memory_usage, 13);
    assert_eq!(ns[1].namespace_id, 8);
    let net = get_namespace_groups(&ps, "net");
    assert_eq!(net.len(), 1);
    assert_eq!(net[0].process_count(), 1);
    let detail = get_namespace_group_details(&ps, "pid", 7).unwrap();
    assert_eq!(detail.processes.iter().map(|p| p.pid).collect::<Vec<_>>(), vec![1, 4]);
    assert!(get_namespace_group_details(&ps, "pid", 99).is_none());
}

#[test]
fn namespace_types_are_sorted_and_distinct() {
    let mut a = proc(1, "a", 0);
    a.namespace_ids = vec![("pid".to_string(), 1), ("net".to_string(), 2)];
    let mut b = proc(2, "b", 0);
    b.namespace_ids = vec![("mnt".to_string(), 3), ("pid".to_string(), 4), ("cgroup".to_string(), 5)];
    let types = ProcessGroupManager::get_available_namespace_types(&[a, b]);
    assert_eq!(types, vec!["cgroup", "mnt", "net", "pid"]);
    assert!(ProcessGroupManager::get_available_namespace_types(&[]).is_empty());
}

#[test]
fn containers_are_named_by_short_id() {
    let mut a = proc(1, "a", 3);
    a.container_id = Some("0123456789abcdef".to_string());
    let b = proc(2, "b", 4);
    let mut c = proc(3, "c", 5);
    c.container_id = Some("0123456789abcdef".to_string());
    let list: Vec<ContainerInfo> = get_containers(&[a, b, c]);
    assert_eq!(list.len(), 1);
    assert_eq!(list[0].id, "0123456789abcdef");
    assert_eq!(list[0].name, "container_0123456789ab");
    assert_eq!(list[0].memory_usage, 8);
    assert!(list[0].start_time.is_none());
}

#[test]
fn container_names_from_docker_output() {
    let out = "0123456789abcdef0000 web\nfedcba987654 db-main\n";
    assert_eq!(get_container_name(Some(out), "0123456789ab"), "web");
    assert_eq!(get_container_name(Some(out), "fedcba9876543210"), "db-main");
    assert_eq!(get_container_name(Some(out), "aaaaaaaaaaaa"), "container_aaaaaaaaaaaa");
    assert_eq!(get_container_name(None, "0123456789abcdefff"), "container_0123456789ab");
    assert!(try_container_name(None, "0123456789aé").is_none());
}

#[test]
fn container_details_match_short_ids() {
    let mut a = proc(1, "a", 3);
    a.container_id = Some("0123456789abXYZ".to_string());
    let mut b = proc(2, "b", 4);
    b.container_id = Some("0123456789ab".to_string());
    let mut c = proc(3, "c", 5);
    c.container_id = Some("999999999999".to_string());
    let ps = [a, b, c];
    let d = get_container_details(&ps, "0123456789abcdef", Some("0123456789ab api\n")).unwrap();
    assert_eq!(d.id, "0123456789ab");
    assert_eq!(d.name, "api");
    assert_eq!(d.processes.iter().map(|p| p.pid).collect::<Vec<_>>(), vec![1, 2]);
    assert_eq!(d.memory_usage, 7);
    assert!(get_container_details(&ps, "777777777777", None).is_none());
}
