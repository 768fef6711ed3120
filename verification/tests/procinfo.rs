use procsentinel::procinfo::{
    process_status, status_style, StatusStyle, get_cgroup, get_container_id, get_namespace_ids, inode_of_link, read_process_cmdline,
};

#[test]
fn cgroup_is_the_first_meaningful_path() {
    assert_eq!(get_cgroup("0::/\n1:cpu:/user.slice/app\n"), Some("/user.slice/app".to_string()));
    assert_eq!(get_cgroup("0::/system.slice/ssh.service\n"), Some("/system.slice/ssh.service".to_string()));
    assert_eq!(get_cgroup("0::/\n"), None);
    assert_eq!(get_cgroup("no colons here\n"), None);
    assert_eq!(get_cgroup("2:mem:  /padded  \r\n"), Some("/padded".to_string()));
    assert_eq!(get_cgroup(""), None);
}

#[test]
fn docker_container_ids() {
    let full = "0123456789abcdef0123456789abcdef0123456789abcdef0123456789abcdef";
    assert_eq!(get_container_id(&format!("/docker/{full}")), Some("0123456789ab".to_string()));
    assert_eq!(
        get_container_id(&format!("/system.slice/docker-{full}.scope")),
        Some("0123456789ab".to_string())
    );
    assert_eq!(
        get_container_id(&format!("/user.slice/user-1000.slice/docker-{full}.scope")),
        Some("0123456789ab".to_string())
    );
    assert_eq!(get_container_id("/docker/abc"), Some("abc".to_string()));
}

#[test]
fn kubernetes_and_other_runtimes() {
    let full = "fedcba9876543210fedcba9876543210fedcba9876543210fedcba9876543210";
    assert_eq!(
        get_container_id(&format!("/kubepods/burstable/pod1234/{full}")),
        Some("fedcba987654".to_string())
    );
    assert_eq!(
        get_container_id("/machine.slice/libpod-abcdef123456789.scope/container"),
        None
    );
    assert_eq!(get_container_id("/libpod/abcdef1234567890"), Some("abcdef123456".to_string()));
    assert_eq!(get_container_id("/init.scope"), None);
    assert_eq!(get_container_id("/user.slice/user-1000.slice/session-2.scope"), None);
    assert_eq!(get_container_id("/custom/runtime-0123456789ab"), Some("runtime-0123".to_string()));
}

#[test]
fn namespace_link_inodes() {
    assert_eq!(inode_of_link("pid:[4026531836]"), Some(4026531836));
    assert_eq!(inode_of_link("[12]"), Some(12));
    assert_eq!(inode_of_link("net:4026531840"), None);
    assert_eq!(inode_of_link("mnt:[x]"), None);
    let ids = get_namespace_ids(&[
        ("pid".to_string(), "pid:[7]".to_string()),
        ("net".to_string(), "bogus".to_string()),
        ("mnt".to_string(), "mnt:[9]".to_string()),
        ("pid".to_string(), "pid:[8]".to_string()),
    ]);
    assert_eq!(ids, vec![("pid".to_string(), 8), ("mnt".to_string(), 9)]);
}

#[test]
fn command_lines() {
    let (prog, args) = read_process_cmdline(b"/usr/bin/vim\0-n\0\0file.txt\0").unwrap();
    assert_eq!(prog, "/usr/bin/vim");
    assert_eq!(args, vec!["-n".to_string(), "file.txt".to_string()]);
    assert!(read_process_cmdline(b"").is_none());
    assert!(read_process_cmdline(b"\0\0").is_none());
    let (p, a) = read_process_cmdline(b"sleep").unwrap();
    assert_eq!(p, "sleep");
    assert!(a.is_empty());
}

#[test]
fn status_names_and_the_run_override() {
    assert_eq!(process_status(Some('R'), "x", 0), "Running");
    assert_eq!(process_status(Some('D'), "x", 0), "Disk Sleep");
    assert_eq!(process_status(Some('x'), "x", 0), "Dead");
    assert_eq!(process_status(Some('Q'), "x", 0), "Unknown(Q)");
    assert_eq!(process_status(None, "Sleep", 0), "Sleep");
    assert_eq!(process_status(None, "Sleep", 0.5f32.to_bits()), "Run");
    assert_eq!(process_status(Some('S'), "x", 2.0f32.to_bits()), "Run");
    assert_eq!(process_status(Some('I'), "x", 1.0f32.to_bits()), "Run");
    assert_eq!(process_status(Some('Z'), "x", 1.0f32.to_bits()), "Zombie");
    assert_eq!(process_status(Some('S'), "x", f32::NAN.to_bits()), "Sleeping");
}

#[test]
fn status_styles_follow_the_state() {
    assert_eq!(status_style(" Running "), StatusStyle::Bold);
    assert_eq!(status_style("Run"), StatusStyle::Bold);
    assert_eq!(status_style("Waking"), StatusStyle::Bold);
    assert_eq!(status_style("Sleeping"), StatusStyle::Blue);
    assert_eq!(status_style("Idle"), StatusStyle::Blue);
    assert_eq!(status_style("Parked"), StatusStyle::Blue);
    assert_eq!(status_style("Disk Sleep"), StatusStyle::Magenta);
    assert_eq!(status_style("Stopped"), StatusStyle::Yellow);
    assert_eq!(status_style("Tracing Stop"), StatusStyle::Yellow);
    assert_eq!(status_style("ZOMBIE"), StatusStyle::Red);
    assert_eq!(status_style("Dead"), StatusStyle::Red);
    assert_eq!(status_style("Wakekill"), StatusStyle::Red);
    assert_eq!(status_style("Unknown(q)"), StatusStyle::Plain);
    assert_eq!(status_style(""), StatusStyle::Plain);
}
