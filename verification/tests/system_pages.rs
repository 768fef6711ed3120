use procsentinel::activity::{
    exited_processes, log_summary, new_pids, search_exit_log, task_report, ExitEntry, ExitLog, EXIT_LOG_CAPACITY,
};
use procsentinel::lists::LogGroup;
use procsentinel::procinfo::ProcessInfo;
use procsentinel::scheduler::ScheduleAction;
use procsentinel::system_stats::{
    cpu_count_of, cpu_details, cpu_ticks, disk_bytes, os_name, parse_cpu_stats, sensor_reading, parse_df, parse_meminfo, parse_swaps, parse_vm_stats,
    root_fs_type, state_counts, try_parse_meminfo, CpuStats, MemInfo, StateCounts, VmStats,
};

fn proc(pid: u32, status: &str) -> ProcessInfo {
    ProcessInfo {
        pid,
        name: format!("p{pid}"),
        cpu_usage_bits: 0.0f32.to_bits(),
        memory_usage: 0,
        parent_pid: None,
        status: status.to_string(),
        user: None,
        nice: 0,
        start_time_str: "00:00:00".to_string(),
        start_timestamp: 0,
        cgroup: None,
        container_id: None,
        namespace_ids: Vec::new(),
        host: None,
    }
}

const STAT: &str = "cpu  4705 356 584 3699176 23060 0 277 0 0 0\n\
cpu0 1393280 32966 572056 13343292 6130 0 17875 0 0 0\n\
intr 1462898 31 9 0\n\
ctxt 115315\n\
btime 769041601\n\
processes 86031\n\
procs_running 6\n\
procs_blocked 1\n";

#[test]
fn proc_stat_counters() {
    assert_eq!(
        parse_cpu_stats(STAT),
        CpuStats { context_switches: 115315, processes: 86031, procs_running: 6, procs_blocked: 1, interrupts: 1462898 }
    );
    assert_eq!(
        parse_cpu_stats("ctxt x\nctxt\n"),
        CpuStats { context_switches: 0, processes: 0, procs_running: 0, procs_blocked: 0, interrupts: 0 }
    );
    // The last line of a key counts.
    assert_eq!(parse_cpu_stats("ctxt 1\nctxt 2\n").context_switches, 2);
}

#[test]
fn proc_vmstat_counters() {
    let vm = "nr_free_pages 100\npgfault 7777\npswpin 3\npswpout 4\n";
    assert_eq!(parse_vm_stats(vm, STAT), VmStats { page_faults: 7777, swap_in: 3, swap_out: 4, io_wait: 23060 });
    assert_eq!(parse_vm_stats("", "cpu 1 2 3 4 5\n").io_wait, 0);
    assert_eq!(parse_vm_stats("", "cpu 1 x 2 3 4 5 6\n").io_wait, 5);
    assert_eq!(parse_vm_stats("", "").io_wait, 0);
}

#[test]
fn meminfo_figures() {
    let text = "MemTotal:       16000 kB\nMemFree:         2000 kB\nMemAvailable:    9000 kB\nBuffers:          500 kB\nCached:          3000 kB\n";
    assert_eq!(
        parse_meminfo(text),
        MemInfo { total: 16000, used: 7000, free: 2000, cached: 3500, available: 9000 }
    );
    let old_kernel = "MemTotal: 1000 kB\nMemFree: 100 kB\nBuffers: 50 kB\nCached: 200 kB\n";
    assert_eq!(parse_meminfo(old_kernel).used, 650);
    assert_eq!(try_parse_meminfo("MemTotal: 10 kB\nMemAvailable: 20 kB\n"), None);
    assert_eq!(try_parse_meminfo("").map(|m| m.used), Some(0));
}

#[test]
fn swaps_and_disk() {
    let swaps = "Filename\tType\tSize\tUsed\tPriority\n/swapfile file 2097148 524288 -2\n";
    assert_eq!(parse_swaps(swaps), (512, 2047));
    assert_eq!(parse_swaps("Filename Type Size Used Priority\n"), (0, 0));
    let df = "Filesystem     1M-blocks   Used Available Use% Mounted on\n/dev/sda1        100000M 42000M    58000M  42% /\n";
    assert_eq!(parse_df(df), (100000, 42000));
    assert_eq!(parse_df("header\n/dev/x many few\n"), (0, 0));
}

#[test]
fn cpuinfo_os_release_and_mounts() {
    assert_eq!(cpu_count_of("processor\t: 0\nmodel name : x\nprocessor\t: 1\n"), 2);
    assert_eq!(os_name("NAME=\"Ubuntu\"\nPRETTY_NAME=\"Ubuntu 22.04.3 LTS\"\n"), "Ubuntu 22.04.3 LTS");
    assert_eq!(os_name("NAME=x\n"), "Unknown");
    assert_eq!(os_name("PRETTY_NAME=\n"), "Unknown");
    let mounts = "proc /proc proc rw 0 0\n/dev/sda1 / ext4 rw,relatime 0 0\n";
    assert_eq!(root_fs_type(mounts), "ext4");
    assert_eq!(root_fs_type("proc /proc proc rw 0 0\n"), "Unknown");
}

#[test]
fn process_states_are_counted() {
    let ps = vec![proc(1, "Running"), proc(2, " sleeping "), proc(3, "Stop"), proc(4, "Zombie"), proc(5, "Idle"), proc(6, "Sleep")];
    assert_eq!(state_counts(&ps), StateCounts { running: 1, sleeping: 2, stopped: 1, zombie: 1, other: 1 });
}

#[test]
fn exited_and_new_processes() {
    let prev = vec![proc(1, "R"), proc(2, "R"), proc(3, "R")];
    let current = vec![proc(3, "R"), proc(4, "R"), proc(1, "R")];
    let gone: Vec<u32> = exited_processes(&prev, &current).iter().map(|p| p.pid).collect();
    assert_eq!(gone, vec![2]);
    assert_eq!(new_pids(&prev, &current), vec![4]);
}

fn entry(pid: u32) -> ExitEntry {
    ExitEntry {
        pid,
        name: "x".to_string(),
        user: None,
        start_time: "00:00:00".to_string(),
        exit_time: "2024-01-01 00:00:00".to_string(),
        uptime_secs: 1,
    }
}

#[test]
fn exit_log_keeps_the_newest_hundred() {
    let mut log = ExitLog::new();
    for pid in 0..(EXIT_LOG_CAPACITY as u32 + 5) {
        log.record(entry(pid));
    }
    assert_eq!(log.entries().len(), EXIT_LOG_CAPACITY);
    assert_eq!(log.entries()[0].pid, 5);
    assert_eq!(log.entries()[EXIT_LOG_CAPACITY - 1].pid, EXIT_LOG_CAPACITY as u32 + 4);
}

#[test]
fn task_log_lines() {
    let restart = ScheduleAction::RestartProcess { pattern: "nginx".to_string() };
    assert_eq!(task_report(&restart, Ok(0)), "No processes found matching 'nginx' to restart");
    assert_eq!(task_report(&restart, Ok(2)), "Restarted 2 process(es) matching 'nginx'");
    assert_eq!(task_report(&restart, Err("denied")), "Error restarting processes matching 'nginx': denied");
    let start = ScheduleAction::StartProcess { program: "sleep".to_string(), args: vec!["5".to_string()] };
    assert_eq!(task_report(&start, Ok(321)), "Started process 'sleep' (PID: 321)");
    assert_eq!(task_report(&start, Err("not found")), "Error starting 'sleep': not found");
    let cleanup = ScheduleAction::CleanupIdle {
        cpu_threshold_bits: 1.0f32.to_bits(),
        memory_threshold: 0,
        duration_seconds: 0,
        action: "kill".to_string(),
    };
    assert_eq!(task_report(&cleanup, Ok(3)), "Cleaned up 3 idle processes");
    assert_eq!(task_report(&cleanup, Err("bad")), "Error: bad");
    assert_eq!(task_report(&ScheduleAction::ApplyRule { rule: "x".to_string() }, Ok(0)), "Rule applied");
    assert_eq!(task_report(&ScheduleAction::KillProcess { pid: 9 }, Ok(0)), "Killed process PID 9");
    assert_eq!(task_report(&ScheduleAction::StopProcess { pid: 9 }, Err("e")), "Error stopping PID 9: e");
    assert_eq!(task_report(&ScheduleAction::ContinueProcess { pid: 9 }, Ok(0)), "Continued process PID 9");
    assert_eq!(task_report(&ScheduleAction::ReniceProcess { pid: 9, nice: -3 }, Ok(0)), "Reniced PID 9 to -3");
    assert_eq!(task_report(&ScheduleAction::ReniceProcess { pid: 9, nice: 5 }, Err("no")), "Error renicing PID 9: no");
}

#[test]
fn exit_log_search_ignores_case() {
    let mut a = entry(101);
    a.name = "Firefox".to_string();
    let mut b = entry(202);
    b.name = "bash".to_string();
    b.user = Some("ROOT".to_string());
    let c = entry(3101);
    let all = vec![a, b, c];
    assert_eq!(search_exit_log(&all, ""), vec![0, 1, 2]);
    assert_eq!(search_exit_log(&all, "FIRE"), vec![0]);
    assert_eq!(search_exit_log(&all, "root"), vec![1]);
    assert_eq!(search_exit_log(&all, "101"), vec![0, 2]);
    assert!(search_exit_log(&all, "zzz").is_empty());
}

#[test]
fn cpu_details_take_the_last_of_each_line() {
    let text = "processor\t: 0\nmodel name\t: Intel(R) Core(TM) i7\ncpu MHz\t\t: 2400.000\n\
                cache size\t: 8192 KB\nprocessor\t: 1\nmodel name\t: AMD Ryzen 5\n";
    assert_eq!(
        cpu_details(text),
        ("AMD Ryzen 5".to_string(), Some("2400.000".to_string()), "8192 KB".to_string())
    );
    assert_eq!(cpu_details("processor\t: 0\n"), (String::new(), None, String::new()));
    assert_eq!(cpu_details("cpu MHz without colon\n"), (String::new(), Some("0".to_string()), String::new()));
    assert_eq!(cpu_details("model name: a: b\n").0, "a".to_string());
}

#[test]
fn sensor_readings_are_trimmed_numbers() {
    assert_eq!(sensor_reading("45000\n"), Some(45000));
    assert_eq!(sensor_reading("  2400000 "), Some(2400000));
    assert_eq!(sensor_reading("warm"), None);
    assert_eq!(sensor_reading(""), None);
    assert_eq!(sensor_reading("4294967296"), None);
    assert_eq!(sensor_reading("4294967295"), Some(u32::MAX));
}

#[test]
fn disk_traffic_from_diskstats() {
    let text = "   8       0 sda 100 0 2048 10 50 0 4096 20 0 30 40\n\
                   8       1 sda1 1 0 8 0 0 0 0 0 0 0 0\n";
    assert_eq!(disk_bytes(text), Some((2048 * 512, 4096 * 512)));
    let two = "252 0 vda 1 0 10 0 0 0 20 0 0 0 0\n259 0 nvme0n1 1 0 30 0 0 0 40 0 0 0 0\n";
    assert_eq!(disk_bytes(two), Some((30 * 512, 40 * 512)));
    assert_eq!(disk_bytes("8 0 sda 1 2 3\n"), Some((0, 0)));
    assert_eq!(disk_bytes(""), Some((0, 0)));
    assert_eq!(disk_bytes("8 0 sda 1 0 x 0 0 0 7 0\n"), Some((0, 7 * 512)));
    let huge = "8 0 sda 1 0 36028797018963968 0 0 0 1 0\n8 0 vda 1 0 1 0 0 0 1 0\n";
    assert_eq!(disk_bytes(huge), None);
    let edge = "8 0 sda 1 0 36028797018963967 0 0 0 1 0\n";
    assert_eq!(disk_bytes(edge), Some((36028797018963967 * 512, 512)));
}

#[test]
fn cpu_tick_counts() {
    assert_eq!(cpu_ticks("cpu  4705 356 584 3699176 23060 0 277 0 0 0"), Some((3699176, 3728158)));
    assert_eq!(cpu_ticks("cpu0 1 x 2 3 4"), Some((4, 10)));
    assert_eq!(cpu_ticks("cpu 1 2 3"), None);
    assert_eq!(cpu_ticks(""), None);
    assert_eq!(cpu_ticks("cpu 18446744073709551615 1 0 0"), None);
    assert_eq!(cpu_ticks("cpu 18446744073709551614 1 0 0"), Some((0, u64::MAX)));
}

fn exited(pid: u32, name: &str, user: Option<&str>, exit_time: &str, uptime_secs: u64) -> ExitEntry {
    ExitEntry {
        pid,
        name: name.to_string(),
        user: user.map(|u| u.to_string()),
        start_time: "00:00:00".to_string(),
        exit_time: exit_time.to_string(),
        uptime_secs,
    }
}

#[test]
fn the_exit_log_groups_by_name_most_first() {
    let log = vec![
        exited(1, "zsh", Some("ann"), "2024-01-02 10:00:00", 10),
        exited(2, "bash", None, "2024-01-02 11:00:00", 7),
        exited(3, "zsh", Some("bob"), "2024-01-03 09:00:00", 30),
        exited(4, "awk", Some("ann"), "2024-01-01 08:00:00", 4),
        exited(5, "zsh", None, "2024-01-01 12:00:00", 5),
    ];
    let rows = log_summary(&log, LogGroup::Name).unwrap();
    let summary: Vec<(&str, usize, u64, u64, u64, &str)> = rows
        .iter()
        .map(|r| (r.key.as_str(), r.count, r.min_uptime, r.max_uptime, r.avg_uptime, r.most_recent.as_str()))
        .collect();
    assert_eq!(
        summary,
        vec![
            ("zsh", 3, 5, 30, 15, "2024-01-03 09:00:00"),
            ("awk", 1, 4, 4, 4, "2024-01-01 08:00:00"),
            ("bash", 1, 7, 7, 7, "2024-01-02 11:00:00"),
        ]
    );
    let by_user: Vec<(String, usize)> =
        log_summary(&log, LogGroup::User).unwrap().into_iter().map(|r| (r.key, r.count)).collect();
    assert_eq!(
        by_user,
        vec![("Unknown".to_string(), 2), ("ann".to_string(), 2), ("bob".to_string(), 1)]
    );
    let by_pid: Vec<String> = log_summary(&log, LogGroup::Ppid).unwrap().into_iter().map(|r| r.key).collect();
    assert_eq!(by_pid, vec!["1", "2", "3", "4", "5"]);
    assert!(log_summary(&[], LogGroup::Name).unwrap().is_empty());
}

#[test]
fn a_group_whose_uptimes_overflow_has_no_summary() {
    let log = vec![exited(1, "a", None, "t", u64::MAX), exited(2, "a", None, "t", 1)];
    assert!(log_summary(&log, LogGroup::Name).is_none());
    let apart = vec![exited(1, "a", None, "t", u64::MAX), exited(2, "b", None, "t", 1)];
    assert_eq!(log_summary(&apart, LogGroup::Name).unwrap().len(), 2);
}
