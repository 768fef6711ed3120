use procsentinel::kill_tree::{KillTreeWalk, WalkAction};
use procsentinel::procinfo::ProcessInfo;

fn proc(pid: u32, parent: Option<u32>) -> ProcessInfo {
    ProcessInfo {
        pid,
        name: format!("p{pid}"),
        cpu_usage_bits: 0,
        memory_usage: 0,
        parent_pid: parent,
        status: "Running".to_string(),
        user: None,
        nice: 0,
        start_time_str: "00:00:00".to_string(),
        start_timestamp: 0,
        cgroup: None,
        container_id: None,
        namespace_ids: Vec::new(),
        host: None,
    }
}

/// Runs a walk, failing the kills of `failing`; the kills asked for and the result.
fn run(processes: &[ProcessInfo], root: u32, failing: &[u32]) -> (Vec<u32>, Option<Vec<u32>>) {
    let mut walk = KillTreeWalk::start(processes, root);
    let mut asked = Vec::new();
    let mut action = walk.advance();
    for _ in 0..1000 {
        match action {
            WalkAction::Kill(pid) => {
                asked.push(pid);
                action = walk.answer(!failing.contains(&pid));
            }
            WalkAction::Continue => action = walk.advance(),
            WalkAction::Finished(result) => return (asked, result),
        }
    }
    panic!("the walk did not finish");
}

fn family() -> Vec<ProcessInfo> {
    // 1 -> 2 -> 4, 1 -> 3, 5 unrelated
    vec![proc(1, None), proc(2, Some(1)), proc(3, Some(1)), proc(4, Some(2)), proc(5, None)]
}

#[test]
fn children_go_before_their_parents() {
    // A child with children is killed at the end of its own walk and once
    // more by its parent.
    let (asked, result) = run(&family(), 1, &[]);
    assert_eq!(asked, vec![4, 2, 2, 3, 1]);
    assert_eq!(result, Some(vec![2, 3, 1]));
}

#[test]
fn a_failed_grandchild_does_not_stop_the_walk() {
    let (asked, result) = run(&family(), 1, &[4]);
    assert_eq!(asked, vec![4, 2, 3, 1]);
    assert_eq!(result, Some(vec![2, 3, 1]));
}

#[test]
fn a_failed_child_ends_the_walk() {
    let (asked, result) = run(&family(), 1, &[2]);
    assert_eq!(asked, vec![4, 2, 2]);
    assert_eq!(result, None);
    let (asked, result) = run(&family(), 1, &[3]);
    assert_eq!(asked, vec![4, 2, 2, 3]);
    assert_eq!(result, None);
    let (asked, result) = run(&family(), 1, &[1]);
    assert_eq!(asked, vec![4, 2, 2, 3, 1]);
    assert_eq!(result, None);
}

#[test]
fn a_lone_process_is_killed_alone() {
    let (asked, result) = run(&family(), 5, &[]);
    assert_eq!(asked, vec![5]);
    assert_eq!(result, Some(vec![5]));
}
