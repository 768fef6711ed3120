use procsentinel::scheduler::{
    parse_schedule, schedule_to_string, tasks_file_path, try_parse_schedule, Moment,
    ScheduleAction, ScheduleParseError, ScheduleType, ScheduledTask, Scheduler, LOG_CAPACITY,
};

fn kill(pid: u32) -> ScheduleAction {
    ScheduleAction::KillProcess { pid }
}

fn task(name: &str, schedule: ScheduleType) -> ScheduledTask {
    ScheduledTask::new(name.to_string(), schedule, kill(1))
}

#[test]
fn new_task_is_enabled_and_never_ran() {
    let t = task("t", ScheduleType::Interval(10));
    assert!(t.enabled);
    assert!(t.last_run.is_none());
    assert!(t.next_run.is_none());
}

#[test]
fn interval_task_runs_first_then_waits_its_interval() {
    let mut s = Scheduler::new();
    s.add_task(task("every10", ScheduleType::Interval(10)));
    assert_eq!(s.check_due_tasks_at(Moment::from_secs(1000)), vec![0]);
    let t = &s.get_tasks()[0];
    assert_eq!(t.last_run.unwrap().as_secs(), 1000);
    assert_eq!(t.next_run.unwrap().as_secs(), 1010);
    assert!(s.check_due_tasks_at(Moment::from_secs(1009)).is_empty());
    assert_eq!(s.check_due_tasks_at(Moment::from_secs(1010)), vec![0]);
}

#[test]
fn once_task_runs_once_when_its_time_has_come() {
    let mut s = Scheduler::new();
    s.add_task(task("once", ScheduleType::Once(Moment::from_secs(500))));
    assert!(s.check_due_tasks_at(Moment::from_secs(499)).is_empty());
    assert_eq!(s.check_due_tasks_at(Moment::from_secs(500)), vec![0]);
    assert!(s.get_tasks()[0].next_run.is_none());
    assert!(s.check_due_tasks_at(Moment::from_secs(10_000)).is_empty());
}

#[test]
fn cron_task_matches_minute_and_hour() {
    // 3600 * 5 + 60 * 30 = 19800: 05:30 UTC on day 0.
    let mut s = Scheduler::new();
    s.add_task(task("cron", ScheduleType::Cron("30 5 * * *".to_string())));
    assert!(s.check_due_tasks_at(Moment::from_secs(19800 - 60)).is_empty());
    assert_eq!(s.check_due_tasks_at(Moment::from_secs(19800)), vec![0]);
    assert!(s.check_due_tasks_at(Moment::from_secs(19830)).is_empty());
    assert_eq!(s.get_tasks()[0].next_run.unwrap().as_secs(), 19860);
}

#[test]
fn short_cron_expression_runs_every_minute() {
    let mut s = Scheduler::new();
    s.add_task(task("bad", ScheduleType::Cron("  * *  ".to_string())));
    assert_eq!(s.check_due_tasks_at(Moment::from_secs(100)), vec![0]);
    assert!(s.check_due_tasks_at(Moment::from_secs(159)).is_empty());
    assert_eq!(s.check_due_tasks_at(Moment::from_secs(160)), vec![0]);
}

#[test]
fn disabled_tasks_never_run() {
    let mut s = Scheduler::new();
    s.add_task(task("a", ScheduleType::Interval(0)));
    s.add_task(task("b", ScheduleType::Interval(0)));
    assert!(s.toggle_task(0));
    assert!(!s.toggle_task(5));
    assert_eq!(s.check_due_tasks_at(Moment::from_secs(1)), vec![1]);
    assert!(s.get_tasks()[0].last_run.is_none());
    assert!(s.toggle_task(0));
    assert!(s.get_tasks()[0].enabled);
}

#[test]
fn remove_task_by_index() {
    let mut s = Scheduler::new();
    s.add_task(task("a", ScheduleType::Interval(1)));
    s.add_task(task("b", ScheduleType::Interval(2)));
    assert!(s.remove_task(7).is_none());
    let removed = s.remove_task(0).unwrap();
    assert_eq!(removed.name, "a");
    assert_eq!(s.get_tasks().len(), 1);
    assert_eq!(s.get_tasks()[0].name, "b");
}

#[test]
fn log_keeps_the_last_hundred_entries() {
    let mut s = Scheduler::new();
    for i in 0..(LOG_CAPACITY + 5) {
        s.log_entry_at(format!("t{i}"), Moment::from_secs(i as u64), "ok".to_string());
    }
    let log = s.get_task_log();
    assert_eq!(log.len(), LOG_CAPACITY);
    assert_eq!(log[0].0, "t5");
    assert_eq!(log[LOG_CAPACITY - 1].0, format!("t{}", LOG_CAPACITY + 4));
    s.add_log_entry("now".to_string(), "done".to_string());
    assert_eq!(s.get_task_log().len(), LOG_CAPACITY);
    assert_eq!(s.get_task_log()[LOG_CAPACITY - 1].0, "now");
}

#[test]
fn schedule_text_round_trips() {
    let cron = ScheduleType::Cron("0 * * * *".to_string());
    assert_eq!(schedule_to_string(&cron), "cron:0 * * * *");
    assert_eq!(schedule_to_string(&ScheduleType::Interval(300)), "interval:300");
    assert_eq!(schedule_to_string(&ScheduleType::Once(Moment::from_secs(1700000000))), "once:1700000000");
    match parse_schedule("cron:0 * * * *").unwrap() {
        ScheduleType::Cron(e) => assert_eq!(e, "0 * * * *"),
        other => panic!("unexpected {other:?}"),
    }
    match parse_schedule("interval:+15").unwrap() {
        ScheduleType::Interval(n) => assert_eq!(n, 15),
        other => panic!("unexpected {other:?}"),
    }
    match parse_schedule("once:42").unwrap() {
        ScheduleType::Once(m) => {
            assert_eq!(m.as_secs(), 42);
            assert_eq!(m.subsec_nanos(), 0);
        }
        other => panic!("unexpected {other:?}"),
    }
}

#[test]
fn schedule_text_errors() {
    assert_eq!(parse_schedule("interval:ten").unwrap_err(), ScheduleParseError::InvalidNumber);
    assert_eq!(parse_schedule("once:").unwrap_err(), ScheduleParseError::InvalidNumber);
    assert_eq!(parse_schedule("weekly:1").unwrap_err(), ScheduleParseError::InvalidKind);
    assert!(try_parse_schedule("once:9223372036854775808").is_none());
    assert!(try_parse_schedule("once:9223372036854775807").is_some());
}

#[test]
fn tasks_file_location() {
    assert_eq!(tasks_file_path(Some("/home/u".to_string())), "/home/u/.lpm/scheduled_tasks.toml");
    assert_eq!(tasks_file_path(None), "./.lpm/scheduled_tasks.toml");
}

#[test]
fn check_due_tasks_uses_the_clock() {
    let mut s = Scheduler::new();
    s.add_task(task("first", ScheduleType::Interval(3600)));
    assert_eq!(s.check_due_tasks(), vec![0]);
    assert!(s.check_due_tasks().is_empty());
}
