use procsentinel::filter::{FieldNumber, FilterExpression, FilterParser, NumericOp};
use procsentinel::procinfo::ProcessInfo;
use procsentinel::paths::{config_file, join};
use procsentinel::profile::{Profile, ProfileManager};

fn parse(s: &str) -> Result<FilterExpression, String> {
    FilterParser::new().parse(s)
}

#[test]
fn comparisons() {
    match parse("NAME == \"bash\"").unwrap() {
        FilterExpression::FieldEquals { field, value } => {
            assert_eq!(field, "name");
            assert_eq!(value, "bash");
        }
        other => panic!("unexpected {other:?}"),
    }
    match parse("cpu > 50").unwrap() {
        FilterExpression::FieldGreaterThan { field, value } => {
            assert_eq!(field, "cpu");
            assert_eq!(value, "50");
        }
        other => panic!("unexpected {other:?}"),
    }
    match parse("mem <= 1.5e3").unwrap() {
        FilterExpression::FieldLessEqual { field, value } => {
            assert_eq!(field, "mem");
            assert_eq!(value, "1.5e3");
        }
        other => panic!("unexpected {other:?}"),
    }
    match parse("name ~ fire").unwrap() {
        FilterExpression::FieldRegex { field, pattern } => {
            assert_eq!(field, "name");
            assert_eq!(pattern, "fire");
        }
        other => panic!("unexpected {other:?}"),
    }
    match parse("user != 'root'").unwrap() {
        FilterExpression::FieldNotEquals { field, value } => {
            assert_eq!(field, "user");
            assert_eq!(value, "root");
        }
        other => panic!("unexpected {other:?}"),
    }
}

#[test]
fn errors() {
    assert_eq!(parse("").unwrap_err(), "Empty filter expression");
    assert_eq!(parse("   ").unwrap_err(), "Empty filter expression");
    assert_eq!(parse("name").unwrap_err(), "Invalid filter expression: name");
    assert_eq!(parse("cpu > lots").unwrap_err(), "Invalid number: lots");
}

#[test]
fn connectives() {
    match parse("a == 1 OR b == 2 AND c == 3").unwrap() {
        FilterExpression::Or(l, r) => {
            assert!(matches!(*l, FilterExpression::FieldEquals { .. }));
            assert!(matches!(*r, FilterExpression::And(_, _)));
        }
        other => panic!("unexpected {other:?}"),
    }
    match parse("NOT (name == a)").unwrap() {
        FilterExpression::Not(inner) => assert!(matches!(*inner, FilterExpression::FieldEquals { .. })),
        other => panic!("unexpected {other:?}"),
    }
    match parse("(a == 1 and b == 2)").unwrap() {
        FilterExpression::And(_, _) => {}
        other => panic!("unexpected {other:?}"),
    }
}

#[test]
fn paths() {
    assert_eq!(join("/home/u", ".lpm"), "/home/u/.lpm");
    assert_eq!(join("/home/u/", ".lpm"), "/home/u/.lpm");
    assert_eq!(join("", "x"), "x");
    assert_eq!(config_file(Some("/h".to_string()), "alerts.toml"), "/h/.lpm/alerts.toml");
    assert_eq!(config_file(None, "alerts.toml"), "./alerts.toml");
}

fn profile(name: &str) -> Profile {
    Profile::new(name.to_string())
}

#[test]
fn profiles_are_replaced_by_name_and_removed() {
    let mut m = ProfileManager::new("/tmp/p.toml".to_string(), vec![]);
    m.add_profile(profile("a"));
    m.add_profile(profile("b"));
    let mut a2 = profile("a");
    a2.hide_processes.push("x".to_string());
    m.add_profile(a2);
    let names: Vec<&str> = m.get_profiles().iter().map(|p| p.name.as_str()).collect();
    assert_eq!(names, vec!["b", "a"]);
    assert_eq!(m.get_profile("a").unwrap().hide_processes, vec!["x".to_string()]);
    m.set_active_profile(Some("a".to_string()));
    assert_eq!(m.get_active_profile(), Some("a"));
    assert!(m.remove_profile("a"));
    assert_eq!(m.get_active_profile(), None);
    assert!(!m.remove_profile("a"));
    assert_eq!(m.get_config_path(), "/tmp/p.toml");
}

#[test]
fn active_profile_decides_priority_hiding_and_nice() {
    let mut p = profile("dev");
    p.prioritize_processes.push("code".to_string());
    p.hide_processes.push("*".to_string());
    p.nice_adjustments.push(("cargo".to_string(), 5));
    let mut m = ProfileManager::new("/tmp/p.toml".to_string(), vec![p]);
    assert!(!m.is_process_prioritized("vscode"));
    m.set_active_profile(Some("dev".to_string()));
    assert!(m.is_process_prioritized("vscode"));
    assert!(!m.is_process_prioritized("bash"));
    assert!(m.should_hide_process("anything"));
    assert_eq!(m.get_nice_adjustment("cargo"), Some(5));
    assert_eq!(m.get_nice_adjustment("rustc"), None);
    m.get_profile_mut("dev").unwrap().nice_adjustments.push(("rustc".to_string(), 3));
    assert_eq!(m.get_nice_adjustment("rustc"), Some(3));
}

#[test]
fn readme_filter_example() {
    match parse("cpu > 50 AND name ~= \"^fi\"").unwrap() {
        FilterExpression::And(l, r) => {
            match *l {
                FilterExpression::FieldGreaterThan { field, value } => {
                    assert_eq!((field.as_str(), value.as_str()), ("cpu", "50"));
                }
                other => panic!("unexpected {other:?}"),
            }
            match *r {
                FilterExpression::FieldRegex { field, pattern } => {
                    assert_eq!((field.as_str(), pattern.as_str()), ("name", "^fi"));
                }
                other => panic!("unexpected {other:?}"),
            }
        }
        other => panic!("unexpected {other:?}"),
    }
}

fn process(name: &str, status: &str) -> ProcessInfo {
    ProcessInfo {
        pid: 4242,
        name: name.to_string(),
        cpu_usage_bits: 12.5f32.to_bits(),
        memory_usage: 2 * 1024 * 1024 + 5,
        parent_pid: None,
        status: status.to_string(),
        user: Some("alice".to_string()),
        nice: -5,
        start_time_str: "00:00:00".to_string(),
        start_timestamp: 0,
        cgroup: None,
        container_id: None,
        namespace_ids: Vec::new(),
        host: None,
    }
}

fn passes(p: &ProcessInfo, filter: &str, numeric: &[bool]) -> bool {
    let parser = FilterParser::new();
    let e = parse(filter).unwrap();
    assert_eq!(parser.numeric_comparisons(&e).len(), numeric.len());
    parser.evaluate(p, &e, "12.5", &numeric.to_vec())
}

#[test]
fn fields_are_compared_as_text() {
    let p = process("firefox", "Sleeping");
    assert!(passes(&p, "name == firefox", &[]));
    assert!(!passes(&p, "name == chrome", &[]));
    assert!(passes(&p, "name != chrome", &[]));
    assert!(passes(&p, "user == alice", &[]));
    assert!(passes(&p, "status == Sleeping", &[]));
    assert!(passes(&p, "pid == 4242", &[]));
    assert!(passes(&p, "ppid == 0", &[]));
    assert!(passes(&p, "nice == -5", &[]));
    assert!(passes(&p, "memory == 2", &[]));
    assert!(passes(&p, "cpu == 12.5", &[]));
    assert!(passes(&p, "color != red", &[]));
    assert!(!passes(&p, "color == red", &[]));
}

#[test]
fn patterns_and_connectives() {
    let p = process("firefox", "Running");
    assert!(passes(&p, "name ~= \"^fi\"", &[]));
    assert!(!passes(&p, "name ~= \"^fo\"", &[]));
    assert!(!passes(&p, "name ~= \"(\"", &[]));
    assert!(passes(&process("", "Running"), "name ~= \"(\"", &[]));
    assert!(passes(&p, "NOT name == chrome", &[]));
    assert!(passes(&p, "name == chrome OR status == Running", &[]));
    assert!(!passes(&p, "name == chrome AND status == Running", &[]));
}

#[test]
fn numeric_comparisons_come_from_the_caller() {
    let parser = FilterParser::new();
    let e = parse("cpu > 50 AND name ~= \"^fi\" OR memory <= 1.5e3").unwrap();
    assert_eq!(
        parser.numeric_comparisons(&e),
        vec![
            ("cpu".to_string(), "50".to_string(), NumericOp::Greater),
            ("memory".to_string(), "1.5e3".to_string(), NumericOp::LessEqual),
        ]
    );
    let p = process("firefox", "Running");
    assert!(passes(&p, "cpu > 50 AND name ~= \"^fi\"", &[true]));
    assert!(!passes(&p, "cpu > 50 AND name ~= \"^fi\"", &[false]));
    assert!(passes(&p, "cpu > 50 OR memory <= 1", &[false, true]));
    assert!(!passes(&p, "cpu > 50 OR memory <= 1", &[false, false]));
    assert!(passes(&p, "NOT cpu >= 1", &[false]));
    assert!(passes(&p, "nice < 0 AND (pid >= 1 AND ppid <= 0)", &[true, true, true]));
    assert!(!passes(&p, "nice < 0 AND (pid >= 1 AND ppid <= 0)", &[true, false, true]));
}

#[test]
fn filters_compose_as_boolean_operators() {
    let p = process("firefox", "Running");
    for (a, b) in [("name == firefox", "status == Running"), ("name == chrome", "status == Running"), ("name == chrome", "status == Idle")] {
        let left = passes(&p, a, &[]);
        let right = passes(&p, b, &[]);
        assert_eq!(passes(&p, &format!("{a} AND {b}"), &[]), left && right);
        assert_eq!(passes(&p, &format!("{a} OR {b}"), &[]), left || right);
        assert_eq!(passes(&p, &format!("NOT {a}"), &[]), !left);
    }
    assert!(!passes(&p, "cpu > 50 AND memory < 9", &[true, false]));
    assert!(passes(&p, "cpu > 50 OR memory < 9", &[false, true]));
}

#[test]
fn profile_names_stay_distinct() {
    let mut m = ProfileManager::new("/tmp/p.toml".to_string(), vec![]);
    for name in ["a", "b", "a", "c", "b", "a"] {
        m.add_profile(profile(name));
    }
    m.set_active_profile(Some("c".to_string()));
    m.remove_profile("b");
    m.add_profile(profile("c"));
    let mut names: Vec<&str> = m.get_profiles().iter().map(|p| p.name.as_str()).collect();
    assert_eq!(names, vec!["a", "c"]);
    names.dedup();
    assert_eq!(names.len(), m.get_profiles().len());
}

#[test]
fn numeric_comparisons_read_these_numbers() {
    let parser = FilterParser::new();
    let mut p = process("firefox", "Running");
    assert_eq!(parser.numeric_field(&p, "pid"), FieldNumber::Whole(4242));
    assert_eq!(parser.numeric_field(&p, "ppid"), FieldNumber::Whole(0));
    assert_eq!(parser.numeric_field(&p, "cpu"), FieldNumber::Share(12.5f32.to_bits()));
    assert_eq!(parser.numeric_field(&p, "memory"), FieldNumber::Whole(2));
    assert_eq!(parser.numeric_field(&p, "nice"), FieldNumber::Whole(-5));
    assert_eq!(parser.numeric_field(&p, "color"), FieldNumber::Whole(0));
    p.parent_pid = Some(7);
    assert_eq!(parser.numeric_field(&p, "ppid"), FieldNumber::Whole(7));
}
