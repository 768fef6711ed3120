use procsentinel::checkpoint::{
    check_checkpoint_id, check_entry, check_pid_file, check_root, checkpoint_id_for,
    listed_checkpoints, merge_checkpoints, parse_restore_pid, record_checkpoint, remove_checkpoint,
    valid_checkpoint_id, CheckpointField, CheckpointFields, CheckpointInfo, CriuManager,
    FieldError, Probe,
};

#[test]
fn rejects_traversal_absolute_and_invalid_names() {
    assert!(valid_checkpoint_id("checkpoint_123-abc"));
    for bad in ["", ".", "..", "../outside", "/tmp/outside", "a/b", "a\\b", "é", "x x"] {
        assert!(!valid_checkpoint_id(bad), "accepted: {bad}");
    }
    assert!(!valid_checkpoint_id(&"a".repeat(129)));
    for bad in ["../outside", "/tmp/outside", "a/b", ".."] {
        assert!(check_checkpoint_id(bad).is_err());
    }
}

#[test]
fn rejects_malicious_deserialized_metadata() {
    let mut fields = CheckpointFields::new();
    fields.set_checkpoint_id("../escape".to_string()).unwrap();
    fields.set_pid(42).unwrap();
    fields.set_process_name("test".to_string()).unwrap();
    fields.set_created_at_secs(1).unwrap();
    assert!(fields.finish().is_err());
}

#[test]
fn pidfile_requires_a_positive_pid_in_regular_file() {
    for invalid in ["", "0", "nope", "4294967296"] {
        assert!(parse_restore_pid(invalid).is_err());
    }
    assert_eq!(parse_restore_pid("1234\n").unwrap(), 1234);
    assert!(check_pid_file(Probe::RegularFile).is_ok());
    assert!(check_pid_file(Probe::Symlink).is_err());
}

#[test]
fn valid_id_lengths_and_characters() {
    assert!(valid_checkpoint_id(&"a".repeat(128)));
    assert!(valid_checkpoint_id("A-z_09"));
    assert!(!valid_checkpoint_id("a.b"));
}

#[test]
fn invalid_id_message_is_exact() {
    assert_eq!(
        check_checkpoint_id("../x").unwrap_err(),
        "Invalid checkpoint ID: expected 1-128 ASCII letters, digits, _ or -"
    );
    assert!(check_checkpoint_id("ok_id").is_ok());
}

#[test]
fn generated_ids_name_the_pid_and_time() {
    assert_eq!(checkpoint_id_for(None, 42, 1700000000), "checkpoint_42_1700000000");
    assert_eq!(checkpoint_id_for(Some("mine".to_string()), 42, 7), "mine");
}

#[test]
fn root_and_entry_decisions() {
    assert!(check_root(Probe::Directory).is_ok());
    assert_eq!(check_root(Probe::Symlink).unwrap_err(), "Checkpoint root must be a real directory");
    assert_eq!(
        check_root(Probe::Failed("denied".to_string())).unwrap_err(),
        "Cannot inspect checkpoint root: denied"
    );
    assert!(check_entry(Probe::Directory, true).is_ok());
    assert_eq!(check_entry(Probe::Directory, false).unwrap_err(), "Checkpoint ID already exists");
    assert!(check_entry(Probe::NotFound("gone".to_string()), false).is_ok());
    assert_eq!(
        check_entry(Probe::NotFound("gone".to_string()), true).unwrap_err(),
        "Checkpoint directory not found"
    );
    assert_eq!(
        check_entry(Probe::Symlink, true).unwrap_err(),
        "Checkpoint entry is a symlink or not a directory"
    );
}

#[test]
fn field_builder_refuses_duplicates_and_missing_fields() {
    let mut f = CheckpointFields::new();
    f.set_checkpoint_id("good".to_string()).unwrap();
    assert_eq!(
        f.set_checkpoint_id("again".to_string()),
        Err(FieldError::Duplicate(CheckpointField::CheckpointId))
    );
    f.set_pid(7).unwrap();
    match f.finish() {
        Err(e) => assert_eq!(e, FieldError::Missing(CheckpointField::ProcessName)),
        Ok(_) => panic!("accepted without a process name"),
    }
    let mut g = CheckpointFields::new();
    g.set_checkpoint_id("good".to_string()).unwrap();
    g.set_pid(7).unwrap();
    g.set_process_name("proc".to_string()).unwrap();
    let info = g.finish().unwrap();
    assert_eq!(info.checkpoint_id, "good");
    assert_eq!(info.pid, 7);
    assert_eq!(info.created_at_secs, 0);
    assert_eq!(info.checkpoint_dir, "");
}

fn info(id: &str, secs: u64) -> CheckpointInfo {
    CheckpointInfo::discovered(id.to_string(), format!("/c/{id}"), secs)
}

#[test]
fn record_replaces_and_remove_deletes() {
    let list = vec![info("a", 1), info("b", 2)];
    let recorded = record_checkpoint(&list, info("a", 5));
    let ids: Vec<&str> = recorded.iter().map(|c| c.checkpoint_id.as_str()).collect();
    assert_eq!(ids, vec!["b", "a"]);
    assert_eq!(recorded[1].created_at_secs, 5);
    let removed = remove_checkpoint(&recorded, "b");
    assert_eq!(removed.len(), 1);
    assert_eq!(removed[0].checkpoint_id, "a");
}

#[test]
fn merged_list_is_newest_first() {
    let recorded = vec![info("a", 10)];
    let discovered = vec![info("b", 30), info("a", 99), info("c", 20)];
    let merged = merge_checkpoints(recorded, discovered);
    let ids: Vec<&str> = merged.iter().map(|c| c.checkpoint_id.as_str()).collect();
    assert_eq!(ids, vec!["b", "c", "a"]);
}

#[test]
fn manager_reports_availability_and_root() {
    let m = CriuManager::new(None, "/tmp/cp".to_string());
    assert!(!m.is_available());
    assert_eq!(m.get_checkpoint_base_dir(), "/tmp/cp");
    assert!(m.checkpoint_precheck().is_err());
    let n = CriuManager::new(Some("/usr/sbin/criu".to_string()), "/tmp/cp".to_string());
    assert!(n.is_available());
    assert_eq!(n.criu_path(), Some("/usr/sbin/criu"));
}

#[test]
fn listed_checkpoints_have_valid_ids_and_found_directories() {
    let recorded = vec![info("kept", 10), info("../escape", 50), info("missing", 40), info("checkpoint_1", 5)];
    let found = vec![
        Some("/real/kept".to_string()),
        Some("/real/escape".to_string()),
        None,
        Some("/real/checkpoint_1".to_string()),
    ];
    let discovered = vec![
        info("checkpoint_9", 30),
        info("notes", 60),
        info("checkpoint_1", 99),
        info("checkpoint_x y", 70),
    ];
    let listed = listed_checkpoints(recorded, found, discovered);
    let ids: Vec<&str> = listed.iter().map(|c| c.checkpoint_id.as_str()).collect();
    assert_eq!(ids, vec!["checkpoint_9", "kept", "checkpoint_1"]);
    assert_eq!(listed[1].checkpoint_dir, "/real/kept");
    assert_eq!(listed[2].checkpoint_dir, "/real/checkpoint_1");
    assert_eq!(listed[2].created_at_secs, 5);
    assert_eq!(listed[0].pid, 0);
    assert_eq!(listed[0].process_name, "Unknown");
    assert!(listed.iter().all(|c| valid_checkpoint_id(&c.checkpoint_id)));
}
