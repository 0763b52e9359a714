use chbackup::server::actions::ActionStatus;
use chbackup::server::operations::retention_after;
use chbackup::server::resumable::{
    auto_resume, resume_all, scan_resumable_state_files, BackupDirEntry, ResumableOp, RestoreParams,
};
use chbackup::server::calls::Work;
use chbackup::server::state::{
    reject_reserved_backup_name, semaphore_permits, validate_backup_name, AppState, WatchStatus,
};
use chbackup::time::Timestamp;
use tokio::sync::Semaphore;

#[test]
fn test_scan_resumable_empty_dir() {
    let ops = scan_resumable_state_files(&Vec::new());
    assert!(ops.is_empty());
}

#[test]
fn test_scan_resumable_finds_state_files() {
    let ops = scan_resumable_state_files(&vec![
        dir("daily-2024-01-15", true, false, false),
        dir("daily-2024-01-16", false, true, true),
    ]);
    assert_eq!(ops.len(), 3);

    let upload_ops: Vec<_> = ops.iter().filter(|o| o.op_type == "upload").collect();
    let download_ops: Vec<_> = ops.iter().filter(|o| o.op_type == "download").collect();
    let restore_ops: Vec<_> = ops.iter().filter(|o| o.op_type == "restore").collect();

    assert_eq!(upload_ops.len(), 1);
    assert_eq!(download_ops.len(), 1);
    assert_eq!(restore_ops.len(), 1);
    assert_eq!(upload_ops[0].backup_name, "daily-2024-01-15");
    assert_eq!(download_ops[0].backup_name, "daily-2024-01-16");
    assert_eq!(restore_ops[0].backup_name, "daily-2024-01-16");
}

#[test]
fn test_scan_resumable_nonexistent_dir() {
    let ops = scan_resumable_state_files(&vec![]);
    assert!(ops.is_empty());
}

#[test]
fn test_validate_backup_name_valid() {
    assert!(validate_backup_name("daily-2024-01-15").is_ok());
    assert!(validate_backup_name("my_backup").is_ok());
    assert!(validate_backup_name("backup.v2").is_ok());
    assert!(validate_backup_name("2024-01-15T143052").is_ok());
    assert!(validate_backup_name("a").is_ok());
}

#[test]
fn test_validate_backup_name_rejects_dotdot() {
    assert!(validate_backup_name("../etc/passwd").is_err());
    assert!(validate_backup_name("foo/../bar").is_err());
    assert!(validate_backup_name("..").is_err());
}

#[test]
fn test_validate_backup_name_rejects_slash() {
    assert!(validate_backup_name("foo/bar").is_err());
    assert!(validate_backup_name("/abs").is_err());
}

#[test]
fn test_validate_backup_name_rejects_backslash() {
    assert!(validate_backup_name("foo\\bar").is_err());
}

#[test]
fn test_validate_backup_name_rejects_empty() {
    assert!(validate_backup_name("").is_err());
}

#[test]
fn test_validate_backup_name_rejects_nul() {
    assert!(validate_backup_name("foo\0bar").is_err());
}

#[test]
fn test_validate_backup_name_allows_reserved_shortcuts() {
    // validate_backup_name intentionally allows "latest"/"previous" --
    // they are valid inputs for upload/download/restore commands.
    assert!(validate_backup_name("latest").is_ok());
    assert!(validate_backup_name("previous").is_ok());
}

#[test]
fn test_reject_reserved_backup_name() {
    assert!(reject_reserved_backup_name("latest").is_err());
    assert!(reject_reserved_backup_name("previous").is_err());
    // Normal names are accepted.
    assert!(reject_reserved_backup_name("daily-2024-01-15").is_ok());
    assert!(reject_reserved_backup_name("my_backup").is_ok());
}

#[test]
fn test_scan_resumable_ignores_files_in_backup_root() {
    let mut file = dir("upload.state.json", true, false, false);
    file.is_dir = false;
    let mut unreadable = dir("x", true, true, true);
    unreadable.name = None;
    let ops = scan_resumable_state_files(&vec![file, unreadable]);
    assert!(ops.is_empty());
}

#[test]
fn test_validate_backup_name_unicode() {
    // Unicode characters should be accepted (no path traversal risk)
    assert!(validate_backup_name("backup-\u{00E9}\u{00E8}").is_ok());
    assert!(validate_backup_name("\u{4E2D}\u{6587}\u{5907}\u{4EFD}").is_ok());
}

#[test]
fn test_validate_backup_name_control_chars() {
    // NUL byte is explicitly rejected
    assert!(validate_backup_name("foo\0bar").is_err());
    // Other control characters are not explicitly rejected by the validator
    // (they are unusual but not a path traversal vector)
}

#[test]
fn test_validate_backup_name_very_long() {
    // 255 chars should be accepted (common filesystem limit)
    let long_name = "a".repeat(255);
    assert!(validate_backup_name(&long_name).is_ok());

    // 256 chars should also be accepted by our validator
    // (filesystem limits are enforced by the OS, not our validation)
    let very_long = "b".repeat(256);
    assert!(validate_backup_name(&very_long).is_ok());
}

#[test]
fn test_validate_backup_name_only_dots() {
    // Single dot is explicitly rejected
    assert!(validate_backup_name(".").is_err());
    // Double dot is rejected by the ".." check
    assert!(validate_backup_name("..").is_err());
    // Triple dot is rejected because it contains ".."
    assert!(validate_backup_name("...").is_err());
}

#[test]
fn test_validate_backup_name_path_separators() {
    assert!(validate_backup_name("foo/bar").is_err());
    assert!(validate_backup_name("foo\\bar").is_err());
    assert!(validate_backup_name("/leading").is_err());
    assert!(validate_backup_name("trailing/").is_err());
}

#[test]
fn test_validate_backup_name_with_spaces_and_special() {
    // Spaces and dashes are fine
    assert!(validate_backup_name("backup with spaces").is_ok());
    assert!(validate_backup_name("backup-2024-01-15T14:30:52").is_ok());
    assert!(validate_backup_name("backup@host").is_ok());
    assert!(validate_backup_name("backup#1").is_ok());
}

#[test]
fn test_semaphore_permits_sequential() {
    assert_eq!(semaphore_permits(false), 1);
}

#[test]
fn test_semaphore_permits_parallel() {
    assert_eq!(semaphore_permits(true), Semaphore::MAX_PERMITS);
}

#[test]
fn test_reject_reserved_backup_name_similar_names() {
    // Names that are similar to but NOT exactly "latest" or "previous" should pass
    assert!(reject_reserved_backup_name("latest-2").is_ok());
    assert!(reject_reserved_backup_name("my-latest").is_ok());
    assert!(reject_reserved_backup_name("previous-backup").is_ok());
    assert!(reject_reserved_backup_name("LATEST").is_ok()); // Case-sensitive
    assert!(reject_reserved_backup_name("PREVIOUS").is_ok());
}

#[test]
fn test_scan_resumable_skips_invalid_names() {
    let ops = scan_resumable_state_files(&vec![
        dir("..hidden", true, false, false),
        dir("valid-backup", false, false, true),
    ]);
    assert_eq!(ops.len(), 1);
    assert_eq!(ops[0].backup_name, "valid-backup");
    assert_eq!(ops[0].op_type, "restore");
}

#[test]
fn test_scan_resumable_multiple_ops_same_backup() {
    let ops = scan_resumable_state_files(&vec![dir("multi-state", true, true, true)]);
    assert_eq!(ops.len(), 3);
    for op in &ops {
        assert_eq!(op.backup_name, "multi-state");
    }
    let types: std::collections::HashSet<_> = ops.iter().map(|o| o.op_type.as_str()).collect();
    assert!(types.contains("upload"));
    assert!(types.contains("download"));
    assert!(types.contains("restore"));
}

#[test]
fn test_scan_resumable_empty_backup_dir_no_state_files() {
    let ops = scan_resumable_state_files(&vec![
        dir("backup-a", false, false, false),
        dir("backup-b", false, false, false),
    ]);
    assert!(ops.is_empty());
}

#[test]
fn test_watch_status_default_values() {
    let ws = WatchStatus::default();
    assert!(!ws.active);
    assert_eq!(ws.state, "inactive");
    assert!(ws.last_full.is_none());
    assert!(ws.last_incr.is_none());
    assert_eq!(ws.consecutive_errors, 0);
    assert!(ws.next_backup_in.is_none());
}

#[test]
fn test_watch_status_clone() {
    let ws = WatchStatus {
        active: true,
        state: "creating_full".to_string(),
        consecutive_errors: 3,
        ..Default::default()
    };

    let cloned = ws.clone();
    assert!(cloned.active);
    assert_eq!(cloned.state, "creating_full");
    assert_eq!(cloned.consecutive_errors, 3);
}

#[test]
fn test_resumable_op_clone() {
    let op = ResumableOp {
        backup_name: "my-backup".to_string(),
        op_type: "upload".to_string(),
    };
    let cloned = op.clone();
    assert_eq!(cloned.backup_name, "my-backup");
    assert_eq!(cloned.op_type, "upload");
}

#[test]
fn test_resumable_op_debug() {
    let op = ResumableOp {
        backup_name: "test".to_string(),
        op_type: "download".to_string(),
    };
    let debug_str = format!("{:?}", op);
    assert!(debug_str.contains("test"));
    assert!(debug_str.contains("download"));
}

fn dir(name: &str, upload: bool, download: bool, restore: bool) -> BackupDirEntry {
    BackupDirEntry {
        name: Some(name.to_string()),
        is_dir: true,
        has_upload_state: upload,
        has_download_state: download,
        has_restore_state: restore,
    }
}

fn params() -> RestoreParams {
    RestoreParams {
        tables: Some("db.*".to_string()),
        schema_only: false,
        data_only: true,
        rename_as: None,
        database_mapping: vec![],
        rbac: true,
        configs: false,
        named_collections: false,
        partitions: None,
        skip_empty_tables: true,
    }
}

fn op(name: &str, op_type: &str) -> ResumableOp {
    ResumableOp { backup_name: name.to_string(), op_type: op_type.to_string() }
}

#[test]
fn interrupted_operations_are_resumed() {
    match auto_resume(true, &op("b", "upload"), None) {
        Some(Work::Upload(u)) => {
            assert_eq!(u.backup_name, "b");
            assert!(u.resume && !u.delete_local && u.diff_from_remote.is_none());
        }
        other => panic!("expected an upload, got {:?}", other),
    }
    match auto_resume(true, &op("b", "download"), None) {
        Some(Work::Download(d)) => assert!(d.resume && !d.hardlink_exists_files),
        other => panic!("expected a download, got {:?}", other),
    }
    match auto_resume(true, &op("b", "restore"), Some(params())) {
        Some(Work::Restore(r)) => {
            assert_eq!(r.tables.as_deref(), Some("db.*"));
            assert!(!r.rm && r.resume && r.data_only && r.rbac && r.skip_empty_tables);
            assert!(r.database_mapping.is_none());
        }
        other => panic!("expected a restore, got {:?}", other),
    }
}

#[test]
fn nothing_is_resumed_without_parameters_or_permission() {
    assert!(auto_resume(true, &op("b", "restore"), None).is_none());
    assert!(auto_resume(true, &op("b", "compact"), None).is_none());
    assert!(auto_resume(false, &op("b", "upload"), None).is_none());
}

#[test]
fn refused_names_come_with_their_reasons() {
    assert_eq!(validate_backup_name(""), Err("backup name must not be empty"));
    assert_eq!(validate_backup_name("a..b"), Err("backup name must not contain '..'"));
    assert_eq!(validate_backup_name("a/b"), Err("backup name must not contain '/'"));
    assert_eq!(validate_backup_name("a\\b"), Err("backup name must not contain '\\'"));
    assert_eq!(validate_backup_name("a\0b"), Err("backup name must not contain NUL byte"));
    assert_eq!(validate_backup_name("."), Err("backup name must not be '.'"));
    assert_eq!(
        reject_reserved_backup_name("latest"),
        Err("backup name must not be a reserved shortcut ('latest' or 'previous')")
    );
}

#[test]
fn sequential_operations_are_blocked() {
    let mut state = AppState::new(false);
    let id = state.try_start_op("create", Some("a".to_string())).unwrap();
    assert_eq!(id, 1);
    assert_eq!(state.try_start_op("upload", Some("b".to_string())), Err("operation already in progress"));
    // A refusal for want of a permit is not in the log.
    assert_eq!(state.action_log().entries().len(), 1);
    state.finish_op(id);
    assert!(matches!(state.action_log().entries()[0].status, ActionStatus::Completed));
    assert_eq!(state.try_start_op("upload", Some("b".to_string())), Ok(2));
}

#[test]
fn parallel_operations_on_one_backup_conflict() {
    let mut state = AppState::new(true);
    let a = state.try_start_op("create", Some("a".to_string())).unwrap();
    let b = state.try_start_op("upload", Some("b".to_string())).unwrap();
    let c = state.try_start_op("clean", None).unwrap();
    let d = state.try_start_op("clean", None).unwrap();
    assert_eq!((a, b, c, d), (1, 2, 3, 4));
    assert_eq!(
        state.try_start_op("upload", Some("a".to_string())),
        Err("operation already in progress for this backup")
    );
    // The refusal is in the log, as a failure with an identifier of its own.
    assert_eq!(state.action_log().entries().len(), 5);
    assert_eq!(
        state.action_log().entries()[4].status.error(),
        "operation already in progress for this backup"
    );
    assert_eq!(state.running_ops().len(), 4);
    state.fail_op(a, "broken pipe".to_string());
    assert_eq!(state.action_log().entries()[0].status.text(), "failed: broken pipe");
    assert_eq!(state.try_start_op("upload", Some("a".to_string())), Ok(6));
}

#[test]
fn operations_are_killed_one_by_one_or_all_together() {
    let mut state = AppState::new(true);
    let a = state.try_start_op("create", Some("a".to_string())).unwrap();
    let b = state.try_start_op("upload", Some("b".to_string())).unwrap();
    let c = state.try_start_op("download", Some("c".to_string())).unwrap();
    assert!(!state.kill_op(Some(99)));
    assert_eq!(state.kill_targets(Some(b)), vec![b]);
    assert!(state.kill_op(Some(b)));
    assert_eq!(state.running_ops().len(), 2);
    assert!(matches!(state.action_log().entries()[1].status, ActionStatus::Killed));
    assert_eq!(state.kill_targets(None), vec![a, c]);
    assert!(state.kill_op(None));
    assert!(state.running_ops().is_empty());
    assert!(matches!(state.action_log().entries()[0].status, ActionStatus::Killed));
    assert!(matches!(state.action_log().entries()[2].status, ActionStatus::Killed));
    assert!(!state.kill_op(None));
}

#[test]
fn reload_makes_new_permits_and_leaves_operations_alone() {
    let mut state = AppState::new(true);
    state.try_start_op("create", Some("a".to_string())).unwrap();
    state.maybe_rebuild_semaphore(true, false);
    assert_eq!(state.running_ops().len(), 1);
    // The operation that runs holds its permit of the old set.
    state.try_start_op("upload", Some("b".to_string())).unwrap();
    assert_eq!(state.try_start_op("upload", Some("c".to_string())), Err("operation already in progress"));
    state.maybe_rebuild_semaphore(false, false);
    assert_eq!(state.try_start_op("upload", Some("c".to_string())), Err("operation already in progress"));
}

fn found(backup: &str, op_type: &str) -> ResumableOp {
    ResumableOp { backup_name: backup.to_string(), op_type: op_type.to_string() }
}

fn at(secs: i64) -> Timestamp {
    Timestamp::new(secs, 0).unwrap()
}

#[test]
fn interrupted_operations_are_resumed_once_each() {
    let ops = vec![found("a", "upload"), found("b", "restore"), found("a", "download"), found("c", "download")];
    let mut state = AppState::new(true);
    let started = resume_all(&mut state, true, &ops, vec![None, None, None, None], at(1));
    // The restore lacks its parameters, and the second operation on "a" finds it busy.
    let ids: Vec<u64> = started.iter().map(|(id, _)| *id).collect();
    assert_eq!(ids, vec![1, 3]);
    assert!(matches!(&started[0].1, Work::Upload(u) if u.backup_name == "a" && u.resume));
    assert!(matches!(&started[1].1, Work::Download(d) if d.backup_name == "c" && d.resume));
    let running: Vec<&str> =
        state.running_ops().iter().map(|o| o.command.as_str()).collect();
    assert_eq!(running, vec!["upload", "download"]);

    let mut state = AppState::new(true);
    let started = resume_all(&mut state, false, &ops, vec![None, None, None, None], at(1));
    assert!(started.is_empty());
    assert!(state.running_ops().is_empty());
    assert!(state.action_log().entries().is_empty());

    // Where one operation may run at a time, the first one does.
    let mut state = AppState::new(false);
    assert!(state.ids_left(4));
    let started = resume_all(&mut state, true, &ops, vec![None, None, None, None], at(1));
    assert_eq!(started.len(), 1);
}

#[test]
fn the_next_request_succeeds_once_the_operation_ended() {
    let mut state = AppState::new(false);
    let first = state.try_start_op_at("create", Some("a".to_string()), at(1)).unwrap();
    assert!(state.try_start_op_at("create", Some("b".to_string()), at(2)).is_err());
    state.finish_op_at(first, at(3));
    let second = state.try_start_op_at("create", Some("a".to_string()), at(4)).unwrap();
    assert!(second > first);
    assert_eq!(state.running_ops().len(), 1);
}

#[test]
fn identifiers_rise_by_one_and_ends_follow_the_status() {
    let mut state = AppState::new(true);
    for i in 0..150u64 {
        let id = state.try_start_op_at("create", None, at(1)).unwrap();
        if i % 2 == 0 {
            state.finish_op_at(id, at(2));
        }
    }
    let entries = state.action_log().entries();
    assert_eq!(entries.len(), 100);
    for pair in entries.windows(2) {
        assert_eq!(pair[1].id, pair[0].id + 1);
    }
    for e in entries {
        assert_eq!(e.finish.is_none(), matches!(e.status, ActionStatus::Running));
    }
}

#[test]
fn old_backups_are_deleted_after_an_upload() {
    let upload = match auto_resume(true, &found("b", "upload"), None) {
        Some(w) => w,
        None => panic!("expected an upload"),
    };
    assert_eq!(retention_after(&upload, true, false), Some("b".to_string()));
    assert_eq!(retention_after(&upload, false, false), None);
    assert_eq!(retention_after(&upload, true, true), None);
    assert_eq!(retention_after(&Work::CleanShadow, true, false), None);
    assert_eq!(retention_after(&Work::DeleteRemote("b".to_string()), true, false), None);
}
