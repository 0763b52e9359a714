use chbackup::server::actions::{ActionLog, ActionStatus};

#[test]
fn test_action_log_start_finish() {
    let mut log = ActionLog::new(10);

    let id = log.start("create".to_string());
    assert_eq!(id, 1);
    assert_eq!(log.entries().len(), 1);

    let entry = &log.entries()[0];
    assert!(matches!(entry.status, ActionStatus::Running));
    assert!(entry.finish.is_none());

    log.finish(id);

    let entry = &log.entries()[0];
    assert!(matches!(entry.status, ActionStatus::Completed));
    assert!(entry.finish.is_some());
}

#[test]
fn test_action_log_capacity() {
    let mut log = ActionLog::new(3);

    let _id1 = log.start("create".to_string());
    let _id2 = log.start("upload".to_string());
    let _id3 = log.start("download".to_string());
    assert_eq!(log.entries().len(), 3);

    // Adding a 4th should drop the oldest
    let id4 = log.start("restore".to_string());
    assert_eq!(log.entries().len(), 3);

    // Oldest should be id2 (id1 was dropped)
    assert_eq!(log.entries()[0].id, 2);
    assert_eq!(log.entries()[2].id, id4);
}

#[test]
fn test_action_log_fail() {
    let mut log = ActionLog::new(10);

    let id = log.start("upload".to_string());
    log.fail(id, "connection timeout".to_string());

    let entry = &log.entries()[0];
    assert!(matches!(&entry.status, ActionStatus::Failed(e) if e == "connection timeout"));
    assert!(entry.finish.is_some());
}

#[test]
fn test_action_log_running() {
    let mut log = ActionLog::new(10);

    // No running action initially
    assert!(log.running().is_none());

    let id = log.start("create".to_string());
    assert!(log.running().is_some());
    assert_eq!(log.running().unwrap().id, id);

    // After finishing, no running action
    log.finish(id);
    assert!(log.running().is_none());
}

#[test]
fn test_action_log_kill() {
    let mut log = ActionLog::new(10);

    let id = log.start("restore".to_string());
    log.kill(id);

    let entry = &log.entries()[0];
    assert!(matches!(entry.status, ActionStatus::Killed));
    assert!(entry.finish.is_some());
}

#[test]
fn action_status_in_words() {
    assert_eq!(ActionStatus::Running.text(), "running");
    assert_eq!(ActionStatus::Completed.text(), "completed");
    assert_eq!(ActionStatus::Failed("disk full".to_string()).text(), "failed: disk full");
    assert_eq!(ActionStatus::Killed.text(), "killed");
    assert_eq!(ActionStatus::Failed("disk full".to_string()).name(), "failed");
    assert_eq!(ActionStatus::Failed("disk full".to_string()).error(), "disk full");
    assert_eq!(ActionStatus::Killed.error(), "");
}

#[test]
fn log_without_capacity_holds_the_latest_action() {
    let mut log = ActionLog::new(0);
    assert_eq!(log.start("create".to_string()), 1);
    assert_eq!(log.start("upload".to_string()), 2);
    assert_eq!(log.entries().len(), 1);
    assert_eq!(log.entries()[0].id, 2);
    assert_eq!(log.entries()[0].command, "upload");
}

#[test]
fn ending_an_unknown_action_changes_nothing() {
    let mut log = ActionLog::new(2);
    let id = log.start("create".to_string());
    log.finish(id + 7);
    assert!(matches!(log.entries()[0].status, ActionStatus::Running));
    assert!(log.entries()[0].finish.is_none());
}
