use chbackup::list::{BackupSummary, Location};
use chbackup::manifest::{DiskParts, NamedValue, PartInfo, TableManifest};
use chbackup::server::actions::{ActionEntry, ActionStatus};
use chbackup::server::calls::Work;
use chbackup::server::flags::parse_action_flags;
use chbackup::server::listing::{
    backup_tables, build_list_data, check_location, go_list_backups, go_list_response,
    list_backups, live_tables, manifest_refusal, summary_to_list_response, tables, TableRow,
    TablesSource,
};
use chbackup::server::operations::{
    action_invalidates_cache, action_work, clean_both_outcome, clean_local_broken,
    clean_remote_broken,
    complete_operation, create_backup, create_remote, delete_backup, download_backup, plan_action,
    post_actions, restore_backup, restore_remote, upload_backup, OperationConfig,
};
use chbackup::server::routes::{
    action_response, first_request, format_duration, format_go_timestamp, get_actions,
    go_action_response, go_get_actions, go_list_by_location, go_operation_response,
    go_tables_all, health, json_each_row, kill_op, map_go_status,
    metrics, next_reload_stage, paginate, parse_location, reload,
    reload_refusal, request_lines, restart, status, LiveConfig, Reloading,
    validation_error, version, watch_intervals, watch_start, watch_start_refused, watch_status,
    watch_stop, ActionRequest, CreateRemoteRequest, CreateRequest, DownloadRequest, KillParams, ListParams,
    ReloadStage, RestoreRemoteRequest, RestoreRequest, TablesParams, UploadRequest,
    WatchStartRequest,
};
use chbackup::server::state::{AppState, WatchStatus};
use chbackup::table_filter::TableFilter;
use chbackup::time::{Duration, Timestamp};
use chrono::TimeZone;

#[test]
fn test_health_handler() {
    let result = health();
    assert_eq!(result.status, "ok");
}

#[test]
fn test_post_actions_dispatch() {
    let value: serde_json::Value =
        serde_json::from_str(r#"{"command": "create_remote daily_backup"}"#).unwrap();
    let req = ActionRequest {
        command: value["command"].as_str().unwrap().to_string(),
    };
    assert_eq!(req.command, "create_remote daily_backup");

    let plan = plan_action(&req.command).unwrap();
    assert_eq!(plan.words[0], "create_remote");
    assert_eq!(plan.words[1], "daily_backup");
    assert_eq!(plan.locked_name.as_deref(), Some("daily_backup"));
}

#[test]
fn test_delete_path_parsing() {
    // Verify "local"/"remote" string maps correctly to Location
    let local_result = parse_location("local").ok();
    assert_eq!(local_result, Some(Location::Local));

    let remote_result = parse_location("remote").ok();
    assert_eq!(remote_result, Some(Location::Remote));

    let invalid_result = parse_location("invalid").ok();
    assert!(invalid_result.is_none());
}

#[test]
fn test_tables_response_entry_from_manifest_data() {
    let full_name = "default.users";
    let entries = backup_tables(&vec![table(full_name, &[2000, 48])], &None);
    assert_eq!(entries.len(), 1);
    let entry = &entries[0];

    assert_eq!(entry.database, "default");
    assert_eq!(entry.name, "users");
    assert_eq!(entry.total_bytes, Some(2048));
    assert_eq!(entry.engine, "MergeTree");
    assert_eq!(entry.uuid, "");
    assert!(entry.data_paths.is_empty());
}

#[test]
fn test_format_duration_minutes() {
    assert_eq!(format_duration(Duration::from_secs(2820)), "47m");
}

#[test]
fn test_format_duration_hours_and_minutes() {
    assert_eq!(
        format_duration(Duration::from_secs(9000)),
        "2h30m"
    );
}

#[test]
fn test_format_duration_seconds() {
    assert_eq!(format_duration(Duration::from_secs(5)), "5s");
}

#[test]
fn test_format_duration_hours_only() {
    assert_eq!(format_duration(Duration::from_secs(3600)), "1h");
}

#[test]
fn test_watch_start_request_default() {
    let req = WatchStartRequest::default();
    assert!(req.watch_interval.is_none());
    assert!(req.full_interval.is_none());
}

#[test]
fn test_metrics_handler_disabled() {
    let result = metrics(None);
    assert_eq!(result.0, 501);
    assert_eq!(result.1, "metrics disabled");
}

#[test]
fn test_summary_to_list_response_sizes() {
    let summary = BackupSummary {
        name: "test-backup".to_string(),
        timestamp: None,
        size: 4096,
        compressed_size: 2048,
        table_count: 3,
        metadata_size: 128,
        rbac_size: 1024,
        config_size: 512,
        object_disk_size: 768,
        required: "base-backup".to_string(),
        is_broken: false,
        broken_reason: None,
    };

    let response = summary_to_list_response(summary, "local");
    assert_eq!(response.rbac_size, 1024);
    assert_eq!(response.config_size, 512);
    assert_eq!(response.metadata_size, 128);
    assert_eq!(response.size, 4096);
    assert_eq!(response.object_disk_size, 768);
    assert_eq!(response.required, "base-backup");
}

#[test]
fn test_paginate_empty_vec() {
    let items: Vec<i32> = vec![];
    let (header, result) = paginate(items, None, None, "test");
    assert!(result.is_empty());
    assert_eq!(header[0].1, "0");
}

#[test]
fn test_paginate_no_offset_no_limit() {
    let items = vec![1, 2, 3, 4, 5];
    let (header, result) = paginate(items, None, None, "test");
    assert_eq!(result, vec![1, 2, 3, 4, 5]);
    assert_eq!(header[0].1, "5");
}

#[test]
fn test_paginate_offset_only() {
    let items = vec![10, 20, 30, 40, 50];
    let (header, result) = paginate(items, Some(2), None, "test");
    assert_eq!(result, vec![30, 40, 50]);
    // X-Total-Count is the count of the whole list
    assert_eq!(header[0].1, "5");
}

#[test]
fn test_paginate_limit_only() {
    let items = vec![10, 20, 30, 40, 50];
    let (header, result) = paginate(items, None, Some(3), "test");
    assert_eq!(result, vec![10, 20, 30]);
    assert_eq!(header[0].1, "5");
}

#[test]
fn test_paginate_offset_and_limit() {
    let items = vec![10, 20, 30, 40, 50];
    let (header, result) = paginate(items, Some(1), Some(2), "test");
    assert_eq!(result, vec![20, 30]);
    assert_eq!(header[0].1, "5");
}

#[test]
fn test_paginate_offset_beyond_length() {
    let items = vec![1, 2, 3];
    let (header, result) = paginate(items, Some(10), None, "test");
    assert!(result.is_empty());
    assert_eq!(header[0].1, "3");
}

#[test]
fn test_paginate_large_limit() {
    let items = vec![1, 2, 3];
    let (header, result) = paginate(items, None, Some(100), "test");
    assert_eq!(result, vec![1, 2, 3]);
    assert_eq!(header[0].1, "3");
}

#[test]
fn test_paginate_zero_offset_zero_limit() {
    let items = vec![1, 2, 3, 4];
    let (header, result) = paginate(items, Some(0), Some(0), "test");
    assert!(result.is_empty());
    assert_eq!(header[0].1, "4");
}

#[test]
fn test_paginate_header_name_is_x_total_count() {
    let items = vec![1, 2];
    let (header, _) = paginate(items, None, None, "test");
    assert_eq!(header[0].0, "x-total-count");
}

#[test]
fn test_validation_error_returns_bad_request() {
    let (status, body) = validation_error("bad/../name", "must not contain '..'");
    assert_eq!(status, 400);
    assert!(body.error.contains("invalid backup name"));
    assert!(body.error.contains("must not contain '..'"));
}

#[test]
fn test_validation_error_includes_reason() {
    let (status, body) = validation_error("", "backup name must not be empty");
    assert_eq!(status, 400);
    assert!(body.error.contains("backup name must not be empty"));
}

#[test]
fn test_format_duration_zero() {
    assert_eq!(format_duration(Duration::from_secs(0)), "0s");
}

#[test]
fn test_format_duration_one_second() {
    assert_eq!(format_duration(Duration::from_secs(1)), "1s");
}

#[test]
fn test_format_duration_59_seconds() {
    assert_eq!(format_duration(Duration::from_secs(59)), "59s");
}

#[test]
fn test_format_duration_exactly_60_seconds() {
    assert_eq!(format_duration(Duration::from_secs(60)), "1m");
}

#[test]
fn test_format_duration_hours_minutes_seconds() {
    // 1h1m1s = 3661s. format_duration only shows h+m, ignoring leftover seconds
    assert_eq!(
        format_duration(Duration::from_secs(3661)),
        "1h1m"
    );
}

#[test]
fn test_format_duration_very_large() {
    // 100 hours
    assert_eq!(
        format_duration(Duration::from_secs(360_000)),
        "100h"
    );
}

#[test]
fn test_summary_to_list_response_with_timestamp() {
    let ts = stamp(chrono::Utc.with_ymd_and_hms(2025, 3, 1, 12, 0, 0).unwrap());
    let summary = BackupSummary {
        name: "ts-backup".to_string(),
        timestamp: Some(ts),
        size: 100,
        compressed_size: 50,
        table_count: 1,
        metadata_size: 10,
        rbac_size: 0,
        config_size: 0,
        object_disk_size: 0,
        required: String::new(),
        is_broken: false,
        broken_reason: None,
    };
    let resp = summary_to_list_response(summary, "remote");
    assert_eq!(resp.name, "ts-backup");
    assert_eq!(resp.location, "remote");
    assert!(resp.created.contains("2025"));
    assert_eq!(resp.data_size, resp.size); // data_size == size
    assert_eq!(resp.compressed_size, 50);
}

#[test]
fn test_summary_to_list_response_no_timestamp() {
    let summary = BackupSummary {
        name: "no-ts".to_string(),
        timestamp: None,
        size: 0,
        compressed_size: 0,
        table_count: 0,
        metadata_size: 0,
        rbac_size: 0,
        config_size: 0,
        object_disk_size: 0,
        required: String::new(),
        is_broken: false,
        broken_reason: None,
    };
    let resp = summary_to_list_response(summary, "local");
    assert_eq!(resp.created, ""); // None maps to empty string
}

#[test]
fn test_post_actions_delete_invalid_location() {
    // The delete command with a typo ("loacl")
    let plan = plan_action("delete loacl my_backup").unwrap();
    assert_eq!(plan.locked_name.as_deref(), Some("my_backup"));

    // Unknown locations are rejected instead of falling through to remote
    match action_work(&plan, "generated", &config()) {
        Work::Refuse(err_msg) => {
            assert!(
                err_msg.contains("invalid location"),
                "Error should mention 'invalid location', got: {err_msg}"
            );
            assert!(
                err_msg.contains("loacl"),
                "Error should include the typo'd value, got: {err_msg}"
            );
        }
        other => panic!("Typo 'loacl' should be rejected, got {other:?}"),
    }
}

#[test]
fn test_list_desc_sorts_by_created_not_name() {
    // Backups whose name order differs from the order in which they were made
    let summaries = || {
        vec![
            summary("z-oldest", Some("2024-01-01T00:00:00+00:00")),
            summary("a-newest", Some("2024-06-01T00:00:00+00:00")),
            summary("m-middle", Some("2024-03-15T00:00:00+00:00")),
        ]
    };

    // Ascending sort (default)
    let results = build_list_data(None, false, Some(summaries()), None);
    assert_eq!(results[0].created, "2024-01-01T00:00:00+00:00");
    assert_eq!(results[0].name, "z-oldest");
    assert_eq!(results[1].name, "m-middle");
    assert_eq!(results[2].name, "a-newest");

    // Descending sort (desc=true)
    let results = build_list_data(None, true, Some(summaries()), None);
    assert_eq!(results[0].name, "a-newest");
    assert_eq!(results[1].name, "m-middle");
    assert_eq!(results[2].name, "z-oldest");
}

#[test]
fn test_parse_action_flags_restore_with_table_and_mapping() {
    let parts = vec![
        "restore",
        "--table=events.t",
        "--restore-table-mapping",
        "t:t_DR",
        "backup",
    ];
    let flags = parse_action_flags(&parts);
    assert_eq!(flags.backup_name.as_deref(), Some("backup"));
    assert_eq!(flags.table_pattern.as_deref(), Some("events.t"));
    // db should be inferred from --table
    assert_eq!(flags.rename_as.as_deref(), Some("events.t:events.t_DR"));
    assert!(!flags.rbac);
    assert!(!flags.configs);
    assert!(!flags.rm);
}

#[test]
fn test_parse_action_flags_create_with_diff_and_rbac() {
    let parts = vec![
        "create",
        "--diff-from-remote=base",
        "--rbac",
        "--configs",
        "backup",
    ];
    let flags = parse_action_flags(&parts);
    assert_eq!(flags.backup_name.as_deref(), Some("backup"));
    assert_eq!(flags.diff_from_remote.as_deref(), Some("base"));
    assert!(flags.rbac);
    assert!(flags.configs);
    assert!(!flags.rm);
}

#[test]
fn test_parse_action_flags_no_flags() {
    let parts = vec!["create", "backup_name"];
    let flags = parse_action_flags(&parts);
    assert_eq!(flags.backup_name.as_deref(), Some("backup_name"));
    assert!(flags.table_pattern.is_none());
    assert!(flags.rename_as.is_none());
    assert!(flags.diff_from_remote.is_none());
    assert!(!flags.rbac);
    assert!(!flags.configs);
    assert!(!flags.rm);
}

#[test]
fn test_parse_action_flags_table_space_separated() {
    let parts = vec!["restore", "--table", "db.t", "backup"];
    let flags = parse_action_flags(&parts);
    assert_eq!(flags.table_pattern.as_deref(), Some("db.t"));
    assert_eq!(flags.backup_name.as_deref(), Some("backup"));
}

#[test]
fn test_parse_action_flags_mapping_with_db() {
    let parts = vec![
        "restore",
        "--table=db.t",
        "--restore-table-mapping=db.t:db.t_DR",
        "backup",
    ];
    let flags = parse_action_flags(&parts);
    // Already has db prefix, should pass through unchanged
    assert_eq!(flags.rename_as.as_deref(), Some("db.t:db.t_DR"));
}

#[test]
fn test_parse_action_flags_mapping_infers_db() {
    let parts = vec![
        "restore",
        "--table=mydb.users",
        "--restore-table-mapping=users:users_DR",
        "backup",
    ];
    let flags = parse_action_flags(&parts);
    assert_eq!(
        flags.rename_as.as_deref(),
        Some("mydb.users:mydb.users_DR")
    );
}

#[test]
fn test_parse_action_flags_mapping_wildcard_no_infer() {
    let parts = vec![
        "restore",
        "--table=db.*",
        "--restore-table-mapping=t:t_DR",
        "backup",
    ];
    let flags = parse_action_flags(&parts);
    // Wildcard in --table, should not infer db
    assert_eq!(flags.rename_as.as_deref(), Some("t:t_DR"));
}

#[test]
fn test_parse_action_flags_rm_and_drop() {
    let parts = vec!["restore", "--rm", "backup"];
    let flags = parse_action_flags(&parts);
    assert!(flags.rm);

    let parts = vec!["restore", "--drop", "backup"];
    let flags = parse_action_flags(&parts);
    assert!(flags.rm);
}

fn stamp(t: chrono::DateTime<chrono::Utc>) -> Timestamp {
    Timestamp::new(t.timestamp(), t.timestamp_subsec_nanos()).unwrap()
}

fn at(text: &str) -> Timestamp {
    stamp(chrono::DateTime::parse_from_rfc3339(text).unwrap().to_utc())
}

fn summary(name: &str, created: Option<&str>) -> BackupSummary {
    BackupSummary {
        name: name.to_string(),
        timestamp: created.map(at),
        size: 0,
        compressed_size: 0,
        table_count: 0,
        metadata_size: 0,
        rbac_size: 0,
        config_size: 0,
        object_disk_size: 0,
        required: String::new(),
        is_broken: false,
        broken_reason: None,
    }
}

fn table(key: &str, sizes: &[u64]) -> TableManifest {
    TableManifest {
        key: key.to_string(),
        engine: "MergeTree".to_string(),
        uuid: None,
        metadata_only: false,
        disks: vec![DiskParts {
            disk_name: "default".to_string(),
            parts: sizes.iter().map(|s| PartInfo::new("p", *s, 0)).collect(),
        }],
    }
}

fn config() -> OperationConfig {
    OperationConfig {
        use_resumable_state: true,
        skip_projections: vec!["proj".to_string()],
    }
}

fn now() -> Timestamp {
    at("2025-03-01T12:00:00+00:00")
}

#[test]
fn lists_hold_the_places_that_are_asked_for() {
    let both = build_list_data(
        None,
        false,
        Some(vec![summary("b", Some("2024-01-01T00:00:00+00:00")), summary("broken", None)]),
        Some(vec![summary("b", Some("2024-01-01T00:00:00+00:00"))]),
    );
    let rows: Vec<_> = both.iter().map(|r| (r.name.as_str(), r.location.as_str())).collect();
    // What has no time comes first; of the same backup in two places the local one does.
    assert_eq!(rows, vec![("broken", "local"), ("b", "local"), ("b", "remote")]);

    let remote = build_list_data(
        Some("remote"),
        true,
        Some(vec![summary("x", None)]),
        Some(vec![summary("y", None), summary("z", None)]),
    );
    let rows: Vec<_> = remote.iter().map(|r| r.name.as_str()).collect();
    assert_eq!(rows, vec!["z", "y"]);
    assert!(build_list_data(None, true, None, None).is_empty());
    assert!(check_location(Some("local")).is_ok());
    let (status, body) = check_location(Some("moon")).unwrap_err();
    assert_eq!(status, 400);
    assert_eq!(body.error, "Invalid location: must be 'local' or 'remote'");
}

#[test]
fn rows_in_the_other_dialect() {
    let mut s = summary("b", Some("2024-01-02T03:04:05.678+00:00"));
    s.size = u64::MAX;
    let row = summary_to_list_response(s, "local");
    let go = go_list_response(&row);
    assert_eq!(go.created, "2024-01-02 03:04:05");
    assert_eq!(go.size, i64::MAX);
    assert_eq!(go.desc, "tar, regular");
    let mut s = summary("b", None);
    s.required = "base".to_string();
    let go = go_list_response(&summary_to_list_response(s, "local"));
    assert_eq!((go.created.as_str(), go.desc.as_str()), ("", "tar, incremental"));
    let mut s = summary("b", None);
    s.is_broken = true;
    let go = go_list_response(&summary_to_list_response(s, "local"));
    assert_eq!(go.desc, "broken: unknown");
    let mut s = summary("b", None);
    s.is_broken = true;
    s.broken_reason = Some("no manifest".to_string());
    let go = go_list_response(&summary_to_list_response(s, "local"));
    assert_eq!(go.desc, "broken: no manifest");
}

#[test]
fn times_in_the_other_dialect() {
    assert_eq!(format_go_timestamp("2024-01-15T10:00:00+00:00"), "2024-01-15 10:00:00");
    // The time of day that the text itself shows.
    assert_eq!(format_go_timestamp("2024-01-15T10:00:00+05:30"), "2024-01-15 10:00:00");
    assert_eq!(format_go_timestamp("yesterday"), "yesterday");
    assert_eq!(format_go_timestamp(""), "");
}

#[test]
fn actions_are_shown_in_both_dialects() {
    let entry = ActionEntry {
        id: 7,
        command: "upload".to_string(),
        start: at("2024-01-15T10:00:00+00:00"),
        finish: Some(at("2024-01-15T10:05:00+00:00")),
        status: ActionStatus::Failed("reset".to_string()),
    };
    let a = action_response(&entry);
    assert_eq!((a.id, a.command.as_str()), (7, "upload"));
    assert_eq!(a.start, "2024-01-15T10:00:00+00:00");
    assert_eq!(a.finish, "2024-01-15T10:05:00+00:00");
    assert_eq!((a.status.as_str(), a.error.as_str()), ("failed", "reset"));
    let g = go_action_response(&entry);
    assert_eq!(g.start, "2024-01-15 10:00:00");
    assert_eq!(g.finish, "2024-01-15 10:05:00");
    assert_eq!((g.status.as_str(), g.error.as_str()), ("error", "reset"));
    let running = ActionEntry { finish: None, status: ActionStatus::Running, ..entry };
    assert_eq!(go_action_response(&running).finish, "");
    assert_eq!(get_actions(&vec![running])[0].finish, "");
}

#[test]
fn statuses_in_the_other_dialect() {
    assert_eq!(map_go_status("running"), "in progress");
    assert_eq!(map_go_status("completed"), "success");
    assert_eq!(map_go_status("failed"), "error");
    assert_eq!(map_go_status("killed"), "cancel");
    assert_eq!(map_go_status("anything"), "error");
    let r = go_operation_response("create");
    assert_eq!((r.status.as_str(), r.operation.as_str()), ("acknowledged", "create"));
}

#[test]
fn rows_are_written_line_by_line() {
    assert_eq!(json_each_row(&vec![]), "");
    assert_eq!(json_each_row(&vec!["{}".to_string()]), "{}\n");
    assert_eq!(json_each_row(&vec!["a".to_string(), "b".to_string()]), "a\nb\n");
}

#[test]
fn bodies_are_cut_into_lines() {
    let body = b"  {\"command\":\"a\"} \r\n\n\xff\n\t\nlast";
    assert_eq!(request_lines(body), vec!["{\"command\":\"a\"}".to_string(), "last".to_string()]);
    assert!(request_lines(b"").is_empty());
    let (status, body) = first_request(vec![]).unwrap_err();
    assert_eq!((status, body.error.as_str()), (400, "empty or unparseable request body"));
    let first = first_request(vec![
        ActionRequest { command: "x".to_string() },
        ActionRequest { command: "y".to_string() },
    ]);
    assert_eq!(first.unwrap().command, "x");
}

#[test]
fn tables_are_filtered() {
    let tables = vec![table("a.x", &[1]), table("b.y", &[2]), table("system.z", &[3]), table("odd", &[])];
    let shown = |p: &str| -> Vec<String> {
        backup_tables(&tables, &Some(TableFilter::new(p)))
            .iter()
            .map(|e| format!("{}.{}", e.database, e.name))
            .collect()
    };
    assert_eq!(shown("a.*,system.*"), vec!["a.x"]);
    assert_eq!(shown("*.*"), vec!["a.x", "b.y", "odd."]);
    assert_eq!(backup_tables(&tables, &None).len(), 4);
    let row = |db: &str| TableRow {
        database: db.to_string(),
        name: "t".to_string(),
        engine: "Log".to_string(),
        uuid: "u".to_string(),
        data_paths: vec!["/d".to_string()],
        total_bytes: None,
    };
    let rows = vec![row("a"), row("system")];
    let live = live_tables(&rows, &Some(TableFilter::new("*.t")), false);
    assert_eq!(live.len(), 1);
    assert_eq!(live[0].data_paths, vec!["/d".to_string()]);
    assert_eq!(live_tables(&rows, &Some(TableFilter::new("*.t")), true).len(), 2);
    assert_eq!(live_tables(&rows, &None, false).len(), 2);
    let (status, body) = manifest_refusal("b", "gone");
    assert_eq!(status, 404);
    assert_eq!(body.error, "failed to download manifest for backup 'b': gone");
}

#[test]
fn watch_loop_is_started_once() {
    let mut ws = WatchStatus::default();
    assert!(watch_start(&mut ws).is_ok());
    assert!(ws.active);
    let (status, body) = watch_start(&mut ws).unwrap_err();
    assert_eq!((status, body.error.as_str()), (409, "watch loop already active"));
    let (status, body) = watch_start_refused(&mut ws, "bad interval");
    assert_eq!((status, body.error.as_str()), (400, "invalid config: bad interval"));
    assert!(!ws.active);
    assert_eq!(watch_stop(true).unwrap().status, "stopping");
    let (status, body) = watch_stop(false).unwrap_err();
    assert_eq!((status, body.error.as_str()), (404, "watch loop not active"));
    let req = WatchStartRequest { watch_interval: Some("2h".to_string()), full_interval: None };
    assert_eq!(watch_intervals(req, "1h", "24h"), ("2h".to_string(), "24h".to_string()));
}

#[test]
fn watch_status_is_shown() {
    let ws = WatchStatus {
        active: true,
        state: "sleeping".to_string(),
        last_full: Some(at("2025-02-15T02:00:00+00:00")),
        last_incr: None,
        consecutive_errors: 2,
        next_backup_in: Some(Duration::from_millis(2820999)),
    };
    let r = watch_status(&ws);
    assert_eq!(r.state, "sleeping");
    assert!(r.active);
    assert_eq!(r.last_full.as_deref(), Some("2025-02-15T02:00:00+00:00"));
    assert!(r.last_incr.is_none());
    assert_eq!(r.consecutive_errors, 2);
    assert_eq!(r.next_in.as_deref(), Some("47m"));
}

#[test]
fn the_status_shows_the_operation_that_runs() {
    let mut state = AppState::new(true);
    let idle = status(&state);
    assert_eq!(idle.status, "idle");
    assert!(idle.command.is_none() && idle.start.is_none());
    upload_backup(&mut state, "b", UploadRequest::default(), &config(), now()).unwrap();
    clean_local_broken(&mut state, now()).unwrap();
    let running = status(&state);
    assert_eq!(running.status, "running");
    assert_eq!(running.command.as_deref(), Some("upload"));
    assert_eq!(running.start.as_deref(), Some("2025-03-01T12:00:00+00:00"));
}

#[test]
fn pages_of_lists() {
    let params = |location: Option<&str>| ListParams {
        location: location.map(|l| l.to_string()),
        desc: Some(true),
        offset: Some(1),
        limit: Some(1),
        format: None,
    };
    let local = || Some(vec![summary("x", None), summary("y", None), summary("z", None)]);
    let (header, rows) = list_backups(&params(None), local(), None).unwrap();
    assert_eq!(header[0], ("x-total-count", "3".to_string()));
    assert_eq!(rows.len(), 1);
    assert_eq!(rows[0].name, "y");
    assert_eq!(list_backups(&params(Some("moon")), local(), None).unwrap_err().0, 400);
    assert_eq!(go_list_backups(&rows)[0].name, "y");

    let params = TablesParams {
        table: Some("a.*".to_string()),
        all: None,
        backup: None,
        offset: None,
        limit: None,
    };
    let (header, entries) = tables(
        &params,
        TablesSource::Backup(vec![table("a.x", &[1]), table("b.y", &[2])]),
    );
    assert_eq!(header[0].1, "1");
    assert_eq!(entries[0].name, "x");
    assert_eq!(go_tables_all(params).all, Some(true));
    let by_place = go_list_by_location("local".to_string()).unwrap();
    assert_eq!(by_place.location.as_deref(), Some("local"));
    let (status, body) = go_list_by_location("moon".to_string()).unwrap_err();
    assert_eq!(status, 400);
    assert_eq!(body, "{\"error\":\"Invalid location: must be 'local' or 'remote'\"}\n");
}

#[test]
fn pages_tile_a_list() {
    let items: Vec<i32> = (0..10).collect();
    let (_, a) = paginate(items.clone(), Some(3), Some(4), "t");
    let (_, b) = paginate(items.clone(), Some(7), None, "t");
    let (_, all) = paginate(items, Some(3), None, "t");
    assert_eq!([a, b].concat(), all);
}

#[test]
fn complete_mappings_pass_through() {
    let parts = vec!["restore", "-t=db.t", "--restore-table-mapping", "a.x:b.y,odd,c.z:d.w"];
    assert_eq!(parse_action_flags(&parts).rename_as.as_deref(), Some("a.x:b.y,odd,c.z:d.w"));
    let parts = vec!["restore", "--table", "db.t", "--restore-table-mapping= x : y ,z:q.w"];
    assert_eq!(parse_action_flags(&parts).rename_as.as_deref(), Some("db.x:db.y,db.z:q.w"));
    // A flag at the end without its value is left out.
    let flags = parse_action_flags(&["restore", "b", "--unknown", "c", "--table"]);
    assert_eq!(flags.backup_name.as_deref(), Some("b"));
    assert!(flags.table_pattern.is_none());
}

#[test]
fn small_answers() {
    assert!(go_get_actions(&vec![]).is_empty());
    assert_eq!(kill_op(true), Ok("killed"));
    assert_eq!(kill_op(false), Err(404));
    assert!(KillParams::default().id.is_none());
    assert_eq!(metrics(Some(Ok("text".to_string()))), (200, "text".to_string()));
    assert_eq!(
        metrics(Some(Err("e".to_string()))),
        (500, "metrics encoding error: e".to_string())
    );
    let v = version("1.2.3", None);
    assert_eq!((v.version.as_str(), v.clickhouse_version.as_str()), ("1.2.3", "unknown"));
    assert_eq!(version("1", Some("24".to_string())).clickhouse_version, "24");
}

#[test]
fn configuration_is_loaded_step_by_step() {
    let mut stage = Some(ReloadStage::Load);
    let mut seen = Vec::new();
    while let Some(s) = stage {
        seen.push(s);
        stage = next_reload_stage(s, true);
    }
    assert_eq!(seen.len(), 5);
    assert_eq!(next_reload_stage(ReloadStage::S3, false), None);
    let (status, body) = reload_refusal(ReloadStage::Ping, "refused");
    assert_eq!((status, body.error.as_str()), (500, "ClickHouse ping failed: refused"));
}

fn live(number: u64, allow_parallel: bool) -> LiveConfig {
    LiveConfig {
        config: number,
        clickhouse: number,
        s3: number,
        allow_parallel,
        remote_cache_ttl_secs: 300 + number,
    }
}

fn loading(restart: bool, fails_at: Option<ReloadStage>) -> (Reloading, usize) {
    let mut l = Reloading::begin(restart);
    let mut steps = 0;
    while let Some(stage) = l.next() {
        steps += 1;
        l.stage_ended(if Some(stage) == fails_at { Err("no".to_string()) } else { Ok(()) });
    }
    (l, steps)
}

#[test]
fn a_reload_takes_everything_into_use_at_once() {
    let mut state = AppState::new(false);
    let mut in_use = live(1, false);
    let (l, steps) = loading(false, None);
    assert_eq!(steps, 4);
    let (answer, tell) = reload(l, &mut state, &mut in_use, live(2, true), true).unwrap();
    assert_eq!((answer.status.as_str(), tell), ("reloaded", true));
    assert_eq!(in_use, live(2, true));
    assert!(state.try_start_op("create", None).is_ok());
    assert!(state.try_start_op("create", None).is_ok());
}

#[test]
fn a_step_that_fails_leaves_everything_as_it_was() {
    for stage in [
        ReloadStage::Load,
        ReloadStage::Validate,
        ReloadStage::ClickHouse,
        ReloadStage::S3,
        ReloadStage::Ping,
    ] {
        let mut state = AppState::new(false);
        let mut in_use = live(1, false);
        let (l, _) = loading(true, Some(stage));
        let (status, body) =
            restart(l, &mut state, &mut in_use, live(2, true), true).err().unwrap();
        assert_eq!(status, 500);
        assert!(body.error.ends_with(": no"), "{}", body.error);
        assert_eq!(in_use, live(1, false));
        assert!(state.try_start_op("create", None).is_ok());
        assert!(state.try_start_op("create", None).is_err());
    }
    let (l, steps) = loading(true, None);
    assert_eq!(steps, 5);
    let mut state = AppState::new(false);
    let mut in_use = live(1, false);
    let (answer, tell) = restart(l, &mut state, &mut in_use, live(2, false), false).unwrap();
    assert_eq!((answer.status.as_str(), tell), ("restarted", false));
}

#[test]
fn commands_are_refused_with_reasons() {
    let error = |c: &str| -> String {
        let (status, body) = plan_action(c).unwrap_err();
        assert_eq!(status, 400);
        body.error
    };
    assert_eq!(error("explode now"), "unknown command: 'explode'");
    assert_eq!(error("  "), "unknown command: ''");
    assert_eq!(error("create ../x"), "invalid backup name: backup name must not contain '..'");
    assert_eq!(
        error("delete local"),
        "delete: missing backup name (usage: delete [local|remote] <name>)"
    );
    assert_eq!(error("delete remote a/b"), "invalid backup name: backup name must not contain '/'");
    assert_eq!(
        error("create latest"),
        "invalid backup name: backup name must not be a reserved shortcut ('latest' or 'previous')"
    );
    assert!(plan_action("upload latest").is_ok());
}

#[test]
fn commands_start_operations() {
    let mut state = AppState::new(false);
    let (started, plan) = post_actions(&mut state, "create_remote --rbac -t db.* nightly", now()).unwrap();
    assert_eq!((started.id, started.status.as_str()), (1, "started"));
    match action_work(&plan, "generated", &config()) {
        Work::CreateRemote(c, u) => {
            assert_eq!(c.backup_name, "nightly");
            assert_eq!(c.tables.as_deref(), Some("db.*"));
            assert!(c.rbac && !c.configs);
            assert_eq!(c.skip_projections, vec!["proj".to_string()]);
            assert!(u.resume && !u.delete_local);
        }
        other => panic!("unexpected work {:?}", other),
    }
    let (status, body) = post_actions(&mut state, "upload other", now()).unwrap_err();
    assert_eq!((status, body.error.as_str()), (423, "operation already in progress"));
    assert!(complete_operation(&mut state, 1, Ok(()), action_invalidates_cache("create_remote"), now()));
    assert!(post_actions(&mut state, "upload other", now()).is_ok());
    assert!(!complete_operation(&mut state, 2, Err("x".to_string()), true, now()));
    assert_eq!(state.action_log().entries()[1].status.text(), "failed: x");
}

#[test]
fn commands_do_what_they_say() {
    let work = |c: &str| action_work(&plan_action(c).unwrap(), "generated", &config());
    assert!(matches!(work("create"), Work::Create(c) if c.backup_name == "generated"));
    assert!(matches!(work("upload a --diff-from-remote base"), Work::Upload(u) if u.diff_from_remote.as_deref() == Some("base")));
    assert!(matches!(work("download a"), Work::Download(d) if d.resume));
    assert!(matches!(work("restore a --rm"), Work::Restore(r) if r.rm && r.resume));
    assert!(matches!(work("restore_remote a"), Work::RestoreRemote(d, r) if d.backup_name == "a" && r.backup_name == "a"));
    assert!(matches!(work("delete a"), Work::DeleteRemote(n) if n == "a"));
    assert!(matches!(work("delete local a"), Work::DeleteLocal(n) if n == "a"));
    assert!(matches!(work("clean_broken local"), Work::CleanBrokenLocal));
    assert!(matches!(work("clean_broken remote"), Work::CleanBrokenRemote));
    assert!(matches!(work("clean_broken"), Work::CleanBrokenBoth));
    assert!(!action_invalidates_cache("restore"));
    assert_eq!(clean_both_outcome(Ok(()), Ok(())), Ok(()));
    assert_eq!(clean_both_outcome(Ok(()), Err("l".to_string())), Err("l".to_string()));
    assert_eq!(
        clean_both_outcome(Err("r".to_string()), Err("l".to_string())),
        Err("Both remote and local clean_broken failed: remote: r; local: l".to_string())
    );
}

#[test]
fn requests_start_operations() {
    let mut state = AppState::new(true);
    let started = create_backup(&mut state, CreateRequest::default(), "auto", &config(), now()).unwrap();
    assert_eq!((started.label, started.invalidate_cache), ("create", false));
    assert!(matches!(started.work, Work::Create(c) if c.backup_name == "auto" && c.skip_projections == vec!["proj".to_string()]));
    let req = UploadRequest { delete_local: Some(true), diff_from_remote: None, resume: Some(false) };
    let started = upload_backup(&mut state, "b", req, &config(), now()).unwrap();
    assert!(started.invalidate_cache);
    assert!(matches!(started.work, Work::Upload(u) if u.delete_local && !u.resume));
    let (status, body) = download_backup(&mut state, "b", DownloadRequest::default(), &config(), now()).unwrap_err();
    assert_eq!((status, body.error.as_str()), (423, "operation already in progress for this backup"));
    let req = RestoreRequest {
        schema: Some(true),
        data_only: Some(true),
        ..RestoreRequest::default()
    };
    let (status, body) = restore_backup(&mut state, "c", req, Ok(vec![]), &config(), now()).unwrap_err();
    assert_eq!((status, body.error.as_str()), (400, "schema and data_only are mutually exclusive"));
    let req = RestoreRequest {
        database_mapping: Some("x".to_string()),
        ..RestoreRequest::default()
    };
    let (status, body) = restore_backup(&mut state, "c", req, Err("no colon".to_string()), &config(), now()).unwrap_err();
    assert_eq!((status, body.error.as_str()), (400, "invalid database_mapping: no colon"));
    let req = RestoreRemoteRequest {
        database_mapping: Some("x:y".to_string()),
        rm: Some(true),
        ..RestoreRemoteRequest::default()
    };
    let pair = NamedValue { name: "x".to_string(), value: "y".to_string() };
    let started = restore_remote(&mut state, "c", req, Ok(vec![pair]), &config(), now()).unwrap();
    assert!(matches!(started.work, Work::RestoreRemote(_, r) if r.rm && r.database_mapping.as_ref().map(|m| m.len()) == Some(1)));
    let req = CreateRemoteRequest {
        backup_name: Some("previous".to_string()),
        ..CreateRemoteRequest::default()
    };
    assert_eq!(create_remote(&mut state, req, "auto", &config(), now()).unwrap_err().0, 400);
    let started = delete_backup(&mut state, "remote", "d", now()).unwrap();
    assert!(started.invalidate_cache && matches!(started.work, Work::DeleteRemote(n) if n == "d"));
    assert!(!delete_backup(&mut state, "local", "e", now()).unwrap().invalidate_cache);
    let (status, body) = delete_backup(&mut state, "moon", "f", now()).unwrap_err();
    assert_eq!((status, body.error.as_str()), (400, "invalid location 'moon': expected 'local' or 'remote'"));
    assert!(clean_remote_broken(&mut state, now()).unwrap().invalidate_cache);
}

#[test]
fn a_mapping_that_is_filled_in_is_left_alone() {
    for mapping in ["users:people", "db.users:people,orders:archive.orders", "users", ":x", "a:b:c"] {
        let read = |m: &str| {
            let flag = format!("--restore-table-mapping={m}");
            parse_action_flags(&["restore", "--table=prod.users", &flag]).rename_as.unwrap()
        };
        let filled = read(mapping);
        assert_eq!(read(&filled), filled, "{mapping}");
    }
}

#[test]
fn commands_lock_the_backup_that_they_work_on() {
    let lock = |command: &str| {
        let plan = plan_action(command).unwrap();
        chbackup::server::operations::action_lock_name(&plan, "made-up")
    };
    assert_eq!(lock("create daily"), "daily");
    assert_eq!(lock("create"), "made-up");
    assert_eq!(lock("delete local daily"), "daily");
    assert_eq!(lock("delete elsewhere daily"), "daily");
}
