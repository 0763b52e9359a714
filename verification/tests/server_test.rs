use base64::Engine;
use chbackup::server::auth::{check_credentials, is_authorized, unauthorized_response};
use chbackup::server::metrics::{
    duration_buckets, gauge_value, in_progress_value, initial_operations, metric_specs,
    MetricKind, OperationLabels, PhaseGauges, PhaseSnapshot,
};
use chbackup::server::state::WatchStatus;
use chbackup::server::{
    clickhouse_retry_secs, handle_watch_exit, mark_watch_started, parse_integration_host_port,
    start_server, ApiConfig, StartStep,
};
use chbackup::watch::WatchLoopExit;

#[test]
fn test_parse_integration_host_port_defaults() {
    let config = ApiConfig::default();
    let (host, port) = parse_integration_host_port(&config);
    assert_eq!(host, "localhost");
    assert_eq!(port, "7171");
}

#[test]
fn test_parse_integration_host_port_custom() {
    let mut config = ApiConfig::default();
    config.integration_tables_host = "backup-server".to_string();
    config.listen = "0.0.0.0:8080".to_string();
    let (host, port) = parse_integration_host_port(&config);
    assert_eq!(host, "backup-server");
    assert_eq!(port, "8080");
}

#[test]
fn test_parse_integration_host_port_ipv4() {
    let mut config = ApiConfig::default();
    config.listen = "127.0.0.1:9090".to_string();
    let (host, port) = parse_integration_host_port(&config);
    assert_eq!(host, "localhost"); // default when integration_tables_host is empty
    assert_eq!(port, "9090");
}

#[test]
fn test_parse_integration_host_port_no_colon() {
    // Edge case: if listen has no colon, rsplit(':').next() returns the whole string
    let mut config = ApiConfig::default();
    config.listen = "badformat".to_string();
    let (host, port) = parse_integration_host_port(&config);
    assert_eq!(host, "localhost");
    assert_eq!(port, "badformat"); // entire string when no colon
}

#[test]
fn test_parse_integration_host_port_empty_host_config() {
    let mut config = ApiConfig::default();
    config.integration_tables_host = String::new();
    config.listen = "0.0.0.0:7171".to_string();
    let (host, port) = parse_integration_host_port(&config);
    assert_eq!(host, "localhost");
    assert_eq!(port, "7171");
}

fn basic(credentials: &str) -> String {
    format!(
        "Basic {}",
        base64::engine::general_purpose::STANDARD.encode(credentials)
    )
}

#[test]
fn test_auth_no_config() {
    let username = "";
    let password = "";
    assert!(is_authorized(username, password, None));
}

#[test]
fn test_auth_no_config_passes_through() {
    assert!(is_authorized("", "", Some("Bearer x")));
}

#[test]
fn test_auth_decode_valid_credentials() {
    assert!(is_authorized("admin", "secret123", Some(&basic("admin:secret123"))));
}

#[test]
fn test_auth_decode_empty_credentials() {
    let decoded = base64::engine::general_purpose::STANDARD.decode("Og==").unwrap();
    assert!(check_credentials("", "", &decoded));
    assert!(!check_credentials("", "", b""));
}

#[test]
fn test_auth_decode_password_with_colon() {
    assert!(is_authorized("user", "pass:with:colons", Some(&basic("user:pass:with:colons"))));
    assert!(!is_authorized("user:pass", "with:colons", Some(&basic("user:pass:with:colons"))));
}

#[test]
fn test_auth_configured_no_header_returns_401() {
    assert!(!is_authorized("admin", "secret123", None));
    assert!(!is_authorized("admin", "", None));
    assert!(!is_authorized("", "secret", None));
}

#[test]
fn test_auth_configured_wrong_credentials_returns_401() {
    assert!(!is_authorized("admin", "secret123", Some(&basic("admin:wrongpassword"))));
}

#[test]
fn test_auth_configured_wrong_username_returns_401() {
    assert!(!is_authorized("admin", "secret123", Some(&basic("wronguser:secret123"))));
}

#[test]
fn test_auth_non_basic_scheme_returns_401() {
    assert!(!is_authorized("admin", "secret123", Some("Bearer some-token")));
}

#[test]
fn test_auth_invalid_base64() {
    assert!(!is_authorized("admin", "secret123", Some("Basic not-valid-base64!!!")));
    assert!(!check_credentials("admin", "secret123", &[0xff, 0xfe]));
}

#[test]
fn test_unauthorized_response_status() {
    let r = unauthorized_response();
    assert_eq!(r.status, 401);
    assert_eq!(r.www_authenticate, "Basic realm=\"chbackup\"");
    assert_eq!(r.body, "Unauthorized");
}

#[test]
fn metrics_are_named_and_described() {
    let specs = metric_specs();
    assert_eq!(specs.len(), 21);
    assert_eq!(specs[0].name, "chbackup_backup_duration_seconds");
    assert_eq!(specs[0].kind, MetricKind::OperationHistogram);
    assert_eq!(specs[20].name, "chbackup_operations_in_progress");
    for s in &specs {
        assert!(s.name.starts_with("chbackup_") && !s.help.is_empty());
    }
    assert_eq!(initial_operations().len(), 10);
    assert_eq!(initial_operations()[9], "clean");
    assert_eq!(duration_buckets(), vec![1, 5, 15, 30, 60, 120, 300, 600, 1800, 3600]);
    assert_eq!(OperationLabels::new("create").operation, "create");
}

#[test]
fn gauges_follow_the_state() {
    assert_eq!(gauge_value(5), 5);
    assert_eq!(gauge_value(u64::MAX), -1);
    assert_eq!(gauge_value(1 << 63), i64::MIN);
    assert_eq!(in_progress_value(0), 0);
    assert_eq!(in_progress_value(3), 1);
    let phase = |backup: &str, done: u64| PhaseSnapshot {
        op: "upload".to_string(),
        phase: "upload_parts".to_string(),
        backup_name: backup.to_string(),
        total: 10,
        done,
        bytes_total: 100,
        bytes_done: 30,
    };
    let mut gauges = PhaseGauges::new();
    gauges.refresh_phase_gauges(&vec![phase("backup-a", 3), phase("backup-b", 7)]);
    let series = gauges.series();
    assert_eq!((series[0].items_done, series[1].items_done), (3, 7));
    assert_ne!(series[0].labels, series[1].labels);
    // Of two phases with the same labels the later one is shown.
    gauges.refresh_phase_gauges(&vec![phase("a", 1), phase("b", 2), phase("a", 3)]);
    assert_eq!(gauges.series().len(), 2);
    assert_eq!(gauges.series()[0].items_done, 3);
}

fn phase(backup: &str, done: u64) -> PhaseSnapshot {
    PhaseSnapshot {
        op: "upload".to_string(),
        phase: "upload_parts".to_string(),
        backup_name: backup.to_string(),
        total: 10,
        done,
        bytes_total: 0,
        bytes_done: 0,
    }
}

#[test]
fn refresh_phase_gauges_clears_series_for_phases_that_ended() {
    let mut gauges = PhaseGauges::new();
    gauges.refresh_phase_gauges(&vec![phase("metrics-test", 1)]);
    assert_eq!(gauges.series().len(), 1, "a live phase must be exposed");
    assert_eq!(gauges.series()[0].labels.backup_name, "metrics-test");
    assert_eq!(gauges.series()[0].items_done, 1);

    // Next scrape with no live phases.
    gauges.refresh_phase_gauges(&vec![]);
    assert!(gauges.series().is_empty(), "a finished phase must not leave a frozen series");
}

#[test]
fn concurrent_phases_on_different_backups_get_distinct_series() {
    let mut gauges = PhaseGauges::new();
    gauges.refresh_phase_gauges(&vec![phase("backup-a", 3), phase("backup-b", 7)]);
    let series = gauges.series();
    assert_eq!(series[0].labels.backup_name, "backup-a");
    assert_eq!(series[1].labels.backup_name, "backup-b");
    assert_eq!(
        series[0].items_done, 3,
        "one backup's value must not be overwritten by the other's"
    );
    assert_ne!(series[0].labels, series[1].labels);
}

#[test]
fn all_metrics_are_listed() {
    let names: Vec<&str> = metric_specs().iter().map(|s| s.name).collect();
    for name in [
        "chbackup_backup_duration_seconds",
        "chbackup_backup_size_bytes",
        "chbackup_backup_last_success_timestamp",
        "chbackup_parts_uploaded",
        "chbackup_parts_skipped_incremental",
        "chbackup_errors",
        "chbackup_successful_operations",
        "chbackup_number_backups_local",
        "chbackup_number_backups_remote",
        "chbackup_in_progress",
        "chbackup_watch_state",
        "chbackup_watch_last_full_timestamp",
        "chbackup_watch_last_incremental_timestamp",
        "chbackup_watch_consecutive_errors",
    ] {
        assert!(names.contains(&name), "Missing metric: {name}");
    }
}

#[test]
fn the_server_starts_step_by_step() {
    assert_eq!(
        start_server(false, true, false, true),
        vec![
            StartStep::SpawnWatch,
            StartStep::Bind,
            StartStep::CreateIntegrationTables,
            StartStep::AutoResume,
            StartStep::ServePlain,
        ]
    );
    assert_eq!(
        start_server(false, false, true, false),
        vec![StartStep::AutoResume, StartStep::ServeTls]
    );
    assert_eq!(clickhouse_retry_secs(1), 2);
    assert_eq!(clickhouse_retry_secs(14), 28);
    assert_eq!(clickhouse_retry_secs(u64::MAX), 30);
}

#[test]
fn the_end_of_the_watch_loop() {
    let mut ws = WatchStatus::default();
    mark_watch_started(&mut ws);
    assert!(ws.active);
    assert_eq!(ws.state, "idle");
    assert!(handle_watch_exit(WatchLoopExit::MaxErrors, &mut ws, true));
    assert!(!ws.active);
    assert_eq!(ws.state, "inactive");
    assert!(!handle_watch_exit(WatchLoopExit::MaxErrors, &mut ws, false));
    assert!(!handle_watch_exit(WatchLoopExit::Shutdown, &mut ws, true));
    assert!(!handle_watch_exit(WatchLoopExit::Stopped, &mut ws, true));
}
