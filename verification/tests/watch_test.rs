use chbackup::list::BackupSummary;
use chbackup::manifest::NamedValue;
use chbackup::time::{Duration, Timestamp};
use chbackup::watch::resume::{resume_state, ResumeDecision};
use chbackup::watch::template::{
    build_type_glob, classify_backup_type, resolve_name_template, resolve_template_prefix,
    try_resolve_name_template,
};
use chbackup::watch::{
    sleep_step, watch_state_name, SleepEvent, SleepStep, WatchContext, WatchLoopExit,
    WatchSettings, WatchState, WatchStep,
};
use chrono::{DateTime, Utc};
use std::collections::HashMap;

#[test]
fn test_resolve_type_macro() {
    let macros: HashMap<String, String> = HashMap::new();
    let now = Utc::now();

    let result = resolve_name_template("{type}-backup", "full", &stamp(now), &named(&macros));
    assert_eq!(result, "full-backup");

    let result = resolve_name_template("{type}-backup", "incr", &stamp(now), &named(&macros));
    assert_eq!(result, "incr-backup");
}

#[test]
fn test_resolve_time_macro() {
    let macros: HashMap<String, String> = HashMap::new();
    let now = chrono::NaiveDate::from_ymd_opt(2025, 3, 15)
        .unwrap()
        .and_hms_opt(10, 30, 45)
        .unwrap()
        .and_utc();

    let result = resolve_name_template("backup-{time:%Y%m%d_%H%M%S}", "full", &stamp(now), &named(&macros));
    assert_eq!(result, "backup-20250315_103045");

    let result = resolve_name_template("{time:%Y-%m-%d}", "full", &stamp(now), &named(&macros));
    assert_eq!(result, "2025-03-15");
}

#[test]
fn test_resolve_shard_macro() {
    let mut macros: HashMap<String, String> = HashMap::new();
    macros.insert("shard".to_string(), "01".to_string());

    let now = Utc::now();
    let result = resolve_name_template("shard{shard}-backup", "full", &stamp(now), &named(&macros));
    assert_eq!(result, "shard01-backup");
}

#[test]
fn test_resolve_full_template() {
    let mut macros: HashMap<String, String> = HashMap::new();
    macros.insert("shard".to_string(), "01".to_string());

    let now = chrono::NaiveDate::from_ymd_opt(2025, 3, 15)
        .unwrap()
        .and_hms_opt(2, 0, 0)
        .unwrap()
        .and_utc();

    let result = resolve_name_template(
        "shard{shard}-{type}-{time:%Y%m%d_%H%M%S}",
        "full",
        &stamp(now),
        &named(&macros),
    );
    assert_eq!(result, "shard01-full-20250315_020000");
}

#[test]
fn test_resolve_unknown_macro() {
    let macros: HashMap<String, String> = HashMap::new();
    let now = Utc::now();

    let result = resolve_name_template("prefix-{unknown}-suffix", "full", &stamp(now), &named(&macros));
    assert_eq!(result, "prefix-{unknown}-suffix");
}

#[test]
fn test_classify_backup_type_default_template() {
    let template = "shard{shard}-{type}-{time:%Y%m%d_%H%M%S}";
    assert_eq!(
        classify_backup_type(template, "shard01-full-20250315_120000"),
        Some("full")
    );
    assert_eq!(
        classify_backup_type(template, "shard01-incr-20250315_130000"),
        Some("incr")
    );
}

#[test]
fn test_classify_backup_type_prefix_only() {
    let template = "{type}-backup-{time:%Y%m%d}";
    assert_eq!(
        classify_backup_type(template, "full-backup-20250315"),
        Some("full")
    );
    assert_eq!(
        classify_backup_type(template, "incr-backup-20250315"),
        Some("incr")
    );
}

#[test]
fn test_classify_backup_type_no_type_placeholder() {
    let template = "daily-{time:%Y%m%d}";
    assert_eq!(classify_backup_type(template, "daily-20250315"), None);
}

#[test]
fn test_classify_backup_type_ambiguous_name() {
    let template = "shard{shard}-{type}-{time:%Y%m%d}";
    // "fullmoon" is not "full" or "incr"
    assert_eq!(
        classify_backup_type(template, "shard01-fullmoon-20250315"),
        None
    );
}

#[test]
fn test_classify_backup_type_type_at_end() {
    let template = "backup-{time:%Y%m%d}-{type}";
    assert_eq!(
        classify_backup_type(template, "backup-20250315-full"),
        Some("full")
    );
    assert_eq!(
        classify_backup_type(template, "backup-20250315-incr"),
        Some("incr")
    );
}

#[test]
fn test_classify_delimiter_in_macro() {
    // Bug case: shard="a-b" contains the delimiter "-"
    // Old implementation extracted "b" instead of "full"
    let template = "{shard}-{type}-{time:%Y%m%d}";
    assert_eq!(
        classify_backup_type(template, "a-b-full-20260303"),
        Some("full")
    );
    assert_eq!(
        classify_backup_type(template, "a-b-incr-20260303"),
        Some("incr")
    );
}

#[test]
fn test_classify_ambiguous_both_match() {
    // When both "full" and "incr" globs match (template is just `{type}` with
    // wildcards that absorb the candidate literal), the result is None.
    // Template: `{type}{other}` → full glob `full*`, incr glob `incr*`
    // Name "fullincr" matches `full*` but not `incr*`, so NOT ambiguous.
    // True ambiguity: template `{a}{type}{b}` → glob `*full*` / `*incr*`
    // Name "incr_full_data" matches BOTH `*full*` and `*incr*`.
    let template = "{a}{type}{b}";
    assert_eq!(
        classify_backup_type(template, "incr_full_data"),
        None,
        "Both full and incr globs match => ambiguous => None"
    );
}

#[test]
fn test_classify_neither_match() {
    // A name that matches neither "full" nor "incr" returns None
    let template = "{shard}-{type}-{time:%Y%m%d}";
    assert_eq!(classify_backup_type(template, "a-b-partial-20260303"), None);
}

#[test]
fn test_classify_no_delimiters() {
    // {type} immediately adjacent to another macro with no delimiter separation
    let template = "{type}{time}";
    assert_eq!(classify_backup_type(template, "full20260303"), Some("full"));
    assert_eq!(classify_backup_type(template, "incr20260303"), Some("incr"));
}

#[test]
fn test_classify_adjacent_macros() {
    // All macros adjacent with no separators
    let template = "{shard}{type}{time}";
    // "shardAfull20260303" -- glob "*full*" matches
    assert_eq!(
        classify_backup_type(template, "shardAfull20260303"),
        Some("full")
    );
    // "shardAincr20260303" -- glob "*incr*" matches
    assert_eq!(
        classify_backup_type(template, "shardAincr20260303"),
        Some("incr")
    );
}

#[test]
fn test_resume_no_backups() {
    let backups: Vec<BackupSummary> = vec![];
    let decision = resume_state(
        &backups,
        "shard1-{type}-{time:%Y%m%d}",
        Duration::from_secs(3600),
        Duration::from_secs(86400),
        stamp(Utc::now()),
    );
    assert_eq!(decision, ResumeDecision::FullNow);
}

#[test]
fn test_resume_recent_full_no_incr() {
    let now = Utc::now();
    let full_ts = now - chrono::Duration::minutes(30);

    let backups = vec![make_summary("shard1-full-20250315", full_ts, false)];

    let decision = resume_state(
        &backups,
        "shard1-{type}-{time:%Y%m%d}",
        Duration::from_secs(3600),  // 1h
        Duration::from_secs(86400), // 24h
        stamp(now),
    );

    match decision {
        ResumeDecision::SleepThen {
            remaining,
            backup_type,
        } => {
            assert_eq!(backup_type, "incr");
            // Should sleep about 30 minutes (3600 - 1800 = ~1800s)
            assert!(remaining.as_secs() > 1700 && remaining.as_secs() <= 1800);
        }
        other => panic!("Expected SleepThen, got {:?}", other),
    }
}

#[test]
fn test_resume_stale_full() {
    let now = Utc::now();
    let full_ts = now - chrono::Duration::hours(25);

    let backups = vec![make_summary("shard1-full-20250314", full_ts, false)];

    let decision = resume_state(
        &backups,
        "shard1-{type}-{time:%Y%m%d}",
        Duration::from_secs(3600),
        Duration::from_secs(86400),
        stamp(now),
    );

    assert_eq!(decision, ResumeDecision::FullNow);
}

#[test]
fn test_resume_stale_incr() {
    let now = Utc::now();
    let full_ts = now - chrono::Duration::hours(12);
    let incr_ts = now - chrono::Duration::hours(2);

    let backups = vec![
        make_summary("shard1-full-20250315", full_ts, false),
        make_summary("shard1-incr-20250315_1", incr_ts, false),
    ];

    let decision = resume_state(
        &backups,
        "shard1-{type}-{time:%Y%m%d}",
        Duration::from_secs(3600), // 1h
        Duration::from_secs(86400),
        stamp(now),
    );

    match decision {
        ResumeDecision::IncrNow { diff_from } => {
            // diff_from should be the most recent backup
            assert_eq!(diff_from, "shard1-incr-20250315_1");
        }
        other => panic!("Expected IncrNow, got {:?}", other),
    }
}

#[test]
fn test_resume_recent_incr() {
    let now = Utc::now();
    let full_ts = now - chrono::Duration::hours(12);
    let incr_ts = now - chrono::Duration::minutes(20);

    let backups = vec![
        make_summary("shard1-full-20250315", full_ts, false),
        make_summary("shard1-incr-20250315_1", incr_ts, false),
    ];

    let decision = resume_state(
        &backups,
        "shard1-{type}-{time:%Y%m%d}",
        Duration::from_secs(3600), // 1h
        Duration::from_secs(86400),
        stamp(now),
    );

    match decision {
        ResumeDecision::SleepThen {
            remaining,
            backup_type,
        } => {
            assert_eq!(backup_type, "incr");
            // Should sleep about 40 minutes (3600 - 1200 = 2400s)
            assert!(remaining.as_secs() > 2300 && remaining.as_secs() <= 2400);
        }
        other => panic!("Expected SleepThen, got {:?}", other),
    }
}

#[test]
fn test_resume_filters_by_template_prefix() {
    let now = Utc::now();
    let ts = now - chrono::Duration::hours(25);

    let backups = vec![
        // This backup doesn't match "shard1-" prefix, should be excluded
        make_summary("other-full-20250315", ts, false),
    ];

    let decision = resume_state(
        &backups,
        "shard1-{type}-{time:%Y%m%d}",
        Duration::from_secs(3600),
        Duration::from_secs(86400),
        stamp(now),
    );

    // No matching backups, so should decide FullNow
    assert_eq!(decision, ResumeDecision::FullNow);
}

#[test]
fn test_resolve_template_prefix() {
    assert_eq!(
        resolve_template_prefix("shard1-{type}-{time:%Y%m%d}"),
        "shard1-"
    );
    assert_eq!(resolve_template_prefix("{type}-backup"), "");
    assert_eq!(resolve_template_prefix("static-name"), "static-name");
}

#[test]
fn test_watch_state_enum_values() {
    assert_eq!(WatchState::Idle.metric(), 1);
    assert_eq!(WatchState::CreatingFull.metric(), 2);
    assert_eq!(WatchState::CreatingIncr.metric(), 3);
    assert_eq!(WatchState::Uploading.metric(), 4);
    assert_eq!(WatchState::Cleaning.metric(), 5);
    assert_eq!(WatchState::Sleeping.metric(), 6);
    assert_eq!(WatchState::Error.metric(), 7);
}

#[test]
fn test_force_full_after_error() {
    let mut ctx = WatchContext::new();
    ctx.failed(&settings(0));
    assert_eq!(ctx.status().consecutive_errors, 1, "consecutive_errors should increment by 1");
    // The next backup is full, though an incremental one is due.
    assert!(matches!(
        ctx.follow(ResumeDecision::IncrNow { diff_from: "base".to_string() }),
        WatchStep::ResolveName { full: true }
    ));
}

#[test]
fn test_consecutive_errors_reset_on_success() {
    let settings = settings(0);
    let mut ctx = WatchContext::new();
    for _ in 0..3 {
        ctx.failed(&settings);
    }
    assert_eq!(ctx.status().consecutive_errors, 3, "precondition: errors were accumulated");
    ctx.follow(ResumeDecision::FullNow);
    ctx.remote_retained(&settings);
    assert_eq!(
        ctx.status().consecutive_errors, 0,
        "consecutive_errors should reset to 0 on success"
    );
    // A full backup clears what the errors forced.
    assert!(matches!(
        ctx.follow(ResumeDecision::IncrNow { diff_from: "base".to_string() }),
        WatchStep::ResolveName { full: false }
    ));
}

#[test]
fn test_consecutive_errors_abort() {
    let settings = settings(5);
    let mut ctx = WatchContext::new();
    for _ in 0..4 {
        ctx.failed(&settings);
        assert!(matches!(ctx.begin_cycle(&settings, false), WatchStep::ListRemote));
    }
    ctx.failed(&settings);
    match ctx.begin_cycle(&settings, false) {
        WatchStep::Exit { reason } => assert_eq!(reason, WatchLoopExit::MaxErrors),
        other => panic!("should abort when consecutive_errors >= max, got {:?}", other),
    }
}

#[test]
fn test_consecutive_errors_no_abort_when_zero_max() {
    let settings = settings(0);
    let mut ctx = WatchContext::new();
    for _ in 0..100 {
        ctx.failed(&settings);
    }
    assert!(
        matches!(ctx.begin_cycle(&settings, false), WatchStep::ListRemote),
        "should NOT abort when max_consecutive_errors is 0 (unlimited)"
    );
}

#[test]
fn test_watch_state_name_all_variants() {
    assert_eq!(watch_state_name(WatchState::Idle), "idle");
    assert_eq!(watch_state_name(WatchState::CreatingFull), "creating_full");
    assert_eq!(watch_state_name(WatchState::CreatingIncr), "creating_incr");
    assert_eq!(watch_state_name(WatchState::Uploading), "uploading");
    assert_eq!(watch_state_name(WatchState::Cleaning), "cleaning");
    assert_eq!(watch_state_name(WatchState::Sleeping), "sleeping");
    assert_eq!(watch_state_name(WatchState::Error), "error");
}

#[test]
fn test_resolve_name_template_unclosed_brace() {
    let macros: HashMap<String, String> = HashMap::new();
    let now = Utc::now();

    let result = resolve_name_template("prefix-{unclosed", "full", &stamp(now), &named(&macros));
    assert_eq!(result, "prefix-{unclosed");
}

#[test]
fn test_resolve_name_template_empty_braces() {
    let macros: HashMap<String, String> = HashMap::new();
    let now = Utc::now();

    let result = resolve_name_template("prefix-{}-suffix", "full", &stamp(now), &named(&macros));
    // Empty braces are not "type" or "time:*" and empty key not in macros,
    // so they are left as-is.
    assert_eq!(result, "prefix-{}-suffix");
}

#[test]
fn test_resolve_name_template_multiple_type_macros() {
    let macros: HashMap<String, String> = HashMap::new();
    let now = Utc::now();

    let result = resolve_name_template("{type}-{type}", "full", &stamp(now), &named(&macros));
    assert_eq!(result, "full-full");
}

#[test]
fn test_resolve_name_template_static_only() {
    let macros: HashMap<String, String> = HashMap::new();
    let now = Utc::now();

    let result = resolve_name_template("static-backup-name", "full", &stamp(now), &named(&macros));
    assert_eq!(result, "static-backup-name");
}

#[test]
fn test_classify_with_glob_special_chars_in_template() {
    // Template has literal '*' and '?' which must be escaped
    let template = "backup[1]-{type}-data?";
    // This should still classify correctly because the static chars are escaped
    let result = classify_backup_type(template, "backup[1]-full-data?");
    assert_eq!(result, Some("full"));

    let result = classify_backup_type(template, "backup[1]-incr-data?");
    assert_eq!(result, Some("incr"));
}

#[test]
fn test_classify_type_only_template() {
    let template = "{type}";
    assert_eq!(classify_backup_type(template, "full"), Some("full"));
    assert_eq!(classify_backup_type(template, "incr"), Some("incr"));
    assert_eq!(classify_backup_type(template, "other"), None);
}

#[test]
fn test_resume_state_broken_backups_excluded() {
    let now = Utc::now();
    let full_ts = now - chrono::Duration::minutes(30);

    let backups = vec![
        // Only backup is broken -- should be excluded
        make_summary("shard1-full-20250315", full_ts, true),
    ];

    let decision = resume_state(
        &backups,
        "shard1-{type}-{time:%Y%m%d}",
        Duration::from_secs(3600),
        Duration::from_secs(86400),
        stamp(now),
    );

    // Broken backup excluded => no matching backups => FullNow
    assert_eq!(decision, ResumeDecision::FullNow);
}

#[test]
fn test_resume_state_no_timestamp_excluded() {
    let now = Utc::now();

    let mut backup = make_summary("shard1-full-20250315", now, false);
    backup.timestamp = None; // Remove timestamp

    let backups = vec![backup];

    let decision = resume_state(
        &backups,
        "shard1-{type}-{time:%Y%m%d}",
        Duration::from_secs(3600),
        Duration::from_secs(86400),
        stamp(now),
    );

    // No-timestamp backup excluded => FullNow
    assert_eq!(decision, ResumeDecision::FullNow);
}

#[test]
fn test_resume_state_incr_more_recent_than_full() {
    let now = Utc::now();
    let full_ts = now - chrono::Duration::hours(6);
    let incr_ts = now - chrono::Duration::minutes(10);

    let backups = vec![
        make_summary("shard1-full-20250315", full_ts, false),
        make_summary("shard1-incr-20250315_1", incr_ts, false),
    ];

    let decision = resume_state(
        &backups,
        "shard1-{type}-{time:%Y%m%d}",
        Duration::from_secs(3600),  // 1h
        Duration::from_secs(86400), // 24h
        stamp(now),
    );

    // incr was 10 minutes ago, watch_interval is 1h => SleepThen ~50min
    match decision {
        ResumeDecision::SleepThen {
            remaining,
            backup_type,
        } => {
            assert_eq!(backup_type, "incr");
            assert!(remaining.as_secs() > 2900 && remaining.as_secs() <= 3000);
        }
        other => panic!("Expected SleepThen, got {:?}", other),
    }
}

#[test]
fn test_resume_state_empty_prefix_matches_all() {
    let now = Utc::now();
    let full_ts = now - chrono::Duration::minutes(10);

    let backups = vec![make_summary("full-20250315", full_ts, false)];

    let decision = resume_state(
        &backups,
        "{type}-{time:%Y%m%d}",
        Duration::from_secs(3600),
        Duration::from_secs(86400),
        stamp(now),
    );

    // Recent full backup => SleepThen
    match decision {
        ResumeDecision::SleepThen { backup_type, .. } => {
            assert_eq!(backup_type, "incr");
        }
        other => panic!("Expected SleepThen, got {:?}", other),
    }
}

#[test]
fn test_resume_state_no_classifiable_full_backup() {
    let now = Utc::now();
    let ts = now - chrono::Duration::minutes(30);

    // Backup name doesn't match any type classification for this template
    let backups = vec![make_summary("shard1-partial-20250315", ts, false)];

    let decision = resume_state(
        &backups,
        "shard1-{type}-{time:%Y%m%d}",
        Duration::from_secs(3600),
        Duration::from_secs(86400),
        stamp(now),
    );

    // Matching backups exist, but no full backup classified => FullNow
    assert_eq!(decision, ResumeDecision::FullNow);
}

#[test]
fn test_resolve_template_prefix_no_braces() {
    assert_eq!(resolve_template_prefix("mybackup"), "mybackup");
}

#[test]
fn test_resolve_template_prefix_brace_at_start() {
    assert_eq!(resolve_template_prefix("{type}-backup"), "");
}

#[test]
fn test_watch_loop_exit_variants() {
    assert_eq!(WatchLoopExit::Shutdown, WatchLoopExit::Shutdown);
    assert_eq!(WatchLoopExit::MaxErrors, WatchLoopExit::MaxErrors);
    assert_eq!(WatchLoopExit::Stopped, WatchLoopExit::Stopped);
    assert_ne!(WatchLoopExit::Shutdown, WatchLoopExit::MaxErrors);
    assert_ne!(WatchLoopExit::Shutdown, WatchLoopExit::Stopped);
}

fn stamp(t: DateTime<Utc>) -> Timestamp {
    Timestamp::new(t.timestamp(), t.timestamp_subsec_nanos()).unwrap()
}

fn named(macros: &HashMap<String, String>) -> Vec<NamedValue> {
    macros
        .iter()
        .map(|(k, v)| NamedValue { name: k.clone(), value: v.clone() })
        .collect()
}

fn make_summary(name: &str, ts: DateTime<Utc>, broken: bool) -> BackupSummary {
    BackupSummary {
        name: name.to_string(),
        timestamp: Some(stamp(ts)),
        size: 0,
        compressed_size: 0,
        table_count: 0,
        metadata_size: 0,
        rbac_size: 0,
        config_size: 0,
        object_disk_size: 0,
        required: String::new(),
        is_broken: broken,
        broken_reason: if broken {
            Some("test".to_string())
        } else {
            None
        },
    }
}

fn settings(max_consecutive_errors: u32) -> WatchSettings {
    WatchSettings {
        max_consecutive_errors,
        watch_interval_secs: Some(3600),
        full_interval_secs: Some(86400),
        retry_interval_secs: None,
        name_template: "shard1-{type}-{time:%Y%m%d}".to_string(),
        tables: None,
        backup_tables: "db.*".to_string(),
        delete_local_after_upload: true,
        keep_local: 2,
        keep_remote: 0,
    }
}

fn noon() -> DateTime<Utc> {
    chrono::NaiveDate::from_ymd_opt(2025, 3, 15).unwrap().and_hms_opt(12, 0, 0).unwrap().and_utc()
}

#[test]
fn refused_formats_give_no_name() {
    let now = stamp(noon());
    assert_eq!(try_resolve_name_template("b-{time:%Y}", "full", &now, &vec![]).as_deref(), Some("b-2025"));
    assert_eq!(try_resolve_name_template("b-{time:%Q}", "full", &now, &vec![]), None);
}

#[test]
fn patterns_of_templates() {
    assert_eq!(build_type_glob("a*[{type}]-{time:%H}", "full"), "a[*][[]full[]]-*");
    assert_eq!(build_type_glob("x{type", "incr"), "xincr");
    assert_eq!(build_type_glob("{type:x}{y}", "incr"), "incr*");
    // Two placeholders side by side make a pattern that no name fits.
    assert_eq!(classify_backup_type("{a}{b}{type}", "xfull"), None);
}

#[test]
fn names_start_with_the_prefix_of_the_template() {
    let now = stamp(noon());
    for template in ["shard1-{type}-{time:%Y%m%d}", "{type}", "static", "a{b"] {
        let name = resolve_name_template(template, "full", &now, &vec![]);
        assert!(name.starts_with(&resolve_template_prefix(template)));
    }
}

#[test]
fn backups_are_not_mistaken_for_the_other_kind() {
    let now = stamp(noon());
    let macros = vec![NamedValue { name: "shard".to_string(), value: "a*-incr".to_string() }];
    for template in ["{type}", "{shard}-{type}-{time:%Y}", "b[{type}]?{x}", "{shard}-{type}"] {
        for (kind, other) in [("full", "incr"), ("incr", "full")] {
            let name = resolve_name_template(template, kind, &now, &macros);
            assert_ne!(classify_backup_type(template, &name), Some(other), "{template} {name}");
        }
    }
    assert_eq!(classify_backup_type("b[{type}]?{x}", "b[full]?{x}"), Some("full"));
}

#[test]
fn the_first_of_several_latest_backups_is_the_base() {
    let now = noon();
    let ts = now - chrono::Duration::hours(2);
    let backups = vec![
        make_summary("shard1-full-1", now - chrono::Duration::hours(3), false),
        make_summary("shard1-incr-1", ts, false),
        make_summary("shard1-incr-2", ts, false),
    ];
    let decision = resume_state(
        &backups,
        "shard1-{type}-{time:%Y%m%d}",
        Duration::from_secs(3600),
        Duration::from_secs(86400),
        stamp(now),
    );
    assert_eq!(decision, ResumeDecision::IncrNow { diff_from: "shard1-incr-1".to_string() });
}

#[test]
fn backups_from_the_future_count_as_new() {
    let now = noon();
    let backups = vec![make_summary("shard1-full-1", now + chrono::Duration::hours(3), false)];
    let decision = resume_state(
        &backups,
        "shard1-{type}-{time:%Y%m%d}",
        Duration::from_secs(3600),
        Duration::from_secs(86400),
        stamp(now),
    );
    assert_eq!(
        decision,
        ResumeDecision::SleepThen {
            remaining: Duration::from_secs(3600),
            backup_type: "incr".to_string()
        }
    );
}

#[test]
fn a_whole_cycle() {
    let settings = settings(3);
    let now = noon();
    let mut ctx = WatchContext::new();
    assert!(matches!(ctx.begin_cycle(&settings, false), WatchStep::ListRemote));
    assert!(matches!(ctx.listed(&settings, &vec![], stamp(now)), WatchStep::ResolveName { full: true }));
    match ctx.named(&settings, "shard1-full-20250315".to_string()) {
        WatchStep::Lock { backup_name } => assert_eq!(backup_name, "shard1-full-20250315"),
        other => panic!("unexpected step {:?}", other),
    }
    match ctx.locked(&settings) {
        WatchStep::Create { backup_name, tables } => {
            assert_eq!(backup_name, "shard1-full-20250315");
            assert_eq!(tables.as_deref(), Some("db.*"));
        }
        other => panic!("unexpected step {:?}", other),
    }
    assert_eq!(ctx.status().state, "creating_full");
    match ctx.created() {
        WatchStep::Upload { backup_name, diff_from } => {
            assert_eq!(backup_name, "shard1-full-20250315");
            assert!(diff_from.is_none());
        }
        other => panic!("unexpected step {:?}", other),
    }
    assert!(matches!(ctx.uploaded(&settings, stamp(now)), WatchStep::DeleteLocal { .. }));
    assert_eq!(ctx.status().last_full, Some(stamp(now)));
    assert!(matches!(ctx.local_deleted(&settings), WatchStep::RetainLocal { keep: 2 }));
    assert_eq!(ctx.state(), WatchState::Cleaning);
    match ctx.local_retained(&settings) {
        WatchStep::Sleep { duration } => assert_eq!(duration, Duration::from_secs(3600)),
        other => panic!("unexpected step {:?}", other),
    }
    assert_eq!(ctx.status().state, "sleeping");
    assert_eq!(ctx.status().next_backup_in, Some(Duration::from_secs(3600)));
    ctx.woke();
    assert_eq!(ctx.status().next_backup_in, None);
    let full = make_summary("shard1-full-20250315", now, false);
    let later = now + chrono::Duration::hours(2);
    assert!(matches!(
        ctx.listed(&settings, &vec![full], stamp(later)),
        WatchStep::ResolveName { full: false }
    ));
    assert!(matches!(ctx.begin_cycle(&settings, true), WatchStep::Exit { reason: WatchLoopExit::Shutdown }));
}

#[test]
fn a_bad_name_is_an_error() {
    let mut ctx = WatchContext::new();
    match ctx.named(&settings(0), "a/b".to_string()) {
        WatchStep::Sleep { duration } => assert_eq!(duration, Duration::from_secs(300)),
        other => panic!("unexpected step {:?}", other),
    }
    assert_eq!(ctx.status().state, "error");
}

#[test]
fn signals_during_the_sleep() {
    assert_eq!(sleep_step(SleepEvent::Elapsed), SleepStep::Wake);
    assert_eq!(
        sleep_step(SleepEvent::Shutdown { requested: true }),
        SleepStep::Exit { reason: WatchLoopExit::Shutdown }
    );
    assert_eq!(sleep_step(SleepEvent::Shutdown { requested: false }), SleepStep::SleepOn);
    assert_eq!(sleep_step(SleepEvent::Reload { requested: true }), SleepStep::ReloadConfig);
    assert_eq!(sleep_step(SleepEvent::Reload { requested: false }), SleepStep::SleepOn);
}

#[test]
fn a_loop_that_is_started_again_shows_what_was_shown() {
    let settings = settings(0);
    let mut ctx = WatchContext::new();
    ctx.failed(&settings);
    assert_eq!(ctx.status().consecutive_errors, 1);
    let mut again = WatchContext::after(ctx.status());
    assert_eq!(again.status().consecutive_errors, 1);
    assert_eq!(again.status().state, "idle");
    assert!(again.can_fail());
    // The errors themselves are forgotten.
    again.failed(&settings);
    assert_eq!(again.status().consecutive_errors, 1);
}

#[test]
fn backups_are_full_until_a_success() {
    let settings = settings(0);
    let mut ctx = WatchContext::new();
    ctx.failed(&settings);
    for _ in 0..3 {
        let step = ctx.follow(ResumeDecision::IncrNow { diff_from: "base".to_string() });
        assert!(matches!(step, WatchStep::ResolveName { full: true }));
        ctx.named(&settings, "b".to_string());
        ctx.locked(&settings);
        ctx.failed(&settings);
        ctx.woke();
    }
    ctx.follow(ResumeDecision::IncrNow { diff_from: "base".to_string() });
    ctx.named(&settings, "b".to_string());
    ctx.locked(&settings);
    ctx.created();
    ctx.remote_retained(&settings);
    let step = ctx.follow(ResumeDecision::IncrNow { diff_from: "b".to_string() });
    assert!(matches!(step, WatchStep::ResolveName { full: false }));
}

#[test]
fn adjacent_placeholders_tell_no_kind_unless_they_are_a_component() {
    assert_eq!(classify_backup_type("{a}{b}-{type}", "x-full"), None);
    assert_eq!(classify_backup_type("{a}{b}/{type}", "x/y/full"), Some("full"));
    assert_eq!(classify_backup_type("b/{a}{b}/{type}", "b/incr"), Some("incr"));
    assert_eq!(classify_backup_type("{type}/{a}{b}", "full/anything/at/all"), Some("full"));
    assert_eq!(classify_backup_type("{type}/{a}{b}{c}", "full/x"), None);
}

#[test]
fn foreign_backups_and_the_order_of_a_list_change_no_decision() {
    let now = Utc::now();
    let template = "shard-{type}-{time:%Y}";
    let hours = |h: i64| now - chrono::Duration::hours(h);
    let own = vec![
        make_summary("shard-full-2025", hours(5), false),
        make_summary("shard-incr-2025", hours(2), false),
        make_summary("shard-incr-2026", hours(3), false),
    ];
    let decide = |backups: &Vec<BackupSummary>| {
        resume_state(
            backups,
            template,
            Duration::from_secs(3600),
            Duration::from_secs(86400),
            stamp(now),
        )
    };
    let expected = ResumeDecision::IncrNow { diff_from: "shard-incr-2025".to_string() };
    assert_eq!(decide(&own), expected);
    for k in 0..=own.len() {
        let mut with = own.clone();
        with.insert(k, make_summary("other\\full", hours(0), false));
        assert_eq!(decide(&with), expected);
        let mut with = own.clone();
        with.insert(k, make_summary("shard-full-2027", hours(0), true));
        assert_eq!(decide(&with), expected);
    }
    let turned: Vec<BackupSummary> = own.iter().rev().cloned().collect();
    assert_eq!(decide(&turned), expected);
    assert_eq!(
        decide(&vec![make_summary("other\\full", hours(0), false)]),
        ResumeDecision::FullNow
    );
}
