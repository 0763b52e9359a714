use chbackup::table_filter::{is_disk_excluded, is_engine_excluded, is_excluded, is_system_database, TableFilter};

#[test]
fn test_table_filter_exact_match() {
    let filter = TableFilter::new("default.trades");
    assert!(filter.matches("default", "trades"));
    assert!(!filter.matches("default", "orders"));
    assert!(!filter.matches("logs", "trades"));
}

#[test]
fn test_table_filter_wildcard_db() {
    let filter = TableFilter::new("default.*");
    assert!(filter.matches("default", "trades"));
    assert!(filter.matches("default", "orders"));
    assert!(filter.matches("default", "anything"));
    assert!(!filter.matches("logs", "events"));
}

#[test]
fn test_table_filter_wildcard_table() {
    let filter = TableFilter::new("*.trades");
    assert!(filter.matches("default", "trades"));
    assert!(filter.matches("logs", "trades"));
    assert!(filter.matches("analytics", "trades"));
    assert!(!filter.matches("default", "orders"));
}

#[test]
fn test_table_filter_star_star() {
    let filter = TableFilter::new("*.*");
    assert!(filter.matches("default", "trades"));
    assert!(filter.matches("logs", "events"));
    assert!(filter.matches("analytics", "data"));
}

#[test]
fn test_table_filter_comma_separated() {
    let filter = TableFilter::new("default.trades,logs.*");
    assert!(filter.matches("default", "trades"));
    assert!(!filter.matches("default", "orders"));
    assert!(filter.matches("logs", "events"));
    assert!(filter.matches("logs", "errors"));
    assert!(!filter.matches("analytics", "data"));
}

#[test]
fn test_table_filter_system_databases_excluded() {
    let filter = TableFilter::new("*.*");
    assert!(!filter.matches("system", "tables"));
    assert!(!filter.matches("system", "parts"));
    assert!(!filter.matches("INFORMATION_SCHEMA", "columns"));
    assert!(!filter.matches("information_schema", "tables"));
    // Non-system databases still match
    assert!(filter.matches("default", "trades"));
}

#[test]
fn test_table_filter_spaces_in_pattern() {
    let filter = TableFilter::new("default.trades , logs.* ");
    assert!(filter.matches("default", "trades"));
    assert!(filter.matches("logs", "events"));
}

#[test]
fn test_is_excluded() {
    let skip = vec!["system.*".to_string(), "default.internal_*".to_string()];
    assert!(is_excluded("system", "tables", &skip));
    assert!(is_excluded("system", "parts", &skip));
    assert!(is_excluded("default", "internal_queue", &skip));
    assert!(!is_excluded("default", "trades", &skip));
    assert!(!is_excluded("logs", "events", &skip));
}

#[test]
fn test_is_excluded_empty_patterns() {
    let skip: Vec<String> = Vec::new();
    assert!(!is_excluded("default", "trades", &skip));
}

#[test]
fn test_is_engine_excluded() {
    let skip = vec!["Kafka".to_string(), "S3Queue".to_string()];
    assert!(is_engine_excluded("Kafka", &skip));
    assert!(is_engine_excluded("S3Queue", &skip));
    assert!(!is_engine_excluded("MergeTree", &skip));
    assert!(!is_engine_excluded("ReplicatedMergeTree", &skip));
}

#[test]
fn test_table_filter_question_mark_wildcard() {
    let filter = TableFilter::new("default.trade?");
    assert!(filter.matches("default", "trades"));
    assert!(filter.matches("default", "trader"));
    assert!(!filter.matches("default", "trading"));
}

#[test]
fn test_is_disk_excluded_by_name() {
    let skip_disks = vec!["cache_disk".to_string(), "tmp_disk".to_string()];
    let skip_types: Vec<String> = Vec::new();

    assert!(is_disk_excluded(
        "cache_disk",
        "local",
        &skip_disks,
        &skip_types
    ));
    assert!(is_disk_excluded(
        "tmp_disk",
        "local",
        &skip_disks,
        &skip_types
    ));
    assert!(!is_disk_excluded(
        "default",
        "local",
        &skip_disks,
        &skip_types
    ));
    assert!(!is_disk_excluded("s3disk", "s3", &skip_disks, &skip_types));
}

#[test]
fn test_is_disk_excluded_by_type() {
    let skip_disks: Vec<String> = Vec::new();
    let skip_types = vec!["cache".to_string(), "memory".to_string()];

    assert!(is_disk_excluded("disk1", "cache", &skip_disks, &skip_types));
    assert!(is_disk_excluded(
        "disk2",
        "memory",
        &skip_disks,
        &skip_types
    ));
    assert!(!is_disk_excluded(
        "default",
        "local",
        &skip_disks,
        &skip_types
    ));
    assert!(!is_disk_excluded("s3disk", "s3", &skip_disks, &skip_types));
}

#[test]
fn test_is_disk_excluded_empty_lists() {
    let skip_disks: Vec<String> = Vec::new();
    let skip_types: Vec<String> = Vec::new();

    // Nothing should be excluded when both lists are empty
    assert!(!is_disk_excluded(
        "default",
        "local",
        &skip_disks,
        &skip_types
    ));
    assert!(!is_disk_excluded("s3disk", "s3", &skip_disks, &skip_types));
    assert!(!is_disk_excluded(
        "cache_disk",
        "cache",
        &skip_disks,
        &skip_types
    ));
}

#[test]
fn test_is_disk_excluded_both_match() {
    let skip_disks = vec!["cache_disk".to_string()];
    let skip_types = vec!["cache".to_string()];

    // Should be excluded if either name or type matches
    assert!(is_disk_excluded(
        "cache_disk",
        "cache",
        &skip_disks,
        &skip_types
    ));
    // Name match alone
    assert!(is_disk_excluded(
        "cache_disk",
        "local",
        &skip_disks,
        &skip_types
    ));
    // Type match alone
    assert!(is_disk_excluded(
        "other_disk",
        "cache",
        &skip_disks,
        &skip_types
    ));
    // Neither matches
    assert!(!is_disk_excluded(
        "default",
        "local",
        &skip_disks,
        &skip_types
    ));
}

#[test]
fn system_tables_are_chosen_only_on_request() {
    let filter = TableFilter::new("*.*");
    assert!(!filter.matches("system", "parts"));
    assert!(filter.matches_including_system("system", "parts"));
    assert!(filter.matches_including_system("default", "trades"));
    assert!(is_system_database("INFORMATION_SCHEMA"));
    assert!(!is_system_database("Information_Schema"));
}

#[test]
fn invalid_and_empty_patterns_choose_nothing() {
    let filter = TableFilter::new(" , a[ ,***.t,");
    assert!(!filter.matches("a[", ""));
    assert!(!filter.matches("x", "t"));
    assert!(!is_excluded("default", "trades", &["[".to_string()]));
}

#[test]
fn simple_patterns_mean_what_they_say() {
    let chooses = |p: &str, db: &str, t: &str| TableFilter::new(p).matches(db, t);
    assert!(chooses("db.t]", "db", "t]"));
    assert!(!chooses("db.t", "db", "T"));
    assert!(chooses("db.[*]", "db", "*"));
    assert!(!chooses("db.[*]", "db", "x"));
    assert!(chooses("*a*b*", "xaxx", "bx"));
    assert!(!chooses("*a*b", "xaxx", "bx"));
    assert!(chooses("d?.?", "db", "t"));
}

#[test]
fn two_lists_of_patterns_add_up() {
    let a = TableFilter::new("db.x");
    let b = TableFilter::new("db.y*");
    let both = TableFilter::new("db.x,db.y*");
    for table in ["x", "y", "yz", "z"] {
        assert_eq!(
            both.matches("db", table),
            a.matches("db", table) || b.matches("db", table)
        );
    }
}

#[test]
fn doubled_stars_stand_for_whole_components() {
    assert!(TableFilter::new("**").matches("db", "t"));
    assert!(TableFilter::new("**/db.t").matches("db", "t"));
    assert!(TableFilter::new("**/b.t").matches("a/b", "t"));
    assert!(!TableFilter::new("**/b.t").matches("ab", "t"));
    // Anywhere else they make no pattern.
    assert!(!TableFilter::new("db.**").matches("db", "t"));
    assert!(!TableFilter::new("***").matches("db", "t"));
}

#[test]
fn lists_of_patterns_add_up() {
    let both = TableFilter::new("a.*, ,b.?,[");
    assert!(both.matches("a", "x") && both.matches("b", "y"));
    assert!(!both.matches("b", "yy") && !both.matches("c", "x"));
    assert!(!TableFilter::new("").matches("a", "x"));
}
