use chbackup::manifest::{
    is_s3_disk, BackupManifest, DiskParts, NamedValue, PartInfo, S3ObjectInfo, TableManifest,
};
use chbackup::path_encoding::encode_path_component;
use chbackup::storage::s3::parse_s3_uri;
use chbackup::upload::locate::{locate_part, part_dir_candidates};
use chbackup::upload::outcome::{
    apply_results, archive_chunks, copied_objects, copied_part, finish_steps, interrupted_part,
    object_copy, streaming_chunk_size, uploaded_part, FinishStep, UploadResult,
};
use chbackup::upload::transfer::{transfer_error, ChunkTransfer, TransferEnd};
use chbackup::upload::{
    accepted_keys, directory_file_key, find_part_dir, manifest_key, manifest_tmp_key,
    metadata_file_key, plan_upload, relative_key, s3_key_for_part, should_use_multipart,
    should_use_streaming, PartLocation, S3DiskUploadWorkItem, UploadPlan, UploadState,
    UploadWorkItem,
};

#[test]
fn test_should_use_multipart() {
    // Exactly at threshold: should NOT use multipart (must be strictly greater)
    assert!(!should_use_multipart(32 * 1024 * 1024));
    // Below threshold
    assert!(!should_use_multipart(1024));
    assert!(!should_use_multipart(0));
    // Above threshold
    assert!(should_use_multipart(32 * 1024 * 1024 + 1));
    assert!(should_use_multipart(100 * 1024 * 1024));
}

#[test]
fn test_upload_work_item_construction() {
    // Verify work items collect correct fields from manifest data
    let part = PartInfo::new("202401_1_50_3", 134_217_728, 12345);

    let work_item = UploadWorkItem {
        table_key: "default.trades".to_string(),
        disk_name: "default".to_string(),
        part: part.clone(),
        part_dir: "/tmp/backup/shadow/default/trades/202401_1_50_3".to_string(),
        s3_key: "daily/data/default/trades/202401_1_50_3.tar.lz4".to_string(),
    };

    assert_eq!(work_item.table_key, "default.trades");
    assert_eq!(work_item.disk_name, "default");
    assert_eq!(work_item.part.name, "202401_1_50_3");
    assert_eq!(work_item.part.size, 134_217_728);
    assert_eq!(
        work_item.s3_key,
        "daily/data/default/trades/202401_1_50_3.tar.lz4"
    );
}

#[test]
fn test_encode_path_component_simple() {
    assert_eq!(encode_path_component("default"), "default");
    assert_eq!(encode_path_component("my_table"), "my_table");
}

#[test]
fn test_encode_path_component_special() {
    assert_eq!(encode_path_component("my table"), "my%20table");
    assert_eq!(encode_path_component("db:name"), "db%3Aname");
}

#[test]
fn test_s3_key_for_part_simple() {
    let key = s3_key_for_part(
        "daily-20240115",
        "default",
        "trades",
        "202401_1_50_3",
        "lz4",
    );
    assert_eq!(
        key,
        "daily-20240115/data/default/trades/202401_1_50_3.tar.lz4"
    );
}

#[test]
fn test_s3_key_for_part_special_chars() {
    let key = s3_key_for_part("my-backup", "my db", "my+table", "202401_1_1_0", "lz4");
    assert_eq!(
        key,
        "my-backup/data/my%20db/my%2Btable/202401_1_1_0.tar.lz4"
    );
}

#[test]
fn test_s3_key_for_part_with_format() {
    // lz4
    let key = s3_key_for_part("daily", "db", "t", "part1", "lz4");
    assert!(key.ends_with(".tar.lz4"));

    // zstd
    let key = s3_key_for_part("daily", "db", "t", "part1", "zstd");
    assert!(key.ends_with(".tar.zstd"));

    // gzip
    let key = s3_key_for_part("daily", "db", "t", "part1", "gzip");
    assert!(key.ends_with(".tar.gz"));

    // none
    let key = s3_key_for_part("daily", "db", "t", "part1", "none");
    assert!(key.ends_with(".tar"));
    // Make sure it doesn't end with .tar.something
    assert!(!key.ends_with(".tar.lz4"));
    assert!(!key.ends_with(".tar.zstd"));
    assert!(!key.ends_with(".tar.gz"));
}

#[test]
fn test_parse_s3_uri_standard() {
    let (bucket, prefix) = parse_s3_uri("s3://my-data-bucket/ch-data/store");
    assert_eq!(bucket, "my-data-bucket");
    assert_eq!(prefix, "ch-data/store");
}

#[test]
fn mod_test_parse_s3_uri_trailing_slash() {
    let (bucket, prefix) = parse_s3_uri("s3://my-data-bucket/ch-data/");
    assert_eq!(bucket, "my-data-bucket");
    assert_eq!(prefix, "ch-data");
}

#[test]
fn mod_test_parse_s3_uri_bucket_only() {
    let (bucket, prefix) = parse_s3_uri("s3://my-bucket/");
    assert_eq!(bucket, "my-bucket");
    assert_eq!(prefix, "");
}

#[test]
fn test_parse_s3_uri_bucket_no_slash() {
    let (bucket, prefix) = parse_s3_uri("s3://my-bucket");
    assert_eq!(bucket, "my-bucket");
    assert_eq!(prefix, "");
}

#[test]
fn mod_test_parse_s3_uri_not_s3() {
    let (bucket, prefix) = parse_s3_uri("/local/path/to/disk");
    assert_eq!(bucket, "");
    assert_eq!(prefix, "/local/path/to/disk");
}

#[test]
fn test_upload_routes_s3_disk_to_copy() {
    let s3_part = PartInfo::new("202401_1_50_3", 134_217_728, 12345).with_s3_objects(vec![
        S3ObjectInfo {
            path: "store/abc/def/data.bin".to_string(),
            size: 134_217_000,
            backup_key: String::new(),
        },
    ]);
    let mut m = manifest(vec![table("default.trades", "s3disk", vec![s3_part])]);
    m.disk_types = vec![named("default", "local"), named("s3disk", "s3")];
    m.disk_remote_paths = vec![named("s3disk", "s3://data-bucket/ch-data/")];

    let backup_name = "daily-2024-01-15";
    let plan = plan(&m, backup_name, &vec![]).unwrap();
    assert!(plan.local_items.is_empty());
    assert_eq!(plan.s3_disk_items.len(), 1);
    let item = &plan.s3_disk_items[0];
    assert_eq!(item.source_bucket, "data-bucket");
    assert_eq!(item.source_prefix, "ch-data");

    // Destination key format: {backup_name}/objects/{relative_path}
    let copy = object_copy(&item.s3_objects[0], &item.source_prefix, backup_name).unwrap();
    assert_eq!(copy.dest_key, "daily-2024-01-15/objects/store/abc/def/data.bin");
    // Source key format: {source_prefix}/{relative_path}
    assert_eq!(copy.source_key, "ch-data/store/abc/def/data.bin");
}

#[test]
fn test_upload_local_parts_unchanged() {
    let local_part = PartInfo::new("202401_1_50_3", 4096, 11111);
    assert!(
        local_part.s3_objects.is_none(),
        "local part should not have s3_objects"
    );
    let mut m = manifest(vec![table("default.trades", "default", vec![local_part])]);
    m.disk_types = vec![named("default", "local")];
    let plan = plan(&m, "daily-2024-01-15", &vec![]).unwrap();
    assert!(plan.s3_disk_items.is_empty());
    assert_eq!(
        plan.local_items[0].s3_key,
        "daily-2024-01-15/data/default/trades/202401_1_50_3.tar.lz4"
    );
}

#[test]
fn test_s3_disk_work_item_construction() {
    // Verify S3DiskUploadWorkItem collects correct fields
    let s3_obj = S3ObjectInfo {
        path: "store/abc/def/data.bin".to_string(),
        size: 134_217_000,
        backup_key: String::new(),
    };

    let part = PartInfo::new("202401_1_50_3", 134_217_728, 12345)
        .with_s3_objects(vec![s3_obj.clone()]);

    let work_item = S3DiskUploadWorkItem {
        table_key: "default.trades".to_string(),
        disk_name: "s3disk".to_string(),
        part: part.clone(),
        s3_objects: vec![s3_obj],
        source_bucket: "data-bucket".to_string(),
        source_prefix: "ch-data".to_string(),
        backup_name: "daily-2024-01-15".to_string(),
        part_dir: "/tmp/backup/shadow/default/trades/202401_1_50_3".to_string(),
        db: "default".to_string(),
        table: "trades".to_string(),
    };

    assert_eq!(work_item.table_key, "default.trades");
    assert_eq!(work_item.disk_name, "s3disk");
    assert_eq!(work_item.source_bucket, "data-bucket");
    assert_eq!(work_item.source_prefix, "ch-data");
    assert_eq!(work_item.s3_objects.len(), 1);
    assert_eq!(work_item.s3_objects[0].path, "store/abc/def/data.bin");
}

#[test]
fn test_s3_disk_zero_size_objects_skipped() {
    let s3_obj = S3ObjectInfo {
        path: "store/abc/data.bin".to_string(),
        size: 0,
        backup_key: String::new(),
    };
    assert!(object_copy(&s3_obj, "p", "b").is_none());
    let updated = &copied_objects(&vec![s3_obj], "b", 1)[0];
    assert_eq!(updated.size, 0);
    assert!(updated.backup_key.is_empty());
}

#[test]
fn test_object_storage_disk_type_detected() {
    let disk_is_s3 = is_s3_disk("object_storage");
    assert!(disk_is_s3);
    assert!(is_s3_disk("s3"));
    assert!(!is_s3_disk("local"));
}

#[test]
fn test_upload_skips_completed_parts() {
    let completed_keys = vec!["daily/data/default/trades/202401_1_50_3.tar.lz4".to_string()];
    let m = manifest(vec![table(
        "default.trades",
        "default",
        vec![PartInfo::new("202401_1_50_3", 1, 1), PartInfo::new("202402_1_1_0", 1, 1)],
    )]);
    let plan = plan(&m, "daily", &completed_keys).unwrap();

    // A different part should NOT be in completed_keys
    assert_eq!(plan.local_items.len(), 1);
    assert_eq!(plan.local_items[0].part.name, "202402_1_1_0");
    assert_eq!(plan.table_count, 1);
}

#[test]
fn test_manifest_atomicity_key_format() {
    let backup_name = "daily-2024-01-15";
    let manifest_key = manifest_key(backup_name);
    let manifest_tmp_key = manifest_tmp_key(backup_name);

    assert_eq!(manifest_key, "daily-2024-01-15/metadata.json");
    assert_eq!(manifest_tmp_key, "daily-2024-01-15/metadata.json.tmp");

    // tmp key should differ from final key
    assert_ne!(manifest_key, manifest_tmp_key);

    // tmp key should have .tmp suffix
    assert!(manifest_tmp_key.ends_with(".tmp"));
}

#[test]
fn test_should_use_streaming() {
    let threshold: u64 = 256 * 1024 * 1024; // 256 MiB

    // Parts below threshold should not use streaming
    assert!(!should_use_streaming(100 * 1024 * 1024, threshold));
    assert!(!should_use_streaming(1024, threshold));

    // Parts above threshold should use streaming
    assert!(should_use_streaming(300 * 1024 * 1024, threshold));
    assert!(should_use_streaming(threshold + 1, threshold));

    // Exactly at threshold should NOT use streaming (> not >=)
    assert!(!should_use_streaming(threshold, threshold));

    // Threshold of 0 disables streaming
    assert!(!should_use_streaming(500 * 1024 * 1024, 0));
}

fn named(name: &str, value: &str) -> NamedValue {
    NamedValue { name: name.to_string(), value: value.to_string() }
}

fn table(key: &str, disk: &str, parts: Vec<PartInfo>) -> TableManifest {
    TableManifest {
        key: key.to_string(),
        engine: "MergeTree".to_string(),
        uuid: None,
        metadata_only: false,
        disks: vec![DiskParts { disk_name: disk.to_string(), parts }],
    }
}

fn manifest(tables: Vec<TableManifest>) -> BackupManifest {
    BackupManifest {
        tables,
        disk_types: vec![],
        disk_remote_paths: vec![],
        compressed_size: 0,
        data_format: String::new(),
    }
}

fn locations(m: &BackupManifest) -> Vec<Vec<Vec<PartLocation>>> {
    m.tables
        .iter()
        .map(|t| {
            t.disks
                .iter()
                .map(|d| {
                    d.parts
                        .iter()
                        .map(|p| PartLocation::Present { dir: format!("/shadow/{}", p.name) })
                        .collect()
                })
                .collect()
        })
        .collect()
}

fn plan(m: &BackupManifest, backup: &str, completed: &Vec<String>) -> Result<UploadPlan, String> {
    plan_upload(m, &locations(m), backup, "backup-bucket", "lz4", completed)
}

fn carried(name: &str) -> PartInfo {
    let mut p = PartInfo::new(name, 9, 9);
    p.source = "carried:base".to_string();
    p.backup_key = "base/key".to_string();
    p
}

#[test]
fn carried_parts_and_tables_without_data_are_not_uploaded() {
    let mut empty = table("db.schema", "default", vec![PartInfo::new("x", 1, 1)]);
    empty.metadata_only = true;
    let m = manifest(vec![
        table("db.carried", "default", vec![carried("a")]),
        empty,
        table("nodot", "default", vec![PartInfo::new("b", 1, 1)]),
    ]);
    let plan = plan(&m, "daily", &vec![]).unwrap();
    assert_eq!(plan.table_count, 1);
    assert_eq!(plan.local_items.len(), 1);
    assert_eq!(plan.local_items[0].s3_key, "daily/data/default/nodot/b.tar.lz4");
    assert_eq!(plan.local_items[0].part_dir, "/shadow/b");
}

fn part_dir_among(
    existing: &[&str],
    backup_dir: &str,
    db: &str,
    table: &str,
    part: &str,
    disks: &Vec<NamedValue>,
    backup_name: &str,
    disk: &str,
) -> Result<String, String> {
    let dirs = part_dir_candidates(backup_dir, db, table, part, disks, backup_name, disk);
    let found = dirs.iter().map(|d| existing.contains(&d.as_str())).collect();
    find_part_dir(&locate_part(&dirs, &found), db, table, part)
}

#[test]
fn test_find_part_dir_url_encoded() {
    // Legacy layout: part under backup_dir/shadow/{db}/{table}/{part}
    let part_path = "/tmp/dir/shadow/default/trades/202401_1_50_3";
    // No disk in manifest_disks => falls back to legacy path under backup_dir
    let found = part_dir_among(
        &[part_path],
        "/tmp/dir",
        "default",
        "trades",
        "202401_1_50_3",
        &vec![],
        "my-backup",
        "disk1",
    )
    .unwrap();
    assert_eq!(found, part_path);
}

#[test]
fn test_find_part_dir_per_disk() {
    // Per-disk layout: part under {disk_path}/backup/{name}/shadow/{db}/{table}/{part}
    let per_disk_part =
        "/tmp/dir/store1/backup/daily-2024-01-15/shadow/mydb/mytable/202401_1_50_3";
    // backup_dir is a separate directory (the default data_path location)
    let found = part_dir_among(
        &[per_disk_part],
        "/tmp/backup_dir",
        "mydb",
        "mytable",
        "202401_1_50_3",
        &vec![named("nvme1", "/tmp/dir/store1")],
        "daily-2024-01-15",
        "nvme1",
    )
    .unwrap();
    assert_eq!(found, per_disk_part);
}

#[test]
fn test_find_part_dir_fallback_default() {
    // Even though the disk is listed, the per-disk path does not exist, so the part is
    // found in the backup's own directory.
    let legacy_part = "/tmp/dir/shadow/mydb/mytable/202401_1_50_3";
    let found = part_dir_among(
        &[legacy_part],
        "/tmp/dir",
        "mydb",
        "mytable",
        "202401_1_50_3",
        &vec![named("default", "/tmp/dir")],
        "daily-2024-01-15",
        "default",
    )
    .unwrap();
    assert_eq!(found, legacy_part);
}

#[test]
fn test_find_part_dir_old_backup_with_manifest_disks() {
    // The disk's path holds no backup data.
    let legacy_part = "/tmp/backup_dir/shadow/mydb/mytable/202401_1_50_3";
    let found = part_dir_among(
        &[legacy_part],
        "/tmp/backup_dir",
        "mydb",
        "mytable",
        "202401_1_50_3",
        &vec![named("nvme1", "/tmp/disk_dir")],
        "daily-2024-01-15",
        "nvme1",
    )
    .unwrap();
    assert_eq!(found, legacy_part);
}

#[test]
fn part_dirs_are_tried_in_order() {
    let disks = vec![named("d", "/disk")];
    let dirs = part_dir_candidates("/b", "my db", "t", "p", &disks, "n", "d");
    assert_eq!(
        dirs,
        [
            "/disk/backup/n/shadow/my%20db/t/p",
            "/b/shadow/my%20db/t/p",
            "/b/shadow/my db/t/p"
        ]
    );
    let all: Vec<&str> = dirs.iter().map(|d| d.as_str()).collect();
    let found = |e: &[&str]| part_dir_among(e, "/b", "my db", "t", "p", &disks, "n", "d");
    assert_eq!(found(&all).unwrap(), dirs[0]);
    assert_eq!(found(&all[1..]).unwrap(), dirs[1]);
    assert_eq!(found(&all[2..]).unwrap(), dirs[2]);
    assert_eq!(
        found(&[]).unwrap_err(),
        "Part directory not found for my db.t/p (checked per-disk, legacy encoded, and legacy plain paths)"
    );
}

#[test]
fn missing_parts_end_the_plan() {
    let m = manifest(vec![table("db.t", "default", vec![PartInfo::new("p", 1, 1)])]);
    let missing = vec![vec![vec![PartLocation::Missing { dir: "/d/p".to_string() }]]];
    assert_eq!(
        plan_upload(&m, &missing, "b", "bucket", "lz4", &vec![]).unwrap_err(),
        "Part directory not found: p (expected at /d/p)"
    );
    let unknown = vec![vec![vec![PartLocation::Unknown]]];
    assert_eq!(
        plan_upload(&m, &unknown, "b", "bucket", "lz4", &vec![]).unwrap_err(),
        "Part directory not found for db.t/p (checked per-disk, legacy encoded, and legacy plain paths)"
    );
    assert_eq!(
        find_part_dir(&PartLocation::Missing { dir: "/d".to_string() }, "db", "t", "p"),
        Ok("/d".to_string())
    );
}

#[test]
fn parts_of_object_disks_come_from_their_own_bucket_or_the_backups() {
    let part = || {
        PartInfo::new("p", 5, 1).with_s3_objects(vec![S3ObjectInfo {
            path: "o".to_string(),
            size: 5,
            backup_key: String::new(),
        }])
    };
    let mut m = manifest(vec![table("db.t", "obj", vec![part()])]);
    m.disk_types = vec![named("obj", "object_storage")];
    let p = plan(&m, "b", &vec![]).unwrap();
    assert_eq!(p.s3_disk_items[0].source_bucket, "backup-bucket");
    assert_eq!(p.s3_disk_items[0].source_prefix, "");
    m.disk_remote_paths = vec![named("obj", "/plain/path/")];
    let p = plan(&m, "b", &vec![]).unwrap();
    assert_eq!(p.s3_disk_items[0].source_bucket, "backup-bucket");
    assert_eq!(p.s3_disk_items[0].source_prefix, "/plain/path/");
    let copy = object_copy(&p.s3_disk_items[0].s3_objects[0], "/plain/path/", "b").unwrap();
    assert_eq!(copy.source_key, "/plain/path/o");
    // Finished before, under the key of its metadata.
    let done = vec!["b/data/db/t/obj/p/".to_string()];
    let p = plan(&m, "b", &done).unwrap();
    assert!(p.s3_disk_items.is_empty());
    assert_eq!(p.table_count, 1);
}

#[test]
fn an_earlier_upload_is_taken_up_only_for_the_same_parameters() {
    let state = |backup: &str, hash: &str| {
        Some(UploadState {
            completed_keys: vec!["k".to_string()],
            backup_name: backup.to_string(),
            params_hash: hash.to_string(),
        })
    };
    assert_eq!(accepted_keys(true, true, state("b", "h"), "b", "h"), vec!["k".to_string()]);
    assert!(accepted_keys(true, true, state("b", "x"), "b", "h").is_empty());
    assert!(accepted_keys(true, true, state("x", "h"), "b", "h").is_empty());
    assert!(accepted_keys(true, false, state("b", "h"), "b", "h").is_empty());
    assert!(accepted_keys(false, true, state("b", "h"), "b", "h").is_empty());
    assert!(accepted_keys(true, true, None, "b", "h").is_empty());
}

#[test]
fn keys_of_files() {
    assert_eq!(metadata_file_key("b/data/db/t/disk/p/", "/checksums.txt"), "b/data/db/t/disk/p/checksums.txt");
    assert_eq!(relative_key("sub\\dir\\f"), "/sub/dir/f");
    assert_eq!(directory_file_key("b", "access", "users.sql"), "b/access/users.sql");
    assert_eq!(encode_path_component("a/b"), "a%2Fb");
}

#[test]
fn archives_are_uploaded_in_chunks() {
    let mib = 1024 * 1024;
    let chunks = archive_chunks(40 * mib, 16 * mib, 10_000);
    let bounds: Vec<_> = chunks.iter().map(|c| (c.part_number, c.start, c.end)).collect();
    assert_eq!(
        bounds,
        vec![(1, 0, 16 * mib - 1), (2, 16 * mib, 32 * mib - 1), (3, 32 * mib, 40 * mib - 1)]
    );
    assert!(archive_chunks(0, 0, 0).is_empty());
    assert_eq!(streaming_chunk_size(300 * mib, 0, 10_000), 5 * mib);
}

#[test]
fn outcomes_are_merged_into_the_manifest() {
    let mut m = manifest(vec![
        table(
            "db.t",
            "default",
            vec![carried("a"), PartInfo::new("b", 1, 1), PartInfo::new("c", 2, 2)],
        ),
        table("db.u", "default", vec![carried("a")]),
    ]);
    let result = |name: &str, size: u64| UploadResult {
        table_key: "db.t".to_string(),
        disk_name: "default".to_string(),
        part: uploaded_part(&PartInfo::new(name, 1, 1), &format!("key-{}", name), size),
        compressed_size: size,
    };
    apply_results(&mut m, &vec![result("c", 30), result("b", 12)], "zstd");
    let names: Vec<_> = m.tables[0].disks[0].parts.iter().map(|p| p.name.as_str()).collect();
    assert_eq!(names, vec!["a", "c", "b"]);
    assert_eq!(m.tables[0].disks[0].parts[0].backup_key, "base/key");
    assert_eq!(m.tables[0].disks[0].parts[1].backup_key, "key-c");
    assert_eq!(m.tables[0].disks[0].parts[1].source, "uploaded");
    assert_eq!(m.tables[0].disks[0].parts[1].backup_size, 30);
    assert_eq!(m.tables[1].disks[0].parts.len(), 1);
    assert_eq!(m.compressed_size, 42);
    assert_eq!(m.data_format, "zstd");
}

#[test]
fn copied_parts_keep_their_size() {
    let object = |path: &str, size: u64| S3ObjectInfo {
        path: path.to_string(),
        size,
        backup_key: String::new(),
    };
    let objects = vec![object("x", 3), object("y", 0), object("z", 4)];
    let copied = copied_objects(&objects, "b", 2);
    assert_eq!(copied[0].backup_key, "b/objects/x");
    assert_eq!(copied[1].backup_key, "");
    let part = PartInfo::new("p", 7, 1);
    let interrupted = interrupted_part(&part, copied_objects(&objects, "b", 1));
    assert_eq!(interrupted.backup_key, "");
    assert_eq!(interrupted.s3_objects.unwrap().len(), 1);
    let done = copied_part(&part, copied_objects(&objects, "b", 3), "b/data/db/t/d/p/");
    assert_eq!((done.backup_size, done.backup_key.as_str()), (7, "b/data/db/t/d/p/"));
    assert_eq!(object_copy(&objects[0], "", "b").unwrap().source_key, "x");
}

#[test]
fn every_outcome_is_in_the_manifest() {
    let mut m = manifest(vec![table("db.t", "default", vec![])]);
    let part = uploaded_part(&PartInfo::new("n", 1, 1), "k", 3);
    let result = UploadResult {
        table_key: "db.t".to_string(),
        disk_name: "default".to_string(),
        part: part.clone(),
        compressed_size: 3,
    };
    apply_results(&mut m, &vec![result], "lz4");
    assert_eq!(m.tables[0].disks[0].parts, vec![part]);
}

#[test]
fn keys_of_different_parts_differ() {
    let a = s3_key_for_part("b", "db/x", "t", "p", "lz4");
    let b = s3_key_for_part("b", "db", "x/t", "p", "lz4");
    assert_eq!(a, "b/data/db%2Fx/t/p.tar.lz4");
    assert_ne!(a, b);
}

#[test]
fn chunks_are_numbered_and_assembled() {
    let mut t = ChunkTransfer::new("p");
    t.created("id".to_string());
    assert_eq!(t.next_number(), 1);
    t.chunk_uploaded(10, "t1".to_string());
    assert_eq!(t.next_number(), 2);
    t.chunk_uploaded(4, "t2".to_string());
    assert_eq!(t.total(), 14);
    match t.finished() {
        TransferEnd::Complete { upload_id, parts } => {
            assert_eq!(upload_id, "id");
            assert_eq!(parts, vec![(1, "t1".to_string()), (2, "t2".to_string())]);
        }
        other => panic!("expected the completion, got {:?}", other),
    }
}

#[test]
fn failed_transfers_are_aborted() {
    let mut t = ChunkTransfer::new("p");
    t.created("id".to_string());
    match t.finished() {
        TransferEnd::Abort { upload_id, error } => {
            assert_eq!(upload_id, "id");
            assert_eq!(error, "Streaming compression produced zero chunks for part p");
        }
        other => panic!("expected an abort, got {:?}", other),
    }
    let t = ChunkTransfer::new("p");
    assert!(matches!(t.failed("e".to_string()), TransferEnd::Fail { error } if error == "e"));
    assert_eq!(ChunkTransfer::new("p").cancelled(), None);
    let mut t = ChunkTransfer::new("p");
    t.created("id".to_string());
    assert_eq!(t.cancelled(), Some("id".to_string()));
    assert_eq!(
        transfer_error(true, "p", "reset"),
        "Streaming multipart upload failed for part p: reset"
    );
    assert_eq!(transfer_error(false, "p", "reset"), "Multipart upload failed for part p: reset");
}

fn empty_plan() -> UploadPlan {
    UploadPlan { local_items: vec![], s3_disk_items: vec![], table_count: 0 }
}

fn result_of(table: &str, disk: &str, part: &str) -> UploadResult {
    UploadResult {
        table_key: table.to_string(),
        disk_name: disk.to_string(),
        part: PartInfo::new(part, 1, 1),
        compressed_size: 1,
    }
}

#[test]
fn the_manifest_is_published_last() {
    let plan = empty_plan();
    let (results, steps) = finish_steps(&plan, vec![], false, true, true, true, true).unwrap();
    assert!(results.is_empty());
    assert_eq!(
        steps,
        vec![
            FinishStep::UploadAccess,
            FinishStep::UploadConfigs,
            FinishStep::PutTemporaryManifest,
            FinishStep::PublishManifest,
            FinishStep::DeleteTemporaryManifest,
            FinishStep::SaveLocalManifest,
            FinishStep::DeleteResumeState,
            FinishStep::DeleteLocalBackup,
        ]
    );
    let (_, steps) = finish_steps(&plan, vec![], false, false, false, false, false).unwrap();
    assert_eq!(steps.len(), 4);
    assert_eq!(
        finish_steps(&plan, vec![], true, true, true, true, true).unwrap_err(),
        "upload cancelled"
    );
}

#[test]
fn nothing_is_published_without_every_part() {
    let m = manifest(vec![table(
        "db.t",
        "default",
        vec![PartInfo::new("a", 1, 1), PartInfo::new("b", 1, 1)],
    )]);
    let p = plan(&m, "daily", &vec![]).unwrap();
    let finish = |outcomes: Vec<Result<UploadResult, String>>| {
        finish_steps(&p, outcomes, false, false, false, false, true)
    };
    let (results, steps) = finish(vec![
        Ok(result_of("db.t", "default", "a")),
        Ok(result_of("db.t", "default", "b")),
    ])
    .unwrap();
    assert_eq!(results.len(), 2);
    assert_eq!(results[0].part.name, "a");
    assert_eq!(results[1].part.name, "b");
    assert!(steps.contains(&FinishStep::PublishManifest));
    assert!(steps.contains(&FinishStep::DeleteLocalBackup));
    assert_eq!(
        finish(vec![Ok(result_of("db.t", "default", "a")), Err("reset".to_string())]).unwrap_err(),
        "reset"
    );
    // A part's error is reported even where the upload was cancelled.
    let failed = vec![Ok(result_of("db.t", "default", "a")), Err("reset".to_string())];
    assert_eq!(
        finish_steps(&p, failed, true, false, false, false, true).unwrap_err(),
        "reset"
    );
    let incomplete = "upload incomplete: a planned part has no result";
    assert_eq!(finish(vec![]).unwrap_err(), incomplete);
    assert_eq!(finish(vec![Ok(result_of("db.t", "default", "a"))]).unwrap_err(), incomplete);
    assert_eq!(
        finish(vec![
            Ok(result_of("db.t", "default", "a")),
            Ok(result_of("db.t", "default", "a")),
        ])
        .unwrap_err(),
        incomplete
    );
}

#[test]
fn a_completion_that_fails_aborts_the_upload() {
    let mut t = ChunkTransfer::of_object("o");
    t.created("id".to_string());
    assert!(t.has_room(1));
    t.chunk_uploaded(1, "t1".to_string());
    assert!(matches!(t.finished(), TransferEnd::Complete { .. }));
    assert!(matches!(t.completed(Ok(())), TransferEnd::Done));
    match t.completed(Err("reset".to_string())) {
        TransferEnd::Abort { upload_id, error } => {
            assert_eq!((upload_id.as_str(), error.as_str()), ("id", "reset"));
        }
        other => panic!("expected an abort, got {:?}", other),
    }
}

#[test]
fn an_object_without_chunks_is_assembled() {
    let mut t = ChunkTransfer::of_object("o");
    t.created("id".to_string());
    match t.finished() {
        TransferEnd::Complete { upload_id, parts } => {
            assert_eq!(upload_id, "id");
            assert!(parts.is_empty());
        }
        other => panic!("expected the completion, got {:?}", other),
    }
}
