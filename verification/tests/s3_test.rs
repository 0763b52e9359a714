use chbackup::path_encoding::percent_encode_s3_key;
use chbackup::storage::copy::{error_after_abort, CopyAction, MultipartCopy};
use chbackup::storage::s3::{
    calculate_chunk_size, connection_plan, copy_chunk_size, copy_error, copy_route, copy_source, is_missing_source_error,
    is_timeout_error, listed_object, next_copy_retry, next_page, next_retry, parse_s3_uri,
    part_range, range_header, record_deleted_batch, remaining_budget, retry_error, s3_deadline, size_of_reply,
    stream_route, CopyRetryStep, CopyRoute, CredentialSource, Encryption, HeadOutcome, NextPage,
    PartRange, RetryConfig, RetryStep, S3Client, S3Config, S3OpClass, S3OpCtx, S3Timeouts,
    StreamRoute, COPY_OBJECT_MAX_SIZE, S3_MIN_PART_SIZE,
};
use chbackup::time::Duration;

#[test]
fn test_s3_deadline_metadata_ignores_bytes() {
    let t = test_timeouts(60, 1024 * 1024);
    let a = s3_deadline(S3OpClass::Metadata, None, &t);
    let b = s3_deadline(S3OpClass::Metadata, Some(5 * 1024 * 1024 * 1024), &t);
    assert_eq!(a, Some(Duration::from_secs(60)));
    assert_eq!(a, b, "size must not affect a metadata deadline");
}

#[test]
fn test_s3_deadline_copy_adds_size_allowance() {
    let t = test_timeouts(60, 1024 * 1024); // 1 MiB/s
                                            // 5 MiB part -> 60s + 5s
    assert_eq!(
        s3_deadline(S3OpClass::Copy, Some(5 * 1024 * 1024), &t),
        Some(Duration::from_secs(65))
    );
    // 5 GiB -> 60s + 5120s == 86.3 min. Spelled out because the MiB-vs-MB distinction
    // matters: at 1 MB/s decimal this would be ~90 min instead.
    assert_eq!(
        s3_deadline(S3OpClass::Copy, Some(5 * 1024 * 1024 * 1024), &t),
        Some(Duration::from_secs(60 + 5120))
    );
}

#[test]
fn test_s3_deadline_disabled_when_request_timeout_zero() {
    let t = test_timeouts(0, 1024 * 1024);
    assert_eq!(s3_deadline(S3OpClass::Metadata, None, &t), None);
    assert_eq!(s3_deadline(S3OpClass::Copy, Some(1 << 30), &t), None);
}

#[test]
fn test_s3_deadline_copy_zero_rate_is_flat() {
    let t = test_timeouts(60, 0);
    assert_eq!(
        s3_deadline(S3OpClass::Copy, Some(5 * 1024 * 1024 * 1024), &t),
        Some(Duration::from_secs(60)),
        "copy_min_bytes_per_second = 0 means no size allowance"
    );
}

#[test]
fn test_s3_deadline_copy_unknown_size_assumes_legal_max() {
    let t = test_timeouts(60, 1024 * 1024);
    let unknown = s3_deadline(S3OpClass::Copy, None, &t).unwrap();
    let max = s3_deadline(S3OpClass::Copy, Some(COPY_OBJECT_MAX_SIZE), &t).unwrap();
    assert_eq!(unknown, max);
    assert!(unknown > Duration::from_secs(60));
}

#[test]
fn test_s3_deadline_saturates_on_absurd_size() {
    let t = test_timeouts(60, 1);
    // Must not panic or wrap.
    let d = s3_deadline(S3OpClass::Copy, Some(u64::MAX), &t);
    assert!(d.is_some());
}

#[test]
fn test_is_timeout_error_is_narrow() {
    let ours = anyhow::Error::msg("S3 request timed out: CopyObject on b/k after 1.0s");
    assert!(is_timeout_error(&format!("{ours:#}")));

    // Must NOT match a missing-source error, nor an unrelated message that merely mentions
    // a timeout.
    let missing = anyhow::Error::msg("NoSuchKey: The specified key does not exist");
    assert!(!is_timeout_error(&format!("{missing:#}")));
    let unrelated = anyhow::Error::msg("connection timed out while reading response");
    assert!(!is_timeout_error(&format!("{unrelated:#}")));

    // The cause of an error counts too.
    let wrapped = ours.context("upload failed");
    assert!(is_timeout_error(&format!("{wrapped:#}")));
}

#[test]
fn test_remaining_budget_states() {
    let now = Duration::from_secs(1000);

    // Disabled budget -> no clamp.
    assert!(remaining_budget(None, now).is_none());

    // Live budget -> Some(Ok(..)).
    let future = Duration::from_secs(1030);
    match remaining_budget(Some(future), now) {
        Some(Ok(left)) => {
            assert!(left <= Duration::from_secs(30) && !left.is_zero());
            assert_eq!(left, Duration::from_secs(30));
        }
        other => panic!("expected Some(Ok(..)), got {other:?}"),
    }

    // Exhausted budget -> Some(Err(..)) carrying the timeout prefix so is_timeout_error
    // classifies it.
    let past = Duration::from_secs(999);
    match remaining_budget(Some(past), now) {
        Some(Err(e)) => assert!(is_timeout_error(&e), "got: {e:#}"),
        other => panic!("expected Some(Err(..)), got {:?}", other.map(|r| r.is_ok())),
    }
    assert!(matches!(remaining_budget(Some(now), now), Some(Err(_))));
}

#[test]
fn test_calculate_chunk_size_reproduces_incident_and_fix() {
    const INCIDENT_SIZE: u64 = 6_487_078_358;

    let auto = calculate_chunk_size(INCIDENT_SIZE, 0, 10_000);
    assert_eq!(
        auto,
        5 * 1024 * 1024,
        "auto mode floors at the 5 MiB minimum"
    );
    assert_eq!(
        INCIDENT_SIZE.div_ceil(auto),
        1238,
        "the observed part count"
    );

    let configured = calculate_chunk_size(INCIDENT_SIZE, 512 * 1024 * 1024, 10_000);
    assert_eq!(configured, 512 * 1024 * 1024);
    assert_eq!(
        INCIDENT_SIZE.div_ceil(configured),
        13,
        "tens, not thousands"
    );
}

#[test]
fn test_calculate_chunk_size_clamps_to_s3_maximum() {
    // Latent while auto mode was the only path; reachable once s3.chunk_size is honoured.
    let over = calculate_chunk_size(1 << 40, 10 * 1024 * 1024 * 1024, 10_000);
    assert_eq!(over, COPY_OBJECT_MAX_SIZE, "must clamp to 5 GiB");

    // The lower clamp still holds.
    let under = calculate_chunk_size(1024, 1024, 10_000);
    assert_eq!(under, 5 * 1024 * 1024);
}

#[test]
fn test_with_bucket_and_prefix_carries_timeout_fields() {
    let base = mock_s3_fields("bucket-a", "prefix-a");
    let derived = base.with_bucket_and_prefix("bucket-b", "prefix-b");

    assert_eq!(derived.bucket, "bucket-b");
    assert_eq!(
        derived.timeouts.request_timeout_secs,
        base.timeouts.request_timeout_secs
    );
    assert_eq!(
        derived.timeouts.copy_min_bytes_per_second,
        base.timeouts.copy_min_bytes_per_second
    );
    assert_eq!(derived.chunk_size, base.chunk_size);
    assert_eq!(derived.max_parts_count, base.max_parts_count);
    assert_eq!(derived.log_requests, base.log_requests);
}

#[test]
fn test_full_key_with_prefix() {
    let client = mock_s3_fields("my-bucket", "chbackup");
    assert_eq!(
        client.full_key("backup/metadata.json"),
        "chbackup/backup/metadata.json"
    );
}

#[test]
fn test_full_key_with_trailing_slash_prefix() {
    let client = mock_s3_fields("my-bucket", "chbackup/");
    assert_eq!(
        client.full_key("backup/metadata.json"),
        "chbackup/backup/metadata.json"
    );
}

#[test]
fn test_full_key_empty_prefix() {
    let client = mock_s3_fields("my-bucket", "");
    assert_eq!(
        client.full_key("backup/metadata.json"),
        "backup/metadata.json"
    );
}

#[test]
fn test_full_key_nested_prefix() {
    let client = mock_s3_fields("my-bucket", "prod/region1/chbackup");
    assert_eq!(
        client.full_key("daily/metadata.json"),
        "prod/region1/chbackup/daily/metadata.json"
    );
}

#[test]
fn test_multipart_chunk_calculation() {
    // 100MB file with default max_parts_count=10000 and chunk_size=0 (auto)
    let data_len = 100 * 1024 * 1024;
    let chunk = calculate_chunk_size(data_len, 0, 10000);
    // 100MB / 10000 = ~10KB, but S3 minimum is 5MB
    assert_eq!(chunk, S3_MIN_PART_SIZE);

    // 100GB file with auto chunk_size
    let data_len = 100 * 1024 * 1024 * 1024_u64;
    let chunk = calculate_chunk_size(data_len, 0, 10000);
    // 100GB / 10000 = ~10MB, which is above minimum
    assert!(chunk >= S3_MIN_PART_SIZE);
    // Number of parts should not exceed max_parts_count
    let part_count = data_len.div_ceil(chunk);
    assert!(part_count <= 10000);
}

#[test]
fn test_calculate_chunk_size_auto() {
    // Auto mode: config_chunk_size = 0
    // 50GB data, 10000 max parts -> ~5.3MB per chunk (above minimum)
    let data_len = 50 * 1024 * 1024 * 1024_u64;
    let chunk = calculate_chunk_size(data_len, 0, 10000);
    let auto_computed = data_len.div_ceil(10000);
    assert_eq!(chunk, auto_computed);
    assert!(chunk >= S3_MIN_PART_SIZE);

    // 500GB data, 10000 max parts -> ~50MB per chunk
    let data_len = 500 * 1024 * 1024 * 1024_u64;
    let chunk = calculate_chunk_size(data_len, 0, 10000);
    let expected = data_len.div_ceil(10000);
    assert_eq!(chunk, expected);
}

#[test]
fn test_calculate_chunk_size_explicit() {
    // Explicit chunk size: 64MB
    let explicit = 64 * 1024 * 1024;
    let chunk = calculate_chunk_size(1024 * 1024 * 1024, explicit, 10000);
    assert_eq!(chunk, explicit);
}

#[test]
fn test_calculate_chunk_size_minimum() {
    // Explicit chunk size below 5MB should be clamped to 5MB
    let small_chunk = 1024 * 1024; // 1MB
    let chunk = calculate_chunk_size(100 * 1024 * 1024, small_chunk, 10000);
    assert_eq!(chunk, S3_MIN_PART_SIZE);

    // Auto with very large max_parts_count should also clamp to 5MB
    let chunk = calculate_chunk_size(10 * 1024 * 1024, 0, 10000);
    assert_eq!(chunk, S3_MIN_PART_SIZE);
}

#[test]
fn test_copy_object_builds_correct_source() {
    // Verify the CopySource format is "{bucket}/{percent-encoded-key}"
    let client = mock_s3_fields("dest-bucket", "dest-prefix");

    // ASCII-safe key: slashes preserved, no encoding needed
    let source_bucket = "source-bucket";
    let source_key = "path/to/object.bin";
    let copy_source = format!("{}/{}", source_bucket, percent_encode_s3_key(source_key));
    assert_eq!(copy_source, "source-bucket/path/to/object.bin");

    // Key with space and special chars: should be percent-encoded
    let source_key_special = "path/to/my file (v2).bin";
    let copy_source_special = format!(
        "{}/{}",
        source_bucket,
        percent_encode_s3_key(source_key_special)
    );
    assert_eq!(
        copy_source_special,
        "source-bucket/path/to/my%20file%20%28v2%29.bin"
    );

    // Verify dest key uses prefix
    let dest_key = "backup/objects/data.bin";
    let full_dest = client.full_key(dest_key);
    assert_eq!(full_dest, "dest-prefix/backup/objects/data.bin");
}

#[test]
fn test_percent_encode_s3_key() {
    // Unreserved chars + slashes pass through unchanged
    assert_eq!(percent_encode_s3_key("abc/def_123.~-"), "abc/def_123.~-");
    // Space and parentheses are encoded
    assert_eq!(percent_encode_s3_key("a b"), "a%20b");
    assert_eq!(percent_encode_s3_key("a(b)"), "a%28b%29");
    // Unicode bytes are encoded
    assert_eq!(percent_encode_s3_key("ñ"), "%C3%B1");
    // Empty string is fine
    assert_eq!(percent_encode_s3_key(""), "");
}

#[test]
fn test_disable_ssl_forces_http_scheme() {
    let mut c = config();
    c.disable_ssl = true;
    c.endpoint = "https://minio:9000".to_string();
    assert_eq!(connection_plan(&c).unwrap().endpoint, "http://minio:9000");
}

#[test]
fn test_disable_ssl_no_change_when_already_http() {
    let mut c = config();
    c.disable_ssl = true;
    c.endpoint = "http://minio:9000".to_string();
    assert_eq!(connection_plan(&c).unwrap().endpoint, "http://minio:9000");
}

#[test]
fn test_disable_ssl_empty_endpoint() {
    let mut c = config();
    c.disable_ssl = true;
    c.endpoint = String::new();
    assert!(connection_plan(&c).unwrap().endpoint.is_empty());
}

#[test]
fn test_disable_cert_verification_forces_http() {
    let mut c = config();
    c.disable_cert_verification = true;
    c.endpoint = "https://minio:9000".to_string();
    assert_eq!(connection_plan(&c).unwrap().endpoint, "http://minio:9000");

    // Already http:// stays as it is.
    c.endpoint = "http://minio:9000".to_string();
    assert_eq!(connection_plan(&c).unwrap().endpoint, "http://minio:9000");
}

#[test]
fn test_disable_cert_verification_empty_endpoint_bails() {
    let mut c = config();
    c.disable_cert_verification = true;
    c.endpoint = String::new();

    let result = S3Client::new(&c);
    assert!(
        result.is_err(),
        "Expected error when disable_cert_verification=true with empty endpoint"
    );
    let err_msg = result.unwrap_err();
    assert!(
        err_msg.contains("disable_cert_verification requires an explicit endpoint URL"),
        "Error should mention explicit endpoint requirement, got: {}",
        err_msg
    );
}

#[test]
fn test_is_missing_source_error_matches_permanent_absence() {
    assert!(is_missing_source_error(
        "service error: unhandled error (NoSuchKey): Error { code: \"NoSuchKey\", \
         message: \"The specified key does not exist.\" }"
    ));
    assert!(is_missing_source_error("NoSuchBucket: the bucket is gone"));
}

#[test]
fn test_is_missing_source_error_ignores_transient_and_unrelated() {
    for msg in [
        "connection reset by peer",
        "timed out",
        "SlowDown: please reduce your request rate",
        "InternalError: we encountered an internal error",
        "AccessDenied",
        "HTTP status 404 from an unrelated endpoint",
        "table not found",
    ] {
        assert!(
            !is_missing_source_error(msg),
            "{msg:?} must not be classified as a permanently missing source"
        );
    }
}

#[test]
fn test_parse_s3_uri_bucket_and_prefix() {
    let (bucket, prefix) = parse_s3_uri("s3://my-bucket/my/prefix");
    assert_eq!(bucket, "my-bucket");
    assert_eq!(prefix, "my/prefix");
}

#[test]
fn s3_test_parse_s3_uri_bucket_only() {
    let (bucket, prefix) = parse_s3_uri("s3://my-bucket");
    assert_eq!(bucket, "my-bucket");
    assert_eq!(prefix, "");
}

#[test]
fn s3_test_parse_s3_uri_trailing_slash() {
    let (bucket, prefix) = parse_s3_uri("s3://my-bucket/prefix/");
    assert_eq!(bucket, "my-bucket");
    assert_eq!(prefix, "prefix");
}

#[test]
fn test_parse_s3_uri_uppercase_scheme() {
    let (bucket, prefix) = parse_s3_uri("S3://my-bucket/prefix");
    assert_eq!(bucket, "my-bucket");
    assert_eq!(prefix, "prefix");
}

#[test]
fn s3_test_parse_s3_uri_not_s3() {
    let (bucket, prefix) = parse_s3_uri("some/path/here");
    assert_eq!(bucket, "");
    assert_eq!(prefix, "some/path/here");
}

#[test]
fn test_parse_s3_uri_no_prefix_trailing_slash() {
    let (bucket, prefix) = parse_s3_uri("s3://my-bucket/");
    assert_eq!(bucket, "my-bucket");
    assert_eq!(prefix, "");
}

#[test]
fn test_percent_encode_s3_key_already_safe() {
    assert_eq!(
        percent_encode_s3_key("backups/daily/2024-01-15/metadata.json"),
        "backups/daily/2024-01-15/metadata.json"
    );
}

#[test]
fn test_percent_encode_s3_key_unicode_multibyte() {
    // Multi-byte UTF-8 chars get percent-encoded byte-by-byte
    assert_eq!(percent_encode_s3_key("café"), "caf%C3%A9");
}

#[test]
fn test_percent_encode_s3_key_slashes_preserved() {
    assert_eq!(percent_encode_s3_key("a/b/c"), "a/b/c");
}

#[test]
fn test_calculate_chunk_size_at_threshold() {
    // Exactly at the 5MB minimum boundary
    let chunk = calculate_chunk_size(S3_MIN_PART_SIZE * 10000, 0, 10000);
    assert_eq!(chunk, S3_MIN_PART_SIZE);
}

#[test]
fn test_calculate_chunk_size_max_parts_boundary() {
    // With 2 max parts, chunk should be half the data (rounded up)
    let data_len = 100 * 1024 * 1024_u64; // 100 MB
    let chunk = calculate_chunk_size(data_len, 0, 2);
    let expected = data_len.div_ceil(2);
    assert_eq!(chunk, expected);
    assert!(data_len.div_ceil(chunk) <= 2);
}

fn mock_s3_fields(bucket: &str, prefix: &str) -> S3Client {
    let mut config = config();
    config.bucket = bucket.to_string();
    config.prefix = prefix.to_string();
    S3Client::new(&config).unwrap()
}

fn config() -> S3Config {
    S3Config {
        bucket: "my-backup-bucket".to_string(),
        region: "us-east-1".to_string(),
        endpoint: String::new(),
        prefix: "chbackup".to_string(),
        access_key: String::new(),
        secret_key: String::new(),
        assume_role_arn: String::new(),
        force_path_style: false,
        disable_ssl: false,
        disable_cert_verification: false,
        storage_class: "standard".to_string(),
        sse: String::new(),
        sse_kms_key_id: String::new(),
        acl: String::new(),
        request_timeout_secs: Some(60),
        stalled_stream_grace_secs: Some(5),
        copy_min_bytes_per_second: 1024 * 1024,
        sdk_max_attempts: 2,
        chunk_size: 0,
        max_parts_count: 10_000,
        debug: false,
    }
}

fn test_timeouts(secs: u64, bps: u64) -> S3Timeouts {
    S3Timeouts {
        request_timeout_secs: secs,
        copy_min_bytes_per_second: bps,
    }
}

#[test]
fn context_of_a_request() {
    let ctx = S3OpCtx::new("bucket", "key").with_part(3, "bytes=0-9").with_size(10);
    assert_eq!(ctx.bucket, "bucket");
    assert_eq!(ctx.key, "key");
    assert_eq!(ctx.part_number, Some(3));
    assert_eq!(ctx.range.as_deref(), Some("bytes=0-9"));
    assert_eq!(ctx.size, Some(10));
}

#[test]
fn deadlines_grow_with_size_and_saturate() {
    let t = test_timeouts(u64::MAX, 1);
    let d = s3_deadline(S3OpClass::Copy, Some(u64::MAX), &t).unwrap();
    assert_eq!((d.as_secs(), d.subsec_nanos()), (u64::MAX, 999_999_999));
    let t = test_timeouts(10, 100);
    let small = s3_deadline(S3OpClass::Copy, Some(100), &t).unwrap();
    let large = s3_deadline(S3OpClass::Copy, Some(1000), &t).unwrap();
    assert!(s3_deadline(S3OpClass::Metadata, None, &t).unwrap() < small && small < large);
    assert_eq!(large, Duration::from_secs(20));
}

#[test]
fn copies_are_retried_within_bounds() {
    assert_eq!(next_copy_retry(0, "reset", true), CopyRetryStep::Wait { delay_ms: 100 });
    assert_eq!(next_copy_retry(1, "reset", true), CopyRetryStep::Wait { delay_ms: 400 });
    assert_eq!(next_copy_retry(2, "reset", true), CopyRetryStep::Wait { delay_ms: 1600 });
    assert_eq!(next_copy_retry(3, "reset", true), CopyRetryStep::Stream);
    assert_eq!(next_copy_retry(3, "reset", false), CopyRetryStep::GiveUp);
    assert_eq!(next_copy_retry(0, "NoSuchKey", true), CopyRetryStep::SourceMissing);
}

#[test]
fn delays_between_retries_double() {
    let rc = RetryConfig {
        max_retries: 3,
        base_delay_secs: 1,
    };
    assert_eq!(next_retry(&rc, 0, &None), RetryStep::Wait { delay_ms: 1000 });
    assert_eq!(next_retry(&rc, 1, &None), RetryStep::Wait { delay_ms: 2000 });
    assert_eq!(next_retry(&rc, 2, &None), RetryStep::Wait { delay_ms: 4000 });
    assert_eq!(next_retry(&rc, 3, &None), RetryStep::GiveUp { attempts: 4 });
}

#[test]
fn permanent_errors_are_not_retried() {
    let rc = RetryConfig { max_retries: 3, base_delay_secs: 1 };
    for code in ["AccessDenied", "NoSuchBucket", "SignatureDoesNotMatch"] {
        let code = Some(code.to_string());
        assert_eq!(next_retry(&rc, 0, &code), RetryStep::GiveUp { attempts: 1 });
        assert_eq!(next_retry(&rc, 2, &code), RetryStep::GiveUp { attempts: 3 });
    }
    for code in ["RequestTimeout", "SlowDown", "InternalError", "AccessDeniedLater"] {
        let code = Some(code.to_string());
        assert_eq!(next_retry(&rc, 0, &code), RetryStep::Wait { delay_ms: 1000 });
    }
    assert_eq!(next_retry(&rc, 0, &None), RetryStep::Wait { delay_ms: 1000 });
}

#[test]
fn copies_stay_within_the_limit_of_parts() {
    let size = 107_374_182_400;
    assert_eq!(copy_chunk_size(size, 5_242_880, 10_000), 10_737_419);
    let mut c = config();
    c.chunk_size = 5_242_880;
    c.max_parts_count = 10_000;
    let client = S3Client::new(&c).unwrap();
    let mut copy = MultipartCopy::begin(&client, "dest", size, Duration::from_secs(0));
    match copy.created(Some("id".to_string()), Duration::from_secs(1)) {
        CopyAction::CopyPart { range, .. } => assert_eq!(range.end, 10_737_418),
        other => panic!("expected a part, got {:?}", other),
    }
    // A configured size that needs fewer parts is kept.
    assert_eq!(copy_chunk_size(6_500_000_000, 536_870_912, 10_000), 536_870_912);
    assert_eq!(copy_chunk_size(size, 0, u32::MAX), 10_737_419);
    assert_eq!(copy_chunk_size(1, 0, 0), 5_242_880);
}

#[test]
fn a_copy_ends_with_its_completion() {
    let client = mock_s3_fields("b", "p");
    let mut copy = MultipartCopy::begin(&client, "dest", 1, Duration::from_secs(0));
    copy.created(Some("id".to_string()), Duration::from_secs(1));
    assert!(matches!(copy.completed(Ok(())), CopyAction::Done));
    match copy.completed(Err("late".to_string())) {
        CopyAction::Abort { error, limit } => {
            assert_eq!(limit, Duration::from_secs(30));
            assert_eq!(error_after_abort(error, Err("abort failed".to_string())), "late");
        }
        other => panic!("expected an abort, got {:?}", other),
    }
}

#[test]
fn one_slash_joins_prefix_and_key() {
    let client = mock_s3_fields("b", "chbackup/");
    assert_eq!(client.full_key("/daily/metadata.json"), "chbackup/daily/metadata.json");
    assert_eq!(client.full_key("daily"), "chbackup/daily");
    assert_eq!(mock_s3_fields("b", "").full_key("/daily"), "/daily");
}

#[test]
fn a_text_without_a_scheme_is_a_prefix_as_it_is() {
    assert_eq!(parse_s3_uri("some/path/"), (String::new(), "some/path/".to_string()));
}

#[test]
fn other_buckets_keep_the_options_of_new_objects() {
    let mut c = config();
    c.sse = "AES256".to_string();
    c.request_timeout_secs = Some(17);
    let other = S3Client::new(&c).unwrap().with_bucket_and_prefix("other-bucket", "other/prefix");
    assert_eq!((other.bucket(), other.prefix()), ("other-bucket", "other/prefix"));
    assert_eq!(other.timeouts.request_timeout_secs, 17);
    assert_eq!(other.sse, "AES256");
    assert_eq!(other.storage_class, "STANDARD");
}

#[test]
fn retries_never_overflow() {
    let rc = RetryConfig { max_retries: 200, base_delay_secs: u64::MAX };
    assert_eq!(next_retry(&rc, 0, &None), RetryStep::Wait { delay_ms: u64::MAX });
    let rc = RetryConfig { max_retries: 200, base_delay_secs: 0 };
    assert_eq!(next_retry(&rc, 150, &None), RetryStep::Wait { delay_ms: 0 });
    let rc = RetryConfig { max_retries: 0, base_delay_secs: 1 };
    assert_eq!(next_retry(&rc, 0, &None), RetryStep::GiveUp { attempts: 1 });
}

#[test]
fn errors_tell_what_was_being_done() {
    assert_eq!(
        copy_error(CopyRetryStep::SourceMissing, "b", "k", "NoSuchKey"),
        "CopyObject source object does not exist: b/k (not retried -- a missing object is permanent): NoSuchKey"
    );
    assert_eq!(
        copy_error(CopyRetryStep::GiveUp, "b", "k", "reset"),
        "CopyObject failed after 4 attempts (streaming fallback disabled): b/k: reset"
    );
    assert_eq!(copy_error(CopyRetryStep::Stream, "b", "k", "reset"), "reset");
    assert_eq!(
        retry_error("PutObject", 4, "p/k", "reset"),
        "PutObject failed after 4 attempts: p/k: reset"
    );
    assert!(S3Client::is_missing_source("NoSuchBucket"));
}

#[test]
fn copies_are_routed_by_size() {
    assert_eq!(copy_route(HeadOutcome::TimedOut), CopyRoute::ReportTimeout);
    assert_eq!(copy_route(HeadOutcome::Refused), CopyRoute::Single { known_size: None });
    let max = COPY_OBJECT_MAX_SIZE as i64;
    assert_eq!(
        copy_route(HeadOutcome::Found { content_length: Some(max) }),
        CopyRoute::Single { known_size: Some(COPY_OBJECT_MAX_SIZE) }
    );
    assert_eq!(
        copy_route(HeadOutcome::Found { content_length: Some(max + 1) }),
        CopyRoute::Multipart { size: COPY_OBJECT_MAX_SIZE + 1 }
    );
    assert_eq!(size_of_reply(Some(-5)), 0);
    assert_eq!(stream_route(Some(32 * 1024 * 1024)), StreamRoute::Buffered);
    assert_eq!(
        stream_route(Some(32 * 1024 * 1024 + 1)),
        StreamRoute::Multipart { chunk_size: S3_MIN_PART_SIZE }
    );
}

#[test]
fn parts_tile_an_object() {
    assert_eq!(part_range(0, 25, 10), PartRange { part_number: 1, start: 0, end: 9 });
    assert_eq!(part_range(1, 25, 10), PartRange { part_number: 2, start: 10, end: 19 });
    assert_eq!(part_range(2, 25, 10), PartRange { part_number: 3, start: 20, end: 24 });
    assert_eq!(range_header(&part_range(1, 25, 10)), "bytes=10-19");
}

#[test]
fn lists_go_on_while_they_are_truncated() {
    assert!(matches!(
        next_page(Some(true), Some("t".to_string())),
        NextPage::Continue { token: Some(t) } if t == "t"
    ));
    assert!(matches!(next_page(Some(false), Some("t".to_string())), NextPage::Finished));
    assert!(matches!(next_page(None, None), NextPage::Finished));
    let o = listed_object(None, None, Some((1_700_000_000, 5)));
    assert_eq!((o.key.as_str(), o.size), ("", 0));
    assert_eq!(o.last_modified.unwrap().secs(), 1_700_000_000);
    assert!(listed_object(Some("k".to_string()), Some(3), Some((i64::MAX, 0))).last_modified.is_none());
}

#[test]
fn keys_are_deleted_in_batches() {
    let client = mock_s3_fields("b", "p/");
    let keys: Vec<String> = (0..2500).map(|i| format!("k{}", i)).collect();
    let batches = client.delete_batches(&keys);
    assert_eq!(batches.iter().map(|b| b.len()).collect::<Vec<_>>(), vec![1000, 1000, 500]);
    assert_eq!(batches[2][0], "p/k2000");
    assert!(client.delete_batches(&vec![]).is_empty());
    assert_eq!(record_deleted_batch(3, 10, 2), Ok(5));
    assert_eq!(record_deleted_batch(3, 10, 0), Ok(3));
    assert_eq!(record_deleted_batch(3, 10, 10), Err(10));
}

#[test]
fn options_of_new_objects() {
    let mut c = config();
    c.sse = "aws:kms".to_string();
    c.sse_kms_key_id = "key-1".to_string();
    c.acl = "private".to_string();
    let o = S3Client::new(&c).unwrap().object_options();
    assert_eq!(o.storage_class.as_deref(), Some("STANDARD"));
    assert_eq!(o.acl.as_deref(), Some("private"));
    assert!(matches!(o.encryption, Encryption::Kms { key_id: Some(k) } if k == "key-1"));
    c.sse = "AES256".to_string();
    c.storage_class = String::new();
    let o = S3Client::new(&c).unwrap().object_options();
    assert!(o.storage_class.is_none());
    assert!(matches!(o.encryption, Encryption::Aes256));
    c.sse = "other".to_string();
    assert!(matches!(S3Client::new(&c).unwrap().object_options().encryption, Encryption::Default));
}

#[test]
fn connections_are_planned_from_the_configuration() {
    let mut c = config();
    c.stalled_stream_grace_secs = None;
    c.request_timeout_secs = None;
    c.sdk_max_attempts = 0;
    let plan = connection_plan(&c).unwrap();
    assert_eq!(plan.stalled_stream_grace_secs, 5);
    assert_eq!(plan.sdk_max_attempts, 1);
    assert_eq!(plan.credentials, CredentialSource::Environment);
    assert_eq!(S3Client::new(&c).unwrap().timeouts.request_timeout_secs, 60);
    c.access_key = "a".to_string();
    assert_eq!(connection_plan(&c).unwrap().credentials, CredentialSource::Environment);
    c.secret_key = "s".to_string();
    assert_eq!(connection_plan(&c).unwrap().credentials, CredentialSource::Static);
    c.assume_role_arn = "arn".to_string();
    assert_eq!(connection_plan(&c).unwrap().credentials, CredentialSource::RoleWithStatic);
    c.secret_key = String::new();
    assert_eq!(connection_plan(&c).unwrap().credentials, CredentialSource::Role);
}

#[test]
fn sources_of_copies_are_encoded() {
    assert_eq!(
        copy_source("source-bucket", "path/to/my file (v2).bin"),
        "source-bucket/path/to/my%20file%20%28v2%29.bin"
    );
}

#[test]
fn an_object_is_copied_in_parts() {
    let mut c = config();
    c.chunk_size = 4 * 1024 * 1024 * 1024;
    let client = S3Client::new(&c).unwrap();
    let size = 6 * 1024 * 1024 * 1024;
    let mut copy = MultipartCopy::begin(&client, "dest", size, Duration::from_secs(0));
    assert_eq!(copy.create_deadline(), Some(Duration::from_secs(60)));
    match copy.created(Some("id".to_string()), Duration::from_secs(1)) {
        CopyAction::CopyPart { range, deadline } => {
            assert_eq!(range, PartRange { part_number: 1, start: 0, end: 4294967295 });
            assert_eq!(deadline, Some(Duration::from_secs(60 + 4096)));
        }
        other => panic!("expected a part, got {:?}", other),
    }
    // Late in the budget of 60 + 6144 seconds, a part gets what is left.
    match copy.part_copied(Some("t1".to_string()), Duration::from_secs(6200)) {
        CopyAction::CopyPart { range, deadline } => {
            assert_eq!(range, PartRange { part_number: 2, start: 4294967296, end: size - 1 });
            assert_eq!(deadline, Some(Duration::from_secs(4)));
        }
        other => panic!("expected a part, got {:?}", other),
    }
    match copy.part_copied(Some("t2".to_string()), Duration::from_secs(6201)) {
        CopyAction::Complete { deadline } => assert_eq!(deadline, Some(Duration::from_secs(3))),
        other => panic!("expected the completion, got {:?}", other),
    }
    assert_eq!(
        copy.completed_parts(),
        vec![(1, "t1".to_string()), (2, "t2".to_string())]
    );
}

#[test]
fn a_failed_copy_is_aborted_once_it_was_created() {
    let client = mock_s3_fields("b", "p");
    let size = 6 * 1024 * 1024 * 1024;
    let mut copy = MultipartCopy::begin(&client, "dest", size, Duration::from_secs(0));
    assert!(matches!(copy.failed("e".to_string()), CopyAction::Fail { error } if error == "e"));
    match copy.created(None, Duration::from_secs(1)) {
        CopyAction::Fail { error } => {
            assert_eq!(error, "Multipart copy: no upload_id returned for p/dest")
        }
        other => panic!("expected a failure, got {:?}", other),
    }
    copy.created(Some("id".to_string()), Duration::from_secs(1));
    assert!(matches!(copy.failed("e".to_string()), CopyAction::Abort { error, limit } if error == "e" && limit == Duration::from_secs(30)));
    match copy.part_copied(None, Duration::from_secs(2)) {
        CopyAction::Abort { error, .. } => {
            assert_eq!(error, "Missing ETag in UploadPartCopy response for part 1")
        }
        other => panic!("expected an abort, got {:?}", other),
    }
    match copy.part_copied(Some("t".to_string()), Duration::from_secs(100_000)) {
        CopyAction::Abort { error, .. } => {
            assert_eq!(
                error,
                "after 1/1229 parts of p/dest: S3 request timed out: multipart copy exceeded its whole-object budget"
            );
            assert!(is_timeout_error(&error));
        }
        other => panic!("expected an abort, got {:?}", other),
    }
}
