//! What holds of the connection to the storage service and of the requests to it.

use vstd::prelude::*;

use crate::storage::copy::{CopyAction, CopyModel};
use crate::storage::s3::{
    backoff_ms, batches, ceil_div, chunk_size_for, copy_chunk_size_for, copy_retry, deadline_nanos,
    effective_endpoint, opt_nanos, part_limit, pow2, prefixed, range_values, retry_after, saturated,
    uri_parts, RetryConfig, RetryStep, S3OpClass, S3Timeouts, CLEANUP_TIMEOUT_SECS, COPY_ATTEMPTS,
    COPY_OBJECT_MAX_SIZE, DELETE_BATCH, MAX_PARTS, S3_MIN_PART_SIZE, STREAMING_COPY_THRESHOLD,
};
use crate::text::{
    has_text, law_first_occurrence_is_replaced, lemma_first_text, lemma_position_is, replace_first,
    text_at, trim_end, trim_start,
};
use crate::upload::PlanContext;

verus! {

// ---------------------------------------------------------------------------
// The endpoint
// ---------------------------------------------------------------------------

/// In `http://` followed by a text, `https://` occurs only in that text.
proof fn lemma_no_https_in_front(rest: Seq<char>)
    ensures
        forall|i: int|
            0 <= i < 7 ==> !#[trigger] text_at("http://"@ + rest, "https://"@, i),
        !has_text(rest, "https://"@) ==> !has_text("http://"@ + rest, "https://"@),
{
    reveal_strlit("http://");
    reveal_strlit("https://");
    let s = "http://"@ + rest;
    let needle = "https://"@;
    assert forall|i: int| 0 <= i < 7 implies !#[trigger] text_at(s, needle, i) by {
        if text_at(s, needle, i) {
            assert(s.subrange(i, i + 8)[0] == s[i]);
            assert(needle[0] == 'h');
            assert(i == 0);
            assert(s.subrange(0, 8)[4] == s[4]);
            assert(needle[4] == 's');
        }
    }
    if !has_text(rest, needle) && has_text(s, needle) {
        let k = choose|k: int| text_at(s, needle, k);
        assert(k >= 7);
        assert(rest.subrange(k - 7, k - 7 + 8) =~= s.subrange(k, k + 8));
        assert(text_at(rest, needle, k - 7));
    }
}

/// The client talks to the configured endpoint. Where encryption in transit is switched off,
/// or certificates are not to be checked, `https://` at its start becomes `http://` and the
/// rest stays; an endpoint without `https://` is never changed. There is no endpoint just
/// where certificates are not to be checked and none is configured.
pub proof fn law_client_talks_to_the_configured_endpoint(
    endpoint: Seq<char>,
    disable_ssl: bool,
    disable_cert_verification: bool,
)
    ensures
        effective_endpoint(endpoint, disable_ssl, disable_cert_verification) is None
            <==> disable_cert_verification && endpoint.len() == 0,
        !disable_ssl && !disable_cert_verification ==> effective_endpoint(
            endpoint,
            disable_ssl,
            disable_cert_verification,
        ) == Some(endpoint),
        !has_text(endpoint, "https://"@) && endpoint.len() > 0 ==> effective_endpoint(
            endpoint,
            disable_ssl,
            disable_cert_verification,
        ) == Some(endpoint),
        endpoint.len() == 0 && !disable_cert_verification ==> effective_endpoint(
            endpoint,
            disable_ssl,
            disable_cert_verification,
        ) == Some(endpoint),
        forall|rest: Seq<char>|
            endpoint == #[trigger] ("https://"@ + rest) && (disable_ssl != disable_cert_verification
                || (disable_ssl && !has_text(rest, "https://"@))) ==> effective_endpoint(
                endpoint,
                disable_ssl,
                disable_cert_verification,
            ) == Some("http://"@ + rest),
{
    reveal_strlit("http://");
    reveal_strlit("https://");
    let https = "https://"@;
    let http = "http://"@;
    lemma_first_text(endpoint, https);
    assert forall|rest: Seq<char>|
        endpoint == #[trigger] (https + rest) && (disable_ssl != disable_cert_verification || (
        disable_ssl && !has_text(rest, https))) implies effective_endpoint(
        endpoint,
        disable_ssl,
        disable_cert_verification,
    ) == Some(http + rest) by {
        let none = Seq::<char>::empty();
        assert(none + https + rest =~= endpoint);
        law_first_occurrence_is_replaced(none, https, rest, http);
        assert(none + http + rest =~= http + rest);
        lemma_no_https_in_front(rest);
        if disable_ssl && disable_cert_verification {
            lemma_first_text(http + rest, https);
            assert(replace_first(http + rest, https, http) == http + rest);
        }
    }
}

/// What is said to the service is never encrypted differently from what was asked for: with
/// neither switch an endpoint keeps its scheme, and with one of them none is left that
/// starts with `https://`.
pub proof fn law_switched_off_encryption_is_off(
    endpoint: Seq<char>,
    disable_ssl: bool,
    disable_cert_verification: bool,
)
    requires
        disable_ssl || disable_cert_verification,
    ensures
        effective_endpoint(endpoint, disable_ssl, disable_cert_verification) matches Some(e)
            ==> !"https://"@.is_prefix_of(e),
{
    reveal_strlit("http://");
    reveal_strlit("https://");
    let https = "https://"@;
    let http = "http://"@;
    let first = if disable_ssl && endpoint.len() > 0 {
        replace_first(endpoint, https, http)
    } else {
        endpoint
    };
    lemma_replaced_start(endpoint, https, http);
    lemma_replaced_start(first, https, http);
}

proof fn lemma_replaced_start(s: Seq<char>, from: Seq<char>, to: Seq<char>)
    requires
        from == "https://"@,
        to == "http://"@,
    ensures
        !from.is_prefix_of(replace_first(s, from, to)),
{
    reveal_strlit("http://");
    reveal_strlit("https://");
    lemma_first_text(s, from);
    let r = replace_first(s, from, to);
    if from.is_prefix_of(r) {
        assert(r.subrange(0, 8) =~= from);
        if s.len() >= 8 && s.subrange(0, 8) == from {
            assert(text_at(s, from, 0));
            assert(s.take(0) =~= Seq::<char>::empty());
            assert(r[4] == ':');
            assert(r.subrange(0, 8)[4] == r[4]);
            assert(from[4] == 's');
        } else if has_text(s, from) {
            let k = choose|k: int| text_at(s, from, k);
            if let Some(n) = crate::text::first_text(s, from) {
                let n = n as int;
                assert(n > 0);
                if n >= 8 {
                    assert(s.subrange(0, 8) =~= r.subrange(0, 8));
                } else {
                    assert(r.subrange(0, 8)[n] == r[n]);
                    assert(r[n] == 'h');
                    assert(from[n] == 'h');
                    assert(from[1] == 't' && from[2] == 't' && from[3] == 'p' && from[4] == 's'
                        && from[5] == ':' && from[6] == '/' && from[7] == '/');
                }
            }
        }
    }
}

// ---------------------------------------------------------------------------
// Keys and addresses
// ---------------------------------------------------------------------------

/// An address like `s3://bucket/prefix` names the bucket and the prefix, with slashes at its
/// end left away; a text without the scheme is a prefix, as it is.
pub proof fn law_addresses_name_bucket_and_prefix(bucket: Seq<char>, prefix: Seq<char>)
    requires
        !bucket.contains('/'),
        bucket.len() > 0,
        prefix.len() > 0,
        prefix.last() != '/',
    ensures
        uri_parts("s3://"@ + bucket) == (bucket, Seq::<char>::empty()),
        uri_parts("s3://"@ + bucket + "/"@) == (bucket, Seq::<char>::empty()),
        uri_parts("s3://"@ + bucket + "/"@ + prefix) == (bucket, prefix),
        uri_parts("s3://"@ + bucket + "/"@ + prefix + "/"@) == (bucket, prefix),
        forall|text: Seq<char>|
            !"s3://"@.is_prefix_of(text) && !"S3://"@.is_prefix_of(text) ==> #[trigger] uri_parts(
                text,
            ) == (Seq::<char>::empty(), text),
{
    reveal_strlit("s3://");
    reveal_strlit("S3://");
    reveal_strlit("/");
    let none = Seq::<char>::empty();
    let u1 = "s3://"@ + bucket;
    let u2 = u1 + "/"@;
    let u3 = u2 + prefix;
    let u4 = u3 + "/"@;
    assert(u1.subrange(0, 5) =~= "s3://"@);
    assert(u2.subrange(0, 5) =~= "s3://"@);
    assert(u3.subrange(0, 5) =~= "s3://"@);
    assert(u4.subrange(0, 5) =~= "s3://"@);
    assert(u1.skip(5) =~= bucket);
    assert(u2.skip(5) =~= bucket + "/"@);
    assert(u3.skip(5) =~= bucket + "/"@ + prefix);
    assert(u4.skip(5) =~= bucket + "/"@ + prefix + "/"@);
    assert(bucket.contains(bucket.last()));
    assert((bucket + "/"@).drop_last() =~= bucket);
    assert(trim_end(bucket, '/') == bucket);
    assert(trim_end(bucket + "/"@, '/') == bucket);
    let r = bucket + "/"@ + prefix;
    assert(r.last() == prefix.last());
    assert((r + "/"@).drop_last() =~= r);
    assert(trim_end(r, '/') == r);
    assert(trim_end(r + "/"@, '/') == r);
    crate::text::lemma_position(bucket, '/');
    assert forall|j: int| 0 <= j < bucket.len() implies r[j] != '/' by {
        assert(r[j] == bucket[j]);
        assert(bucket.contains(bucket[j]));
    }
    lemma_position_is(r, '/', bucket.len() as int);
    assert(r.take(bucket.len() as int) =~= bucket);
    assert(r.skip(bucket.len() as int + 1) =~= prefix);
}

/// The objects of a disk are looked for in the bucket and under the prefix of its remote
/// path: in the backup's own bucket where the disk has no path or its path names no bucket.
pub proof fn law_objects_come_from_the_path_of_their_disk(
    c: PlanContext,
    disk_name: Seq<char>,
    bucket: Seq<char>,
    prefix: Seq<char>,
)
    requires
        !bucket.contains('/'),
        bucket.len() > 0,
        prefix.len() > 0,
        prefix.last() != '/',
    ensures
        ({
            let path = crate::manifest::lookup(c.disk_remote_paths, disk_name);
            let source = c.object_source(disk_name);
            &&& path is None || path == Some(Seq::<char>::empty()) ==> source == (
                c.bucket,
                Seq::<char>::empty(),
            )
            &&& path == Some("s3://"@ + bucket + "/"@ + prefix) ==> source == (bucket, prefix)
            &&& path == Some("s3://"@ + bucket) ==> source == (bucket, Seq::<char>::empty())
            &&& path is Some && !"s3://"@.is_prefix_of(path->0) && !"S3://"@.is_prefix_of(path->0)
                ==> source == (c.bucket, path->0)
        }),
{
    law_addresses_name_bucket_and_prefix(bucket, prefix);
    reveal_strlit("s3://");
    if let Some(p) = crate::manifest::lookup(c.disk_remote_paths, disk_name) {
        if p.len() == 0 {
            assert(p =~= Seq::<char>::empty());
        }
    }
}

/// A key goes below the prefix, with a slash between the two, and stays as it is where there
/// is no prefix.
pub proof fn law_keys_go_below_the_prefix(prefix: Seq<char>, key: Seq<char>)
    ensures
        prefixed(Seq::empty(), key) == key,
        prefix.len() > 0 && prefix.last() != '/' && !(key.len() > 0 && key[0] == '/') ==> prefixed(
            prefix,
            key,
        ) == prefix + "/"@ + key,
        prefix.len() > 0 ==> prefixed(prefix + "/"@, key) == prefixed(prefix, key),
        prefix.len() > 0 ==> prefixed(prefix, "/"@ + key) == prefixed(prefix, key),
{
    reveal_strlit("/");
    assert((prefix + "/"@).drop_last() =~= prefix);
    assert((prefix + "/"@).last() == '/');
    assert(trim_end(prefix + "/"@, '/') == trim_end(prefix, '/'));
    assert(("/"@ + key).skip(1) =~= key);
    assert(("/"@ + key)[0] == '/');
    assert(trim_start("/"@ + key, '/') == trim_start(key, '/'));
}

// ---------------------------------------------------------------------------
// Sizes and times
// ---------------------------------------------------------------------------

/// So many parts hold the data, and one less would not.
pub proof fn law_parts_are_as_few_as_possible(size: nat, chunk: nat)
    requires
        chunk > 0,
    ensures
        ceil_div(size, chunk) * chunk >= size,
        size > 0 ==> (ceil_div(size, chunk) - 1) * chunk < size,
        size == 0 ==> ceil_div(size, chunk) == 0,
{
    let s = size as int;
    let c = chunk as int;
    let n = ceil_div(size, chunk) as int;
    assert(n * c >= s && (s > 0 ==> (n - 1) * c < s) && (s == 0 ==> n == 0)) by (nonlinear_arith)
        requires
            c > 0,
            s >= 0,
            n == if s % c == 0 {
                s / c
            } else {
                s / c + 1
            },
    ;
}

/// A configured size of chunks is taken where it lies in the bounds of S3, and brought into
/// them otherwise. Without one, chunks are no larger than it takes to stay within the allowed
/// number of parts.
pub proof fn law_configured_chunks_are_taken(data_len: u64, config: u64, max_parts: u32)
    ensures
        S3_MIN_PART_SIZE <= config <= COPY_OBJECT_MAX_SIZE ==> chunk_size_for(
            data_len,
            config,
            max_parts,
        ) == config,
        0 < config < S3_MIN_PART_SIZE ==> chunk_size_for(data_len, config, max_parts) == 5_242_880,
        config > COPY_OBJECT_MAX_SIZE ==> chunk_size_for(data_len, config, max_parts)
            == 5_368_709_120,
        config == 0 && max_parts > 0 && chunk_size_for(data_len, 0, max_parts) > S3_MIN_PART_SIZE
            ==> (chunk_size_for(data_len, 0, max_parts) - 1) * max_parts < data_len,
        config == 0 && max_parts > 0 && data_len <= max_parts * S3_MIN_PART_SIZE ==> chunk_size_for(
            data_len,
            0,
            max_parts,
        ) == 5_242_880,
{
    if max_parts > 0 {
        let c = chunk_size_for(data_len, 0, max_parts) as int;
        let w = ceil_div(data_len as nat, max_parts as nat) as int;
        law_parts_are_as_few_as_possible(data_len as nat, max_parts as nat);
        let m = max_parts as int;
        let d = data_len as int;
        if c > S3_MIN_PART_SIZE {
            assert((c - 1) * m <= (w - 1) * m) by (nonlinear_arith)
                requires
                    c <= w,
                    m > 0,
            ;
        }
        if d <= m * S3_MIN_PART_SIZE {
            let k = S3_MIN_PART_SIZE as int;
            assert(w <= k) by (nonlinear_arith)
                requires
                    d >= 0,
                    k > 0,
                    d <= m * k,
                    d == 0 ==> w == 0,
                    d > 0 ==> (w - 1) * m < d,
                    m > 0,
            ;
        }
    }
}

/// A copy takes the configured size of chunks wherever that keeps it within its limit of
/// parts, and larger chunks only where it would not.
pub proof fn law_copies_take_the_configured_chunks(size: u64, config: u64, max_parts: u32)
    requires
        S3_MIN_PART_SIZE <= config <= COPY_OBJECT_MAX_SIZE,
    ensures
        copy_chunk_size_for(size, config, max_parts) >= config,
        ceil_div(size as nat, config as nat) <= part_limit(max_parts) ==> copy_chunk_size_for(
            size,
            config,
            max_parts,
        ) == config,
        part_limit(max_parts) <= 10_000,
        0 < max_parts <= 10_000 ==> part_limit(max_parts) == max_parts,
{
    let l = part_limit(max_parts) as int;
    let c = config as int;
    let s = size as int;
    let n = ceil_div(size as nat, config as nat) as int;
    let w = ceil_div(size as nat, l as nat) as int;
    law_parts_are_as_few_as_possible(size as nat, config as nat);
    law_parts_are_as_few_as_possible(size as nat, l as nat);
    if n <= l {
        assert(w <= c) by (nonlinear_arith)
            requires
                n * c >= s,
                n <= l,
                c > 0,
                l > 0,
                s >= 0,
                s == 0 ==> w == 0,
                s > 0 ==> (w - 1) * l < s,
        ;
    }
}

/// Without a timeout no request has a deadline. With one, a request that moves no bytes has
/// just that, and a copy has in addition the time that its size takes at the slowest rate,
/// to the second.
pub proof fn law_deadlines_allow_for_the_size(size: u64, t: S3Timeouts)
    ensures
        t.request_timeout_secs == 0 ==> deadline_nanos(S3OpClass::Metadata, None, t) is None
            && deadline_nanos(S3OpClass::Copy, Some(size), t) is None && deadline_nanos(
            S3OpClass::Copy,
            None,
            t,
        ) is None,
        t.request_timeout_secs > 0 ==> deadline_nanos(S3OpClass::Metadata, Some(size), t) == Some(
            (t.request_timeout_secs * 1_000_000_000) as nat,
        ),
        t.request_timeout_secs > 0 && t.copy_min_bytes_per_second == 0 ==> deadline_nanos(
            S3OpClass::Copy,
            Some(size),
            t,
        ) == Some((t.request_timeout_secs * 1_000_000_000) as nat),
        t.request_timeout_secs > 0 && t.copy_min_bytes_per_second > 0 && t.request_timeout_secs
            + size / t.copy_min_bytes_per_second <= u64::MAX ==> deadline_nanos(
            S3OpClass::Copy,
            Some(size),
            t,
        ) == Some(
            ((t.request_timeout_secs + size / t.copy_min_bytes_per_second) * 1_000_000_000) as nat,
        ),
        deadline_nanos(S3OpClass::Copy, None, t) == deadline_nanos(
            S3OpClass::Copy,
            Some(5_368_709_120),
            t,
        ),
{
}

/// The first delay is the base delay, and each further one is twice the one before, as long
/// as it can be counted.
pub proof fn law_delays_double(base_delay_secs: u64, attempt: nat)
    ensures
        base_delay_secs * 1000 <= u64::MAX ==> backoff_ms(base_delay_secs, 0) == base_delay_secs
            * 1000,
        pow2(attempt + 1) <= u64::MAX && backoff_ms(base_delay_secs, attempt) * 2 <= u64::MAX
            ==> backoff_ms(base_delay_secs, attempt + 1) == 2 * backoff_ms(
            base_delay_secs,
            attempt,
        ),
        backoff_ms(base_delay_secs, attempt) <= u64::MAX,
{
    let b = crate::storage::s3::saturated(base_delay_secs as nat * 1000) as int;
    let p = pow2(attempt) as int;
    assert(pow2(0) == 1);
    assert(b * 1 == b);
    if pow2(attempt + 1) <= u64::MAX {
        assert(pow2(attempt + 1) == 2 * pow2(attempt));
        assert(b * (2 * p) == 2 * (b * p)) by (nonlinear_arith);
    }
}

/// The parts of a copy are copied in order, each where the one before ended, numbered from 1,
/// and the object is assembled only once they cover all of it. A part or the completion is
/// asked for only before the budget is used up, and the abort only after.
pub proof fn law_parts_are_copied_in_order(m: CopyModel, now: nat, action: CopyAction)
    requires
        m.chunk_size > 0,
        m.followed_by(now, action),
    ensures
        action matches CopyAction::CopyPart { range, deadline } ==> {
            &&& range.part_number == m.etags.len() + 1
            &&& range.start == m.etags.len() * m.chunk_size
            &&& range.start < m.source_size
            &&& range.end < m.source_size
            &&& range.end + 1 == range.start + m.chunk_size || range.end + 1 == m.source_size
            &&& range.end - range.start < m.chunk_size
            &&& m.object_deadline matches Some(d) ==> now < d
            &&& opt_nanos(deadline) is None <==> m.timeouts.request_timeout_secs == 0
        },
        action matches CopyAction::Complete { deadline } ==> {
            &&& m.etags.len() * m.chunk_size >= m.source_size
            &&& m.object_deadline matches Some(d) ==> now < d && opt_nanos(deadline) == Some(
                (d - now) as nat,
            )
            &&& m.object_deadline is None ==> deadline is None
        },
        action is Abort ==> (m.object_deadline matches Some(d) && d <= now),
{
    let n = m.etags.len() as int;
    let c = m.chunk_size as int;
    let s = m.source_size as int;
    let k = m.part_count() as int;
    law_parts_are_as_few_as_possible(m.source_size as nat, m.chunk_size as nat);
    if n < k {
        assert(n * c < s) by (nonlinear_arith)
            requires
                n <= k - 1,
                c > 0,
                s == 0 ==> k == 0,
                s > 0 ==> (k - 1) * c < s,
                n >= 0,
                s >= 0,
                n < k,
        ;
        assert((n + 1) * c == n * c + c) by (nonlinear_arith);
    } else {
        assert(n * c >= s) by (nonlinear_arith)
            requires
                n >= k,
                k * c >= s,
                c > 0,
        ;
    }
    if let CopyAction::CopyPart { range, .. } = action {
        assert(range_values(range).1 == n * c);
    }
}

/// The limits of the service: parts of at least five mebibytes, at most ten thousand of them,
/// objects of up to five gibibytes in one copy, and a thousand keys in one deletion. What is
/// streamed through this process stays below thirty-two mebibytes, a copy is tried up to four
/// times, and cleaning up takes no longer than half a minute.
pub proof fn law_limits_of_the_service()
    ensures
        S3_MIN_PART_SIZE == 5 * 1024 * 1024,
        MAX_PARTS == 10_000,
        COPY_OBJECT_MAX_SIZE == 5 * 1024 * 1024 * 1024,
        DELETE_BATCH == 1000,
        STREAMING_COPY_THRESHOLD == 32 * 1024 * 1024,
        COPY_ATTEMPTS == 4,
        CLEANUP_TIMEOUT_SECS == 30,
{
}

/// No more requests are made to delete keys than are needed: each but the last one deletes a
/// thousand of them.
pub proof fn law_deletions_are_as_few_as_possible(
    keys: Seq<Seq<char>>,
    prefix: Seq<char>,
    b: int,
)
    requires
        0 <= b < batches(keys, prefix).len(),
    ensures
        b + 1 < batches(keys, prefix).len() ==> batches(keys, prefix)[b].len() == 1000,
        batches(keys, prefix)[b].len() <= 1000,
        b * 1000 + batches(keys, prefix)[b].len() <= keys.len(),
        forall|i: int|
            0 <= i < batches(keys, prefix)[b].len() ==> #[trigger] batches(keys, prefix)[b][i]
                == prefixed(prefix, keys[b * 1000 + i]),
    decreases keys.len(),
{
    let all = batches(keys, prefix);
    let n = if keys.len() < 1000 {
        keys.len() as int
    } else {
        1000
    };
    let rest = keys.skip(n);
    assert(all =~= seq![Seq::new(n as nat, |i: int| prefixed(prefix, keys[i]))] + batches(
        rest,
        prefix,
    ));
    if b > 0 {
        assert(all[b] == batches(rest, prefix)[b - 1]);
        assert(n == 1000);
        law_deletions_are_as_few_as_possible(rest, prefix, b - 1);
        assert forall|i: int| 0 <= i < all[b].len() implies #[trigger] all[b][i] == prefixed(
            prefix,
            keys[b * 1000 + i],
        ) by {
            assert(all[b][i] == batches(rest, prefix)[b - 1][i]);
            assert(rest[(b - 1) * 1000 + i] == keys[b * 1000 + i]);
        }
    } else {
        let first = Seq::new(n as nat, |i: int| prefixed(prefix, keys[i]));
        assert(all[b] == first);
        assert forall|i: int| 0 <= i < all[b].len() implies #[trigger] all[b][i] == prefixed(
            prefix,
            keys[b * 1000 + i],
        ) by {
            assert(first[i] == prefixed(prefix, keys[i]));
        }
        if all.len() > 1 {
            assert(rest.len() > 0);
        }
    }
}

/// A copy may have as many parts as are configured: at least one, and never more than ten
/// thousand.
pub proof fn law_copies_have_the_configured_parts(max_parts: u32)
    ensures
        1 <= max_parts <= 10_000 ==> part_limit(max_parts) == max_parts,
        max_parts == 0 ==> part_limit(max_parts) == 1,
        max_parts > 10_000 ==> part_limit(max_parts) == 10_000,
{
}

/// An error that the service names as permanent ends a request at once, and any other error
/// ends it only once it was tried again as often as configured; the delays in between start
/// at the configured one and double.
pub proof fn law_permanent_errors_end_a_request(retry: RetryConfig, attempt: u32, code: Seq<char>)
    requires
        retry.max_retries < u32::MAX,
    ensures
        ({
            let step = retry_after(retry, attempt, Some(code));
            let permanent = code == "NoSuchKey"@ || code == "NoSuchBucket"@ || code ==
                "NoSuchUpload"@ || code == "AccessDenied"@ || code == "AllAccessDisabled"@ || code
                == "InvalidAccessKeyId"@ || code == "SignatureDoesNotMatch"@ || code ==
                "InvalidBucketName"@ || code == "InvalidArgument"@ || code ==
                "InvalidStorageClass"@ || code == "EntityTooLarge"@ || code == "KeyTooLongError"@
                || code == "MethodNotAllowed"@ || code == "NotImplemented"@;
            &&& permanent && attempt < retry.max_retries ==> step == (RetryStep::GiveUp {
                attempts: (attempt + 1) as u32,
            })
            &&& attempt >= retry.max_retries ==> step == (RetryStep::GiveUp {
                attempts: (retry.max_retries + 1) as u32,
            })
            &&& !permanent && attempt < retry.max_retries ==> step is Wait
            &&& !permanent && attempt < retry.max_retries && attempt == 0 && retry.base_delay_secs
                <= 1_000_000_000 ==> step->delay_ms == retry.base_delay_secs * 1000
        }),
        attempt < retry.max_retries ==> retry_after(retry, attempt, None) is Wait,
{
    if attempt == 0 && retry.base_delay_secs <= 1_000_000_000 {
        let base = retry.base_delay_secs as nat * 1000;
        assert(pow2(0) == 1);
        assert(saturated(pow2(0)) == 1);
        assert(saturated(base) == base);
        assert(base * 1 == base);
        assert(backoff_ms(retry.base_delay_secs, 0) == base);
    }
}

/// A copy waits four times as long before each new attempt, from a tenth of a second on, and
/// is tried four times. Then it is streamed, where that is allowed; a copy whose source does
/// not exist is neither tried again nor streamed.
pub proof fn law_copies_are_tried_again(
    attempt: u32,
    message: Seq<char>,
    allow_streaming: bool,
)
    ensures
        ({
            let step = copy_retry(attempt, message, allow_streaming);
            let missing = has_text(message, "NoSuchKey"@) || has_text(message, "NoSuchBucket"@);
            &&& step is SourceMissing <==> missing
            &&& step is Wait <==> !missing && attempt < 3
            &&& step is Stream <==> !missing && attempt >= 3 && allow_streaming
            &&& step is GiveUp <==> !missing && attempt >= 3 && !allow_streaming
            &&& step is Wait && attempt == 0 ==> step->delay_ms == 100
            &&& step is Wait && attempt < 2 ==> copy_retry(
                (attempt + 1) as u32,
                message,
                allow_streaming,
            )->delay_ms == 4 * step->delay_ms
        }),
{
}

} // verus!
