//! The rules of the S3 client: keys, deadlines, retries, part sizes, options of new
//! objects and the settings of the connection.

use vstd::prelude::*;
use vstd::string::StringExecFns;
use vstd::utf8::is_ascii_chars;

use crate::path_encoding::{encoded, percent_encode_s3_key};
use crate::storage::laws::law_client_talks_to_the_configured_endpoint;
use crate::text::{
    contains_text, decimal, decimal_text, has_text, opt_text, position, replace_first,
    replace_first_text, same, split_once_text, strip_prefix, text_at, trim_end, trim_end_text,
    trim_start, trim_start_text,
};
use crate::time::{Duration, Timestamp, NANOS_PER_SEC};

verus! {

/// Smallest part of a multipart upload but for the last one: 5 MiB.
pub const S3_MIN_PART_SIZE: u64 = 5_242_880;

/// Largest object that one server-side copy can handle, and largest part: 5 GiB.
pub const COPY_OBJECT_MAX_SIZE: u64 = 5_368_709_120;

/// Largest object that a streaming copy holds in memory whole: 32 MiB.
pub const STREAMING_COPY_THRESHOLD: u64 = 33_554_432;

/// How long cleaning up after a failure may take, in seconds. It does not follow the
/// configured timeout, which may be switched off.
pub const CLEANUP_TIMEOUT_SECS: u64 = 30;

// ---------------------------------------------------------------------------
// Deadlines
// ---------------------------------------------------------------------------

/// Which deadline an S3 request gets.
#[derive(Debug, Clone, Copy, PartialEq, Eq, Structural)]
pub enum S3OpClass {
    /// Requests without a body whose time does not depend on any size.
    Metadata,
    /// Requests without a body that make the service move bytes.
    Copy,
}

/// The configured deadlines.
#[derive(Debug, Clone, Copy, PartialEq, Eq, Structural)]
pub struct S3Timeouts {
    /// Deadline of one request in seconds; 0 switches every deadline off.
    pub request_timeout_secs: u64,
    /// Slowest expected server-side copy in bytes per second; 0 gives no allowance for size.
    pub copy_min_bytes_per_second: u64,
}

/// Seconds that a copy of `bytes` may take beyond the base deadline. A copy of unknown
/// size gets the allowance of the largest object that one copy can handle.
pub open spec fn copy_allowance_secs(bytes: Option<u64>, t: S3Timeouts) -> nat {
    if t.copy_min_bytes_per_second == 0 {
        0
    } else {
        let b = match bytes {
            Some(b) => b,
            None => COPY_OBJECT_MAX_SIZE,
        };
        b as nat / t.copy_min_bytes_per_second as nat
    }
}

/// The deadline of a request in nanoseconds, or nothing where deadlines are off.
pub open spec fn deadline_nanos(
    class: S3OpClass,
    bytes: Option<u64>,
    t: S3Timeouts,
) -> Option<nat> {
    if t.request_timeout_secs == 0 {
        None
    } else {
        let secs = match class {
            S3OpClass::Metadata => t.request_timeout_secs as nat,
            S3OpClass::Copy => t.request_timeout_secs as nat + copy_allowance_secs(bytes, t),
        };
        let nanos = secs * NANOS_PER_SEC as nat;
        Some(
            if nanos <= Duration::max_nanos() {
                nanos
            } else {
                Duration::max_nanos()
            },
        )
    }
}

/// The nanoseconds of an optional span.
pub open spec fn opt_nanos(d: Option<Duration>) -> Option<nat> {
    match d {
        Some(d) => Some(d.total_nanos()),
        None => None,
    }
}

/// The deadline of one S3 request, or nothing where deadlines are off.
pub fn s3_deadline(class: S3OpClass, bytes: Option<u64>, t: &S3Timeouts) -> (r: Option<Duration>)
    ensures
        opt_nanos(r) == deadline_nanos(class, bytes, *t),
        r is None <==> t.request_timeout_secs == 0,
        r matches Some(d) ==> class == S3OpClass::Metadata ==> d.total_nanos()
            == t.request_timeout_secs * 1_000_000_000,
        r matches Some(d) ==> d.total_nanos() >= t.request_timeout_secs * 1_000_000_000,
{
    if t.request_timeout_secs == 0 {
        return None;
    }
    let base = Duration::from_secs(t.request_timeout_secs);
    assert(t.request_timeout_secs * NANOS_PER_SEC <= Duration::max_nanos());
    match class {
        S3OpClass::Metadata => Some(base),
        S3OpClass::Copy => {
            if t.copy_min_bytes_per_second == 0 {
                return Some(base);
            }
            let size: u64 = match bytes {
                Some(b) => b,
                None => COPY_OBJECT_MAX_SIZE,
            };
            let allowance = Duration::from_secs(size / t.copy_min_bytes_per_second);
            Some(base.saturating_add(allowance))
        },
    }
}

/// What is left of the budget of a whole object, both points in time counted from the
/// same start. Nothing where there is no budget; an error where it is used up.
pub fn remaining_budget(object_deadline: Option<Duration>, now: Duration) -> (r: Option<
    Result<Duration, String>,
>)
    ensures
        object_deadline is None ==> r is None,
        object_deadline matches Some(d) ==> if d.total_nanos() > now.total_nanos() {
            r matches Some(Ok(left)) && left.total_nanos() == d.total_nanos() - now.total_nanos()
        } else {
            r matches Some(Err(e)) && e@ == budget_error()
        },
{
    match object_deadline {
        None => None,
        Some(d) => {
            let left = d.saturating_sub(now);
            if left.is_zero() {
                Some(
                    Err(
                        "S3 request timed out: multipart copy exceeded its whole-object budget".to_string(),
                    ),
                )
            } else {
                Some(Ok(left))
            }
        },
    }
}

/// The error where the budget of a whole object is used up.
pub open spec fn budget_error() -> Seq<char> {
    "S3 request timed out: multipart copy exceeded its whole-object budget"@
}

/// The shorter of the deadline of a request and what is left of the budget.
pub open spec fn clamped(deadline: Option<nat>, left: Option<nat>) -> Option<nat> {
    match (deadline, left) {
        (Some(d), Some(l)) => Some(
            if d <= l {
                d
            } else {
                l
            },
        ),
        (d, _) => d,
    }
}

/// The deadline of the copy of one part: that of its size, but never more than what is
/// left of the budget of the whole object.
pub fn part_deadline(range_len: u64, t: &S3Timeouts, left: Option<Duration>) -> (r: Option<
    Duration,
>)
    ensures
        opt_nanos(r) == clamped(
            deadline_nanos(S3OpClass::Copy, Some(range_len), *t),
            opt_nanos(left),
        ),
        r is None <==> t.request_timeout_secs == 0,
        r matches Some(d) ==> (left matches Some(l) ==> d.total_nanos() <= l.total_nanos()),
{
    match (s3_deadline(S3OpClass::Copy, Some(range_len), t), left) {
        (Some(d), Some(l)) => Some(d.shorter(l)),
        (Some(d), None) => Some(d),
        (None, _) => None,
    }
}

/// A larger copy never gets a shorter deadline, and no copy gets less than a metadata
/// request.
pub proof fn law_deadline_grows_with_size(a: u64, b: u64, t: S3Timeouts)
    requires
        a <= b,
    ensures
        ({
            let m = deadline_nanos(S3OpClass::Metadata, None, t);
            let x = deadline_nanos(S3OpClass::Copy, Some(a), t);
            let y = deadline_nanos(S3OpClass::Copy, Some(b), t);
            &&& m is Some <==> x is Some
            &&& x is Some <==> y is Some
            &&& x is Some ==> m->0 <= x->0 <= y->0
        }),
{
    if t.request_timeout_secs != 0 && t.copy_min_bytes_per_second != 0 {
        let r = t.copy_min_bytes_per_second as int;
        assert(a as int / r <= b as int / r) by (nonlinear_arith)
            requires
                a <= b,
                r > 0,
        ;
    }
}

// ---------------------------------------------------------------------------
// Errors, by their text
// ---------------------------------------------------------------------------

/// The error is an expired deadline of this client, and not a timeout that the service or
/// the network reports.
pub fn is_timeout_error(message: &str) -> (r: bool)
    ensures
        r == has_text(message@, "S3 request timed out"@),
{
    contains_text(message, "S3 request timed out")
}

/// The error says that the key or the bucket does not exist, so that to try again is
/// futile.
pub open spec fn missing_source(message: Seq<char>) -> bool {
    has_text(message, "NoSuchKey"@) || has_text(message, "NoSuchBucket"@)
}

/// The error says that the key or the bucket does not exist.
pub fn is_missing_source_error(message: &str) -> (r: bool)
    ensures
        r == missing_source(message@),
        r == (has_text(message@, "NoSuchKey"@) || has_text(message@, "NoSuchBucket"@)),
{
    contains_text(message, "NoSuchKey") || contains_text(message, "NoSuchBucket")
}

/// The codes by which the service names errors that the same request would meet again: it is
/// not allowed, not signed rightly, malformed, too large, or about what does not exist.
pub open spec fn permanent_code(code: Seq<char>) -> bool {
    ||| code == "NoSuchKey"@
    ||| code == "NoSuchBucket"@
    ||| code == "NoSuchUpload"@
    ||| code == "AccessDenied"@
    ||| code == "AllAccessDisabled"@
    ||| code == "InvalidAccessKeyId"@
    ||| code == "SignatureDoesNotMatch"@
    ||| code == "InvalidBucketName"@
    ||| code == "InvalidArgument"@
    ||| code == "InvalidStorageClass"@
    ||| code == "EntityTooLarge"@
    ||| code == "KeyTooLongError"@
    ||| code == "MethodNotAllowed"@
    ||| code == "NotImplemented"@
}

/// The code names an error that is permanent: to send the request again is futile.
pub fn is_permanent_code(code: &str) -> (r: bool)
    ensures
        r == permanent_code(code@),
        r == (code@ == "NoSuchKey"@ || code@ == "NoSuchBucket"@ || code@ == "NoSuchUpload"@ || code@
            == "AccessDenied"@ || code@ == "AllAccessDisabled"@ || code@ == "InvalidAccessKeyId"@
            || code@ == "SignatureDoesNotMatch"@ || code@ == "InvalidBucketName"@ || code@
            == "InvalidArgument"@ || code@ == "InvalidStorageClass"@ || code@ == "EntityTooLarge"@
            || code@ == "KeyTooLongError"@ || code@ == "MethodNotAllowed"@ || code@
            == "NotImplemented"@),
{
    same(code, "NoSuchKey") || same(code, "NoSuchBucket") || same(code, "NoSuchUpload") || same(
        code,
        "AccessDenied",
    ) || same(code, "AllAccessDisabled") || same(code, "InvalidAccessKeyId") || same(
        code,
        "SignatureDoesNotMatch",
    ) || same(code, "InvalidBucketName") || same(code, "InvalidArgument") || same(
        code,
        "InvalidStorageClass",
    ) || same(code, "EntityTooLarge") || same(code, "KeyTooLongError") || same(
        code,
        "MethodNotAllowed",
    ) || same(code, "NotImplemented")
}

/// The error of a request is permanent, by the code that the service gave. An error without
/// a code, such as one of the network, may be transient.
pub open spec fn permanent_failure(code: Option<Seq<char>>) -> bool {
    code matches Some(c) && permanent_code(c)
}

/// A budget that is used up is reported as an expired deadline.
pub proof fn law_used_up_budget_is_a_timeout()
    ensures
        has_text(budget_error(), "S3 request timed out"@),
{
    reveal_strlit("S3 request timed out: multipart copy exceeded its whole-object budget");
    reveal_strlit("S3 request timed out");
    assert(budget_error().subrange(0, 20) =~= "S3 request timed out"@);
    assert(text_at(budget_error(), "S3 request timed out"@, 0));
}

/// What a request was about, for messages.
#[derive(Debug, Clone)]
pub struct S3OpCtx {
    pub bucket: String,
    pub key: String,
    pub part_number: Option<i32>,
    pub range: Option<String>,
    pub size: Option<u64>,
}

impl S3OpCtx {
    /// A request on a key.
    pub fn new(bucket: &str, key: &str) -> (r: S3OpCtx)
        ensures
            r.bucket@ == bucket@,
            r.key@ == key@,
            r.part_number is None,
            r.range is None,
            r.size is None,
    {
        S3OpCtx {
            bucket: bucket.to_string(),
            key: key.to_string(),
            part_number: None,
            range: None,
            size: None,
        }
    }

    /// The same request on one part.
    pub fn with_part(self, part_number: i32, range: &str) -> (r: S3OpCtx)
        ensures
            r.bucket == self.bucket,
            r.key == self.key,
            r.part_number == Some(part_number),
            opt_text(r.range) == Some(range@),
            r.size == self.size,
    {
        S3OpCtx { part_number: Some(part_number), range: Some(range.to_string()), ..self }
    }

    /// The same request with a size.
    pub fn with_size(self, size: u64) -> (r: S3OpCtx)
        ensures
            r.bucket == self.bucket,
            r.key == self.key,
            r.part_number == self.part_number,
            r.range == self.range,
            r.size == Some(size),
    {
        S3OpCtx { size: Some(size), ..self }
    }
}

// ---------------------------------------------------------------------------
// Keys
// ---------------------------------------------------------------------------

/// Bucket and prefix of a URI: what follows `s3://` up to the first `/`, and what follows
/// that, without slashes at the end. A text that is no such URI is, as it is, a prefix with
/// no bucket.
pub open spec fn uri_parts(uri: Seq<char>) -> (Seq<char>, Seq<char>) {
    if "s3://"@.is_prefix_of(uri) || "S3://"@.is_prefix_of(uri) {
        let rest = trim_end(uri.skip(5), '/');
        let at = position(rest, '/');
        if at < rest.len() {
            (rest.take(at as int), rest.skip(at as int + 1))
        } else {
            (rest, Seq::empty())
        }
    } else {
        (Seq::empty(), uri)
    }
}

/// Splits a URI like `s3://bucket/prefix/` into bucket and prefix.
pub fn parse_s3_uri(uri: &str) -> (r: (String, String))
    ensures
        (r.0@, r.1@) == uri_parts(uri@),
{
    proof {
        reveal_strlit("s3://");
        reveal_strlit("S3://");
    }
    let stripped = match strip_prefix(uri, "s3://") {
        Some(rest) => Some(rest),
        None => strip_prefix(uri, "S3://"),
    };
    match stripped {
        Some(rest) => {
            let rest = trim_end_text(rest.as_str(), '/');
            match split_once_text(rest.as_str(), '/') {
                Some(pair) => pair,
                None => (rest, String::new()),
            }
        },
        None => (String::new(), uri.to_string()),
    }
}

/// `prefix/key`, with one slash between the two; the key alone where there is no prefix.
pub open spec fn prefixed(prefix: Seq<char>, key: Seq<char>) -> Seq<char> {
    if prefix.len() == 0 {
        key
    } else {
        trim_end(prefix, '/') + "/"@ + trim_start(key, '/')
    }
}

/// Text that was trimmed at its end does not end in what was trimmed.
proof fn lemma_trim_end(s: Seq<char>, c: char)
    ensures
        trim_end(s, c).len() > 0 ==> trim_end(s, c).last() != c,
    decreases s.len(),
{
    if s.len() > 0 && s.last() == c {
        lemma_trim_end(s.drop_last(), c);
    }
}

/// Text that was trimmed at its start does not start with what was trimmed.
proof fn lemma_trim_start(s: Seq<char>, c: char)
    ensures
        trim_start(s, c).len() > 0 ==> trim_start(s, c)[0] != c,
    decreases s.len(),
{
    if s.len() > 0 && s[0] == c {
        lemma_trim_start(s.skip(1), c);
    }
}

/// Exactly one slash stands between a prefix and a key below it.
pub proof fn law_one_slash_joins_prefix_and_key(prefix: Seq<char>, key: Seq<char>)
    requires
        prefix.len() > 0,
    ensures
        ({
            let full = prefixed(prefix, key);
            let at = trim_end(prefix, '/').len() as int;
            &&& 0 <= at < full.len()
            &&& full[at] == '/'
            &&& at > 0 ==> full[at - 1] != '/'
            &&& at + 1 < full.len() ==> full[at + 1] != '/'
        }),
{
    reveal_strlit("/");
    lemma_trim_end(prefix, '/');
    lemma_trim_start(key, '/');
}

/// The source of a server-side copy: `bucket/key`, the key percent-encoded.
pub fn copy_source(source_bucket: &str, source_key: &str) -> (r: String)
    ensures
        r@ == source_bucket@ + "/"@ + encoded(vstd::utf8::encode_utf8(source_key@), true),
{
    let key = percent_encode_s3_key(source_key);
    source_bucket.to_string().concat("/").concat(key.as_str())
}

// ---------------------------------------------------------------------------
// Part sizes
// ---------------------------------------------------------------------------

/// `a` divided by `b`, rounded up.
pub open spec fn ceil_div(a: nat, b: nat) -> nat
    recommends
        b > 0,
{
    if a % b == 0 {
        a / b
    } else {
        a / b + 1
    }
}

/// The size before it is brought into the bounds of S3: the configured one, or the data
/// spread evenly over the allowed number of parts.
pub open spec fn wanted_chunk_size(
    data_len: u64,
    config_chunk_size: u64,
    max_parts_count: u32,
) -> nat {
    if config_chunk_size > 0 {
        config_chunk_size as nat
    } else {
        ceil_div(
            data_len as nat,
            if max_parts_count == 0 {
                1
            } else {
                max_parts_count as nat
            },
        )
    }
}

/// The size of the parts of a multipart upload.
pub open spec fn chunk_size_for(
    data_len: u64,
    config_chunk_size: u64,
    max_parts_count: u32,
) -> nat {
    let wanted = wanted_chunk_size(data_len, config_chunk_size, max_parts_count);
    if wanted < S3_MIN_PART_SIZE {
        S3_MIN_PART_SIZE as nat
    } else if wanted > COPY_OBJECT_MAX_SIZE {
        COPY_OBJECT_MAX_SIZE as nat
    } else {
        wanted
    }
}

/// The number of parts of the given size that hold the data.
pub fn part_count_of(data_len: u64, chunk_size: u64) -> (r: u64)
    requires
        chunk_size > 0,
    ensures
        r == ceil_div(data_len as nat, chunk_size as nat),
{
    let whole: u64 = data_len / chunk_size;
    if data_len % chunk_size == 0 {
        whole
    } else {
        proof {
            let d = data_len as int;
            let c = chunk_size as int;
            assert(d / c < u64::MAX) by (nonlinear_arith)
                requires
                    0 <= d <= u64::MAX,
                    c >= 1,
                    d % c != 0,
            ;
        }
        whole + 1
    }
}

/// The size of the parts of a multipart upload: the configured one, or the data spread
/// over the allowed number of parts, brought into the bounds of S3.
pub fn calculate_chunk_size(data_len: u64, config_chunk_size: u64, max_parts_count: u32) -> (r: u64)
    ensures
        r == chunk_size_for(data_len, config_chunk_size, max_parts_count),
        5_242_880 <= r <= 5_368_709_120,
        5_242_880 <= config_chunk_size <= 5_368_709_120 ==> r == config_chunk_size,
{
    let chunk: u64 = if config_chunk_size > 0 {
        config_chunk_size
    } else {
        let parts: u64 = if max_parts_count == 0 {
            1
        } else {
            max_parts_count as u64
        };
        part_count_of(data_len, parts)
    };
    if chunk < S3_MIN_PART_SIZE {
        S3_MIN_PART_SIZE
    } else if chunk > COPY_OBJECT_MAX_SIZE {
        COPY_OBJECT_MAX_SIZE
    } else {
        chunk
    }
}

/// Parts of any upload lie within the bounds of S3.
pub proof fn law_chunk_size_is_legal(
    data_len: u64,
    config_chunk_size: u64,
    max_parts_count: u32,
)
    ensures
        S3_MIN_PART_SIZE <= chunk_size_for(data_len, config_chunk_size, max_parts_count)
            <= COPY_OBJECT_MAX_SIZE,
{
}

/// Parts that together can hold the data are no more than it takes.
proof fn lemma_parts_fit(d: int, c: int, p: int)
    requires
        d >= 0,
        c > 0,
        p > 0,
        d <= c * p,
    ensures
        ceil_div(d as nat, c as nat) <= p,
{
    assert(d / c <= p && (d % c != 0 ==> d / c < p)) by (nonlinear_arith)
        requires
            d <= c * p,
            c > 0,
            d >= 0,
    ;
}

/// Parts that are no smaller than the data spread over them, or as large as parts can be,
/// hold the data.
proof fn lemma_spread_fits(d: int, c: int, p: int)
    requires
        d >= 0,
        c > 0,
        p > 0,
        ceil_div(d as nat, p as nat) <= c || (c == COPY_OBJECT_MAX_SIZE && d <= p
            * COPY_OBJECT_MAX_SIZE),
    ensures
        ceil_div(d as nat, c as nat) <= p,
{
    let w = ceil_div(d as nat, p as nat) as int;
    assert(d <= w * p) by (nonlinear_arith)
        requires
            p > 0,
            d >= 0,
            w == if d % p == 0 {
                d / p
            } else {
                d / p + 1
            },
    ;
    assert(d <= c * p) by {
        if w <= c {
            assert(w * p <= c * p) by (nonlinear_arith)
                requires
                    w <= c,
                    p > 0,
            ;
        }
    }
    lemma_parts_fit(d, c, p);
}

/// Where no size is configured, the data takes no more than the allowed number of parts,
/// as long as parts of the largest size could hold it.
pub proof fn law_automatic_chunks_fit(data_len: u64, max_parts_count: u32)
    requires
        max_parts_count > 0,
        data_len <= max_parts_count * COPY_OBJECT_MAX_SIZE,
    ensures
        ceil_div(data_len as nat, chunk_size_for(data_len, 0, max_parts_count))
            <= max_parts_count,
{
    let c = chunk_size_for(data_len, 0, max_parts_count) as int;
    lemma_spread_fits(data_len as int, c, max_parts_count as int);
}

/// Most parts that a multipart upload can have.
pub const MAX_PARTS: u32 = 10_000;

/// How many parts a copy may have: as many as are configured, at least one, and never more
/// than a multipart upload can have.
pub open spec fn part_limit(max_parts_count: u32) -> u32 {
    if max_parts_count == 0 {
        1
    } else if max_parts_count > MAX_PARTS {
        MAX_PARTS
    } else {
        max_parts_count
    }
}

/// The size of the parts of a server-side copy: the configured one, or the object spread
/// over the parts that a copy may have where that is more, in the bounds of S3.
pub open spec fn copy_chunk_size_for(
    source_size: u64,
    config_chunk_size: u64,
    max_parts_count: u32,
) -> nat {
    let spread = ceil_div(source_size as nat, part_limit(max_parts_count) as nat);
    let wanted = if config_chunk_size as nat >= spread {
        config_chunk_size as nat
    } else {
        spread
    };
    if wanted < S3_MIN_PART_SIZE {
        S3_MIN_PART_SIZE as nat
    } else if wanted > COPY_OBJECT_MAX_SIZE {
        COPY_OBJECT_MAX_SIZE as nat
    } else {
        wanted
    }
}

/// The size of the parts of a server-side copy, which keeps their number within the limit.
pub fn copy_chunk_size(source_size: u64, config_chunk_size: u64, max_parts_count: u32) -> (r: u64)
    ensures
        r == copy_chunk_size_for(source_size, config_chunk_size, max_parts_count),
        5_242_880 <= r <= 5_368_709_120,
        config_chunk_size <= 5_368_709_120 ==> r >= config_chunk_size,
{
    let limit: u64 = if max_parts_count == 0 {
        1
    } else if max_parts_count > MAX_PARTS {
        MAX_PARTS as u64
    } else {
        max_parts_count as u64
    };
    let spread: u64 = part_count_of(source_size, limit);
    let wanted: u64 = if config_chunk_size >= spread {
        config_chunk_size
    } else {
        spread
    };
    if wanted < S3_MIN_PART_SIZE {
        S3_MIN_PART_SIZE
    } else if wanted > COPY_OBJECT_MAX_SIZE {
        COPY_OBJECT_MAX_SIZE
    } else {
        wanted
    }
}

/// A copy never has more parts than it may have, whatever size is configured, as long as
/// parts of the largest size could hold the object.
pub proof fn law_copies_stay_within_the_part_limit(
    source_size: u64,
    config_chunk_size: u64,
    max_parts_count: u32,
)
    requires
        source_size <= part_limit(max_parts_count) * COPY_OBJECT_MAX_SIZE,
    ensures
        ceil_div(
            source_size as nat,
            copy_chunk_size_for(source_size, config_chunk_size, max_parts_count),
        ) <= part_limit(max_parts_count) <= MAX_PARTS,
{
    let c = copy_chunk_size_for(source_size, config_chunk_size, max_parts_count) as int;
    lemma_spread_fits(source_size as int, c, part_limit(max_parts_count) as int);
}

/// One part of an object: its number, and its first and last byte.
#[derive(Debug, Clone, Copy, PartialEq, Eq, Structural)]
pub struct PartRange {
    pub part_number: i32,
    pub start: u64,
    pub end: u64,
}

/// Part `i` of an object that is cut into parts of `chunk_size`.
pub open spec fn range_at(i: int, source_size: int, chunk_size: int) -> (int, int, int) {
    let full_end = (i + 1) * chunk_size - 1;
    (
        i + 1,
        i * chunk_size,
        if full_end <= source_size - 1 {
            full_end
        } else {
            source_size - 1
        },
    )
}

/// The part's number and bounds.
pub open spec fn range_values(r: PartRange) -> (int, int, int) {
    (r.part_number as int, r.start as int, r.end as int)
}

/// Part `idx` of an object that is cut into parts of `chunk_size`.
pub fn part_range(idx: u64, source_size: u64, chunk_size: u64) -> (r: PartRange)
    requires
        chunk_size > 0,
        source_size <= u64::MAX - chunk_size,
        idx < ceil_div(source_size as nat, chunk_size as nat),
        idx < i32::MAX,
    ensures
        range_values(r) == range_at(idx as int, source_size as int, chunk_size as int),
        r.start <= r.end < source_size,
        r.end - r.start < chunk_size,
        r.part_number == idx + 1,
        r.start == idx * chunk_size,
        r.end + 1 == r.start + chunk_size || r.end + 1 == source_size,
{
    proof {
        lemma_part_start(idx as int, source_size as int, chunk_size as int);
    }
    let start: u64 = idx * chunk_size;
    let full_end: u64 = start + (chunk_size - 1);
    let end: u64 = if full_end < source_size - 1 {
        full_end
    } else {
        source_size - 1
    };
    proof {
        assert((idx + 1) * chunk_size == idx * chunk_size + chunk_size) by (nonlinear_arith);
    }
    PartRange { part_number: (idx + 1) as i32, start, end }
}

/// A part starts inside the object.
proof fn lemma_part_start(i: int, size: int, chunk: int)
    requires
        chunk > 0,
        size >= 0,
        0 <= i < ceil_div(size as nat, chunk as nat),
    ensures
        0 <= i * chunk < size,
{
    assert(0 <= i * chunk < size) by (nonlinear_arith)
        requires
            chunk > 0,
            size >= 0,
            0 <= i,
            i < if size % chunk == 0 {
                size / chunk
            } else {
                size / chunk + 1
            },
    ;
}

/// The parts of an object cover it from its first byte to its last, without a gap and
/// without an overlap, and all but the last have the full size.
pub proof fn law_parts_tile_the_object(source_size: nat, chunk_size: nat, i: int)
    requires
        chunk_size > 0,
        0 <= i < ceil_div(source_size, chunk_size),
    ensures
        ({
            let n = ceil_div(source_size, chunk_size) as int;
            let (number, start, end) = range_at(i, source_size as int, chunk_size as int);
            &&& number == i + 1
            &&& i == 0 ==> start == 0
            &&& start <= end < source_size
            &&& i + 1 < n ==> end - start + 1 == chunk_size && range_at(
                i + 1,
                source_size as int,
                chunk_size as int,
            ).1 == end + 1
            &&& i + 1 == n ==> end == source_size - 1
        }),
{
    let n = ceil_div(source_size, chunk_size) as int;
    let c = chunk_size as int;
    let s = source_size as int;
    lemma_part_start(i, s, c);
    assert((i + 1) * c == i * c + c) by (nonlinear_arith);
    if i + 1 < n {
        lemma_part_start(i + 1, s, c);
    } else {
        assert((i + 1) * c >= s) by (nonlinear_arith)
            requires
                c > 0,
                s >= 0,
                i + 1 == n,
                n == if s % c == 0 {
                    s / c
                } else {
                    s / c + 1
                },
        ;
    }
}

/// The header that asks for the part's bytes.
pub open spec fn range_text(start: nat, end: nat) -> Seq<char> {
    "bytes="@ + decimal(start) + "-"@ + decimal(end)
}

/// The header that asks for the part's bytes: `bytes={start}-{end}`.
pub fn range_header(range: &PartRange) -> (r: String)
    ensures
        r@ == range_text(range.start as nat, range.end as nat),
        r@ == "bytes="@ + decimal(range.start as nat) + "-"@ + decimal(range.end as nat),
{
    "bytes=".to_string().concat(decimal_text(range.start).as_str()).concat("-").concat(
        decimal_text(range.end).as_str(),
    )
}

// ---------------------------------------------------------------------------
// Retries
// ---------------------------------------------------------------------------

/// How often, and how fast, a request is tried again.
#[derive(Debug, Clone, Copy, PartialEq, Eq, Structural)]
pub struct RetryConfig {
    /// How often a request is tried again; 0 for a single attempt.
    pub max_retries: u32,
    /// Delay before the first retry in seconds; it doubles each time.
    pub base_delay_secs: u64,
}

/// What follows a failed attempt.
#[derive(Debug, Clone, Copy, PartialEq, Eq, Structural)]
pub enum RetryStep {
    /// Wait, with jitter on the delay, and try again.
    Wait { delay_ms: u64 },
    /// Report the error; so many attempts were made.
    GiveUp { attempts: u32 },
}

/// 2 to the power of `n`.
pub open spec fn pow2(n: nat) -> nat
    decreases n,
{
    if n == 0 {
        1
    } else {
        2 * pow2((n - 1) as nat)
    }
}

/// `n`, or the largest 64-bit number where `n` is larger.
pub open spec fn saturated(n: nat) -> nat {
    if n <= u64::MAX {
        n
    } else {
        u64::MAX as nat
    }
}

/// The delay after failed attempt `attempt`, counted from 0: the base delay in
/// milliseconds, doubled for each attempt before, without ever exceeding 64 bits.
pub open spec fn backoff_ms(base_delay_secs: u64, attempt: nat) -> nat {
    saturated(saturated(base_delay_secs as nat * 1000) * saturated(pow2(attempt)))
}

/// 2 to the power of `n`, or the largest 64-bit number.
fn saturating_pow2(n: u32) -> (r: u64)
    ensures
        r == saturated(pow2(n as nat)),
{
    let mut r: u64 = 1;
    let mut i: u32 = 0;
    while i < n
        invariant
            i <= n,
            r == saturated(pow2(i as nat)),
            pow2(i as nat) >= 1,
        decreases n - i,
    {
        if r >= 0x8000_0000_0000_0000 {
            r = u64::MAX;
        } else {
            r = r * 2;
        }
        i += 1;
    }
    r
}

/// The product, or the largest 64-bit number.
fn saturating_times(a: u64, b: u64) -> (r: u64)
    ensures
        r == saturated((a * b) as nat),
{
    assert(a * b <= u64::MAX * u64::MAX) by (nonlinear_arith)
        requires
            0 <= a <= u64::MAX,
            0 <= b <= u64::MAX,
    ;
    let wide: u128 = a as u128 * b as u128;
    if wide <= u64::MAX as u128 {
        wide as u64
    } else {
        u64::MAX
    }
}

/// What follows failed attempt `attempt`, counted from 0, of a request for which the service
/// gave the code, if it gave one: a transient error is tried again until `max_retries + 1`
/// attempts were made, a permanent one is not.
pub open spec fn retry_after(
    retry: RetryConfig,
    attempt: u32,
    code: Option<Seq<char>>,
) -> RetryStep {
    if attempt < retry.max_retries && !permanent_failure(code) {
        RetryStep::Wait { delay_ms: backoff_ms(retry.base_delay_secs, attempt as nat) as u64 }
    } else {
        RetryStep::GiveUp {
            attempts: (if attempt < retry.max_retries {
                attempt
            } else {
                retry.max_retries
            } + 1) as u32,
        }
    }
}

/// What follows failed attempt `attempt`, counted from 0, of a request that is tried up to
/// `max_retries + 1` times. `code` is the one that the service gave for the error.
pub fn next_retry(retry: &RetryConfig, attempt: u32, code: &Option<String>) -> (r: RetryStep)
    requires
        retry.max_retries < u32::MAX,
    ensures
        r == retry_after(*retry, attempt, opt_text(*code)),
        attempt >= retry.max_retries ==> r == (RetryStep::GiveUp {
            attempts: (retry.max_retries + 1) as u32,
        }),
        code is None && attempt < retry.max_retries ==> (r matches RetryStep::Wait { delay_ms }
            && delay_ms == backoff_ms(retry.base_delay_secs, attempt as nat)),
        r matches RetryStep::Wait { delay_ms } ==> delay_ms == backoff_ms(
            retry.base_delay_secs,
            attempt as nat,
        ),
        attempt < retry.max_retries && (r is GiveUp) ==> r == (RetryStep::GiveUp {
            attempts: (attempt + 1) as u32,
        }),
{
    if attempt >= retry.max_retries {
        return RetryStep::GiveUp { attempts: retry.max_retries + 1 };
    }
    let permanent = match code {
        Some(c) => is_permanent_code(c.as_str()),
        None => false,
    };
    if permanent {
        RetryStep::GiveUp { attempts: attempt + 1 }
    } else {
        let base: u64 = saturating_times(retry.base_delay_secs, 1000);
        let factor: u64 = saturating_pow2(attempt);
        RetryStep::Wait { delay_ms: saturating_times(base, factor) }
    }
}

/// A permanent error is never tried again, a transient one as often as configured.
pub proof fn law_only_transient_errors_are_retried(
    retry: RetryConfig,
    attempt: u32,
    code: Option<Seq<char>>,
)
    ensures
        retry_after(retry, attempt, code) is Wait <==> attempt < retry.max_retries
            && !permanent_failure(code),
{
}

/// What follows a failed server-side copy.
#[derive(Debug, Clone, Copy, PartialEq, Eq, Structural)]
pub enum CopyRetryStep {
    /// The source does not exist: report the error, neither retry nor stream.
    SourceMissing,
    /// Wait, with jitter on the delay, and copy again.
    Wait { delay_ms: u64 },
    /// Download the object and upload it.
    Stream,
    /// Report the error after the last attempt.
    GiveUp,
}

/// How often a server-side copy is tried: once, and again up to three times.
pub const COPY_ATTEMPTS: u32 = 4;

/// What follows failed attempt `attempt`, counted from 0, of a server-side copy that
/// ended in the error `message`.
pub open spec fn copy_retry(
    attempt: u32,
    message: Seq<char>,
    allow_streaming: bool,
) -> CopyRetryStep {
    if missing_source(message) {
        CopyRetryStep::SourceMissing
    } else if attempt == 0 {
        CopyRetryStep::Wait { delay_ms: 100 }
    } else if attempt == 1 {
        CopyRetryStep::Wait { delay_ms: 400 }
    } else if attempt == 2 {
        CopyRetryStep::Wait { delay_ms: 1600 }
    } else if allow_streaming {
        CopyRetryStep::Stream
    } else {
        CopyRetryStep::GiveUp
    }
}

/// What follows failed attempt `attempt`, counted from 0, of a server-side copy.
pub fn next_copy_retry(attempt: u32, message: &str, allow_streaming: bool) -> (r: CopyRetryStep)
    ensures
        r == copy_retry(attempt, message@, allow_streaming),
        r is SourceMissing <==> has_text(message@, "NoSuchKey"@) || has_text(
            message@,
            "NoSuchBucket"@,
        ),
        !(r is SourceMissing) && attempt == 0 ==> r == (CopyRetryStep::Wait { delay_ms: 100 }),
        !(r is SourceMissing) && attempt == 1 ==> r == (CopyRetryStep::Wait { delay_ms: 400 }),
        !(r is SourceMissing) && attempt == 2 ==> r == (CopyRetryStep::Wait { delay_ms: 1600 }),
        !(r is SourceMissing) && attempt >= 3 && allow_streaming ==> r == CopyRetryStep::Stream,
        !(r is SourceMissing) && attempt >= 3 && !allow_streaming ==> r == CopyRetryStep::GiveUp,
{
    if is_missing_source_error(message) {
        CopyRetryStep::SourceMissing
    } else if attempt == 0 {
        CopyRetryStep::Wait { delay_ms: 100 }
    } else if attempt == 1 {
        CopyRetryStep::Wait { delay_ms: 400 }
    } else if attempt == 2 {
        CopyRetryStep::Wait { delay_ms: 1600 }
    } else if allow_streaming {
        CopyRetryStep::Stream
    } else {
        CopyRetryStep::GiveUp
    }
}

/// The error of a server-side copy that is given up, with what was being done.
pub open spec fn copy_failure(
    step: CopyRetryStep,
    source_bucket: Seq<char>,
    source_key: Seq<char>,
    cause: Seq<char>,
) -> Seq<char> {
    match step {
        CopyRetryStep::SourceMissing => "CopyObject source object does not exist: "@
            + source_bucket + "/"@ + source_key
            + " (not retried -- a missing object is permanent): "@ + cause,
        CopyRetryStep::GiveUp => "CopyObject failed after "@ + decimal(COPY_ATTEMPTS as nat)
            + " attempts (streaming fallback disabled): "@ + source_bucket + "/"@ + source_key
            + ": "@ + cause,
        _ => cause,
    }
}

/// The error of a server-side copy that is given up.
pub fn copy_error(
    step: CopyRetryStep,
    source_bucket: &str,
    source_key: &str,
    cause: &str,
) -> (r: String)
    ensures
        r@ == copy_failure(step, source_bucket@, source_key@, cause@),
        step is SourceMissing ==> r@ == "CopyObject source object does not exist: "@
            + source_bucket@ + "/"@ + source_key@
            + " (not retried -- a missing object is permanent): "@ + cause@,
        step is GiveUp ==> r@ == "CopyObject failed after "@ + decimal(4)
            + " attempts (streaming fallback disabled): "@ + source_bucket@ + "/"@ + source_key@
            + ": "@ + cause@,
        step is Wait || step is Stream ==> r@ == cause@,
{
    match step {
        CopyRetryStep::SourceMissing => "CopyObject source object does not exist: ".to_string().concat(
            source_bucket).concat("/").concat(source_key).concat(
            " (not retried -- a missing object is permanent): ",
        ).concat(cause),
        CopyRetryStep::GiveUp => "CopyObject failed after ".to_string().concat(
            decimal_text(COPY_ATTEMPTS as u64).as_str(),
        ).concat(" attempts (streaming fallback disabled): ").concat(source_bucket).concat(
            "/",
        ).concat(source_key).concat(": ").concat(cause),
        _ => cause.to_string(),
    }
}

/// The error of a request that is given up after all of its attempts.
pub fn retry_error(op_name: &str, attempts: u32, context: &str, cause: &str) -> (r: String)
    ensures
        r@ == op_name@ + " failed after "@ + decimal(attempts as nat) + " attempts: "@ + context@
            + ": "@ + cause@,
{
    op_name.to_string().concat(" failed after ").concat(decimal_text(attempts as u64).as_str()).concat(
        " attempts: ",
    ).concat(context).concat(": ").concat(cause)
}

/// A copy whose source is missing is not tried again and not streamed, and no copy is
/// tried more than the given number of times.
pub proof fn law_copy_attempts_are_bounded(
    attempt: u32,
    message: Seq<char>,
    allow_streaming: bool,
)
    ensures
        missing_source(message) ==> copy_retry(attempt, message, allow_streaming)
            == CopyRetryStep::SourceMissing,
        copy_retry(attempt, message, allow_streaming) is Wait <==> attempt + 1 < COPY_ATTEMPTS
            && !missing_source(message),
        !allow_streaming ==> copy_retry(attempt, message, allow_streaming) != CopyRetryStep::Stream,
{
}

// ---------------------------------------------------------------------------
// Copies
// ---------------------------------------------------------------------------

/// What the service said of an object: its size, as far as it gave one.
pub open spec fn reported_size(content_length: Option<i64>) -> u64 {
    match content_length {
        Some(n) => if n > 0 {
            n as u64
        } else {
            0
        },
        None => 0,
    }
}

/// The size that the service gave, where a missing or negative one counts as 0.
pub fn size_of_reply(content_length: Option<i64>) -> (r: u64)
    ensures
        r == reported_size(content_length),
        content_length matches Some(n) ==> n >= 0 ==> r == n,
        content_length matches Some(n) ==> n < 0 ==> r == 0,
        content_length is None ==> r == 0,
{
    match content_length {
        Some(n) => if n > 0 {
            n as u64
        } else {
            0
        },
        None => 0,
    }
}

/// How the question for the size of the source ended.
#[derive(Debug, Clone, Copy, PartialEq, Eq, Structural)]
pub enum HeadOutcome {
    /// The deadline expired.
    TimedOut,
    /// The service answered, with the length that it gave.
    Found { content_length: Option<i64> },
    /// The service refused.
    Refused,
}

/// How an object is copied.
#[derive(Debug, Clone, Copy, PartialEq, Eq, Structural)]
pub enum CopyRoute {
    /// Not at all: report the expired deadline, which says nothing about the size.
    ReportTimeout,
    /// With one request; the size is what its deadline allows for.
    Single { known_size: Option<u64> },
    /// In parts.
    Multipart { size: u64 },
}

/// How an object is copied, given how the question for its size ended: in parts beyond
/// the largest size that one copy can handle, else with one request.
pub fn copy_route(head: HeadOutcome) -> (r: CopyRoute)
    ensures
        r == match head {
            HeadOutcome::TimedOut => CopyRoute::ReportTimeout,
            HeadOutcome::Refused => CopyRoute::Single { known_size: None },
            HeadOutcome::Found { content_length } => if reported_size(content_length)
                > COPY_OBJECT_MAX_SIZE {
                CopyRoute::Multipart { size: reported_size(content_length) }
            } else {
                CopyRoute::Single { known_size: Some(reported_size(content_length)) }
            },
        },
        head matches HeadOutcome::Found { content_length: Some(n) } ==> n > 5_368_709_120 ==> r == (
        CopyRoute::Multipart { size: n as u64 }),
        head matches HeadOutcome::Found { content_length: Some(n) } ==> 0 <= n <= 5_368_709_120
            ==> r == (CopyRoute::Single { known_size: Some(n as u64) }),
{
    match head {
        HeadOutcome::TimedOut => CopyRoute::ReportTimeout,
        HeadOutcome::Refused => CopyRoute::Single { known_size: None },
        HeadOutcome::Found { content_length } => {
            let size: u64 = size_of_reply(content_length);
            if size > COPY_OBJECT_MAX_SIZE {
                CopyRoute::Multipart { size }
            } else {
                CopyRoute::Single { known_size: Some(size) }
            }
        },
    }
}

/// How a streaming copy uploads what it downloads.
#[derive(Debug, Clone, Copy, PartialEq, Eq, Structural)]
pub enum StreamRoute {
    /// The whole body with one request.
    Buffered,
    /// In parts of the given size.
    Multipart { chunk_size: u64 },
}

/// How a streaming copy uploads a body of the given length.
pub fn stream_route(content_length: Option<i64>) -> (r: StreamRoute)
    ensures
        reported_size(content_length) <= STREAMING_COPY_THRESHOLD ==> r == StreamRoute::Buffered,
        reported_size(content_length) > STREAMING_COPY_THRESHOLD ==> (
        r matches StreamRoute::Multipart { chunk_size } && chunk_size == chunk_size_for(
            reported_size(content_length),
            0,
            10_000,
        )),
        content_length matches Some(n) ==> (r is Buffered <==> n <= 33_554_432),
        content_length is None ==> r is Buffered,
{
    let size: u64 = size_of_reply(content_length);
    if size <= STREAMING_COPY_THRESHOLD {
        StreamRoute::Buffered
    } else {
        StreamRoute::Multipart { chunk_size: calculate_chunk_size(size, 0, 10_000) }
    }
}

// ---------------------------------------------------------------------------
// Lists and deletions
// ---------------------------------------------------------------------------

/// An object of a list.
#[derive(Debug, Clone)]
pub struct S3Object {
    pub key: String,
    pub size: i64,
    pub last_modified: Option<Timestamp>,
}

/// The instant at a Unix time, if there is one.
pub open spec fn instant_at(t: Option<(i64, u32)>, r: Option<Timestamp>) -> bool {
    match (t, r) {
        (Some((secs, nanos)), Some(ts)) => ts.unix_secs() == secs && ts.unix_nanos() == nanos,
        (Some((secs, nanos)), None) => !(crate::time::MIN_UNIX_SECS <= secs
            <= crate::time::MAX_UNIX_SECS && nanos < NANOS_PER_SEC),
        (None, r) => r is None,
    }
}

/// An object as a list shows it: an absent key is empty, an absent size is 0, and an
/// absent or impossible time is left out.
pub fn listed_object(
    key: Option<String>,
    size: Option<i64>,
    last_modified: Option<(i64, u32)>,
) -> (r: S3Object)
    ensures
        r.key@ == match key {
            Some(k) => k@,
            None => Seq::empty(),
        },
        r.size == match size {
            Some(s) => s,
            None => 0i64,
        },
        instant_at(last_modified, r.last_modified),
        r.last_modified matches Some(t) ==> last_modified == Some(
            (t.unix_secs() as i64, t.unix_nanos() as u32),
        ),
        last_modified matches Some((secs, nanos)) ==> 0 <= secs <= 4_000_000_000 && nanos
            < 1_000_000_000 ==> (r.last_modified matches Some(t) && t.unix_secs() == secs
            && t.unix_nanos() == nanos),
{
    let key = match key {
        Some(k) => k,
        None => String::new(),
    };
    let size: i64 = match size {
        Some(s) => s,
        None => 0,
    };
    let last_modified = match last_modified {
        Some((secs, nanos)) => Timestamp::new(secs, nanos),
        None => None,
    };
    S3Object { key, size, last_modified }
}

/// What follows one page of a list.
#[derive(Debug, Clone)]
pub enum NextPage {
    /// Ask for the page at this token.
    Continue { token: Option<String> },
    /// The list is complete.
    Finished,
}

/// What follows one page of a list: another page exactly where the service says that the
/// list goes on.
pub fn next_page(is_truncated: Option<bool>, token: Option<String>) -> (r: NextPage)
    ensures
        is_truncated == Some(true) ==> r == (NextPage::Continue { token }),
        is_truncated != Some(true) ==> r == NextPage::Finished,
{
    match is_truncated {
        Some(true) => NextPage::Continue { token },
        _ => NextPage::Finished,
    }
}

/// Keys that one request deletes at most.
pub const DELETE_BATCH: usize = 1000;

/// The outcome of one batch of deletions, added to the failures so far: an error where
/// every key of the batch failed.
pub fn record_deleted_batch(failed_so_far: u64, batch_len: usize, errors: usize) -> (r: Result<
    u64,
    usize,
>)
    requires
        failed_so_far + errors <= u64::MAX,
    ensures
        r == if errors > 0 && errors == batch_len {
            Err::<u64, usize>(errors)
        } else {
            Ok((failed_so_far + errors) as u64)
        },
{
    if errors > 0 && errors == batch_len {
        Err(errors)
    } else {
        Ok(failed_so_far + errors as u64)
    }
}

/// The keys, each with the prefix, cut into batches in order.
pub open spec fn batches(keys: Seq<Seq<char>>, prefix: Seq<char>) -> Seq<Seq<Seq<char>>>
    decreases keys.len(),
{
    if keys.len() == 0 {
        Seq::empty()
    } else {
        let n = if keys.len() < DELETE_BATCH {
            keys.len() as int
        } else {
            DELETE_BATCH as int
        };
        seq![Seq::new(n as nat, |i: int| prefixed(prefix, keys[i]))] + batches(keys.skip(n), prefix)
    }
}

// ---------------------------------------------------------------------------
// The client
// ---------------------------------------------------------------------------

/// The configuration of the client.
#[derive(Debug, Clone)]
pub struct S3Config {
    pub bucket: String,
    pub region: String,
    pub endpoint: String,
    pub prefix: String,
    pub access_key: String,
    pub secret_key: String,
    pub assume_role_arn: String,
    pub force_path_style: bool,
    pub disable_ssl: bool,
    pub disable_cert_verification: bool,
    pub storage_class: String,
    pub sse: String,
    pub sse_kms_key_id: String,
    pub acl: String,
    /// Seconds of the configured request timeout, if it is a duration.
    pub request_timeout_secs: Option<u64>,
    /// Seconds of the configured grace period, if it is a duration.
    pub stalled_stream_grace_secs: Option<u64>,
    pub copy_min_bytes_per_second: u64,
    pub sdk_max_attempts: u32,
    pub chunk_size: u64,
    pub max_parts_count: u32,
    pub debug: bool,
}

/// The endpoint that the client talks to, after encryption in transit was switched off as
/// far as the configuration asks for it; nothing where that is impossible.
pub open spec fn effective_endpoint(
    endpoint: Seq<char>,
    disable_ssl: bool,
    disable_cert_verification: bool,
) -> Option<Seq<char>> {
    let first = if disable_ssl && endpoint.len() > 0 {
        replace_first(endpoint, "https://"@, "http://"@)
    } else {
        endpoint
    };
    if !disable_cert_verification {
        Some(first)
    } else if first.len() > 0 {
        Some(replace_first(first, "https://"@, "http://"@))
    } else {
        None
    }
}

/// Where the credentials come from.
#[derive(Debug, Clone, Copy, PartialEq, Eq, Structural)]
pub enum CredentialSource {
    /// The environment of the process or the machine.
    Environment,
    /// The keys of the configuration.
    Static,
    /// The configured role, assumed with the keys of the configuration.
    RoleWithStatic,
    /// The configured role, assumed with the credentials of the environment.
    Role,
}

/// How the connection is set up.
#[derive(Debug, Clone)]
pub struct ConnectionPlan {
    /// The endpoint; empty for the default one of the region.
    pub endpoint: String,
    pub force_path_style: bool,
    pub credentials: CredentialSource,
    /// Grace period for stalled streams in seconds; 0 switches the protection off.
    pub stalled_stream_grace_secs: u64,
    /// Attempts that the SDK makes for each request, at least 1.
    pub sdk_max_attempts: u32,
}

/// Where the credentials come from under a configuration.
pub open spec fn credential_source(config: S3Config) -> CredentialSource {
    let keys = config.access_key@.len() > 0 && config.secret_key@.len() > 0;
    if config.assume_role_arn@.len() > 0 {
        if keys {
            CredentialSource::RoleWithStatic
        } else {
            CredentialSource::Role
        }
    } else if keys {
        CredentialSource::Static
    } else {
        CredentialSource::Environment
    }
}

/// How the connection is set up, or an error where certificates are not to be checked and
/// there is no endpoint to reach without them.
pub fn connection_plan(config: &S3Config) -> (r: Result<ConnectionPlan, String>)
    ensures
        match effective_endpoint(
            config.endpoint@,
            config.disable_ssl,
            config.disable_cert_verification,
        ) {
            None => r matches Err(e) && e@
                == "disable_cert_verification requires an explicit endpoint URL (cannot downgrade default AWS HTTPS)"@,
            Some(endpoint) => r matches Ok(plan) && {
                &&& plan.endpoint@ == endpoint
                &&& plan.force_path_style == config.force_path_style
                &&& plan.credentials == credential_source(*config)
                &&& plan.stalled_stream_grace_secs == match config.stalled_stream_grace_secs {
                    Some(s) => s,
                    None => 5u64,
                }
                &&& plan.sdk_max_attempts == if config.sdk_max_attempts == 0 {
                    1u32
                } else {
                    config.sdk_max_attempts
                }
            },
        },
        r is Err <==> config.disable_cert_verification && config.endpoint@.len() == 0,
        r matches Ok(plan) ==> !config.disable_ssl && !config.disable_cert_verification
            ==> plan.endpoint@ == config.endpoint@,
        r matches Ok(plan) ==> !has_text(config.endpoint@, "https://"@) ==> plan.endpoint@
            == config.endpoint@,
        r matches Ok(plan) ==> forall|rest: Seq<char>|
            config.endpoint@ == #[trigger] ("https://"@ + rest) && config.disable_ssl
                != config.disable_cert_verification ==> plan.endpoint@ == "http://"@ + rest,
        r matches Ok(plan) ==> (plan.credentials == CredentialSource::Role || plan.credentials
            == CredentialSource::RoleWithStatic <==> config.assume_role_arn@.len() > 0),
        r matches Ok(plan) ==> (plan.credentials == CredentialSource::Static || plan.credentials
            == CredentialSource::RoleWithStatic <==> config.access_key@.len() > 0
            && config.secret_key@.len() > 0),
{
    proof {
        law_client_talks_to_the_configured_endpoint(
            config.endpoint@,
            config.disable_ssl,
            config.disable_cert_verification,
        );
        if config.endpoint@.len() == 0 {
            assert(config.endpoint@ =~= Seq::<char>::empty());
        }
    }
    let mut endpoint = if config.disable_ssl && !config.endpoint.as_str().is_empty() {
        replace_first_text(config.endpoint.as_str(), "https://", "http://")
    } else {
        config.endpoint.clone()
    };
    if config.disable_cert_verification {
        if endpoint.as_str().is_empty() {
            return Err(
                "disable_cert_verification requires an explicit endpoint URL (cannot downgrade default AWS HTTPS)".to_string(),
            );
        }
        endpoint = replace_first_text(endpoint.as_str(), "https://", "http://");
    }
    let keys = !config.access_key.as_str().is_empty() && !config.secret_key.as_str().is_empty();
    let credentials = if !config.assume_role_arn.as_str().is_empty() {
        if keys {
            CredentialSource::RoleWithStatic
        } else {
            CredentialSource::Role
        }
    } else if keys {
        CredentialSource::Static
    } else {
        CredentialSource::Environment
    };
    let stalled_stream_grace_secs: u64 = match config.stalled_stream_grace_secs {
        Some(s) => s,
        None => 5,
    };
    let sdk_max_attempts: u32 = if config.sdk_max_attempts == 0 {
        1
    } else {
        config.sdk_max_attempts
    };
    Ok(
        ConnectionPlan {
            endpoint,
            force_path_style: config.force_path_style,
            credentials,
            stalled_stream_grace_secs,
            sdk_max_attempts,
        },
    )
}

/// The text in upper case, by the mapping of Unicode.
pub uninterp spec fn uppercase_text(s: Seq<char>) -> Seq<char>;

/// The upper-case letter of an ASCII letter; any other ASCII character is itself.
pub open spec fn ascii_upper(c: char) -> char {
    if 'a' <= c <= 'z' {
        (c as u8 - 32) as char
    } else {
        c
    }
}

/// `str::to_uppercase` gives the upper-case text by the mapping of Unicode, which depends
/// on the text alone and changes nothing of ASCII but the letters `a` to `z`.
pub assume_specification[ str::to_uppercase ](s: &str) -> (r: String)
    ensures
        r@ == uppercase_text(s@),
        is_ascii_chars(s@) ==> r@ == Seq::new(s@.len(), |i: int| ascii_upper(s@[i])),
;

/// How a new object is encrypted by the service.
#[derive(Debug, Clone)]
pub enum Encryption {
    /// As the bucket says.
    Default,
    /// With a key of the key service: the given one, or the bucket's.
    Kms { key_id: Option<String> },
    /// With a key of the storage service.
    Aes256,
}

/// What every request that makes an object asks for.
#[derive(Debug, Clone)]
pub struct ObjectOptions {
    pub storage_class: Option<String>,
    pub encryption: Encryption,
    pub acl: Option<String>,
}

/// The settings of a client that talks to one bucket.
#[derive(Debug, Clone)]
pub struct S3Client {
    pub bucket: String,
    pub prefix: String,
    /// Storage class of new objects in upper case; empty for the bucket's default.
    pub storage_class: String,
    /// Encryption of new objects: empty, "AES256" or "aws:kms".
    pub sse: String,
    /// Key for "aws:kms"; empty for the bucket's default.
    pub sse_kms_key_id: String,
    /// Canned ACL of new objects; empty for none.
    pub acl: String,
    pub timeouts: S3Timeouts,
    /// Size of parts; 0 to compute it.
    pub chunk_size: u64,
    /// Most parts of one upload.
    pub max_parts_count: u32,
    /// Log each request at the level of information.
    pub log_requests: bool,
}

/// Everything but bucket and prefix is the same in both clients.
pub open spec fn same_settings(a: S3Client, b: S3Client) -> bool {
    &&& a.storage_class@ == b.storage_class@
    &&& a.sse@ == b.sse@
    &&& a.sse_kms_key_id@ == b.sse_kms_key_id@
    &&& a.acl@ == b.acl@
    &&& a.timeouts == b.timeouts
    &&& a.chunk_size == b.chunk_size
    &&& a.max_parts_count == b.max_parts_count
    &&& a.log_requests == b.log_requests
}

/// A text, or nothing where it is empty.
pub open spec fn non_empty(s: Seq<char>) -> Option<Seq<char>> {
    if s.len() == 0 {
        None
    } else {
        Some(s)
    }
}

/// A text, or nothing where it is empty.
fn non_empty_text(s: &String) -> (r: Option<String>)
    ensures
        opt_text(r) == non_empty(s@),
{
    if s.as_str().is_empty() {
        None
    } else {
        Some(s.clone())
    }
}

impl S3Client {
    /// The settings of the client under a configuration; an error where the connection
    /// cannot be planned.
    pub fn new(config: &S3Config) -> (r: Result<S3Client, String>)
        ensures
            match effective_endpoint(
                config.endpoint@,
                config.disable_ssl,
                config.disable_cert_verification,
            ) {
                None => r matches Err(e) && e@
                    == "disable_cert_verification requires an explicit endpoint URL (cannot downgrade default AWS HTTPS)"@,
                Some(_) => r matches Ok(client) && {
                    &&& client.bucket@ == config.bucket@
                    &&& client.prefix@ == config.prefix@
                    &&& client.storage_class@ == uppercase_text(config.storage_class@)
                    &&& is_ascii_chars(config.storage_class@) ==> client.storage_class@
                        == Seq::new(
                        config.storage_class@.len(),
                        |i: int| ascii_upper(config.storage_class@[i]),
                    )
                    &&& client.sse@ == config.sse@
                    &&& client.sse_kms_key_id@ == config.sse_kms_key_id@
                    &&& client.acl@ == config.acl@
                    &&& client.timeouts.request_timeout_secs == match config.request_timeout_secs {
                        Some(s) => s,
                        None => 60u64,
                    }
                    &&& client.timeouts.copy_min_bytes_per_second
                        == config.copy_min_bytes_per_second
                    &&& client.chunk_size == config.chunk_size
                    &&& client.max_parts_count == config.max_parts_count
                    &&& client.log_requests == config.debug
                },
            },
            r is Err <==> config.disable_cert_verification && config.endpoint@.len() == 0,
    {
        match connection_plan(config) {
            Err(e) => Err(e),
            Ok(_) => {
                let request_timeout_secs: u64 = match config.request_timeout_secs {
                    Some(s) => s,
                    None => 60,
                };
                Ok(
                    S3Client {
                        bucket: config.bucket.clone(),
                        prefix: config.prefix.clone(),
                        storage_class: config.storage_class.as_str().to_uppercase(),
                        sse: config.sse.clone(),
                        sse_kms_key_id: config.sse_kms_key_id.clone(),
                        acl: config.acl.clone(),
                        timeouts: S3Timeouts {
                            request_timeout_secs,
                            copy_min_bytes_per_second: config.copy_min_bytes_per_second,
                        },
                        chunk_size: config.chunk_size,
                        max_parts_count: config.max_parts_count,
                        log_requests: config.debug,
                    },
                )
            },
        }
    }

    /// Whether an error says that the source of a copy does not exist.
    pub fn is_missing_source(message: &str) -> (r: bool)
        ensures
            r == missing_source(message@),
    {
        is_missing_source_error(message)
    }

    /// The bucket.
    pub fn bucket(&self) -> (r: &str)
        ensures
            r@ == self.bucket@,
    {
        self.bucket.as_str()
    }

    /// The prefix of every key.
    pub fn prefix(&self) -> (r: &str)
        ensures
            r@ == self.prefix@,
    {
        self.prefix.as_str()
    }

    /// The key below the client's prefix.
    pub fn full_key(&self, relative_key: &str) -> (r: String)
        ensures
            r@ == prefixed(self.prefix@, relative_key@),
            self.prefix@.len() == 0 ==> r@ == relative_key@,
            self.prefix@.len() > 0 && self.prefix@.last() != '/' && !(relative_key@.len() > 0
                && relative_key@[0] == '/') ==> r@ == self.prefix@ + "/"@ + relative_key@,
    {
        if self.prefix.as_str().is_empty() {
            return relative_key.to_string();
        }
        trim_end_text(self.prefix.as_str(), '/').concat("/").concat(
            trim_start_text(relative_key, '/').as_str(),
        )
    }

    /// The same client on another bucket and prefix, with the same deadlines and options.
    pub fn with_bucket_and_prefix(&self, bucket: &str, prefix: &str) -> (r: S3Client)
        ensures
            r.bucket@ == bucket@,
            r.prefix@ == prefix@,
            same_settings(r, *self),
            r.storage_class@ == self.storage_class@,
            r.sse@ == self.sse@,
            r.sse_kms_key_id@ == self.sse_kms_key_id@,
            r.acl@ == self.acl@,
            r.timeouts == self.timeouts,
            r.chunk_size == self.chunk_size,
            r.max_parts_count == self.max_parts_count,
            r.log_requests == self.log_requests,
    {
        S3Client {
            bucket: bucket.to_string(),
            prefix: prefix.to_string(),
            storage_class: self.storage_class.clone(),
            sse: self.sse.clone(),
            sse_kms_key_id: self.sse_kms_key_id.clone(),
            acl: self.acl.clone(),
            timeouts: self.timeouts,
            chunk_size: self.chunk_size,
            max_parts_count: self.max_parts_count,
            log_requests: self.log_requests,
        }
    }

    /// What every request that makes an object asks for.
    pub fn object_options(&self) -> (r: ObjectOptions)
        ensures
            opt_text(r.storage_class) == non_empty(self.storage_class@),
            opt_text(r.acl) == non_empty(self.acl@),
            r.storage_class is None <==> self.storage_class@.len() == 0,
            r.storage_class matches Some(c) ==> c@ == self.storage_class@,
            r.acl is None <==> self.acl@.len() == 0,
            r.acl matches Some(a) ==> a@ == self.acl@,
            r.encryption matches Encryption::Kms { key_id } ==> (key_id is None
                <==> self.sse_kms_key_id@.len() == 0) && (key_id matches Some(k) ==> k@
                == self.sse_kms_key_id@),
            if self.sse@ == "aws:kms"@ {
                r.encryption matches Encryption::Kms { key_id } && opt_text(key_id) == non_empty(
                    self.sse_kms_key_id@,
                )
            } else if self.sse@ == "AES256"@ {
                r.encryption is Aes256
            } else {
                r.encryption is Default
            },
    {
        let encryption = if same(self.sse.as_str(), "aws:kms") {
            Encryption::Kms { key_id: non_empty_text(&self.sse_kms_key_id) }
        } else if same(self.sse.as_str(), "AES256") {
            Encryption::Aes256
        } else {
            Encryption::Default
        };
        ObjectOptions {
            storage_class: non_empty_text(&self.storage_class),
            encryption,
            acl: non_empty_text(&self.acl),
        }
    }

    /// The keys below the client's prefix, in the batches in which they are deleted.
    pub fn delete_batches(&self, keys: &Vec<String>) -> (r: Vec<Vec<String>>)
        ensures
            r.deep_view() == batches(keys.deep_view(), self.prefix@),
    {
        let ghost all = keys.deep_view();
        let mut out: Vec<Vec<String>> = Vec::new();
        let mut start: usize = 0;
        assert(all.skip(0) =~= all);
        assert(out.deep_view() + batches(all, self.prefix@) =~= batches(all, self.prefix@));
        while start < keys.len()
            invariant
                all == keys.deep_view(),
                start <= keys@.len(),
                out.deep_view() + batches(all.skip(start as int), self.prefix@) == batches(
                    all,
                    self.prefix@,
                ),
            decreases keys@.len() - start,
        {
            let end: usize = if keys.len() - start < DELETE_BATCH {
                keys.len()
            } else {
                start + DELETE_BATCH
            };
            let mut batch: Vec<String> = Vec::new();
            let mut i: usize = start;
            while i < end
                invariant
                    all == keys.deep_view(),
                    start <= i <= end <= keys@.len(),
                    batch@.len() == i - start,
                    forall|j: int|
                        0 <= j < i - start ==> (#[trigger] batch@[j])@ == prefixed(
                            self.prefix@,
                            all[start + j],
                        ),
                decreases end - i,
            {
                batch.push(self.full_key(keys[i].as_str()));
                i += 1;
            }
            proof {
                let rest = all.skip(start as int);
                let n = (end - start) as int;
                assert(batch.deep_view() =~= Seq::new(
                    n as nat,
                    |i: int| prefixed(self.prefix@, rest[i]),
                ));
                assert(rest.skip(n) =~= all.skip(end as int));
            }
            let ghost was = out.deep_view();
            let ghost pushed = batch.deep_view();
            out.push(batch);
            assert(out.deep_view() =~= was.push(pushed));
            assert(was + (seq![pushed] + batches(all.skip(end as int), self.prefix@))
                =~= out.deep_view() + batches(all.skip(end as int), self.prefix@));
            start = end;
        }
        assert(batches(all.skip(start as int), self.prefix@) =~= Seq::<Seq<Seq<char>>>::empty());
        assert(out.deep_view() =~= batches(all, self.prefix@));
        out
    }
}

/// Every key is in exactly one batch, in order, and no batch is empty or too large.
pub proof fn law_delete_batches_are_complete(keys: Seq<Seq<char>>, prefix: Seq<char>)
    ensures
        batches(keys, prefix).flatten() == Seq::new(keys.len(), |i: int| prefixed(prefix, keys[i])),
        forall|b: int|
            0 <= b < batches(keys, prefix).len() ==> 0 < #[trigger] batches(keys, prefix)[b].len()
                <= DELETE_BATCH,
    decreases keys.len(),
{
    let all = batches(keys, prefix);
    if keys.len() == 0 {
        assert(all.flatten() =~= Seq::empty());
    } else {
        let n = if keys.len() < DELETE_BATCH {
            keys.len() as int
        } else {
            DELETE_BATCH as int
        };
        let rest = keys.skip(n);
        law_delete_batches_are_complete(rest, prefix);
        assert(all.drop_first() =~= batches(rest, prefix));
        assert(all.flatten() =~= all.first() + batches(rest, prefix).flatten());
        assert forall|b: int| 0 <= b < all.len() implies 0 < #[trigger] all[b].len()
            <= DELETE_BATCH by {
            if b > 0 {
                assert(all[b] == batches(rest, prefix)[b - 1]);
            }
        }
        assert(all.flatten() =~= Seq::new(keys.len(), |i: int| prefixed(prefix, keys[i])));
    }
}

} // verus!
