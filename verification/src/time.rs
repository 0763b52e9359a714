//! Spans of time and instants, as plain numbers.

use std::fmt::Write;
use vstd::prelude::*;

verus! {

/// Nanoseconds in a second.
pub const NANOS_PER_SEC: u32 = 1_000_000_000;

/// Unix time of the first instant of the calendar that `chrono` covers.
pub const MIN_UNIX_SECS: i64 = -8_334_601_228_800;

/// Unix time of the last whole second of the calendar that `chrono` covers.
pub const MAX_UNIX_SECS: i64 = 8_210_266_876_799;

/// A span of time.
#[derive(Debug, Clone, Copy, PartialEq, Eq, PartialOrd, Ord, Structural)]
pub struct Duration {
    secs: u64,
    nanos: u32,
}

impl Duration {
    /// The fraction is below one second.
    #[verifier::type_invariant]
    pub closed spec fn well_formed(self) -> bool {
        self.nanos < NANOS_PER_SEC
    }

    /// The span in nanoseconds.
    pub closed spec fn total_nanos(self) -> nat {
        (self.secs * NANOS_PER_SEC + self.nanos) as nat
    }

    /// The longest span that can be written, in nanoseconds.
    pub open spec fn max_nanos() -> nat {
        (u64::MAX * NANOS_PER_SEC + (NANOS_PER_SEC - 1)) as nat
    }

    /// A span of whole seconds.
    pub fn from_secs(secs: u64) -> (r: Duration)
        ensures
            r.total_nanos() == secs * NANOS_PER_SEC,
    {
        Duration { secs, nanos: 0 }
    }

    /// A span of whole milliseconds.
    pub fn from_millis(millis: u64) -> (r: Duration)
        ensures
            r.total_nanos() == millis * 1_000_000,
    {
        Duration { secs: millis / 1000, nanos: (millis % 1000) as u32 * 1_000_000 }
    }

    /// A span of whole seconds and a fraction below one second.
    pub fn from_parts(secs: u64, nanos: u32) -> (r: Duration)
        requires
            nanos < NANOS_PER_SEC,
        ensures
            r.total_nanos() == secs * NANOS_PER_SEC + nanos,
    {
        Duration { secs, nanos }
    }

    /// The whole seconds of the span.
    pub fn as_secs(&self) -> (r: u64)
        ensures
            r == self.total_nanos() / NANOS_PER_SEC as nat,
    {
        proof {
            use_type_invariant(self);
        }
        self.secs
    }

    /// The fraction of a second beyond the whole seconds, in nanoseconds.
    pub fn subsec_nanos(&self) -> (r: u32)
        ensures
            r == self.total_nanos() % NANOS_PER_SEC as nat,
            r < NANOS_PER_SEC,
    {
        proof {
            use_type_invariant(self);
        }
        self.nanos
    }

    /// The span has no length.
    pub fn is_zero(&self) -> (r: bool)
        ensures
            r == (self.total_nanos() == 0),
    {
        self.secs == 0 && self.nanos == 0
    }

    /// The first span is shorter than the second.
    pub fn shorter_than(&self, other: &Duration) -> (r: bool)
        ensures
            r == (self.total_nanos() < other.total_nanos()),
    {
        proof {
            use_type_invariant(self);
            use_type_invariant(other);
        }
        self.secs < other.secs || (self.secs == other.secs && self.nanos < other.nanos)
    }

    /// The shorter of two spans.
    pub fn shorter(self, other: Duration) -> (r: Duration)
        ensures
            r.total_nanos() == if self.total_nanos() <= other.total_nanos() {
                self.total_nanos()
            } else {
                other.total_nanos()
            },
    {
        if other.shorter_than(&self) {
            other
        } else {
            self
        }
    }

    /// The sum of two spans, or the longest span where the sum is longer.
    pub fn saturating_add(self, other: Duration) -> (r: Duration)
        ensures
            r.total_nanos() == if self.total_nanos() + other.total_nanos()
                <= Duration::max_nanos() {
                self.total_nanos() + other.total_nanos()
            } else {
                Duration::max_nanos()
            },
    {
        proof {
            use_type_invariant(&self);
            use_type_invariant(&other);
        }
        let sum: u32 = self.nanos + other.nanos;
        let (carry, nanos): (u64, u32) = if sum >= NANOS_PER_SEC {
            (1, sum - NANOS_PER_SEC)
        } else {
            (0, sum)
        };
        if self.secs <= u64::MAX - other.secs && self.secs + other.secs <= u64::MAX - carry {
            Duration { secs: self.secs + other.secs + carry, nanos }
        } else {
            Duration { secs: u64::MAX, nanos: NANOS_PER_SEC - 1 }
        }
    }

    /// How much longer the first span is than the second; nothing where it is not.
    pub fn saturating_sub(self, other: Duration) -> (r: Duration)
        ensures
            r.total_nanos() == if self.total_nanos() >= other.total_nanos() {
                (self.total_nanos() - other.total_nanos()) as nat
            } else {
                0
            },
    {
        proof {
            use_type_invariant(&self);
            use_type_invariant(&other);
        }
        if self.shorter_than(&other) {
            Duration { secs: 0, nanos: 0 }
        } else if self.nanos >= other.nanos {
            Duration { secs: self.secs - other.secs, nanos: self.nanos - other.nanos }
        } else {
            Duration {
                secs: self.secs - other.secs - 1,
                nanos: self.nanos + NANOS_PER_SEC - other.nanos,
            }
        }
    }
}

/// An instant of universal time.
#[derive(Debug, Clone, Copy, PartialEq, Eq, PartialOrd, Ord, Structural)]
pub struct Timestamp {
    secs: i64,
    nanos: u32,
}

impl Timestamp {
    /// The instant lies in the calendar, and the fraction is below one second.
    #[verifier::type_invariant]
    pub closed spec fn well_formed(self) -> bool {
        MIN_UNIX_SECS <= self.secs <= MAX_UNIX_SECS && self.nanos < NANOS_PER_SEC
    }

    /// Whole seconds since the Unix epoch.
    pub closed spec fn unix_secs(self) -> int {
        self.secs as int
    }

    /// Nanoseconds beyond the whole seconds.
    pub closed spec fn unix_nanos(self) -> int {
        self.nanos as int
    }

    /// Nanoseconds since the Unix epoch.
    pub open spec fn instant(self) -> int {
        self.unix_secs() * NANOS_PER_SEC + self.unix_nanos()
    }

    /// The instant at the given Unix time, if the calendar covers it.
    pub fn new(secs: i64, nanos: u32) -> (r: Option<Timestamp>)
        ensures
            r is Some <==> MIN_UNIX_SECS <= secs <= MAX_UNIX_SECS && nanos < NANOS_PER_SEC,
            r matches Some(t) ==> t.unix_secs() == secs && t.unix_nanos() == nanos,
    {
        if MIN_UNIX_SECS <= secs && secs <= MAX_UNIX_SECS && nanos < NANOS_PER_SEC {
            Some(Timestamp { secs, nanos })
        } else {
            None
        }
    }

    /// The present instant, as the clock shows it: one from the Unix epoch on. Nothing is
    /// promised of which instant that is.
    pub fn now() -> (r: Timestamp)
        ensures
            0 <= r.unix_secs() <= MAX_UNIX_SECS,
            0 <= r.unix_nanos() < NANOS_PER_SEC,
    {
        let (secs, nanos): (i64, u32) = utc_now();
        Timestamp { secs, nanos }
    }

    /// Whole seconds since the Unix epoch.
    pub fn secs(&self) -> (r: i64)
        ensures
            r == self.unix_secs(),
    {
        self.secs
    }

    /// Nanoseconds beyond the whole seconds.
    pub fn nanos(&self) -> (r: u32)
        ensures
            r == self.unix_nanos(),
    {
        self.nanos
    }

    /// The first instant is earlier than the second.
    pub fn earlier_than(&self, other: &Timestamp) -> (r: bool)
        ensures
            r == (self.instant() < other.instant()),
    {
        proof {
            use_type_invariant(self);
            use_type_invariant(other);
        }
        self.secs < other.secs || (self.secs == other.secs && self.nanos < other.nanos)
    }

    /// How long ago `earlier` was at this instant; nothing where it is still to come.
    pub fn since(&self, earlier: &Timestamp) -> (r: Duration)
        ensures
            r.total_nanos() == if self.instant() >= earlier.instant() {
                (self.instant() - earlier.instant()) as nat
            } else {
                0
            },
    {
        proof {
            use_type_invariant(self);
            use_type_invariant(earlier);
        }
        if self.earlier_than(earlier) {
            Duration::from_secs(0)
        } else if self.nanos >= earlier.nanos {
            Duration::from_parts((self.secs - earlier.secs) as u64, self.nanos - earlier.nanos)
        } else {
            Duration::from_parts(
                (self.secs - earlier.secs - 1) as u64,
                self.nanos + NANOS_PER_SEC - earlier.nanos,
            )
        }
    }

    /// The instant in the form of RFC 3339.
    pub fn to_rfc3339(&self) -> (r: String)
        ensures
            r@ == rfc3339_text(self.unix_secs(), self.unix_nanos()),
    {
        proof {
            use_type_invariant(self);
        }
        rfc3339(self.secs, self.nanos)
    }
}

/// `chrono::Utc::now` reads the clock: some instant of the calendar from the Unix epoch on,
/// without a leap second. On a machine whose clock stands before the epoch it does not
/// return.
#[verifier::external_body]
fn utc_now() -> (r: (i64, u32))
    ensures
        0 <= r.0 <= MAX_UNIX_SECS,
        r.1 < NANOS_PER_SEC,
{
    let now = chrono::Utc::now();
    (now.timestamp(), now.timestamp_subsec_nanos())
}

/// The text that `chrono` gives for an instant of universal time in RFC 3339.
pub uninterp spec fn rfc3339_text(secs: int, nanos: int) -> Seq<char>;

/// `chrono::DateTime::<Utc>::to_rfc3339` on the instant at the given Unix time: a text
/// that depends on the instant alone.
#[verifier::external_body]
fn rfc3339(secs: i64, nanos: u32) -> (r: String)
    requires
        MIN_UNIX_SECS <= secs <= MAX_UNIX_SECS,
        nanos < NANOS_PER_SEC,
    ensures
        r@ == rfc3339_text(secs as int, nanos as int),
{
    match chrono::DateTime::from_timestamp(secs, nanos) {
        Some(t) => t.to_rfc3339(),
        None => String::new(),
    }
}

/// What `chrono` reads from a text in RFC 3339: the date and time that the text itself
/// shows, in its own offset, counted as if it were universal time.
pub uninterp spec fn rfc3339_local(text: Seq<char>) -> Option<(i64, u32)>;

/// `chrono::DateTime::parse_from_rfc3339`: whether the text is in RFC 3339, and the date
/// and time that it shows. Both depend on the text alone.
#[verifier::external_body]
pub(crate) fn parse_rfc3339_local(text: &str) -> (r: Option<(i64, u32)>)
    ensures
        r == rfc3339_local(text@),
{
    match chrono::DateTime::parse_from_rfc3339(text) {
        Ok(t) => {
            let local = t.naive_local().and_utc();
            Some((local.timestamp(), local.timestamp_subsec_nanos()))
        },
        Err(_) => None,
    }
}

/// What `chrono` writes for the instant at a Unix time under a format in the style of
/// strftime; nothing where it has no such instant or refuses the format.
pub uninterp spec fn strftime_text(secs: int, nanos: int, format: Seq<char>) -> Option<Seq<char>>;

/// `chrono::DateTime::<Utc>::format`, written out. The text, and whether the format is
/// accepted, depend on the instant and the format alone.
#[verifier::external_body]
pub(crate) fn strftime(secs: i64, nanos: u32, format: &str) -> (r: Option<String>)
    ensures
        crate::text::opt_text(r) == strftime_text(secs as int, nanos as int, format@),
{
    let instant = chrono::DateTime::from_timestamp(secs, nanos)?;
    let mut out = String::new();
    match write!(out, "{}", instant.format(format)) {
        Ok(()) => Some(out),
        Err(_) => None,
    }
}

} // verus!
