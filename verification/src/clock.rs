//! Points in time, and their notation in responses.

use chrono::{DateTime, Utc};
use vstd::prelude::*;

verus! {

/// The first second that the calendar covers.
pub const MIN_SECONDS: i64 = -8_334_601_228_800;

/// The last second that the calendar covers.
pub const MAX_SECONDS: i64 = 8_210_266_876_799;

/// The notation of milliseconds and a trailing `Z` used in XML documents.
pub const TIMESTAMP_PATTERN: &'static str = "%Y-%m-%dT%H:%M:%S%.3fZ";

/// The notation of dates in HTTP headers.
pub const HTTP_DATE_PATTERN: &'static str = "%a, %d %b %Y %H:%M:%S GMT";

/// Whether a count of seconds and nanoseconds since 1970 is a point in time that the calendar
/// covers. A leap second has more than a full second of nanoseconds, in the last second of a
/// minute.
pub open spec fn valid_instant(secs: int, nanos: int) -> bool {
    &&& MIN_SECONDS <= secs <= MAX_SECONDS
    &&& 0 <= nanos < 2_000_000_000
    &&& nanos >= 1_000_000_000 ==> secs % 60 == 59
}

/// A point in time, UTC: seconds and nanoseconds since the start of 1970.
#[derive(Debug, Clone, Copy)]
pub struct Timestamp {
    secs: i64,
    nanos: u32,
}

impl Timestamp {
    #[verifier::type_invariant]
    closed spec fn wf(self) -> bool {
        valid_instant(self.secs as int, self.nanos as int)
    }

    /// Whole seconds since the start of 1970.
    pub closed spec fn secs(self) -> int {
        self.secs as int
    }

    /// Nanoseconds past the whole second.
    pub closed spec fn nanos(self) -> int {
        self.nanos as int
    }

    /// The point in time so many seconds and nanoseconds after the start of 1970; `None` where
    /// the calendar does not cover it.
    pub fn from_unix(secs: i64, nanos: u32) -> (r: Option<Timestamp>)
        ensures
            r is Some <==> valid_instant(secs as int, nanos as int),
            r is Some ==> r->0.secs() == secs && r->0.nanos() == nanos,
    {
        if MIN_SECONDS <= secs && secs <= MAX_SECONDS && nanos < 2_000_000_000 && (nanos
            < 1_000_000_000 || secs % 60 == 59 || secs % 60 == -1) {
            Some(Timestamp { secs, nanos })
        } else {
            None
        }
    }

    /// The current time.
    pub fn now() -> (t: Timestamp)
        ensures
            t.secs() >= 0,
            t.nanos() < 1_000_000_000,
    {
        let (secs, nanos) = utc_now();
        Timestamp { secs, nanos }
    }

    /// Whole seconds since the start of 1970.
    pub fn seconds(&self) -> (n: i64)
        ensures
            n == self.secs(),
    {
        self.secs
    }

    /// Nanoseconds past the whole second.
    pub fn subsec_nanos(&self) -> (n: u32)
        ensures
            n == self.nanos(),
    {
        self.nanos
    }

    /// The time in nanoseconds since the start of 1970, where 64 bits hold it.
    pub fn timestamp_nanos(&self) -> (r: Option<i64>)
        ensures
            match r {
                Some(n) => nanos_since_epoch(self.secs(), self.nanos()) == Some(n as int),
                None => nanos_since_epoch(self.secs(), self.nanos()) is None,
            },
    {
        proof {
            use_type_invariant(self);
        }
        instant_nanos(self.secs, self.nanos)
    }

    /// The time in the given notation.
    fn format(&self, pattern: &str) -> (s: String)
        requires
            pattern@ == TIMESTAMP_PATTERN@ || pattern@ == HTTP_DATE_PATTERN@,
        ensures
            s@ == formatted(self.secs(), self.nanos(), pattern@),
    {
        proof {
            use_type_invariant(self);
        }
        format_instant(self.secs, self.nanos, pattern)
    }
}

/// The text that `DateTime::format` gives for an instant and a pattern.
pub uninterp spec fn formatted(secs: int, nanos: int, pattern: Seq<char>) -> Seq<char>;

/// Nanoseconds since the start of 1970: `None` where the product or the sum that it is
/// computed from does not fit in 64 bits. Before 1970 both count from the following second.
pub open spec fn nanos_since_epoch(secs: int, nanos: int) -> Option<int> {
    let whole = if secs < 0 {
        (secs + 1) * 1_000_000_000
    } else {
        secs * 1_000_000_000
    };
    let part = if secs < 0 {
        nanos - 1_000_000_000
    } else {
        nanos
    };
    if i64::MIN <= whole <= i64::MAX && i64::MIN <= whole + part <= i64::MAX {
        Some(whole + part)
    } else {
        None
    }
}

/// `Utc::now`, as seconds and nanoseconds: a time from 1970 on that the calendar covers, with
/// less than a second of nanoseconds.
#[verifier::external_body]
pub(crate) fn utc_now() -> (r: (i64, u32))
    ensures
        0 <= r.0 <= MAX_SECONDS,
        r.1 < 1_000_000_000,
{
    let now = Utc::now();
    (now.timestamp(), now.timestamp_subsec_nanos())
}

/// `DateTime::timestamp_nanos_opt` of the instant that `DateTime::from_timestamp` makes, which
/// it makes of every valid one.
#[verifier::external_body]
pub(crate) fn instant_nanos(secs: i64, nanos: u32) -> (r: Option<i64>)
    requires
        valid_instant(secs as int, nanos as int),
    ensures
        match r {
            Some(n) => nanos_since_epoch(secs as int, nanos as int) == Some(n as int),
            None => nanos_since_epoch(secs as int, nanos as int) is None,
        },
{
    DateTime::<Utc>::from_timestamp(secs, nanos).unwrap().timestamp_nanos_opt()
}

/// `DateTime::format` of the instant that `DateTime::from_timestamp` makes, which it makes of
/// every valid one. The text depends on the instant and the pattern alone; what it is for them
/// is left unsaid. The two patterns are well formed, so formatting does not fail.
#[verifier::external_body]
pub(crate) fn format_instant(secs: i64, nanos: u32, pattern: &str) -> (s: String)
    requires
        valid_instant(secs as int, nanos as int),
        pattern@ == TIMESTAMP_PATTERN@ || pattern@ == HTTP_DATE_PATTERN@,
    ensures
        s@ == formatted(secs as int, nanos as int, pattern@),
{
    DateTime::<Utc>::from_timestamp(secs, nanos).unwrap().format(pattern).to_string()
}

/// The calendar covers every second of the years 1 to 9999, with all its nanoseconds; a further
/// second of nanoseconds is that of a leap second, at the end of a minute only.
pub proof fn common_era_is_covered(secs: int, nanos: int)
    requires
        -62_135_596_800 <= secs <= 253_402_300_799,
    ensures
        0 <= nanos < 1_000_000_000 ==> valid_instant(secs, nanos),
        nanos < 0 || nanos >= 2_000_000_000 ==> !valid_instant(secs, nanos),
        1_000_000_000 <= nanos < 2_000_000_000 ==> (valid_instant(secs, nanos) <==> secs % 60
            == 59),
{
}

/// Formats a time as ISO 8601 with milliseconds, as in `2026-05-18T02:51:21.123Z`.
pub fn format_timestamp(timestamp: Timestamp) -> (s: String)
    ensures
        s@ == formatted(timestamp.secs(), timestamp.nanos(), TIMESTAMP_PATTERN@),
{
    timestamp.format(TIMESTAMP_PATTERN)
}

/// Formats a time as an HTTP date, as in `Wed, 21 Oct 2015 07:28:00 GMT`.
pub fn format_http_date(timestamp: Timestamp) -> (s: String)
    ensures
        s@ == formatted(timestamp.secs(), timestamp.nanos(), HTTP_DATE_PATTERN@),
{
    timestamp.format(HTTP_DATE_PATTERN)
}

} // verus!
