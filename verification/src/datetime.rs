//! Instants in UTC, held as whole seconds since the Unix epoch plus the
//! nanoseconds inside that second.

use vstd::prelude::*;

use chrono::{DateTime, NaiveDateTime};

use crate::text::{format_i64, int_decimal};

verus! {

/// The earliest second representable as a UTC date-time: -262143-01-01
/// 00:00:00 UTC, chrono's `MIN_UTC`.
pub const MIN_TIMESTAMP: i64 = -8_334_601_228_800i64;

/// The latest second representable as a UTC date-time: +262142-12-31
/// 23:59:59 UTC, chrono's `MAX_UTC`.
pub const MAX_TIMESTAMP: i64 = 8_210_266_876_799i64;

/// A range of Unix timestamps, in seconds.
pub struct TimestampRange {
    pub from: i64,
    pub to: i64,
}

/// A UTC instant: `secs` whole seconds since 1970-01-01T00:00:00Z and
/// `nanos` nanoseconds into that second. A `nanos` of one billion or more
/// marks a leap second, which may only follow second 59 of a minute.
#[derive(Clone, Copy, Debug, PartialEq, Eq, Structural)]
pub struct DateTimeUtc {
    pub secs: i64,
    pub nanos: u32,
}

impl DateTimeUtc {
    /// The instant lies in the representable range and its nanoseconds are well formed.
    pub open spec fn valid(self) -> bool {
        &&& MIN_TIMESTAMP <= self.secs <= MAX_TIMESTAMP
        &&& self.nanos < 2_000_000_000
        &&& self.nanos >= 1_000_000_000 ==> self.secs % 60 == 59
    }

    /// Strict chronological order: seconds first, then nanoseconds.
    pub open spec fn before(self, other: DateTimeUtc) -> bool {
        self.secs < other.secs || (self.secs == other.secs && self.nanos < other.nanos)
    }

    /// Chronological order, allowing equality.
    pub open spec fn not_after(self, other: DateTimeUtc) -> bool {
        self.before(other) || self == other
    }

    /// The earlier of two instants; the first one when they are equal.
    pub open spec fn earlier_of(self, other: DateTimeUtc) -> DateTimeUtc {
        if other.before(self) { other } else { self }
    }

    /// The later of two instants; the second one when they are equal.
    pub open spec fn later_of(self, other: DateTimeUtc) -> DateTimeUtc {
        if other.before(self) { self } else { other }
    }

    /// `self < other` in time.
    pub fn is_before(&self, other: &DateTimeUtc) -> (r: bool)
        ensures
            r == self.before(*other),
    {
        self.secs < other.secs || (self.secs == other.secs && self.nanos < other.nanos)
    }

    /// `self <= other` in time.
    pub fn is_not_after(&self, other: &DateTimeUtc) -> (r: bool)
        ensures
            r == self.not_after(*other),
    {
        self.secs < other.secs || (self.secs == other.secs && self.nanos <= other.nanos)
    }

    /// The earlier of two instants; the first one when they are equal.
    pub fn earliest(self, other: DateTimeUtc) -> (r: DateTimeUtc)
        ensures
            r == self.earlier_of(other),
    {
        if other.is_before(&self) { other } else { self }
    }

    /// The later of two instants; the second one when they are equal.
    pub fn latest(self, other: DateTimeUtc) -> (r: DateTimeUtc)
        ensures
            r == self.later_of(other),
    {
        if other.is_before(&self) { self } else { other }
    }

    /// The instant at a whole Unix timestamp, or `None` outside the representable range.
    pub fn from_timestamp(secs: i64) -> (r: Option<DateTimeUtc>)
        ensures
            r is Some <==> MIN_TIMESTAMP <= secs <= MAX_TIMESTAMP,
            r matches Some(d) ==> d.secs == secs && d.nanos == 0 && d.valid(),
    {
        if MIN_TIMESTAMP <= secs && secs <= MAX_TIMESTAMP {
            Some(DateTimeUtc { secs, nanos: 0 })
        } else {
            None
        }
    }
}

/// Reading of `text` as an RFC 3339 date-time, as whole seconds and
/// nanoseconds since the Unix epoch.
pub uninterp spec fn rfc3339_instant(text: Seq<char>) -> Option<(i64, u32)>;

/// Reading of `text` under the `strftime`-style `format`, which carries
/// its own UTC offset, as seconds and nanoseconds since the Unix epoch.
pub uninterp spec fn offset_format_instant(text: Seq<char>, format: Seq<char>) -> Option<(i64, u32)>;

/// Reading of `text` under the `strftime`-style `format`, which has no UTC
/// offset, taken as UTC, as seconds and nanoseconds since the Unix epoch.
pub uninterp spec fn naive_format_instant(text: Seq<char>, format: Seq<char>) -> Option<(i64, u32)>;

/// RFC 3339 text of a UTC instant, as chrono writes it.
pub uninterp spec fn rfc3339_text(secs: i64, nanos: u32) -> Seq<char>;

/// Calls `chrono::DateTime::parse_from_rfc3339`; the contract claims that
/// the instant it reads depends on the text alone, and that it is valid:
/// chrono refuses a reading whose UTC instant leaves its range, keeps a
/// leap second at second 59, and RFC 3339 offsets are whole minutes.
#[verifier::external_body]
fn parse_rfc3339(text: &str) -> (r: Option<(i64, u32)>)
    ensures
        r == rfc3339_instant(text@),
        r matches Some(p) ==> instant_of(p).valid(),
{
    match DateTime::parse_from_rfc3339(text) {
        Ok(d) => Some((d.timestamp(), d.timestamp_subsec_nanos())),
        Err(_) => None,
    }
}

/// Calls `chrono::DateTime::parse_from_str`; the contract claims that the
/// instant it reads depends on the text and the format alone, and, for the
/// one format it is called with (whose `%z` reads whole-minute offsets),
/// that it is valid.
#[verifier::external_body]
fn parse_with_offset(text: &str, format: &str) -> (r: Option<(i64, u32)>)
    requires
        format@ == offset_format(),
    ensures
        r == offset_format_instant(text@, format@),
        r matches Some(p) ==> instant_of(p).valid(),
{
    match DateTime::parse_from_str(text, format) {
        Ok(d) => Some((d.timestamp(), d.timestamp_subsec_nanos())),
        Err(_) => None,
    }
}

/// Calls `chrono::NaiveDateTime::parse_from_str` and reads the result as
/// UTC; the contract claims that the instant depends on the text and the
/// format alone, and that it is valid, as every `NaiveDateTime` is.
#[verifier::external_body]
fn parse_naive(text: &str, format: &str) -> (r: Option<(i64, u32)>)
    ensures
        r == naive_format_instant(text@, format@),
        r matches Some(p) ==> instant_of(p).valid(),
{
    match NaiveDateTime::parse_from_str(text, format) {
        Ok(n) => {
            let d = n.and_utc();
            Some((d.timestamp(), d.timestamp_subsec_nanos()))
        },
        Err(_) => None,
    }
}

/// Calls `chrono::DateTime::to_rfc3339` on the instant; the contract claims
/// that the text depends on the instant alone.
#[verifier::external_body]
pub(crate) fn write_rfc3339(t: DateTimeUtc) -> (r: String)
    requires
        t.valid(),
    ensures
        r@ == rfc3339_text(t.secs, t.nanos),
{
    match DateTime::from_timestamp(t.secs, t.nanos) {
        Some(d) => d.to_rfc3339(),
        None => String::new(),
    }
}

/// The format with an explicit offset: "YYYY-MM-DD HH:MM:SS ±HHMM".
pub open spec fn offset_format() -> Seq<char> {
    "%Y-%m-%d %H:%M:%S %z"@
}

/// The format without offset, read as UTC: "YYYY-MM-DD HH:MM:SS".
pub open spec fn naive_format() -> Seq<char> {
    "%Y-%m-%d %H:%M:%S"@
}

/// The instant at a pair of seconds and nanoseconds.
pub open spec fn instant_of(p: (i64, u32)) -> DateTimeUtc {
    DateTimeUtc { secs: p.0, nanos: p.1 }
}

/// The instant of the first of three readings that succeeded.
pub open spec fn first_reading(
    rfc3339: Option<(i64, u32)>,
    with_offset: Option<(i64, u32)>,
    naive: Option<(i64, u32)>,
) -> Option<DateTimeUtc> {
    match rfc3339 {
        Some(p) => Some(instant_of(p)),
        None => match with_offset {
            Some(p) => Some(instant_of(p)),
            None => match naive {
                Some(p) => Some(instant_of(p)),
                None => None,
            },
        },
    }
}

/// The instant a text denotes: RFC 3339 first, then the format with an
/// offset, then the format without one, read as UTC.
pub open spec fn text_instant(text: Seq<char>) -> Option<DateTimeUtc> {
    first_reading(
        rfc3339_instant(text),
        offset_format_instant(text, offset_format()),
        naive_format_instant(text, naive_format()),
    )
}

/// The message for a Unix timestamp out of range.
pub open spec fn invalid_timestamp_message(ts: i64) -> Seq<char> {
    "Invalid Unix timestamp: "@ + int_decimal(ts as int)
}

/// The message for a text that is no date-time.
pub open spec fn invalid_text_message(text: Seq<char>) -> Seq<char> {
    "Invalid datetime '"@ + text + "': supported formats are RFC3339 (e.g. 2026-02-25T10:00:00Z), 'YYYY-MM-DD HH:MM:SS \u{b1}HHMM', or 'YYYY-MM-DD HH:MM:SS'"@
}

impl DateTimeUtc {
    /// The instant at a Unix timestamp in whole seconds; an error naming the
    /// timestamp when it is out of range.
    pub fn from_unix_timestamp(ts: i64) -> (r: Result<DateTimeUtc, String>)
        ensures
            r is Ok <==> MIN_TIMESTAMP <= ts <= MAX_TIMESTAMP,
            r matches Ok(d) ==> d.secs == ts && d.nanos == 0 && d.valid(),
            r matches Err(m) ==> m@ == invalid_timestamp_message(ts),
    {
        match DateTimeUtc::from_timestamp(ts) {
            Some(d) => Ok(d),
            None => {
                let mut m = String::from_str("Invalid Unix timestamp: ");
                let digits = format_i64(ts);
                m.append(digits.as_str());
                Err(m)
            },
        }
    }

    /// The instant a text denotes: RFC 3339 (e.g. `2026-02-25T10:00:00Z`),
    /// else `YYYY-MM-DD HH:MM:SS ±HHMM`, else `YYYY-MM-DD HH:MM:SS` read as
    /// UTC; an error naming the text and the formats otherwise.
    pub fn from_text(text: String) -> (r: Result<DateTimeUtc, String>)
        ensures
            r is Ok <==> text_instant(text@) is Some,
            r matches Ok(d) ==> d == text_instant(text@).unwrap() && d.valid(),
            r matches Err(m) ==> m@ == invalid_text_message(text@),
    {
        proof {
            reveal_strlit("%Y-%m-%d %H:%M:%S %z");
        }
        let rfc3339 = parse_rfc3339(text.as_str());
        let with_offset = parse_with_offset(text.as_str(), "%Y-%m-%d %H:%M:%S %z");
        let naive = parse_naive(text.as_str(), "%Y-%m-%d %H:%M:%S");
        DateTimeUtc::from_readings(text.as_str(), rfc3339, with_offset, naive)
    }

    /// The instant of the first reading of `text` that succeeded, in the
    /// order RFC 3339, with an offset, without one; an error naming the text
    /// and the formats when none did.
    pub fn from_readings(
        text: &str,
        rfc3339: Option<(i64, u32)>,
        with_offset: Option<(i64, u32)>,
        naive: Option<(i64, u32)>,
    ) -> (r: Result<DateTimeUtc, String>)
        ensures
            r is Ok <==> first_reading(rfc3339, with_offset, naive) is Some,
            r matches Ok(d) ==> d == first_reading(rfc3339, with_offset, naive).unwrap(),
            r matches Err(m) ==> m@ == invalid_text_message(text@),
    {
        if let Some(p) = rfc3339 {
            return Ok(DateTimeUtc { secs: p.0, nanos: p.1 });
        }
        if let Some(p) = with_offset {
            return Ok(DateTimeUtc { secs: p.0, nanos: p.1 });
        }
        if let Some(p) = naive {
            return Ok(DateTimeUtc { secs: p.0, nanos: p.1 });
        }
        let mut m = String::from_str("Invalid datetime '");
        m.append(text);
        m.append(
            "': supported formats are RFC3339 (e.g. 2026-02-25T10:00:00Z), 'YYYY-MM-DD HH:MM:SS \u{b1}HHMM', or 'YYYY-MM-DD HH:MM:SS'",
        );
        Err(m)
    }
}

} // verus!
