//! Points in time in UTC, and their calendar and text forms.

use vstd::prelude::*;

verus! {

/// A point in time: whole seconds since the start of 1970 in UTC, and the
/// nanoseconds after them.
#[derive(Debug, Clone, Copy, PartialEq, Eq, Structural)]
pub struct UtcTime {
    pub secs: i64,
    pub nanos: u32,
}

/// The first second of the year -262143 and the last of the year 262142: the
/// calendar reaches no further.
pub const MIN_SECS: i64 = -8334601228800;

pub const MAX_SECS: i64 = 8210266876799;

impl UtcTime {
    pub open spec fn precedes(self, other: UtcTime) -> bool {
        self.secs < other.secs || (self.secs == other.secs && self.nanos < other.nanos)
    }

    /// Whether this point comes before another.
    pub fn before(&self, other: &UtcTime) -> (r: bool)
        ensures
            r == self.precedes(*other),
    {
        self.secs < other.secs || (self.secs == other.secs && self.nanos < other.nanos)
    }

    /// Whether the calendar has this point, outside of leap seconds.
    pub open spec fn on_calendar(self) -> bool {
        MIN_SECS <= self.secs <= MAX_SECS && self.nanos < 1_000_000_000
    }
}

pub open spec fn leap_year(y: int) -> bool {
    (y % 4 == 0 && y % 100 != 0) || y % 400 == 0
}

pub open spec fn month_length(y: int, m: int) -> int {
    if m == 2 {
        if leap_year(y) {
            29
        } else {
            28
        }
    } else if m == 4 || m == 6 || m == 9 || m == 11 {
        30
    } else {
        31
    }
}

/// The days of a year before a month.
pub open spec fn days_before_month(y: int, m: int) -> int
    decreases m,
{
    if m <= 1 {
        0
    } else {
        days_before_month(y, m - 1) + month_length(y, m - 1)
    }
}

/// The days from the start of the year 1 to the start of a year.
pub open spec fn days_before_year(y: int) -> int {
    365 * (y - 1) + (y - 1) / 4 - (y - 1) / 100 + (y - 1) / 400
}

/// Whether the Gregorian calendar, carried on in both directions within the
/// supported years, has a day.
pub open spec fn valid_date(y: int, m: int, d: int) -> bool {
    -262143 <= y <= 262142 && 1 <= m <= 12 && 1 <= d <= month_length(y, m)
}

pub open spec fn valid_time(h: int, mi: int, s: int) -> bool {
    0 <= h < 24 && 0 <= mi < 60 && 0 <= s < 60
}

/// The seconds from the start of 1970 to a date and time of day. The start of
/// 1970 lies 719162 days after the start of the year 1.
pub open spec fn seconds_at(y: int, m: int, d: int, h: int, mi: int, s: int) -> int {
    (days_before_year(y) + days_before_month(y, m) + d - 1 - 719162) * 86400 + h * 3600 + mi * 60
        + s
}

/// `chrono::NaiveDate::from_ymd_opt`, then `and_hms_opt` and the timestamp of
/// the result in UTC: there is one exactly for the dates of the proleptic
/// Gregorian calendar in the supported years and the times of day without
/// leap seconds, and it counts the seconds since the start of 1970.
#[verifier::external_body]
pub(crate) fn utc_timestamp(
    year: i32,
    month: u32,
    day: u32,
    hour: u32,
    minute: u32,
    second: u32,
) -> (r: Option<i64>)
    ensures
        match r {
            Some(t) => valid_date(year as int, month as int, day as int) && valid_time(
                hour as int,
                minute as int,
                second as int,
            ) && t == seconds_at(
                year as int,
                month as int,
                day as int,
                hour as int,
                minute as int,
                second as int,
            ),
            None => !(valid_date(year as int, month as int, day as int) && valid_time(
                hour as int,
                minute as int,
                second as int,
            )),
        },
{
    chrono::NaiveDate::from_ymd_opt(year, month, day)
        .and_then(|date| date.and_hms_opt(hour, minute, second))
        .map(|at| at.and_utc().timestamp())
}

/// The point in time that `chrono` reads from an RFC 3339 text, if it reads
/// one: seconds and nanoseconds.
pub uninterp spec fn rfc3339_time(s: Seq<char>) -> Option<(i64, u32)>;

/// The RFC 3339 text that `chrono` writes for a point in time in UTC.
pub uninterp spec fn rfc3339_text(secs: i64, nanos: u32) -> Seq<char>;

/// `chrono::DateTime::parse_from_rfc3339`, the result taken to UTC: a point
/// in time that depends on the text alone. A leap second is told by
/// nanoseconds beyond a full second.
#[verifier::external_body]
fn read_rfc3339(s: &str) -> (r: Option<(i64, u32)>)
    ensures
        r == rfc3339_time(s@),
{
    chrono::DateTime::parse_from_rfc3339(s)
        .ok()
        .map(|at| (at.timestamp(), at.timestamp_subsec_nanos()))
}

/// `chrono::DateTime::to_rfc3339` of the time that `from_timestamp` makes: a
/// text that depends on the time alone. In the years 0 to 9999, which it
/// writes with four digits, `parse_from_rfc3339` reads the time back.
#[verifier::external_body]
fn write_rfc3339(secs: i64, nanos: u32) -> (r: String)
    requires
        MIN_SECS <= secs <= MAX_SECS,
        nanos < 1_000_000_000,
    ensures
        r@ == rfc3339_text(secs, nanos),
        -62167219200 <= secs <= 253402300799 ==> rfc3339_time(r@) == Some((secs, nanos)),
{
    chrono::DateTime::from_timestamp(secs, nanos).unwrap_or_default().to_rfc3339()
}

impl UtcTime {
    /// Reads an RFC 3339 text.
    pub fn parse_rfc3339(s: &str) -> (r: Option<UtcTime>)
        ensures
            match rfc3339_time(s@) {
                Some((secs, nanos)) => r == Some(UtcTime { secs, nanos }),
                None => r is None,
            },
    {
        match read_rfc3339(s) {
            Some((secs, nanos)) => Some(UtcTime { secs, nanos }),
            None => None,
        }
    }

    /// Writes an RFC 3339 text. In the years 0 to 9999 it reads back as the
    /// same point in time.
    pub fn to_rfc3339(&self) -> (s: String)
        requires
            self.on_calendar(),
        ensures
            s@ == rfc3339_text(self.secs, self.nanos),
            -62167219200 <= self.secs <= 253402300799 ==> rfc3339_time(s@) == Some(
                (self.secs, self.nanos),
            ),
    {
        write_rfc3339(self.secs, self.nanos)
    }
}

} // verus!
