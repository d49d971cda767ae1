//! Instants and calendar days as plain integers.
//!
//! An instant is a count of whole seconds since 1970-01-01T00:00:00Z; a
//! calendar day is a count of whole days since 1970-01-01. An instant seen
//! from a time zone carries that zone's offset from UTC, in seconds east.

use vstd::prelude::*;

verus! {

/// Seconds in one calendar day.
pub const SECONDS_PER_DAY: i64 = 86_400;

/// The calendar day on which the instant `seconds` falls.
pub open spec fn day_of(seconds: int) -> int {
    seconds / 86_400
}

/// Seconds elapsed since midnight at the instant `seconds`.
pub open spec fn second_of_day(seconds: int) -> int {
    seconds % 86_400
}

/// The instant at which the calendar day `day` begins.
pub open spec fn start_of_day(day: int) -> int {
    day * 86_400
}

/// A day begins on itself.
pub proof fn lemma_day_of_start(day: int)
    ensures
        day_of(start_of_day(day)) == day,
{
    assert((day * 86_400) / 86_400 == day) by (nonlinear_arith);
}

/// Splits a count of seconds into whole days, rounded towards the past, and
/// the seconds left over.
fn split_seconds(seconds: i128) -> (parts: (i64, u32))
    requires
        -0x1_0000_0000_0000_0000 <= seconds <= 0x1_0000_0000_0000_0000,
    ensures
        parts.0 == day_of(seconds as int),
        parts.1 == second_of_day(seconds as int),
{
    if seconds >= 0 {
        let ahead: u128 = seconds as u128;
        let whole: u128 = ahead / 86_400;
        let rest: u128 = ahead % 86_400;
        (whole as i64, rest as u32)
    } else {
        let behind: u128 = (-(seconds + 1)) as u128;
        let whole: u128 = behind / 86_400;
        let rest: u128 = behind % 86_400;
        assert((seconds as int) / 86_400 == -(whole as int) - 1 && (seconds as int) % 86_400
            == 86_399 - rest) by (nonlinear_arith)
            requires
                seconds as int == -(behind as int) - 1,
                whole as int == (behind as int) / 86_400,
                rest as int == (behind as int) % 86_400,
        ;
        (-(whole as i64) - 1, (86_399 - rest) as u32)
    }
}

/// The calendar day, in UTC, on which the instant `seconds` falls.
pub fn day_number(seconds: i64) -> (day: i64)
    ensures
        day == day_of(seconds as int),
{
    split_seconds(seconds as i128).0
}

/// The instant at which the calendar day `day` begins in UTC.
pub fn midnight(day: i32) -> (seconds: i64)
    ensures
        seconds == start_of_day(day as int),
{
    (day as i64) * SECONDS_PER_DAY
}

/// An instant as a clock in some time zone shows it.
#[derive(Debug, Clone, Copy)]
pub struct ZonedTime {
    /// The instant, in seconds since 1970-01-01T00:00:00Z.
    pub timestamp: i64,
    /// What the zone's clocks are ahead of UTC, in seconds.
    pub offset: i32,
}

impl ZonedTime {
    /// The reading of the zone's clock, as seconds since the zone's own
    /// 1970-01-01T00:00:00.
    pub open spec fn local_seconds(self) -> int {
        self.timestamp + self.offset
    }

    /// The calendar day that the zone's clock shows.
    pub open spec fn local_day(self) -> int {
        day_of(self.local_seconds())
    }

    /// The time of day that the zone's clock shows, in seconds since
    /// midnight.
    pub open spec fn local_second_of_day(self) -> int {
        second_of_day(self.local_seconds())
    }

    /// The instant `timestamp` as seen `offset` seconds east of UTC.
    pub fn new(timestamp: i64, offset: i32) -> (time: Self)
        ensures
            time.timestamp == timestamp,
            time.offset == offset,
    {
        ZonedTime { timestamp: timestamp, offset: offset }
    }

    /// The instant `timestamp` as seen in UTC.
    pub fn utc(timestamp: i64) -> (time: Self)
        ensures
            time.timestamp == timestamp,
            time.offset == 0,
    {
        ZonedTime { timestamp: timestamp, offset: 0 }
    }

    /// The calendar day that the zone's clock shows.
    pub fn date_naive(&self) -> (day: i64)
        ensures
            day == self.local_day(),
    {
        split_seconds(self.timestamp as i128 + self.offset as i128).0
    }

    /// The time of day that the zone's clock shows, in seconds since
    /// midnight.
    pub fn time(&self) -> (second: u32)
        ensures
            second == self.local_second_of_day(),
            second < 86_400,
    {
        split_seconds(self.timestamp as i128 + self.offset as i128).1
    }
}

/// The current instant, in whole seconds since 1970-01-01T00:00:00Z, as
/// `chrono::Utc::now` reads it from the system clock. Nothing is promised of
/// the value: two readings may differ in either direction. chrono gives up
/// the whole program where the system clock is set before 1970.
#[verifier::external_body]
pub(crate) fn utc_now() -> (now: i64) {
    chrono::Utc::now().timestamp()
}

/// The text that chrono prints for the UTC calendar date of the instant
/// `timestamp` (`NaiveDate`'s `Display`), or `None` where chrono has no date
/// for that instant.
pub uninterp spec fn calendar_date_text(timestamp: int) -> Option<Seq<char>>;

/// Prints the UTC calendar date of `timestamp` with chrono:
/// `DateTime::from_timestamp`, then `date_naive` and the date's `Display`.
/// The result is `None` exactly where `from_timestamp` is; the contract
/// only gives the printed text its name.
#[verifier::external_body]
pub(crate) fn format_date(timestamp: i64) -> (text: Option<String>)
    ensures
        match text {
            Some(t) => calendar_date_text(timestamp as int) == Some(t@),
            None => calendar_date_text(timestamp as int) is None,
        },
{
    match chrono::DateTime::from_timestamp(timestamp, 0) {
        Some(instant) => Some(instant.date_naive().to_string()),
        None => None,
    }
}

/// The RFC 3339 text that chrono writes for the instant `timestamp` seen
/// `offset` seconds east of UTC, or `None` where chrono has no such instant
/// or no such offset.
pub uninterp spec fn rfc3339_text(timestamp: int, offset: int) -> Option<Seq<char>>;

/// Writes an instant in RFC 3339 with chrono's `DateTime::to_rfc3339`, after
/// building the value with `DateTime::from_timestamp` and
/// `FixedOffset::east_opt`. The result is `None` exactly where one of those
/// two is; the contract only gives the written text its name.
#[verifier::external_body]
pub(crate) fn format_rfc3339(timestamp: i64, offset: i32) -> (text: Option<String>)
    ensures
        match text {
            Some(t) => rfc3339_text(timestamp as int, offset as int) == Some(t@),
            None => rfc3339_text(timestamp as int, offset as int) is None,
        },
{
    match (chrono::DateTime::from_timestamp(timestamp, 0), chrono::FixedOffset::east_opt(offset)) {
        (Some(instant), Some(zone)) => Some(instant.with_timezone(&zone).to_rfc3339()),
        _ => None,
    }
}

/// The instant and offset that chrono reads from the RFC 3339 text `text`,
/// the instant cut to whole seconds, or `None` where chrono rejects the
/// text.
pub uninterp spec fn rfc3339_value(text: Seq<char>) -> Option<(int, int)>;

/// Reads an instant from RFC 3339 text with chrono's
/// `DateTime::parse_from_rfc3339`. The result is `None` exactly where chrono
/// reports an error; the contract only gives what was read its name.
#[verifier::external_body]
pub(crate) fn parse_rfc3339(text: &str) -> (time: Option<ZonedTime>)
    ensures
        match time {
            Some(t) => rfc3339_value(text@) == Some((t.timestamp as int, t.offset as int)),
            None => rfc3339_value(text@) is None,
        },
{
    match chrono::DateTime::parse_from_rfc3339(text) {
        Ok(read) => Some(
            ZonedTime { timestamp: read.timestamp(), offset: read.offset().local_minus_utc() },
        ),
        Err(_) => None,
    }
}

} // verus!
