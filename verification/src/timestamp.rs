//! Reading date-time and time-of-day tokens, and placing a time of day on the
//! calendar date of an anchor instant. All instants are milliseconds since the
//! Unix epoch, in UTC.

use chrono::DateTime;
use chrono::NaiveTime;
use chrono::TimeZone;
use chrono::Timelike;
use chrono::Utc;
use vstd::prelude::*;

verus! {

/// The format of a header's date-time token, `YYYYMMDD-HH:MM:SS.mmm`.
pub const DATETIME_FORMAT: &'static str = "%Y%m%d-%H:%M:%S%.3f";

/// The format of a record's time-of-day token, `HH:MM:SS.mmm`.
pub const TIME_FORMAT: &'static str = "%H:%M:%S%.3f";

/// Milliseconds in a day.
pub const DAY_MILLIS: i64 = 86_400_000;

/// The earliest instant that has a calendar date: the start of the year -262143.
pub const EARLIEST_MILLIS: i64 = -8_334_601_228_800_000;

/// The latest instant that has a calendar date: the end of the year 262142.
pub const LATEST_MILLIS: i64 = 8_210_266_876_799_999;

/// `chrono::format::ParseError`, carried from the calls that read tokens to the
/// code that turns it into an error of this crate. Nothing is known of its inside.
#[verifier::external_type_specification]
#[verifier::external_body]
pub struct ExParseError(chrono::format::ParseError);

/// The instant that a date-time token denotes under a format, if it matches it.
pub uninterp spec fn datetime_millis(token: Seq<u8>, format: Seq<char>) -> Option<i64>;

/// The time of day that a token denotes under a format, if it matches it: the
/// seconds since midnight and the nanoseconds since that second.
pub uninterp spec fn time_of_day(token: Seq<u8>, format: Seq<char>) -> Option<(u32, u32)>;

/// Whether seconds since midnight and nanoseconds form a time of day. A leap
/// second is written as the last second of a minute with a billion nanoseconds
/// or more.
pub open spec fn is_time_of_day(seconds: u32, nanos: u32) -> bool {
    &&& seconds < 86_400
    &&& nanos < 2_000_000_000
    &&& (nanos >= 1_000_000_000 ==> seconds % 60 == 59)
}

/// The first instant of the day that `anchor` lies in.
pub open spec fn day_start(anchor: i64) -> int {
    (anchor as int / DAY_MILLIS as int) * DAY_MILLIS as int
}

/// The instant at the given time of day on the calendar date of `anchor`, where
/// the anchor has a calendar date and the time of day is one.
pub open spec fn on_date_of(anchor: i64, seconds: u32, nanos: u32) -> Option<i64> {
    if EARLIEST_MILLIS <= anchor <= LATEST_MILLIS && is_time_of_day(seconds, nanos) {
        Some((day_start(anchor) + seconds * 1000 + nanos / 1_000_000) as i64)
    } else {
        None
    }
}

/// Calls `chrono::TimeZone::datetime_from_str` on `Utc` and takes the result's
/// `timestamp_millis`. Trusted: the outcome is a function of the token's bytes and
/// the format alone, named `datetime_millis`. Bytes that are not UTF-8 are
/// replaced before the call.
#[verifier::external_body]
#[allow(deprecated)]
fn parse_datetime(token: &[u8], format: &str) -> (r: Result<i64, chrono::format::ParseError>)
    ensures
        match r {
            Ok(ms) => datetime_millis(token@, format@) == Some(ms),
            Err(_) => datetime_millis(token@, format@) is None,
        },
{
    let text = String::from_utf8_lossy(token);
    match Utc.datetime_from_str(&text, format) {
        Ok(instant) => Ok(instant.timestamp_millis()),
        Err(e) => Err(e),
    }
}

/// Calls `chrono::NaiveTime::parse_from_str` and takes the result's
/// `num_seconds_from_midnight` and `nanosecond`. Trusted: the outcome is a function
/// of the token's bytes and the format alone, named `time_of_day`. Bytes that are
/// not UTF-8 are replaced before the call.
#[verifier::external_body]
fn parse_time_of_day(token: &[u8], format: &str) -> (r: Result<(u32, u32), chrono::format::ParseError>)
    ensures
        match r {
            Ok(t) => time_of_day(token@, format@) == Some(t),
            Err(_) => time_of_day(token@, format@) is None,
        },
{
    let text = String::from_utf8_lossy(token);
    match NaiveTime::parse_from_str(&text, format) {
        Ok(t) => Ok((t.num_seconds_from_midnight(), t.nanosecond())),
        Err(e) => Err(e),
    }
}

/// Calls `chrono::DateTime::from_timestamp_millis`,
/// `chrono::NaiveTime::from_num_seconds_from_midnight_opt`, and on the date of the
/// first `and_time` with the second, then `timestamp_millis`. Trusted: the two
/// constructors succeed exactly on instants between `EARLIEST_MILLIS` and
/// `LATEST_MILLIS` and on times of day, and the result counts whole days up to the
/// anchor's date plus the time of day, in milliseconds.
#[verifier::external_body]
fn place_on_date(anchor: i64, seconds: u32, nanos: u32) -> (r: Option<i64>)
    ensures
        r == on_date_of(anchor, seconds, nanos),
{
    let base = DateTime::from_timestamp_millis(anchor)?;
    let time = NaiveTime::from_num_seconds_from_midnight_opt(seconds, nanos)?;
    Some(base.date_naive().and_time(time).and_utc().timestamp_millis())
}

/// Calls `chrono::Utc::now` and takes its `timestamp_millis`. Nothing is claimed of
/// the result: it is the clock's.
#[verifier::external_body]
pub(crate) fn now_millis() -> i64 {
    Utc::now().timestamp_millis()
}

/// The anchor that a header's date-time token sets.
pub open spec fn header_anchor(token: Seq<u8>) -> Option<i64> {
    datetime_millis(token, DATETIME_FORMAT@)
}

/// The instant that a record's time-of-day token denotes on the date of `anchor`.
/// There is none where the token is no time of day, or the anchor has no calendar
/// date.
pub open spec fn record_instant(anchor: i64, token: Seq<u8>) -> Option<i64> {
    match time_of_day(token, TIME_FORMAT@) {
        Some(t) => on_date_of(anchor, t.0, t.1),
        None => None,
    }
}

/// Reads a header's date-time token.
pub fn read_header_anchor(token: &[u8]) -> (r: Option<i64>)
    ensures
        r == header_anchor(token@),
{
    match parse_datetime(token, DATETIME_FORMAT) {
        Ok(ms) => Some(ms),
        Err(_) => None,
    }
}

/// Places an already read time of day on the date of `anchor`.
pub fn resolve(anchor: i64, seconds: u32, nanos: u32) -> (r: Option<i64>)
    ensures
        r == on_date_of(anchor, seconds, nanos),
{
    place_on_date(anchor, seconds, nanos)
}

/// Reads a record's time-of-day token and places it on the date of `anchor`.
pub fn read_record_instant(anchor: i64, token: &[u8]) -> (r: Option<i64>)
    ensures
        r == record_instant(anchor, token@),
{
    match parse_time_of_day(token, TIME_FORMAT) {
        Ok(t) => resolve(anchor, t.0, t.1),
        Err(_) => None,
    }
}

/// An instant placed on an anchor's date lies in the anchor's day, or, for a leap
/// second, in the first second after it.
pub proof fn lemma_same_day(anchor: i64, seconds: u32, nanos: u32)
    requires
        on_date_of(anchor, seconds, nanos) is Some,
    ensures
        day_start(anchor) <= on_date_of(anchor, seconds, nanos).unwrap() < day_start(anchor)
            + DAY_MILLIS + 1000,
        nanos < 1_000_000_000 ==> on_date_of(anchor, seconds, nanos).unwrap() < day_start(anchor)
            + DAY_MILLIS,
        day_start(anchor) <= anchor < day_start(anchor) + DAY_MILLIS,
{
    let a = anchor as int;
    let d = DAY_MILLIS as int;
    assert(a == d * (a / d) + a % d && 0 <= a % d < d) by (nonlinear_arith)
        requires
            d == 86_400_000,
    ;
    assert((a / d) * d == d * (a / d)) by (nonlinear_arith);
    assert(-8_334_601_228_800_000 - 86_400_000 <= day_start(anchor) <= 8_210_266_876_799_999);
}

} // verus!
