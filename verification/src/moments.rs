//! Moments and dates, and how they are written.

use chrono::Datelike;
use vstd::prelude::*;
use crate::format::{decimal, two_digits};

verus! {

/// A point in time, seen from an offset.
#[derive(Debug, Clone, Copy, PartialEq, Eq, Structural)]
pub struct Moment {
    /// Seconds since 1970 in UTC.
    pub seconds: i64,
    pub nanos: u32,
    /// Seconds east of UTC.
    pub offset: i32,
}

/// A calendar date.
#[derive(Debug, Clone, Copy, PartialEq, Eq, Structural)]
pub struct Date {
    pub year: i32,
    pub month: u32,
    pub day: u32,
}

/// Whether `a` is earlier than `b`; an unknown moment is earlier than any.
pub open spec fn earlier(a: Option<Moment>, b: Option<Moment>) -> bool {
    match (a, b) {
        (None, Some(_)) => true,
        (Some(m), Some(n)) => m.seconds < n.seconds || (m.seconds == n.seconds && m.nanos < n.nanos),
        _ => false,
    }
}

/// Whether `a` is earlier than `b`.
pub fn is_earlier(a: Option<Moment>, b: Option<Moment>) -> (yes: bool)
    ensures
        yes == earlier(a, b),
{
    match (a, b) {
        (None, Some(_)) => true,
        (Some(m), Some(n)) => m.seconds < n.seconds || (m.seconds == n.seconds && m.nanos
            < n.nanos),
        _ => false,
    }
}

/// A moment as text, by a pattern; `None` where there is no such moment.
pub uninterp spec fn moment_text(seconds: i64, offset: i32, pattern: Seq<char>) -> Option<
    Seq<char>,
>;

/// Whether a pattern is one that moments are written by.
pub open spec fn is_moment_pattern(pattern: Seq<char>) -> bool {
    pattern == "%Y-%m-%d-%H%M"@ || pattern == "%Y-%m-%d %H:%M"@
}

/// `chrono`'s `DateTime::format`, on the moment that `DateTime::from_timestamp`
/// and `FixedOffset::east_opt` give: the text depends on the seconds, the
/// offset and the pattern alone, and is named `moment_text`; it is `None` where
/// the seconds or the offset are out of chrono's range.
#[verifier::external_body]
pub(crate) fn format_moment(seconds: i64, offset: i32, pattern: &str) -> (text: Option<String>)
    requires
        is_moment_pattern(pattern@),
    ensures
        match text {
            Some(t) => moment_text(seconds, offset, pattern@) == Some(t@),
            None => moment_text(seconds, offset, pattern@) is None,
        },
{
    let zone = chrono::FixedOffset::east_opt(offset)?;
    let moment = chrono::DateTime::from_timestamp(seconds, 0)?.with_timezone(&zone);
    Some(moment.format(pattern).to_string())
}

/// A date as text, by a pattern; `None` where there is no such date.
pub uninterp spec fn date_text(year: i32, month: u32, day: u32, pattern: Seq<char>) -> Option<
    Seq<char>,
>;

/// Whether a pattern is one that dates are written by.
pub open spec fn is_date_pattern(pattern: Seq<char>) -> bool {
    pattern == "%Y-%m-%d"@ || pattern == "%A, %-d %B %Y"@
}

/// A date of four-digit year as text: year, month and day, with dashes.
pub open spec fn plain_date(year: i32, month: u32, day: u32) -> Seq<char> {
    decimal(year as nat) + seq!['-'] + two_digits(month as nat) + seq!['-'] + two_digits(
        day as nat,
    )
}

/// `chrono`'s `NaiveDate::format`, on the date that `NaiveDate::from_ymd_opt`
/// gives: the text depends on the date and the pattern alone, and is named
/// `date_text`; it is `None` where there is no such date. Of a date with a year
/// of four digits, and a day that every month has, the first pattern gives year,
/// month and day with dashes.
#[verifier::external_body]
pub(crate) fn format_date(year: i32, month: u32, day: u32, pattern: &str) -> (text: Option<String>)
    requires
        is_date_pattern(pattern@),
    ensures
        match text {
            Some(t) => date_text(year, month, day, pattern@) == Some(t@),
            None => date_text(year, month, day, pattern@) is None,
        },
        pattern@ == "%Y-%m-%d"@ && 1000 <= year <= 9999 && 1 <= month <= 12 && 1 <= day <= 28
            ==> text is Some && text->0@ == plain_date(year, month, day),
{
    let date = chrono::NaiveDate::from_ymd_opt(year, month, day)?;
    Some(date.format(pattern).to_string())
}

/// The year and the number of the ISO 8601 week that a date lies in; `None`
/// where there is no such date.
pub uninterp spec fn iso_week_of(year: i32, month: u32, day: u32) -> Option<(i32, u32)>;

/// `chrono`'s `Datelike::iso_week`, on the date that `NaiveDate::from_ymd_opt`
/// gives: the week depends on the date alone, and is named `iso_week_of`; its
/// number is from 1 to 53, and its year at most one away from the date's.
#[verifier::external_body]
pub(crate) fn iso_week(year: i32, month: u32, day: u32) -> (week: Option<(i32, u32)>)
    ensures
        week == iso_week_of(year, month, day),
        week matches Some((y, w)) ==> 1 <= w <= 53 && year - 1 <= y <= year + 1,
{
    let week = chrono::NaiveDate::from_ymd_opt(year, month, day)?.iso_week();
    Some((week.year(), week.week()))
}

/// The moment that an RFC 3339 timestamp names: seconds and nanoseconds since
/// 1970 in UTC, and seconds east of UTC.
pub uninterp spec fn rfc3339(text: Seq<char>) -> Option<(i64, u32, i32)>;

/// `chrono`'s `DateTime::parse_from_rfc3339`: what it gives depends on the text
/// alone, and is named `rfc3339`.
#[verifier::external_body]
pub(crate) fn parse_rfc3339(text: &str) -> (found: Option<(i64, u32, i32)>)
    ensures
        found == rfc3339(text@),
{
    let moment = chrono::DateTime::parse_from_rfc3339(text).ok()?;
    let offset = moment.offset().local_minus_utc();
    Some((moment.timestamp(), moment.timestamp_subsec_nanos(), offset))
}

} // verus!
