//! Days and points in time, as Unix seconds and as text.

use chrono::{Datelike, TimeZone};
use vstd::prelude::*;

verus! {

/// The day that a text names under a `chrono` format, counted from the first
/// day of the year 1, which is day 1, or the words in which `chrono` says that
/// it names none.
pub uninterp spec fn day_in(text: Seq<char>, format: Seq<char>) -> Result<i32, Seq<char>>;

/// The view of what a reader of days gave: a day, or words.
pub open spec fn day_or_words(r: Result<i32, String>) -> Result<i32, Seq<char>> {
    match r {
        Ok(day) => Ok(day),
        Err(words) => Err(words@),
    }
}

/// `chrono::NaiveDate::parse_from_str`, its date taken by
/// `Datelike::num_days_from_ce`, and its error by the text that it displays.
#[verifier::external_body]
fn parse_day(text: &str, format: &str) -> (r: Result<i32, String>)
    ensures
        day_or_words(r) == day_in(text@, format@),
{
    let date = chrono::NaiveDate::parse_from_str(text, format).map_err(|e| e.to_string())?;
    Ok(date.num_days_from_ce())
}

/// The date of a point in time under a `chrono` format, in UTC. There is none
/// for a point that `chrono` cannot represent.
pub uninterp spec fn date_at(seconds: i64, format: Seq<char>) -> Option<Seq<char>>;

/// `chrono::DateTime::from_timestamp`, its result written with
/// `DateTime::format`. A format with an unknown specifier would panic.
#[verifier::external_body]
fn format_at(seconds: i64, format: &str) -> (text: Option<String>)
    requires
        format@ == DATE_FORMAT@,
    ensures
        crate::text::opt_text(text) == date_at(seconds, format@),
{
    chrono::DateTime::from_timestamp(seconds, 0).map(|time| time.format(format).to_string())
}

/// A point in time as RFC 3339 has it, in UTC. There is none for a point that
/// `chrono` cannot represent.
pub uninterp spec fn rfc3339_at(seconds: i64) -> Option<Seq<char>>;

/// `chrono::TimeZone::timestamp_opt` for UTC, its result written with
/// `DateTime::to_rfc3339`.
#[verifier::external_body]
fn rfc3339(seconds: i64) -> (text: Option<String>)
    ensures
        crate::text::opt_text(text) == rfc3339_at(seconds),
{
    chrono::Utc.timestamp_opt(seconds, 0).single().map(|time| time.to_rfc3339())
}

/// Year, month and day.
pub const DATE_FORMAT: &'static str = "%Y-%m-%d";

/// The day on which Unix time begins.
pub const EPOCH_DAY: i32 = 719163;

/// The last second of a day.
pub open spec fn last_second_of(day: int) -> int {
    (day - EPOCH_DAY) * 86400 + 86399
}

/// The last second of the day that a text names, in UTC.
pub fn end_of_day(text: &str) -> (r: Result<i64, String>)
    ensures
        match day_in(text@, DATE_FORMAT@) {
            Ok(day) => r matches Ok(t) && t == last_second_of(day as int),
            Err(words) => r matches Err(e) && e@ == words,
        },
{
    match parse_day(text, DATE_FORMAT) {
        Ok(day) => Ok(last_second(day)),
        Err(words) => Err(words),
    }
}

/// The last second of a day.
pub fn last_second(day: i32) -> (t: i64)
    ensures
        t == last_second_of(day as int),
{
    (day as i64 - EPOCH_DAY as i64) * 86400 + 86399
}

/// A license that runs to the end of a day is valid all of that day, and not a
/// second of the next.
pub proof fn lemma_last_second_is_on_the_day(day: int, t: int)
    requires
        (day - EPOCH_DAY) * 86400 <= t < (day + 1 - EPOCH_DAY) * 86400,
    ensures
        t <= last_second_of(day),
        last_second_of(day) < (day + 1 - EPOCH_DAY) * 86400,
        last_second_of(day) + 1 == (day + 1 - EPOCH_DAY) * 86400,
{
}

/// The date of a point in time.
pub fn date_of(seconds: i64) -> (text: Option<String>)
    ensures
        crate::text::opt_text(text) == date_at(seconds, DATE_FORMAT@),
{
    format_at(seconds, DATE_FORMAT)
}

/// A point in time as RFC 3339 has it.
pub fn time_of(seconds: i64) -> (text: Option<String>)
    ensures
        crate::text::opt_text(text) == rfc3339_at(seconds),
{
    rfc3339(seconds)
}

/// Unix time begins with the first of its days, and each day ends a day of
/// seconds after the one before it.
pub proof fn lemma_days_follow_each_other(day: int)
    ensures
        last_second_of(719163) == 86399,
        last_second_of(day + 1) == last_second_of(day) + 86400,
        last_second_of(day) == (day - 719163) * 86400 + 86399,
{
}

} // verus!
