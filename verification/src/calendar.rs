//! Points in time without a time zone, parsed and formatted by the `chrono` crate.

use std::fmt::Write;

use vstd::prelude::*;

verus! {

/// A point in time: whole seconds since 1970-01-01 00:00:00 and the nanoseconds within the
/// second. In a leap second the nanoseconds reach past one second.
#[derive(Debug, Clone, Copy, PartialEq, Eq, Structural)]
pub struct DateTime {
    pub secs: i64,
    pub nanos: u32,
}

/// What `NaiveDateTime::parse_from_str` reads from the text under the format, as the
/// seconds and nanoseconds of a point in time.
pub uninterp spec fn chrono_parse_datetime(text: Seq<char>, fmt: Seq<char>) -> Option<(i64, u32)>;

/// What `NaiveDate::parse_from_str` reads from the text under the format, as the number of days
/// since 0000-12-31.
pub uninterp spec fn chrono_parse_date(text: Seq<char>, fmt: Seq<char>) -> Option<i32>;

/// What `NaiveDateTime::format` writes for the point in time under the format; `None` where
/// writing fails, or where the pair is no point in time.
pub uninterp spec fn chrono_format(secs: i64, nanos: u32, fmt: Seq<char>) -> Option<Seq<char>>;

/// What `NaiveDateTime` shows of itself under `Debug`; `None` where the pair is no point in time.
pub uninterp spec fn chrono_debug(secs: i64, nanos: u32) -> Option<Seq<char>>;

/// The point in time that a pair of seconds and nanoseconds stands for.
pub open spec fn from_parts(parts: Option<(i64, u32)>) -> Option<DateTime> {
    match parts {
        Some((secs, nanos)) => Some(DateTime { secs, nanos }),
        None => None,
    }
}

/// `chrono::NaiveDateTime::parse_from_str`, its answer named `chrono_parse_datetime`.
#[verifier::external_body]
pub(crate) fn parse_datetime(text: &str, fmt: &str) -> (r: Option<DateTime>)
    ensures
        r == from_parts(chrono_parse_datetime(text@, fmt@)),
{
    match chrono::NaiveDateTime::parse_from_str(text, fmt) {
        Ok(dt) => {
            let utc = dt.and_utc();
            Some(DateTime { secs: utc.timestamp(), nanos: utc.timestamp_subsec_nanos() })
        },
        Err(_) => None,
    }
}

/// `chrono::NaiveDate::parse_from_str`, its answer named `chrono_parse_date`. A date of that
/// crate lies within 262143 years of year zero, so fewer than 100 million days from it.
#[verifier::external_body]
pub(crate) fn parse_date(text: &str, fmt: &str) -> (r: Option<i32>)
    ensures
        r == chrono_parse_date(text@, fmt@),
{
    match chrono::NaiveDate::parse_from_str(text, fmt) {
        Ok(date) => Some(chrono::Datelike::num_days_from_ce(&date)),
        Err(_) => None,
    }
}

/// `chrono::NaiveDateTime::format`, written out; the text is named `chrono_format`.
#[verifier::external_body]
pub(crate) fn format_datetime(at: DateTime, fmt: &str) -> (r: Option<String>)
    ensures
        r is Some <==> chrono_format(at.secs, at.nanos, fmt@) is Some,
        r matches Some(s) ==> s@ == chrono_format(at.secs, at.nanos, fmt@)->0,
{
    let dt = chrono::DateTime::from_timestamp(at.secs, at.nanos)?.naive_utc();
    let mut out = String::new();
    write!(out, "{}", dt.format(fmt)).ok()?;
    Some(out)
}

/// The `Debug` text of a `chrono::NaiveDateTime`, named `chrono_debug`.
#[verifier::external_body]
pub(crate) fn debug_datetime(at: DateTime) -> (r: Option<String>)
    ensures
        r is Some <==> chrono_debug(at.secs, at.nanos) is Some,
        r matches Some(s) ==> s@ == chrono_debug(at.secs, at.nanos)->0,
{
    let dt = chrono::DateTime::from_timestamp(at.secs, at.nanos)?.naive_utc();
    Some(format!("{dt:?}"))
}

/// The layout in which points in time are read and shown.
pub const DATETIME_LAYOUT: &'static str = "%Y-%m-%d %H:%M:%S";

/// Days from 0000-12-31 to 1970-01-01.
pub const UNIX_EPOCH_DAY: i64 = 719_163;

/// Seconds in a day.
pub const DAY_SECS: i64 = 86_400;

/// Midnight at the start of the day with this number.
pub open spec fn midnight_of(day: i32) -> DateTime {
    DateTime { secs: ((day - UNIX_EPOCH_DAY) * DAY_SECS) as i64, nanos: 0 }
}

/// Midnight at the start of the day with this number.
pub fn midnight(day: i32) -> (r: DateTime)
    ensures
        r == midnight_of(day),
        r.secs == (day - UNIX_EPOCH_DAY) * DAY_SECS,
{
    DateTime { secs: (day as i64 - UNIX_EPOCH_DAY) * DAY_SECS, nanos: 0 }
}

/// Each day starts 24 hours after the one before, on the second, and the first of January 1970,
/// which is day 719163, at second zero.
pub proof fn lemma_days_are_a_day_apart(day: i32)
    requires
        day < i32::MAX,
    ensures
        midnight_of((day + 1) as i32).secs - midnight_of(day).secs == 24 * 60 * 60,
        midnight_of(719_163) == (DateTime { secs: 0, nanos: 0 }),
        midnight_of(day).nanos == 0,
{
}

} // verus!
