//! Calendar dates, parsed and printed by the `chrono` crate.

use vstd::prelude::*;

use chrono::Datelike;

verus! {

/// What `chrono::NaiveDate::parse_from_str` gives for a text and a format:
/// the year, month and day of the date, or the text of its error.
pub uninterp spec fn parsed_date(text: Seq<char>, fmt: Seq<char>) -> Result<(int, int, int), Seq<char>>;

/// What `chrono::NaiveDate` prints (`Display`) for a date.
pub uninterp spec fn date_text(year: int, month: int, day: int) -> Seq<char>;

/// The views of a parsed date or its error.
pub open spec fn ymd_view(r: Result<(i32, u32, u32), String>) -> Result<(int, int, int), Seq<char>> {
    match r {
        Ok((y, m, d)) => Ok((y as int, m as int, d as int)),
        Err(e) => Err(e@),
    }
}

/// Whether `year` is a leap year of the proleptic Gregorian calendar.
pub open spec fn is_leap(year: int) -> bool {
    year % 4 == 0 && (year % 100 != 0 || year % 400 == 0)
}

/// The number of days of a month.
pub open spec fn days_in_month(year: int, month: int) -> int {
    if month == 2 {
        if is_leap(year) { 29 } else { 28 }
    } else if month == 4 || month == 6 || month == 9 || month == 11 {
        30
    } else {
        31
    }
}

/// The dates that `chrono::NaiveDate` can hold.
pub open spec fn valid_ymd(year: int, month: int, day: int) -> bool {
    &&& -262143 <= year <= 262142
    &&& 1 <= month <= 12
    &&& 1 <= day <= days_in_month(year, month)
}

/// Whether date `a` comes before date `b`.
pub open spec fn date_before(a: (int, int, int), b: (int, int, int)) -> bool {
    a.0 < b.0 || (a.0 == b.0 && (a.1 < b.1 || (a.1 == b.1 && a.2 < b.2)))
}

/// Calls `chrono::NaiveDate::parse_from_str`, giving the year, month and
/// day of the date, or the text of the error.
#[verifier::external_body]
pub(crate) fn parse_date(text: &str, fmt: &str) -> (r: Result<(i32, u32, u32), String>)
    ensures
        ymd_view(r) == parsed_date(text@, fmt@),
{
    match chrono::NaiveDate::parse_from_str(text, fmt) {
        Ok(d) => Ok((d.year(), d.month(), d.day())),
        Err(e) => Err(e.to_string()),
    }
}

/// Reads the clock with `std::time::SystemTime::elapsed` from the Unix
/// epoch: the whole seconds since then, or none when the clock is set
/// before it. Which moment it gives depends on the clock, so nothing more
/// is said.
#[verifier::external_body]
fn seconds_since_epoch() -> Option<u64> {
    std::time::UNIX_EPOCH.elapsed().ok().map(|d| d.as_secs())
}

/// The UTC date (year, month, day) at a moment given in whole seconds since
/// the Unix epoch, as `chrono::DateTime::from_timestamp` and `date_naive`
/// give it; none when `chrono` cannot hold the moment.
pub uninterp spec fn timestamp_date(secs: int) -> Option<(int, int, int)>;

/// Calls `chrono::DateTime::from_timestamp` and takes the date: one that
/// `NaiveDate` can hold.
#[verifier::external_body]
fn date_of_timestamp(secs: i64) -> (r: Option<(i32, u32, u32)>)
    ensures
        match r {
            Some(t) => timestamp_date(secs as int) == Some((t.0 as int, t.1 as int, t.2 as int))
                && valid_ymd(t.0 as int, t.1 as int, t.2 as int),
            None => timestamp_date(secs as int) is None,
        },
{
    match chrono::DateTime::from_timestamp(secs, 0) {
        Some(t) => Some((t.date_naive().year(), t.date_naive().month(), t.date_naive().day())),
        None => None,
    }
}

/// Today's UTC date, read from the clock; none when the clock is set before
/// the Unix epoch or beyond what `chrono` can hold.
pub(crate) fn today() -> (r: Option<(i32, u32, u32)>)
    ensures
        r matches Some(t) ==> valid_ymd(t.0 as int, t.1 as int, t.2 as int),
{
    let secs = match seconds_since_epoch() {
        Some(s) => s,
        None => return None,
    };
    if secs > 9223372036854775807u64 {
        return None;
    }
    date_of_timestamp(secs as i64)
}

/// Prints a date as `chrono::NaiveDate` does (the same as the format
/// `%Y-%m-%d`).
#[verifier::external_body]
pub(crate) fn print_date(year: i32, month: u32, day: u32) -> (r: String)
    requires
        valid_ymd(year as int, month as int, day as int),
    ensures
        r@ == date_text(year as int, month as int, day as int),
{
    chrono::NaiveDate::from_ymd_opt(year, month, day).unwrap().to_string()
}

} // verus!
