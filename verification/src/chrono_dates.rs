//! The date operations that chrono performs for the library: building a date,
//! its day of the week, moving it by a number of days, and parsing one.
use vstd::prelude::*;
use chrono::Datelike;
use std::str::FromStr;
use crate::calendar::{day_number_in_range, is_valid_ymd, weekday_index, Date, Weekday};

verus! {

/// What chrono's `NaiveDate::parse_from_str` gives for a text and a format,
/// as (year, month, day).
pub uninterp spec fn chrono_parse_date(text: Seq<char>, format: Seq<char>) -> Option<(i32, u32, u32)>;

/// Calls `chrono::NaiveDate::from_ymd_opt`. Claimed: it returns the date exactly
/// when year, month and day name an existing day of the proleptic Gregorian
/// calendar between `NaiveDate::MIN` (-262143-01-01) and `NaiveDate::MAX`
/// (262142-12-31), and the returned date has those year, month and day.
#[verifier::external_body]
pub(crate) fn naive_from_ymd(year: i32, month: u32, day: u32) -> (r: Option<Date>)
    ensures
        r == (if is_valid_ymd(year as int, month as int, day as int) {
            Some(Date { year, month, day })
        } else {
            None
        }),
{
    chrono::NaiveDate::from_ymd_opt(year, month, day).map(
        |d| Date { year: d.year(), month: d.month(), day: d.day() },
    )
}

/// Calls chrono's `Datelike::weekday` (and `Weekday::num_days_from_monday`) on
/// the date. Claimed: the result is the position in the week, from Monday (0),
/// of the date in the proleptic Gregorian calendar, where 1 January of year 1
/// (day 1 of `num_days_from_ce`) is a Monday.
#[verifier::external_body]
pub(crate) fn naive_weekday_index(date: &Date) -> (r: u32)
    requires
        date.is_valid(),
    ensures
        r == weekday_index(date.year as int, date.month as int, date.day as int),
{
    chrono::NaiveDate::from_ymd_opt(date.year, date.month, date.day).unwrap().weekday().num_days_from_monday()
}

/// Calls `NaiveDate - chrono::Duration::days(days)`. Claimed: when the result
/// lies between `NaiveDate::MIN` and `NaiveDate::MAX` (so that neither
/// `Duration::days` nor the subtraction panics), it is the date `days` days
/// earlier.
#[verifier::external_body]
pub(crate) fn naive_minus_days(date: &Date, days: i64) -> (r: Date)
    requires
        date.is_valid(),
        day_number_in_range(date.number() - days),
    ensures
        r.is_valid(),
        r.number() == date.number() - days,
{
    let d = chrono::NaiveDate::from_ymd_opt(date.year, date.month, date.day).unwrap()
        - chrono::Duration::days(days);
    Date { year: d.year(), month: d.month(), day: d.day() }
}

/// Calls `NaiveDate + chrono::Duration::days(days)`. Claimed: when the result
/// lies between `NaiveDate::MIN` and `NaiveDate::MAX` (so that neither
/// `Duration::days` nor the addition panics), it is the date `days` days later.
#[verifier::external_body]
pub(crate) fn naive_plus_days(date: &Date, days: i64) -> (r: Date)
    requires
        date.is_valid(),
        day_number_in_range(date.number() + days),
    ensures
        r.is_valid(),
        r.number() == date.number() + days,
{
    let d = chrono::NaiveDate::from_ymd_opt(date.year, date.month, date.day).unwrap()
        + chrono::Duration::days(days);
    Date { year: d.year(), month: d.month(), day: d.day() }
}

/// Calls `chrono::NaiveDate::parse_from_str`. Its result is named
/// `chrono_parse_date`; claimed besides: a parsed date is a valid date.
/// What text and format chrono accepts is left unsaid.
#[verifier::external_body]
pub(crate) fn naive_parse(text: &str, format: &str) -> (r: Option<Date>)
    ensures
        match r {
            Some(d) => d.is_valid() && chrono_parse_date(text@, format@) == Some(
                (d.year, d.month, d.day),
            ),
            None => chrono_parse_date(text@, format@) is None,
        },
{
    chrono::NaiveDate::parse_from_str(text, format).ok().map(
        |d| Date { year: d.year(), month: d.month(), day: d.day() },
    )
}

/// ASCII lowercase of a character (other characters are kept).
pub open spec fn ascii_lower(c: char) -> char {
    if 'A' <= c && c <= 'Z' {
        ((c as int) + 32) as char
    } else {
        c
    }
}

/// Equality of texts up to ASCII case.
pub open spec fn eq_ignore_ascii_case(a: Seq<char>, b: Seq<char>) -> bool {
    &&& a.len() == b.len()
    &&& forall|i: int| 0 <= i < a.len() ==> ascii_lower(#[trigger] a[i]) == ascii_lower(b[i])
}

/// English name of month `m` (1 to 12), in lowercase.
pub open spec fn month_name(m: int) -> Seq<char> {
    if m == 1 {
        "january"@
    } else if m == 2 {
        "february"@
    } else if m == 3 {
        "march"@
    } else if m == 4 {
        "april"@
    } else if m == 5 {
        "may"@
    } else if m == 6 {
        "june"@
    } else if m == 7 {
        "july"@
    } else if m == 8 {
        "august"@
    } else if m == 9 {
        "september"@
    } else if m == 10 {
        "october"@
    } else if m == 11 {
        "november"@
    } else {
        "december"@
    }
}

/// Whether a text names month `m`: its full name or its first three letters,
/// in any ASCII case.
pub open spec fn names_month(text: Seq<char>, m: int) -> bool {
    eq_ignore_ascii_case(text, month_name(m)) || eq_ignore_ascii_case(text, month_name(m).take(3))
}

/// The number (1 to 12) of the month that a text names, if any.
pub open spec fn month_number_of_name(text: Seq<char>) -> Option<u32> {
    if names_month(text, 1) {
        Some(1)
    } else if names_month(text, 2) {
        Some(2)
    } else if names_month(text, 3) {
        Some(3)
    } else if names_month(text, 4) {
        Some(4)
    } else if names_month(text, 5) {
        Some(5)
    } else if names_month(text, 6) {
        Some(6)
    } else if names_month(text, 7) {
        Some(7)
    } else if names_month(text, 8) {
        Some(8)
    } else if names_month(text, 9) {
        Some(9)
    } else if names_month(text, 10) {
        Some(10)
    } else if names_month(text, 11) {
        Some(11)
    } else if names_month(text, 12) {
        Some(12)
    } else {
        None
    }
}

/// Calls `chrono::Month::from_str` and `Month::number_from_month`. Claimed, as
/// chrono documents and its `scan::short_or_long_month0` implements: a text is
/// accepted exactly when it is a month's full English name or its first three
/// letters, ignoring ASCII case, and the month's number (1 to 12) comes back.
#[verifier::external_body]
pub(crate) fn month_number_from_name(name: &str) -> (r: Option<u32>)
    ensures
        r == month_number_of_name(name@),
{
    chrono::Month::from_str(name).ok().map(|m| m.number_from_month())
}

impl Date {
    /// The date with the given year, month and day, if it exists in the
    /// calendar and in the range of years the library holds.
    pub fn from_ymd_opt(year: i32, month: u32, day: u32) -> (r: Option<Date>)
        ensures
            r == (if is_valid_ymd(year as int, month as int, day as int) {
                Some(Date { year, month, day })
            } else {
                None
            }),
    {
        naive_from_ymd(year, month, day)
    }

    /// The day of the week of a valid date.
    pub fn weekday(&self) -> (w: Weekday)
        requires
            self.is_valid(),
        ensures
            w == self.weekday_spec(),
            w.index() == weekday_index(self.year as int, self.month as int, self.day as int),
    {
        let i = naive_weekday_index(self);
        assert(0 <= weekday_index(self.year as int, self.month as int, self.day as int) < 7);
        Weekday::from_index(i)
    }
}

} // verus!
