//! The proleptic Gregorian calendar: dates as plain values, their validity,
//! their day numbers and their days of the week.
use vstd::prelude::*;

verus! {

/// Earliest year that a date of this library (and of chrono's `NaiveDate`) can hold.
pub const MIN_YEAR: i32 = -262143;

/// Latest year that a date of this library (and of chrono's `NaiveDate`) can hold.
pub const MAX_YEAR: i32 = 262142;

/// A day of the week.
#[derive(Clone, Copy, Debug, PartialEq, Eq, Structural)]
pub enum Weekday {
    Mon,
    Tue,
    Wed,
    Thu,
    Fri,
    Sat,
    Sun,
}

impl Weekday {
    /// Position of the day in the week, counted from Monday (0) to Sunday (6).
    pub open spec fn index(self) -> int {
        match self {
            Weekday::Mon => 0,
            Weekday::Tue => 1,
            Weekday::Wed => 2,
            Weekday::Thu => 3,
            Weekday::Fri => 4,
            Weekday::Sat => 5,
            Weekday::Sun => 6,
        }
    }

    /// The day of the week at position `i` (counted from Monday).
    pub open spec fn at_index(i: int) -> Weekday {
        if i == 0 {
            Weekday::Mon
        } else if i == 1 {
            Weekday::Tue
        } else if i == 2 {
            Weekday::Wed
        } else if i == 3 {
            Weekday::Thu
        } else if i == 4 {
            Weekday::Fri
        } else if i == 5 {
            Weekday::Sat
        } else {
            Weekday::Sun
        }
    }

    /// The day of the week at position `i`, counted from Monday (0) to Sunday (6).
    pub fn from_index(i: u32) -> (w: Weekday)
        requires
            i < 7,
        ensures
            w == Weekday::at_index(i as int),
            w.index() == i,
    {
        match i {
            0 => Weekday::Mon,
            1 => Weekday::Tue,
            2 => Weekday::Wed,
            3 => Weekday::Thu,
            4 => Weekday::Fri,
            5 => Weekday::Sat,
            _ => Weekday::Sun,
        }
    }
}

/// A calendar date: year, month (1 to 12) and day of the month (from 1).
#[derive(Clone, Copy, Debug, PartialEq, Eq, Structural)]
pub struct Date {
    pub year: i32,
    pub month: u32,
    pub day: u32,
}

pub open spec fn is_leap_year(y: int) -> bool {
    (y % 4 == 0 && y % 100 != 0) || y % 400 == 0
}

pub open spec fn days_in_month(y: int, m: int) -> int {
    if m == 2 {
        if is_leap_year(y) {
            29
        } else {
            28
        }
    } else if m == 4 || m == 6 || m == 9 || m == 11 {
        30
    } else {
        31
    }
}

pub open spec fn year_length(y: int) -> int {
    if is_leap_year(y) {
        366
    } else {
        365
    }
}

/// A year, month and day that name an existing day of the proleptic Gregorian
/// calendar within the years this library holds.
pub open spec fn is_valid_ymd(y: int, m: int, d: int) -> bool {
    &&& MIN_YEAR <= y <= MAX_YEAR
    &&& 1 <= m <= 12
    &&& 1 <= d <= days_in_month(y, m)
}

/// Number of days of the years before `y`, counted from year 1.
pub open spec fn days_before_year(y: int) -> int {
    365 * (y - 1) + (y - 1) / 4 - (y - 1) / 100 + (y - 1) / 400
}

/// Number of days of the months before month `m` of year `y`.
pub open spec fn days_before_month(y: int, m: int) -> int {
    let common: int = if m <= 1 {
        0
    } else if m == 2 {
        31
    } else if m == 3 {
        59
    } else if m == 4 {
        90
    } else if m == 5 {
        120
    } else if m == 6 {
        151
    } else if m == 7 {
        181
    } else if m == 8 {
        212
    } else if m == 9 {
        243
    } else if m == 10 {
        273
    } else if m == 11 {
        304
    } else {
        334
    };
    common + if m > 2 && is_leap_year(y) {
        1int
    } else {
        0
    }
}

/// Day number of a date, with 1 January of year 1 as day 1 (the count that
/// chrono's `num_days_from_ce` gives).
pub open spec fn day_number(y: int, m: int, d: int) -> int {
    days_before_year(y) + days_before_month(y, m) + d
}

/// Position in the week (Monday = 0) of a date; 1 January of year 1 was a Monday.
pub open spec fn weekday_index(y: int, m: int, d: int) -> int {
    (day_number(y, m, d) + 6) % 7
}

/// Day numbers of the first and the last date that the library holds.
pub open spec fn min_day_number() -> int {
    day_number(MIN_YEAR as int, 1, 1)
}

pub open spec fn max_day_number() -> int {
    day_number(MAX_YEAR as int, 12, 31)
}

/// A day number that belongs to a date the library holds.
pub open spec fn day_number_in_range(n: int) -> bool {
    min_day_number() <= n <= max_day_number()
}

impl Date {
    pub open spec fn is_valid(self) -> bool {
        is_valid_ymd(self.year as int, self.month as int, self.day as int)
    }

    pub open spec fn number(self) -> int {
        day_number(self.year as int, self.month as int, self.day as int)
    }

    pub open spec fn weekday_spec(self) -> Weekday {
        Weekday::at_index(weekday_index(self.year as int, self.month as int, self.day as int))
    }

    /// Chronological order, which on dates is the order of (year, month, day).
    pub open spec fn le_spec(self, other: Date) -> bool {
        ||| self.year < other.year
        ||| self.year == other.year && self.month < other.month
        ||| self.year == other.year && self.month == other.month && self.day <= other.day
    }

    /// Whether `self` comes on or before `other`.
    pub fn is_on_or_before(&self, other: &Date) -> (r: bool)
        ensures
            r == self.le_spec(*other),
    {
        self.year < other.year || (self.year == other.year && self.month < other.month) || (
        self.year == other.year && self.month == other.month && self.day <= other.day)
    }
}

/// Floor division by a positive constant, for the day-number computation.
fn floor_div(a: i64, b: i64) -> (r: i64)
    requires
        0 < b <= 400,
        -1_000_000 <= a <= 1_000_000,
    ensures
        r == a / b,
{
    if a >= 0 {
        a / b
    } else {
        let q = (-a + b - 1) / b;
        assert((-q) == a / b) by (nonlinear_arith)
            requires
                a < 0,
                0 < b,
                q == (-a + b - 1) as int / b as int,
        ;
        -q
    }
}

/// Day number of a valid date (1 January of year 1 is day 1).
pub fn date_number(date: &Date) -> (n: i64)
    requires
        date.is_valid(),
    ensures
        n == date.number(),
{
    let y: i64 = date.year as i64 - 1;
    let m = date.month;
    let leap = (date.year % 4 == 0 && date.year % 100 != 0) || date.year % 400 == 0;
    assert(leap == is_leap_year(date.year as int));
    let common: i64 = if m <= 1 {
        0
    } else if m == 2 {
        31
    } else if m == 3 {
        59
    } else if m == 4 {
        90
    } else if m == 5 {
        120
    } else if m == 6 {
        151
    } else if m == 7 {
        181
    } else if m == 8 {
        212
    } else if m == 9 {
        243
    } else if m == 10 {
        273
    } else if m == 11 {
        304
    } else {
        334
    };
    let extra: i64 = if m > 2 && leap {
        1
    } else {
        0
    };
    365 * y + floor_div(y, 4) - floor_div(y, 100) + floor_div(y, 400) + common + extra
        + date.day as i64
}

/// Consecutive years: the days before year `y + 1` are those before `y` and the days of `y`.
pub proof fn lemma_days_before_next_year(y: int)
    ensures
        days_before_year(y + 1) == days_before_year(y) + year_length(y),
{
    assert(y / 4 - (y - 1) / 4 == (if y % 4 == 0 { 1int } else { 0 })) by (nonlinear_arith);
    assert(y / 100 - (y - 1) / 100 == (if y % 100 == 0 { 1int } else { 0 })) by (nonlinear_arith);
    assert(y / 400 - (y - 1) / 400 == (if y % 400 == 0 { 1int } else { 0 })) by (nonlinear_arith);
    assert(y % 400 == 0 ==> y % 100 == 0 && y % 4 == 0) by (nonlinear_arith);
    assert(y % 100 == 0 ==> y % 4 == 0) by (nonlinear_arith);
}

/// Every date of a year comes before every date of a later year.
pub proof fn lemma_years_ordered(y1: int, y2: int)
    requires
        y1 < y2,
    ensures
        days_before_year(y1) + year_length(y1) <= days_before_year(y2),
    decreases y2 - y1,
{
    lemma_days_before_next_year(y1);
    if y1 + 1 < y2 {
        lemma_years_ordered(y1 + 1, y2);
        lemma_days_before_next_year(y1 + 1);
    }
}

/// Within its year, a valid date has a position between 1 and the year's length,
/// and later months come later.
pub proof fn lemma_position_in_year(y: int, m: int, d: int)
    requires
        1 <= m <= 12,
        1 <= d <= days_in_month(y, m),
    ensures
        1 <= days_before_month(y, m) + d <= year_length(y),
        forall|m2: int|
            m < m2 <= 12 ==> days_before_month(y, m) + d <= #[trigger] days_before_month(y, m2),
{
}

/// On valid dates, chronological order is the order of day numbers.
pub proof fn lemma_order_matches_day_numbers(a: Date, b: Date)
    requires
        a.is_valid(),
        b.is_valid(),
    ensures
        a.le_spec(b) <==> a.number() <= b.number(),
        a.number() == b.number() <==> a == b,
{
    let (ya, ma, da) = (a.year as int, a.month as int, a.day as int);
    let (yb, mb, db) = (b.year as int, b.month as int, b.day as int);
    lemma_position_in_year(ya, ma, da);
    lemma_position_in_year(yb, mb, db);
    if ya < yb {
        lemma_years_ordered(ya, yb);
    } else if yb < ya {
        lemma_years_ordered(yb, ya);
    }
}

} // verus!
