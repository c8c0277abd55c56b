//! The n-th and the last given weekday of a month.
use vstd::prelude::*;
use crate::calendar::{day_number, days_in_month, is_valid_ymd, weekday_index, Date, Weekday};

verus! {

/// The days of the month, among 1..=`upto`, that exist and fall on `weekday`,
/// in increasing order.
pub open spec fn matching_days(year: i32, month: u32, weekday: Weekday, upto: int) -> Seq<u32>
    decreases upto,
{
    if upto <= 0 {
        Seq::empty()
    } else {
        let earlier = matching_days(year, month, weekday, upto - 1);
        if is_valid_ymd(year as int, month as int, upto) && weekday_index(
            year as int,
            month as int,
            upto,
        ) == weekday.index() {
            earlier.push(upto as u32)
        } else {
            earlier
        }
    }
}

/// All the days of the month (a month has at most 31) that fall on `weekday`.
pub open spec fn weekdays_of_month(year: i32, month: u32, weekday: Weekday) -> Seq<u32> {
    matching_days(year, month, weekday, 31)
}

/// The `nth` (from 1) day of the month that falls on `weekday`, if there are that many.
pub open spec fn nth_weekday_spec(year: i32, month: u32, weekday: Weekday, nth: int) -> Option<
    Date,
> {
    let days = weekdays_of_month(year, month, weekday);
    if 1 <= nth <= days.len() {
        Some(Date { year, month, day: days[nth - 1] })
    } else {
        None
    }
}

/// The last day of the month that falls on `weekday`, if any.
pub open spec fn last_weekday_spec(year: i32, month: u32, weekday: Weekday) -> Option<Date> {
    let days = weekdays_of_month(year, month, weekday);
    if days.len() > 0 {
        Some(Date { year, month, day: days.last() })
    } else {
        None
    }
}

/// The days found up to `n` are the first ones found up to any later `k`.
pub proof fn lemma_matching_days_prefix(year: i32, month: u32, weekday: Weekday, n: int, k: int)
    requires
        0 <= n <= k,
    ensures
        matching_days(year, month, weekday, n).len() <= matching_days(
            year,
            month,
            weekday,
            k,
        ).len(),
        forall|i: int|
            0 <= i < matching_days(year, month, weekday, n).len() ==> matching_days(
                year,
                month,
                weekday,
                k,
            )[i] == #[trigger] matching_days(year, month, weekday, n)[i],
    decreases k - n,
{
    if n < k {
        lemma_matching_days_prefix(year, month, weekday, n, k - 1);
    }
}

/// Every day found up to `n` exists, falls on `weekday` and is at most `n`;
/// the days are found in increasing order.
pub proof fn lemma_matching_days_members(year: i32, month: u32, weekday: Weekday, n: int)
    requires
        0 <= n,
    ensures
        forall|i: int|
            0 <= i < matching_days(year, month, weekday, n).len() ==> {
                let d = #[trigger] matching_days(year, month, weekday, n)[i];
                &&& 1 <= d <= n
                &&& is_valid_ymd(year as int, month as int, d as int)
                &&& weekday_index(year as int, month as int, d as int) == weekday.index()
            },
        forall|i: int, j: int|
            0 <= i < j < matching_days(year, month, weekday, n).len() ==> matching_days(
                year,
                month,
                weekday,
                n,
            )[i] < matching_days(year, month, weekday, n)[j],
    decreases n,
{
    if n > 0 {
        lemma_matching_days_members(year, month, weekday, n - 1);
        let earlier = matching_days(year, month, weekday, n - 1);
        if is_valid_ymd(year as int, month as int, n) && weekday_index(
            year as int,
            month as int,
            n,
        ) == weekday.index() {
            assert(n <= 31);
            assert((n as u32) as int == n);
            assert(matching_days(year, month, weekday, n) == earlier.push(n as u32));
        } else {
            assert(matching_days(year, month, weekday, n) == earlier);
        }
    }
}

/// The `nth` (from 1) day of the month `month` of `year` that falls on `weekday`;
/// `None` if the month has fewer such days, or does not exist.
pub fn nth_weekday_of_month(year: i32, month: u32, weekday: Weekday, nth: u32) -> (r: Option<
    Date,
>)
    requires
        nth >= 1,
    ensures
        r == nth_weekday_spec(year, month, weekday, nth as int),
{
    let mut day: u32 = 1;
    let mut count: u32 = 0;
    while day <= 31
        invariant
            1 <= day <= 32,
            nth >= 1,
            count < nth,
            count == matching_days(year, month, weekday, day - 1).len(),
        decreases 32 - day,
    {
        if let Some(date) = Date::from_ymd_opt(year, month, day) {
            if date.weekday() == weekday {
                count = count + 1;
                if count == nth {
                    proof {
                        lemma_matching_days_prefix(year, month, weekday, day as int, 31);
                        assert(matching_days(year, month, weekday, day as int)[nth - 1] == day);
                    }
                    return Some(date);
                }
            }
        }
        day = day + 1;
    }
    None
}

/// The last day of the month `month` of `year` that falls on `weekday`;
/// `None` if the month does not exist.
pub fn last_weekday_of_month(year: i32, month: u32, weekday: Weekday) -> (r: Option<Date>)
    ensures
        r == last_weekday_spec(year, month, weekday),
{
    let mut day: u32 = 31;
    while day >= 1
        invariant
            day <= 31,
            weekdays_of_month(year, month, weekday) == matching_days(
                year,
                month,
                weekday,
                day as int,
            ),
        decreases day,
    {
        if let Some(date) = Date::from_ymd_opt(year, month, day) {
            if date.weekday() == weekday {
                return Some(date);
            }
        }
        day = day - 1;
    }
    None
}

/// The n-th weekday of a month is a date of that month, falls on that weekday,
/// and exactly `nth - 1` earlier days of the month fall on it.
pub proof fn lemma_nth_weekday_is_the_nth(year: i32, month: u32, weekday: Weekday, nth: int)
    ensures
        match nth_weekday_spec(year, month, weekday, nth) {
            Some(d) => {
                &&& d.is_valid()
                &&& d.year == year && d.month == month
                &&& d.weekday_spec() == weekday
                &&& matching_days(year, month, weekday, d.day - 1).len() == nth - 1
            },
            None => nth < 1 || weekdays_of_month(year, month, weekday).len() < nth,
        },
{
    let days = weekdays_of_month(year, month, weekday);
    lemma_matching_days_members(year, month, weekday, 31);
    if 1 <= nth <= days.len() {
        let d = days[nth - 1];
        // `d` is found at day `d`, and it is the last day found up to `d`;
        // the days are found in increasing order, so it is found as the nth.
        lemma_matching_days_prefix(year, month, weekday, d as int, 31);
        let upto_d = matching_days(year, month, weekday, d as int);
        assert(upto_d == matching_days(year, month, weekday, d - 1).push(d));
        assert(days[upto_d.len() - 1] == upto_d[upto_d.len() - 1]);
        assert(upto_d.len() - 1 == nth - 1);
        assert(0 <= weekday_index(year as int, month as int, d as int) < 7);
    }
}

/// Every existing day up to `n` that falls on `weekday` is found up to `n`.
pub proof fn lemma_matching_days_complete(year: i32, month: u32, weekday: Weekday, n: int, x: int)
    requires
        1 <= x <= n,
        is_valid_ymd(year as int, month as int, x),
        weekday_index(year as int, month as int, x) == weekday.index(),
    ensures
        matching_days(year, month, weekday, n).contains(x as u32),
    decreases n,
{
    assert(x <= 31);
    if x == n {
        assert(matching_days(year, month, weekday, n) == matching_days(
            year,
            month,
            weekday,
            n - 1,
        ).push(x as u32));
        assert(matching_days(year, month, weekday, n).last() == x as u32);
    } else {
        lemma_matching_days_complete(year, month, weekday, n - 1, x);
        lemma_matching_days_prefix(year, month, weekday, n - 1, n);
        let earlier = matching_days(year, month, weekday, n - 1);
        let j = choose|j: int| 0 <= j < earlier.len() && earlier[j] == x as u32;
        assert(matching_days(year, month, weekday, n)[j] == x as u32);
    }
}

/// A week later in the same month is the same day of the week.
pub proof fn lemma_week_later_same_weekday(year: int, month: int, day: int)
    ensures
        weekday_index(year, month, day + 7) == weekday_index(year, month, day),
{
}

/// The last weekday of a month is a date of that month, falls on that weekday,
/// and no later day of the month does: it lies in the month's last seven days.
/// It is missing only when no day of the month exists.
pub proof fn lemma_last_weekday_is_the_last(year: i32, month: u32, weekday: Weekday)
    ensures
        match last_weekday_spec(year, month, weekday) {
            Some(d) => {
                &&& d.is_valid()
                &&& d.year == year && d.month == month
                &&& d.weekday_spec() == weekday
                &&& d.day + 7 > days_in_month(year as int, month as int)
            },
            None => !is_valid_ymd(year as int, month as int, 1),
        },
{
    let days = weekdays_of_month(year, month, weekday);
    lemma_matching_days_members(year, month, weekday, 31);
    if days.len() > 0 {
        let d = days.last();
        assert(0 <= weekday_index(year as int, month as int, d as int) < 7);
        if d + 7 <= days_in_month(year as int, month as int) {
            lemma_week_later_same_weekday(year as int, month as int, d as int);
            lemma_matching_days_complete(year, month, weekday, 31, d + 7);
            let j = choose|j: int| 0 <= j < days.len() && days[j] == (d + 7) as u32;
            assert(j < days.len() - 1 ==> days[j] < days[days.len() - 1]);
        }
    } else if is_valid_ymd(year as int, month as int, 1) {
        lemma_every_weekday_in_first_week(year, month, weekday);
        let x = choose|x: int|
            1 <= x <= 7 && is_valid_ymd(year as int, month as int, x) && weekday_index(
                year as int,
                month as int,
                x,
            ) == weekday.index();
        lemma_matching_days_complete(year, month, weekday, 31, x);
    }
}

/// In an existing month, each weekday falls on one of the first seven days.
pub proof fn lemma_every_weekday_in_first_week(year: i32, month: u32, weekday: Weekday)
    requires
        is_valid_ymd(year as int, month as int, 1),
    ensures
        exists|x: int|
            1 <= x <= 7 && is_valid_ymd(year as int, month as int, x) && weekday_index(
                year as int,
                month as int,
                x,
            ) == weekday.index(),
{
    let t = day_number(year as int, month as int, 1) + 6;
    let first = t % 7;
    let w = weekday.index();
    let r = (w - first + 7) % 7;
    let x = 1 + r;
    assert(0 <= w < 7);
    assert(day_number(year as int, month as int, x) + 6 == t + r);
    assert((t + r) % 7 == w) by (nonlinear_arith)
        requires
            first == t % 7,
            r == (w - first + 7) % 7,
            0 <= w < 7,
    ;
    assert(weekday_index(year as int, month as int, x) == weekday.index());
}

/// Every existing month has at least four days of each weekday, so its first
/// to fourth weekday always exist.
pub proof fn lemma_first_four_weekdays_exist(year: i32, month: u32, weekday: Weekday, nth: int)
    requires
        is_valid_ymd(year as int, month as int, 1),
        1 <= nth <= 4,
    ensures
        nth_weekday_spec(year, month, weekday, nth) is Some,
{
    lemma_every_weekday_in_first_week(year, month, weekday);
    let x = choose|x: int|
        1 <= x <= 7 && is_valid_ymd(year as int, month as int, x) && weekday_index(
            year as int,
            month as int,
            x,
        ) == weekday.index();
    let days = weekdays_of_month(year, month, weekday);
    lemma_matching_days_members(year, month, weekday, 31);
    lemma_week_later_same_weekday(year as int, month as int, x);
    lemma_week_later_same_weekday(year as int, month as int, x + 7);
    lemma_week_later_same_weekday(year as int, month as int, x + 14);
    lemma_matching_days_complete(year, month, weekday, 31, x + 21);
    let j = choose|j: int| 0 <= j < days.len() && days[j] == (x + 21) as u32;
    // The three weeks before also hold the weekday, and come earlier in `days`.
    lemma_matching_days_complete(year, month, weekday, 31, x);
    lemma_matching_days_complete(year, month, weekday, 31, x + 7);
    lemma_matching_days_complete(year, month, weekday, 31, x + 14);
    let j0 = choose|j: int| 0 <= j < days.len() && days[j] == x as u32;
    let j1 = choose|j: int| 0 <= j < days.len() && days[j] == (x + 7) as u32;
    let j2 = choose|j: int| 0 <= j < days.len() && days[j] == (x + 14) as u32;
    assert(j0 < j1) by {
        if j1 <= j0 {
            assert(days[j1] <= days[j0]);
        }
    }
    assert(j1 < j2) by {
        if j2 <= j1 {
            assert(days[j2] <= days[j1]);
        }
    }
    assert(j2 < j) by {
        if j <= j2 {
            assert(days[j] <= days[j2]);
        }
    }
}

/// Two days of the same month that fall on the same weekday are a whole
/// number of weeks apart.
pub proof fn lemma_same_weekday_whole_weeks(year: int, month: int, x: int, z: int)
    requires
        weekday_index(year, month, x) == weekday_index(year, month, z),
    ensures
        (x - z) % 7 == 0,
{
    let a = day_number(year, month, z) + 6;
    assert(day_number(year, month, x) + 6 == a + (x - z));
    assert((x - z) % 7 == 0) by (nonlinear_arith)
        requires
            (a + (x - z)) % 7 == a % 7,
    ;
}

/// Each day of the month found on `weekday` is followed by the one a week later.
proof fn lemma_next_is_week_later(year: i32, month: u32, weekday: Weekday, i: int)
    requires
        0 <= i < weekdays_of_month(year, month, weekday).len() - 1,
    ensures
        weekdays_of_month(year, month, weekday)[i + 1] == weekdays_of_month(year, month, weekday)[i]
            + 7,
{
    let days = weekdays_of_month(year, month, weekday);
    lemma_matching_days_members(year, month, weekday, 31);
    let a = days[i] as int;
    let b = days[i + 1] as int;
    lemma_same_weekday_whole_weeks(year as int, month as int, b, a);
    assert(b >= a + 7);
    lemma_week_later_same_weekday(year as int, month as int, a);
    lemma_matching_days_complete(year, month, weekday, 31, a + 7);
    let j = choose|j: int| 0 <= j < days.len() && days[j] == (a + 7) as u32;
    if j <= i {
        assert(days[j] <= days[i]);
    }
    if j > i + 1 {
        assert(days[i + 1] < days[j]);
    }
}

/// The first day of the month found on `weekday` lies in the first week.
proof fn lemma_first_in_first_week(year: i32, month: u32, weekday: Weekday)
    requires
        weekdays_of_month(year, month, weekday).len() > 0,
    ensures
        1 <= weekdays_of_month(year, month, weekday)[0] <= 7,
{
    let days = weekdays_of_month(year, month, weekday);
    lemma_matching_days_members(year, month, weekday, 31);
    let a = days[0] as int;
    if a > 7 {
        lemma_week_later_same_weekday(year as int, month as int, a - 7);
        lemma_matching_days_complete(year, month, weekday, 31, a - 7);
        let j = choose|j: int| 0 <= j < days.len() && days[j] == (a - 7) as u32;
        if j > 0 {
            assert(days[0] < days[j]);
        }
    }
}

/// The days of the month found on `weekday` are the first one and every week
/// after it.
proof fn lemma_weekly_days(year: i32, month: u32, weekday: Weekday, i: int)
    requires
        0 <= i < weekdays_of_month(year, month, weekday).len(),
    ensures
        weekdays_of_month(year, month, weekday)[i] == weekdays_of_month(year, month, weekday)[0]
            + 7 * i,
    decreases i,
{
    if i > 0 {
        lemma_weekly_days(year, month, weekday, i - 1);
        lemma_next_is_week_later(year, month, weekday, i - 1);
    }
}

/// The n-th weekday of a month falls in the month's n-th week: its day `d` has
/// (d - 1) / 7 == nth - 1. When it is missing, every day of the month on that
/// weekday lies in an earlier week.
pub proof fn lemma_nth_weekday_in_week_n(year: i32, month: u32, weekday: Weekday, nth: int)
    requires
        nth >= 1,
    ensures
        match nth_weekday_spec(year, month, weekday, nth) {
            Some(d) => {
                &&& d.is_valid()
                &&& d.year == year && d.month == month
                &&& d.weekday_spec() == weekday
                &&& (d.day - 1) / 7 == nth - 1
            },
            None => forall|x: int|
                1 <= x <= 31 && is_valid_ymd(year as int, month as int, x) && weekday_index(
                    year as int,
                    month as int,
                    x,
                ) == weekday.index() ==> (x - 1) / 7 < nth - 1,
        },
{
    let days = weekdays_of_month(year, month, weekday);
    lemma_nth_weekday_is_the_nth(year, month, weekday, nth);
    lemma_matching_days_members(year, month, weekday, 31);
    if nth <= days.len() {
        lemma_first_in_first_week(year, month, weekday);
        lemma_weekly_days(year, month, weekday, nth - 1);
    } else {
        assert forall|x: int|
            1 <= x <= 31 && is_valid_ymd(year as int, month as int, x) && weekday_index(
                year as int,
                month as int,
                x,
            ) == weekday.index() implies (x - 1) / 7 < nth - 1 by {
            lemma_matching_days_complete(year, month, weekday, 31, x);
            let j = choose|j: int| 0 <= j < days.len() && days[j] == x as u32;
            lemma_first_in_first_week(year, month, weekday);
            lemma_weekly_days(year, month, weekday, j);
        }
    }
}

/// No month holds more than five days of one weekday, so its sixth and later
/// weekdays never exist.
pub proof fn lemma_at_most_five_of_a_weekday(year: i32, month: u32, weekday: Weekday, nth: int)
    requires
        nth >= 6,
    ensures
        weekdays_of_month(year, month, weekday).len() <= 5,
        nth_weekday_spec(year, month, weekday, nth) is None,
{
    let days = weekdays_of_month(year, month, weekday);
    lemma_matching_days_members(year, month, weekday, 31);
    if days.len() > 5 {
        lemma_first_in_first_week(year, month, weekday);
        lemma_weekly_days(year, month, weekday, 5);
    }
}

} // verus!
