//! Western Easter Sunday, by the anonymous Gregorian algorithm.
use vstd::prelude::*;
use crate::calendar::{
    day_number, days_before_year, is_leap_year, is_valid_ymd, weekday_index, Date, MAX_YEAR,
};
use crate::chrono_dates::naive_from_ymd;

verus! {

/// Integer division rounding towards zero, as Rust's `/` does (for `b > 0`).
pub open spec fn trunc_div(a: int, b: int) -> int {
    if a >= 0 {
        a / b
    } else {
        -((-a) / b)
    }
}

/// Remainder of `trunc_div`, as Rust's `%` does (for `b > 0`).
pub open spec fn trunc_rem(a: int, b: int) -> int {
    a - b * trunc_div(a, b)
}

/// The month and day that the anonymous Gregorian algorithm computes for a
/// year, with Rust's integer division.
pub open spec fn easter_month_day(year: int) -> (int, int) {
    let a = trunc_rem(year, 19);
    let b = trunc_div(year, 100);
    let c = trunc_rem(year, 100);
    let d = trunc_div(b, 4);
    let e = trunc_rem(b, 4);
    let f = trunc_div(b + 8, 25);
    let g = trunc_div(b - f + 1, 3);
    let h = trunc_rem(19 * a + b - d - g + 15, 30);
    let i = trunc_div(c, 4);
    let k = trunc_rem(c, 4);
    let l = trunc_rem(32 + 2 * e + 2 * i - h - k, 7);
    let m = trunc_div(a + 11 * h + 22 * l, 451);
    (trunc_div(h + l - 7 * m + 114, 31), trunc_rem(h + l - 7 * m + 114, 31) + 1)
}

/// The algorithm's month and day form a date that exists (it does not for
/// some negative years, nor outside the years the library holds).
pub open spec fn easter_is_valid(year: int) -> bool {
    is_valid_ymd(year, easter_month_day(year).0, easter_month_day(year).1)
}

pub open spec fn easter_date(year: i32) -> Date {
    Date {
        year,
        month: easter_month_day(year as int).0 as u32,
        day: easter_month_day(year as int).1 as u32,
    }
}

/// The month and day that the algorithm computes for `year`.
#[verifier::rlimit(80)]
fn easter_month_day_of(year: i32) -> (r: (i32, i32))
    ensures
        r.0 == easter_month_day(year as int).0,
        r.1 == easter_month_day(year as int).1,
{
    let a = year % 19;
    let b = year / 100;
    let c = year % 100;
    assert(a == trunc_rem(year as int, 19) && b == trunc_div(year as int, 100) && c == trunc_rem(
        year as int,
        100,
    ));
    let d = b / 4;
    let e = b % 4;
    let f = (b + 8) / 25;
    assert(d == trunc_div(b as int, 4) && e == trunc_rem(b as int, 4) && f == trunc_div(
        b + 8,
        25,
    ));
    let g = (b - f + 1) / 3;
    assert(g == trunc_div(b - f + 1, 3));
    let h = (19 * a + b - d - g + 15) % 30;
    assert(h == trunc_rem(19 * a + b - d - g + 15, 30));
    let i = c / 4;
    let k = c % 4;
    assert(i == trunc_div(c as int, 4) && k == trunc_rem(c as int, 4));
    let l = (32 + 2 * e + 2 * i - h - k) % 7;
    assert(l == trunc_rem(32 + 2 * e + 2 * i - h - k, 7));
    let m = (a + 11 * h + 22 * l) / 451;
    assert(m == trunc_div(a + 11 * h + 22 * l, 451));
    let month = (h + l - 7 * m + 114) / 31;
    let day = ((h + l - 7 * m + 114) % 31) + 1;
    assert(month == trunc_div(h + l - 7 * m + 114, 31) && day == trunc_rem(
        h + l - 7 * m + 114,
        31,
    ) + 1);
    (month, day)
}

/// Easter Sunday of `year`, by the anonymous Gregorian algorithm.
pub fn calculate_easter(year: i32) -> (r: Date)
    requires
        easter_is_valid(year as int),
    ensures
        r == easter_date(year),
        r.is_valid(),
{
    let (month, day) = easter_month_day_of(year);
    naive_from_ymd(year, month as u32, day as u32).unwrap()
}

/// Whether the algorithm's month and day form an existing date for `year`.
pub fn easter_exists(year: i32) -> (r: bool)
    ensures
        r == easter_is_valid(year as int),
{
    let (month, day) = easter_month_day_of(year);
    if month < 1 || day < 1 {
        return false;
    }
    naive_from_ymd(year, month as u32, day as u32).is_some()
}

// The algorithm's intermediate values for years from 0 on, where Rust's
// division agrees with floor division.
spec fn part_a(y: int) -> int { y % 19 }
spec fn part_b(y: int) -> int { y / 100 }
spec fn part_c(y: int) -> int { y % 100 }
spec fn part_d(y: int) -> int { part_b(y) / 4 }
spec fn part_e(y: int) -> int { part_b(y) % 4 }
spec fn part_f(y: int) -> int { (part_b(y) + 8) / 25 }
spec fn part_g(y: int) -> int { (part_b(y) - part_f(y) + 1) / 3 }
spec fn part_h(y: int) -> int {
    (19 * part_a(y) + part_b(y) - part_d(y) - part_g(y) + 15) % 30
}
spec fn part_i(y: int) -> int { part_c(y) / 4 }
spec fn part_k(y: int) -> int { part_c(y) % 4 }
spec fn part_l(y: int) -> int {
    (32 + 2 * part_e(y) + 2 * part_i(y) - part_h(y) - part_k(y)) % 7
}
spec fn part_m(y: int) -> int {
    (part_a(y) + 11 * part_h(y) + 22 * part_l(y)) / 451
}
/// Days from 22 March to Easter, plus 114.
spec fn part_v(y: int) -> int {
    part_h(y) + part_l(y) - 7 * part_m(y) + 114
}

proof fn lemma_trunc_is_floor(a: int, b: int)
    requires
        a >= 0,
        b > 0,
    ensures
        trunc_div(a, b) == a / b,
        trunc_rem(a, b) == a % b,
{
    assert(a == b * (a / b) + a % b) by (nonlinear_arith)
        requires
            b > 0,
    ;
}

proof fn lemma_parts_nonneg(y: int)
    requires
        y >= 0,
    ensures
        0 <= part_a(y) < 19,
        0 <= part_b(y),
        0 <= part_c(y) < 100,
        0 <= part_e(y) < 4,
        0 <= part_i(y) < 25,
        0 <= part_k(y) < 4,
        0 <= part_h(y) < 30,
        0 <= part_l(y) < 7,
        19 * part_a(y) + part_b(y) - part_d(y) - part_g(y) + 15 >= 0,
        32 + 2 * part_e(y) + 2 * part_i(y) - part_h(y) - part_k(y) >= 0,
{
    let b = part_b(y);
    let f = part_f(y);
    assert(0 <= f <= b + 1) by (nonlinear_arith)
        requires
            b >= 0,
            f == (b + 8) / 25,
    ;
    assert(b - part_d(y) - part_g(y) >= -1) by (nonlinear_arith)
        requires
            b >= 0,
            part_d(y) == b / 4,
            0 <= f,
            part_g(y) == (b - f + 1) / 3,
    ;
}

proof fn lemma_easter_floor_form(y: int)
    requires
        y >= 0,
    ensures
        easter_month_day(y) == (part_v(y) / 31, part_v(y) % 31 + 1),
{
    lemma_parts_nonneg(y);
    lemma_trunc_is_floor(y, 19);
    lemma_trunc_is_floor(y, 100);
    lemma_trunc_is_floor(part_b(y), 4);
    lemma_trunc_is_floor(part_b(y) + 8, 25);
    lemma_trunc_is_floor(part_b(y) - part_f(y) + 1, 3);
    lemma_trunc_is_floor(19 * part_a(y) + part_b(y) - part_d(y) - part_g(y) + 15, 30);
    lemma_trunc_is_floor(part_c(y), 4);
    lemma_trunc_is_floor(32 + 2 * part_e(y) + 2 * part_i(y) - part_h(y) - part_k(y), 7);
    lemma_trunc_is_floor(part_a(y) + 11 * part_h(y) + 22 * part_l(y), 451);
    lemma_trunc_is_floor(part_v(y), 31);
    assert(part_b(y) - part_f(y) + 1 >= 0) by (nonlinear_arith)
        requires
            part_b(y) >= 0,
            part_f(y) == (part_b(y) + 8) / 25,
    ;
}

proof fn lemma_easter_offset_bounds(y: int)
    requires
        y >= 0,
    ensures
        0 <= part_m(y) <= 1,
        107 <= part_v(y) <= 148,
        part_m(y) == 0 ==> part_v(y) >= 114,
        part_m(y) == 1 ==> part_v(y) >= 141,
{
    lemma_parts_nonneg(y);
    let a = part_a(y);
    let h = part_h(y);
    let l = part_l(y);
    let m = part_m(y);
    assert(0 <= m <= 1 && (m == 1 ==> l == 6 && h >= 28) && (m == 0 ==> h + l <= 34))
        by (nonlinear_arith)
        requires
            0 <= a < 19,
            0 <= h < 30,
            0 <= l < 7,
            m == (a + 11 * h + 22 * l) / 451,
    ;
}

proof fn lemma_easter_day_number(y: int)
    requires
        0 <= y,
    ensures
        (day_number(y, part_v(y) / 31, part_v(y) % 31 + 1) + 6) % 7 == 6,
{
    lemma_parts_nonneg(y);
    lemma_easter_offset_bounds(y);
    let b = part_b(y);
    let c = part_c(y);
    let d = part_d(y);
    let e = part_e(y);
    let h = part_h(y);
    let i = part_i(y);
    let k = part_k(y);
    let l = part_l(y);
    let m = part_m(y);
    let v = part_v(y);
    let leap: int = if is_leap_year(y) {
        1
    } else {
        0
    };
    assert(day_number(y, v / 31, v % 31 + 1) == days_before_year(y) + leap + v - 33);
    assert(y == 100 * b + c && b == 4 * d + e && c == 4 * i + k);
    assert(days_before_year(y) + leap == 365 * (y - 1) + y / 4 - y / 100 + y / 400)
        by (nonlinear_arith)
        requires
            y >= 0,
            leap == (if is_leap_year(y) {
                1int
            } else {
                0
            }),
    ;
    assert(y / 4 == 25 * b + i && y / 100 == b && y / 400 == d) by (nonlinear_arith)
        requires
            y == 100 * b + c,
            b == 4 * d + e,
            c == 4 * i + k,
            0 <= e < 4,
            0 <= k < 4,
            0 <= c < 100,
            0 <= b,
    ;
    let q = (32 + 2 * e + 2 * i - h - k) / 7;
    assert(32 + 2 * e + 2 * i - h - k == 7 * q + l);
    assert(day_number(y, v / 31, v % 31 + 1) + 6 == 7 * (20871 * d + 5218 * e + 209 * i + 52 * k
        - 36 - q - m) + 6);
}

/// For every year from 0 on, the algorithm gives a Sunday between 22 March and
/// 25 April: Western Easter Sunday.
pub proof fn lemma_easter_is_spring_sunday(year: int)
    requires
        0 <= year <= MAX_YEAR,
    ensures
        easter_is_valid(year),
        ({
            let (month, day) = easter_month_day(year);
            (month == 3 && 22 <= day <= 31) || (month == 4 && 1 <= day <= 25)
        }),
        weekday_index(year, easter_month_day(year).0, easter_month_day(year).1) == 6,
{
    lemma_easter_floor_form(year);
    lemma_easter_offset_bounds(year);
    lemma_easter_day_number(year);
}

} // verus!
