//! Reading the date of a time period from its text: a holiday keyword, a
//! relative date ("The second Sunday of May") or a month and day ("December 25").
use vstd::prelude::*;
use vstd::string::StringExecFns;
use crate::calendar::{Date, Weekday, MAX_YEAR, MIN_YEAR};
use crate::chrono_dates::{chrono_parse_date, month_number_from_name, month_number_of_name, naive_parse};
use crate::easter::{calculate_easter, easter_date, easter_is_valid, lemma_easter_is_spring_sunday};
use crate::text::{
    append_integer, captures_of, integer_text, regex_captures, str_to_lowercase, str_trim,
    text_equals, to_lowercase, trim,
};
use crate::weekdays::{
    last_weekday_of_month, last_weekday_spec, lemma_first_four_weekdays_exist,
    lemma_last_weekday_is_the_last, lemma_nth_weekday_in_week_n, lemma_nth_weekday_is_the_nth,
    nth_weekday_of_month,
    nth_weekday_spec,
};

verus! {

/// A holiday that a keyword names.
#[derive(Clone, Copy, Debug, PartialEq, Eq, Structural)]
pub enum Holiday {
    /// Western Easter Sunday.
    Easter,
    /// The fourth Thursday of November.
    Thanksgiving,
    /// The first Monday of September.
    LaborDay,
    /// The last Monday of May.
    MemorialDay,
    /// The third Monday of January.
    MlkDay,
}

/// The holiday that a lowercase keyword names.
pub open spec fn holiday_of_keyword(lower: Seq<char>) -> Option<Holiday> {
    if lower == "easter"@ {
        Some(Holiday::Easter)
    } else if lower == "thanksgiving"@ {
        Some(Holiday::Thanksgiving)
    } else if lower == "laborday"@ {
        Some(Holiday::LaborDay)
    } else if lower == "memorialday"@ {
        Some(Holiday::MemorialDay)
    } else if lower == "mlkday"@ {
        Some(Holiday::MlkDay)
    } else {
        None
    }
}

/// The date of a holiday in `year`.
pub open spec fn holiday_date_spec(holiday: Holiday, year: i32) -> Option<Date> {
    match holiday {
        Holiday::Easter => Some(easter_date(year)),
        Holiday::Thanksgiving => nth_weekday_spec(year, 11, Weekday::Thu, 4),
        Holiday::LaborDay => nth_weekday_spec(year, 9, Weekday::Mon, 1),
        Holiday::MemorialDay => last_weekday_spec(year, 5, Weekday::Mon),
        Holiday::MlkDay => nth_weekday_spec(year, 1, Weekday::Mon, 3),
    }
}

/// The number that a lowercase ordinal word ("first" to "fifth") names.
pub open spec fn ordinal_of_word(lower: Seq<char>) -> Option<u32> {
    if lower == "first"@ {
        Some(1)
    } else if lower == "second"@ {
        Some(2)
    } else if lower == "third"@ {
        Some(3)
    } else if lower == "fourth"@ {
        Some(4)
    } else if lower == "fifth"@ {
        Some(5)
    } else {
        None
    }
}

/// The day of the week that a lowercase English name names.
pub open spec fn weekday_of_word(lower: Seq<char>) -> Option<Weekday> {
    if lower == "monday"@ {
        Some(Weekday::Mon)
    } else if lower == "tuesday"@ {
        Some(Weekday::Tue)
    } else if lower == "wednesday"@ {
        Some(Weekday::Wed)
    } else if lower == "thursday"@ {
        Some(Weekday::Thu)
    } else if lower == "friday"@ {
        Some(Weekday::Fri)
    } else if lower == "saturday"@ {
        Some(Weekday::Sat)
    } else if lower == "sunday"@ {
        Some(Weekday::Sun)
    } else {
        None
    }
}

/// The regular expression of a relative date: "the", an ordinal word, a
/// weekday and "of" a month, in any case.
pub const RELATIVE_DATE_PATTERN: &'static str = "(?i)the\\s+(\\w+)\\s+(\\w+)\\s+of\\s+(\\w+)";

/// The format of a month and day followed by a year ("December 25 2025").
pub const MONTH_DAY_YEAR_FORMAT: &'static str = "%B %d %Y";

/// The date that the capture groups of a relative date name in `year`: the
/// n-th given weekday of the given month.
pub open spec fn relative_date_of_groups(groups: Seq<Seq<char>>, year: i32) -> Option<Date> {
    if groups.len() < 4 {
        None
    } else {
        match (
            ordinal_of_word(str_to_lowercase(groups[1])),
            weekday_of_word(str_to_lowercase(groups[2])),
            month_number_of_name(groups[3]),
        ) {
            (Some(nth), Some(weekday), Some(month)) => nth_weekday_spec(
                year,
                month,
                weekday,
                nth as int,
            ),
            _ => None,
        }
    }
}

/// The date that a relative date text names in `year`.
pub open spec fn relative_date_spec(text: Seq<char>, year: i32) -> Option<Date> {
    match regex_captures(RELATIVE_DATE_PATTERN@, text) {
        Some(groups) => relative_date_of_groups(groups, year),
        None => None,
    }
}

/// The date that a month-and-day text names in `year`, as chrono parses it
/// after the year is appended.
pub open spec fn month_day_spec(text: Seq<char>, year: i32) -> Option<Date> {
    match chrono_parse_date(text + " "@ + integer_text(year as int), MONTH_DAY_YEAR_FORMAT@) {
        Some((y, m, d)) => Some(Date { year: y, month: m, day: d }),
        None => None,
    }
}

/// The lowercase keyword that a date text holds, once trimmed.
pub open spec fn keyword_of(text: Seq<char>) -> Seq<char> {
    str_to_lowercase(str_trim(text))
}

/// The date that a period's date text names in `year`: a holiday keyword
/// (trimmed, in any case), else a relative date, else a month and day.
pub open spec fn flexible_date_spec(text: Seq<char>, year: i32) -> Option<Date> {
    match holiday_of_keyword(keyword_of(text)) {
        Some(holiday) => holiday_date_spec(holiday, year),
        None => match relative_date_spec(text, year) {
            Some(date) => Some(date),
            None => month_day_spec(text, year),
        },
    }
}

/// What the date text needs so that it can be read without a failure: the
/// Easter algorithm gives no date for some negative years.
pub open spec fn date_text_readable(text: Seq<char>, year: i32) -> bool {
    keyword_of(text) == "easter"@ ==> easter_is_valid(year as int)
}

/// The holiday that a lowercase keyword names, if any.
pub fn holiday_keyword(lower: &str) -> (r: Option<Holiday>)
    ensures
        r == holiday_of_keyword(lower@),
{
    if text_equals(lower, "easter") {
        Some(Holiday::Easter)
    } else if text_equals(lower, "thanksgiving") {
        Some(Holiday::Thanksgiving)
    } else if text_equals(lower, "laborday") {
        Some(Holiday::LaborDay)
    } else if text_equals(lower, "memorialday") {
        Some(Holiday::MemorialDay)
    } else if text_equals(lower, "mlkday") {
        Some(Holiday::MlkDay)
    } else {
        None
    }
}

/// The date of a holiday in `year`.
pub fn holiday_date(holiday: Holiday, year: i32) -> (r: Option<Date>)
    requires
        holiday == Holiday::Easter ==> easter_is_valid(year as int),
    ensures
        r == holiday_date_spec(holiday, year),
        r matches Some(d) ==> d.is_valid(),
{
    proof {
        lemma_nth_weekday_is_the_nth(year, 11, Weekday::Thu, 4);
        lemma_nth_weekday_is_the_nth(year, 9, Weekday::Mon, 1);
        lemma_nth_weekday_is_the_nth(year, 1, Weekday::Mon, 3);
        lemma_last_weekday_is_the_last(year, 5, Weekday::Mon);
    }
    match holiday {
        Holiday::Easter => Some(calculate_easter(year)),
        Holiday::Thanksgiving => nth_weekday_of_month(year, 11, Weekday::Thu, 4),
        Holiday::LaborDay => nth_weekday_of_month(year, 9, Weekday::Mon, 1),
        Holiday::MemorialDay => last_weekday_of_month(year, 5, Weekday::Mon),
        Holiday::MlkDay => nth_weekday_of_month(year, 1, Weekday::Mon, 3),
    }
}

/// The number that a lowercase ordinal word ("first" to "fifth") names.
pub fn ordinal_from_word(lower: &str) -> (r: Option<u32>)
    ensures
        r == ordinal_of_word(lower@),
{
    if text_equals(lower, "first") {
        Some(1)
    } else if text_equals(lower, "second") {
        Some(2)
    } else if text_equals(lower, "third") {
        Some(3)
    } else if text_equals(lower, "fourth") {
        Some(4)
    } else if text_equals(lower, "fifth") {
        Some(5)
    } else {
        None
    }
}

/// The day of the week that a lowercase English name names.
pub fn weekday_from_word(lower: &str) -> (r: Option<Weekday>)
    ensures
        r == weekday_of_word(lower@),
{
    if text_equals(lower, "monday") {
        Some(Weekday::Mon)
    } else if text_equals(lower, "tuesday") {
        Some(Weekday::Tue)
    } else if text_equals(lower, "wednesday") {
        Some(Weekday::Wed)
    } else if text_equals(lower, "thursday") {
        Some(Weekday::Thu)
    } else if text_equals(lower, "friday") {
        Some(Weekday::Fri)
    } else if text_equals(lower, "saturday") {
        Some(Weekday::Sat)
    } else if text_equals(lower, "sunday") {
        Some(Weekday::Sun)
    } else {
        None
    }
}

/// The date that the capture groups of a relative date (group 0 first) name
/// in `year`.
pub fn relative_date_from_groups(groups: &Vec<String>, year: i32) -> (r: Option<Date>)
    ensures
        r == relative_date_of_groups(groups@.map_values(|g: String| g@), year),
        r matches Some(d) ==> d.is_valid(),
{
    if groups.len() < 4 {
        return None;
    }
    let ghost views = groups@.map_values(|g: String| g@);
    assert(views[1] == groups@[1]@ && views[2] == groups@[2]@ && views[3] == groups@[3]@);
    let nth = match ordinal_from_word(to_lowercase(groups[1].as_str()).as_str()) {
        Some(n) => n,
        None => return None,
    };
    let weekday = match weekday_from_word(to_lowercase(groups[2].as_str()).as_str()) {
        Some(w) => w,
        None => return None,
    };
    let month = match month_number_from_name(groups[3].as_str()) {
        Some(m) => m,
        None => return None,
    };
    proof {
        lemma_nth_weekday_is_the_nth(year, month, weekday, nth as int);
    }
    nth_weekday_of_month(year, month, weekday, nth)
}

/// The date that a relative date ("The second Sunday of May") names in `year`.
pub fn parse_relative_date(date_str: &str, year: i32) -> (r: Option<Date>)
    ensures
        r == relative_date_spec(date_str@, year),
        r matches Some(d) ==> d.is_valid(),
{
    match captures_of(RELATIVE_DATE_PATTERN, date_str) {
        Some(groups) => relative_date_from_groups(&groups, year),
        None => None,
    }
}

/// The date that a month and day ("December 25") names in `year`.
fn parse_month_day(date_str: &str, year: i32) -> (r: Option<Date>)
    ensures
        r == month_day_spec(date_str@, year),
        r matches Some(d) ==> d.is_valid(),
{
    let mut text = String::from_str(date_str);
    proof {
        reveal_strlit(" ");
    }
    text.append(" ");
    append_integer(&mut text, year);
    naive_parse(text.as_str(), MONTH_DAY_YEAR_FORMAT)
}

/// The date that a period's date text names in `year`.
pub fn parse_flexible_date(date_str: &str, year: i32) -> (r: Option<Date>)
    requires
        date_text_readable(date_str@, year),
    ensures
        r == flexible_date_spec(date_str@, year),
        r matches Some(d) ==> d.is_valid(),
{
    let lower = to_lowercase(trim(date_str));
    match holiday_keyword(lower.as_str()) {
        Some(holiday) => holiday_date(holiday, year),
        None => match parse_relative_date(date_str, year) {
            Some(date) => Some(date),
            None => parse_month_day(date_str, year),
        },
    }
}

/// Every holiday keyword names a date in every year from 0 on: Easter is a
/// Sunday between 22 March and 25 April, and the fourth Thursday of November,
/// the first Monday of September, the third Monday of January and the last
/// Monday of May always exist.
pub proof fn lemma_holidays_exist(holiday: Holiday, year: i32)
    requires
        0 <= year <= MAX_YEAR,
    ensures
        holiday_date_spec(holiday, year) matches Some(d) && d.is_valid() && d.year == year,
{
    match holiday {
        Holiday::Easter => {
            lemma_easter_is_spring_sunday(year as int);
        },
        Holiday::Thanksgiving => {
            lemma_first_four_weekdays_exist(year, 11, Weekday::Thu, 4);
            lemma_nth_weekday_is_the_nth(year, 11, Weekday::Thu, 4);
        },
        Holiday::LaborDay => {
            lemma_first_four_weekdays_exist(year, 9, Weekday::Mon, 1);
            lemma_nth_weekday_is_the_nth(year, 9, Weekday::Mon, 1);
        },
        Holiday::MemorialDay => {
            lemma_last_weekday_is_the_last(year, 5, Weekday::Mon);
        },
        Holiday::MlkDay => {
            lemma_first_four_weekdays_exist(year, 1, Weekday::Mon, 3);
            lemma_nth_weekday_is_the_nth(year, 1, Weekday::Mon, 3);
        },
    }
}

/// What each holiday is, in every year the library holds: Thanksgiving is the
/// Thursday of November in the month's fourth week, Labor Day the Monday of
/// September in its first week, MLK Day the Monday of January in its third
/// week, Memorial Day the Monday of May with no Monday of May after it, and
/// (from year 0 on) Easter a Sunday between 22 March and 25 April.
pub proof fn lemma_holidays_are_their_days(holiday: Holiday, year: i32)
    requires
        MIN_YEAR <= year <= MAX_YEAR,
    ensures
        match holiday {
            Holiday::Easter => 0 <= year ==> (holiday_date_spec(holiday, year) matches Some(d) && {
                &&& d.is_valid() && d.year == year
                &&& d.weekday_spec() == Weekday::Sun
                &&& (d.month == 3 && 22 <= d.day) || (d.month == 4 && d.day <= 25)
            }),
            Holiday::Thanksgiving => holiday_date_spec(holiday, year) matches Some(d) && {
                &&& d.is_valid() && d.year == year && d.month == 11
                &&& d.weekday_spec() == Weekday::Thu
                &&& (d.day - 1) / 7 == 3
            },
            Holiday::LaborDay => holiday_date_spec(holiday, year) matches Some(d) && {
                &&& d.is_valid() && d.year == year && d.month == 9
                &&& d.weekday_spec() == Weekday::Mon
                &&& (d.day - 1) / 7 == 0
            },
            Holiday::MemorialDay => holiday_date_spec(holiday, year) matches Some(d) && {
                &&& d.is_valid() && d.year == year && d.month == 5
                &&& d.weekday_spec() == Weekday::Mon
                &&& d.day + 7 > 31
            },
            Holiday::MlkDay => holiday_date_spec(holiday, year) matches Some(d) && {
                &&& d.is_valid() && d.year == year && d.month == 1
                &&& d.weekday_spec() == Weekday::Mon
                &&& (d.day - 1) / 7 == 2
            },
        },
{
    match holiday {
        Holiday::Easter => {
            if 0 <= year {
                lemma_easter_is_spring_sunday(year as int);
            }
        },
        Holiday::Thanksgiving => {
            lemma_first_four_weekdays_exist(year, 11, Weekday::Thu, 4);
            lemma_nth_weekday_in_week_n(year, 11, Weekday::Thu, 4);
        },
        Holiday::LaborDay => {
            lemma_first_four_weekdays_exist(year, 9, Weekday::Mon, 1);
            lemma_nth_weekday_in_week_n(year, 9, Weekday::Mon, 1);
        },
        Holiday::MemorialDay => {
            lemma_last_weekday_is_the_last(year, 5, Weekday::Mon);
        },
        Holiday::MlkDay => {
            lemma_first_four_weekdays_exist(year, 1, Weekday::Mon, 3);
            lemma_nth_weekday_in_week_n(year, 1, Weekday::Mon, 3);
        },
    }
}

/// The keywords name their holidays: "thanksgiving" the Thursday of November
/// in the fourth week, "laborday" the Monday of September in the first week,
/// "mlkday" the Monday of January in the third week, "memorialday" the last
/// Monday of May, and "easter" Easter Sunday.
pub proof fn lemma_keywords_name_their_days(year: i32)
    requires
        MIN_YEAR <= year <= MAX_YEAR,
    ensures
        holiday_of_keyword("easter"@) == Some(Holiday::Easter),
        holiday_of_keyword("thanksgiving"@) matches Some(h) && holiday_date_spec(h, year) matches Some(
            d,
        ) && d.month == 11 && d.weekday_spec() == Weekday::Thu && (d.day - 1) / 7 == 3,
        holiday_of_keyword("laborday"@) matches Some(h) && holiday_date_spec(h, year) matches Some(d)
            && d.month == 9 && d.weekday_spec() == Weekday::Mon && (d.day - 1) / 7 == 0,
        holiday_of_keyword("memorialday"@) matches Some(h) && holiday_date_spec(h, year) matches Some(
            d,
        ) && d.month == 5 && d.weekday_spec() == Weekday::Mon && d.day + 7 > 31,
        holiday_of_keyword("mlkday"@) matches Some(h) && holiday_date_spec(h, year) matches Some(d)
            && d.month == 1 && d.weekday_spec() == Weekday::Mon && (d.day - 1) / 7 == 2,
{
    lemma_keywords_name_holidays();
    lemma_holidays_are_their_days(Holiday::Thanksgiving, year);
    lemma_holidays_are_their_days(Holiday::LaborDay, year);
    lemma_holidays_are_their_days(Holiday::MemorialDay, year);
    lemma_holidays_are_their_days(Holiday::MlkDay, year);
}

proof fn lemma_keywords_name_holidays()
    ensures
        holiday_of_keyword("easter"@) == Some(Holiday::Easter),
        holiday_of_keyword("thanksgiving"@) == Some(Holiday::Thanksgiving),
        holiday_of_keyword("laborday"@) == Some(Holiday::LaborDay),
        holiday_of_keyword("memorialday"@) == Some(Holiday::MemorialDay),
        holiday_of_keyword("mlkday"@) == Some(Holiday::MlkDay),
{
    reveal_strlit("easter");
    reveal_strlit("thanksgiving");
    reveal_strlit("laborday");
    reveal_strlit("memorialday");
    reveal_strlit("mlkday");
    assert("easter"@.len() == 6 && "thanksgiving"@.len() == 12 && "laborday"@.len() == 8
        && "memorialday"@.len() == 11 && "mlkday"@.len() == 6);
    assert("mlkday"@[0] != "easter"@[0]);
}

/// The English names of the days name those days: "monday" is the first day
/// of the week (position 0, the weekday of 1 January of year 1) through
/// "sunday" the seventh (position 6).
pub proof fn lemma_weekday_words_name_their_days()
    ensures
        weekday_of_word("monday"@) matches Some(w) && w.index() == 0,
        weekday_of_word("tuesday"@) matches Some(w) && w.index() == 1,
        weekday_of_word("wednesday"@) matches Some(w) && w.index() == 2,
        weekday_of_word("thursday"@) matches Some(w) && w.index() == 3,
        weekday_of_word("friday"@) matches Some(w) && w.index() == 4,
        weekday_of_word("saturday"@) matches Some(w) && w.index() == 5,
        weekday_of_word("sunday"@) matches Some(w) && w.index() == 6,
        (Date { year: 1, month: 1, day: 1 }).weekday_spec().index() == 0,
{
    reveal_strlit("monday");
    reveal_strlit("tuesday");
    reveal_strlit("wednesday");
    reveal_strlit("thursday");
    reveal_strlit("friday");
    reveal_strlit("saturday");
    reveal_strlit("sunday");
    assert("monday"@.len() == 6 && "tuesday"@.len() == 7 && "wednesday"@.len() == 9
        && "thursday"@.len() == 8 && "friday"@.len() == 6 && "saturday"@.len() == 8
        && "sunday"@.len() == 6);
    assert("friday"@[0] != "monday"@[0]);
    assert("sunday"@[0] != "monday"@[0] && "sunday"@[0] != "friday"@[0]);
    assert("thursday"@[1] != "saturday"@[1]);
}

/// The ordinal words name their numbers: "first" is 1 through "fifth" 5.
pub proof fn lemma_ordinal_words_name_their_numbers()
    ensures
        ordinal_of_word("first"@) == Some(1u32),
        ordinal_of_word("second"@) == Some(2u32),
        ordinal_of_word("third"@) == Some(3u32),
        ordinal_of_word("fourth"@) == Some(4u32),
        ordinal_of_word("fifth"@) == Some(5u32),
{
    reveal_strlit("first");
    reveal_strlit("second");
    reveal_strlit("third");
    reveal_strlit("fourth");
    reveal_strlit("fifth");
    assert("first"@.len() == 5 && "second"@.len() == 6 && "third"@.len() == 5
        && "fourth"@.len() == 6 && "fifth"@.len() == 5);
    assert("third"@[0] != "first"@[0] && "fifth"@[2] != "first"@[2]);
    assert("fourth"@[0] != "second"@[0] && "fifth"@[0] != "third"@[0]);
}

/// A relative date falls on the weekday its words name, in the month they
/// name, and in the week the ordinal names: "The second Tuesday of March" is
/// a Tuesday of March whose day `d` has (d - 1) / 7 == 1.
pub proof fn lemma_relative_date_is_the_named_day(groups: Seq<Seq<char>>, year: i32)
    ensures
        relative_date_of_groups(groups, year) matches Some(d) ==> {
            &&& groups.len() >= 4
            &&& d.is_valid() && d.year == year
            &&& month_number_of_name(groups[3]) == Some(d.month)
            &&& weekday_of_word(str_to_lowercase(groups[2])) == Some(d.weekday_spec())
            &&& ordinal_of_word(str_to_lowercase(groups[1])) matches Some(n) && (d.day - 1) / 7 == n
                - 1
        },
{
    if groups.len() >= 4 {
        match (
            ordinal_of_word(str_to_lowercase(groups[1])),
            weekday_of_word(str_to_lowercase(groups[2])),
            month_number_of_name(groups[3]),
        ) {
            (Some(nth), Some(weekday), Some(month)) => {
                lemma_nth_weekday_in_week_n(year, month, weekday, nth as int);
            },
            _ => {},
        }
    }
}

} // verus!
