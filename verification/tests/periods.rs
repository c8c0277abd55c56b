use name_time_period::calendar::{Date, Weekday};
use name_time_period::date_text::parse_flexible_date;
use name_time_period::easter::calculate_easter;
use name_time_period::period::{get_current_period, TimePeriod};
use name_time_period::weekdays::{last_weekday_of_month, nth_weekday_of_month};
use name_time_period::yaml::parse_time_period;

fn period(name: &str, date_str: &str, days_before: i64, days_after: i64) -> (String, TimePeriod) {
    (
        name.to_string(),
        TimePeriod {
            date: date_str.to_string(),
            days_before,
            days_after,
        },
    )
}

fn ymd(year: i32, month: u32, day: u32) -> Date {
    Date::from_ymd_opt(year, month, day).unwrap()
}

// ── calculate_easter ──────────────────────────────────────────────────────

#[test]
fn test_easter_2020() {
    assert_eq!(calculate_easter(2020), ymd(2020, 4, 12));
}

#[test]
fn test_easter_2021() {
    assert_eq!(calculate_easter(2021), ymd(2021, 4, 4));
}

#[test]
fn test_easter_2022() {
    assert_eq!(calculate_easter(2022), ymd(2022, 4, 17));
}

#[test]
fn test_easter_2023() {
    assert_eq!(calculate_easter(2023), ymd(2023, 4, 9));
}

#[test]
fn test_easter_2024() {
    assert_eq!(calculate_easter(2024), ymd(2024, 3, 31));
}

#[test]
fn test_easter_2025() {
    assert_eq!(calculate_easter(2025), ymd(2025, 4, 20));
}

#[test]
fn test_easter_2026() {
    assert_eq!(calculate_easter(2026), ymd(2026, 4, 5));
}

// ── nth_weekday_of_month ──────────────────────────────────────────────────

#[test]
fn test_nth_weekday_second_sunday_may_2025() {
    // Mother's Day
    let date = nth_weekday_of_month(2025, 5, Weekday::Sun, 2);
    assert_eq!(date, Some(ymd(2025, 5, 11)));
}

#[test]
fn test_nth_weekday_third_sunday_june_2025() {
    // Father's Day
    let date = nth_weekday_of_month(2025, 6, Weekday::Sun, 3);
    assert_eq!(date, Some(ymd(2025, 6, 15)));
}

#[test]
fn test_nth_weekday_fourth_thursday_november_2025() {
    // Thanksgiving
    let date = nth_weekday_of_month(2025, 11, Weekday::Thu, 4);
    assert_eq!(date, Some(ymd(2025, 11, 27)));
}

#[test]
fn test_nth_weekday_first_monday_september_2025() {
    // Labor Day — Sep 1 is a Monday in 2025
    let date = nth_weekday_of_month(2025, 9, Weekday::Mon, 1);
    assert_eq!(date, Some(ymd(2025, 9, 1)));
}

#[test]
fn test_nth_weekday_third_monday_january_2025() {
    // MLK Day
    let date = nth_weekday_of_month(2025, 1, Weekday::Mon, 3);
    assert_eq!(date, Some(ymd(2025, 1, 20)));
}

#[test]
fn test_nth_weekday_fifth_exists() {
    // Five Mondays in December 2025: 1, 8, 15, 22, 29
    let date = nth_weekday_of_month(2025, 12, Weekday::Mon, 5);
    assert_eq!(date, Some(ymd(2025, 12, 29)));
}

#[test]
fn test_nth_weekday_fifth_does_not_exist() {
    // February 2025 has only 4 Mondays: 3, 10, 17, 24
    let date = nth_weekday_of_month(2025, 2, Weekday::Mon, 5);
    assert_eq!(date, None);
}

#[test]
fn test_nth_weekday_first_saturday_march_2025() {
    // March 1, 2025 is a Saturday
    let date = nth_weekday_of_month(2025, 3, Weekday::Sat, 1);
    assert_eq!(date, Some(ymd(2025, 3, 1)));
}

#[test]
fn test_nth_weekday_all_days_january_2025() {
    // Jan 1, 2025 is a Wednesday; verify first of every weekday
    let cases = [
        (Weekday::Mon, 6u32),
        (Weekday::Tue, 7),
        (Weekday::Wed, 1),
        (Weekday::Thu, 2),
        (Weekday::Fri, 3),
        (Weekday::Sat, 4),
        (Weekday::Sun, 5),
    ];
    for (weekday, day) in cases {
        assert_eq!(
            nth_weekday_of_month(2025, 1, weekday, 1),
            Some(ymd(2025, 1, day)),
            "first {:?} of January 2025",
            weekday,
        );
    }
}

// ── last_weekday_of_month ─────────────────────────────────────────────────

#[test]
fn test_last_weekday_memorial_day_2025() {
    let date = last_weekday_of_month(2025, 5, Weekday::Mon);
    assert_eq!(date, Some(ymd(2025, 5, 26)));
}

#[test]
fn test_last_weekday_memorial_day_2026() {
    let date = last_weekday_of_month(2026, 5, Weekday::Mon);
    assert_eq!(date, Some(ymd(2026, 5, 25)));
}

#[test]
fn test_last_weekday_last_friday_february_2025() {
    // Feb 2025 ends on the 28th (Friday)
    let date = last_weekday_of_month(2025, 2, Weekday::Fri);
    assert_eq!(date, Some(ymd(2025, 2, 28)));
}

#[test]
fn test_last_weekday_last_sunday_december_2025() {
    // Dec 2025: Sundays on 7, 14, 21, 28
    let date = last_weekday_of_month(2025, 12, Weekday::Sun);
    assert_eq!(date, Some(ymd(2025, 12, 28)));
}

// ── parse_flexible_date keywords ──────────────────────────────────────────

#[test]
fn test_parse_keyword_easter() {
    assert_eq!(parse_flexible_date("Easter", 2025), Some(ymd(2025, 4, 20)));
}

#[test]
fn test_parse_keyword_easter_case_insensitive() {
    assert_eq!(parse_flexible_date("EASTER", 2025), Some(ymd(2025, 4, 20)));
}

#[test]
fn test_parse_keyword_thanksgiving() {
    assert_eq!(parse_flexible_date("Thanksgiving", 2025), Some(ymd(2025, 11, 27)));
}

#[test]
fn test_parse_keyword_laborday() {
    assert_eq!(parse_flexible_date("LaborDay", 2025), Some(ymd(2025, 9, 1)));
}

#[test]
fn test_parse_keyword_memorialday() {
    assert_eq!(parse_flexible_date("MemorialDay", 2025), Some(ymd(2025, 5, 26)));
}

#[test]
fn test_parse_keyword_mlkday() {
    assert_eq!(parse_flexible_date("MLKDay", 2025), Some(ymd(2025, 1, 20)));
}

#[test]
fn test_parse_fixed_date_february() {
    assert_eq!(parse_flexible_date("February 6", 2025), Some(ymd(2025, 2, 6)));
}

#[test]
fn test_parse_fixed_date_december() {
    assert_eq!(parse_flexible_date("December 25", 2025), Some(ymd(2025, 12, 25)));
}

// ── parse_relative_date via parse_flexible_date ───────────────────────────

#[test]
fn test_parse_relative_first_monday() {
    assert_eq!(
        parse_flexible_date("The first Monday of September", 2025),
        Some(ymd(2025, 9, 1)),
    );
}

#[test]
fn test_parse_relative_second_sunday() {
    assert_eq!(parse_flexible_date("The second Sunday of May", 2025), Some(ymd(2025, 5, 11)));
}

#[test]
fn test_parse_relative_third_sunday() {
    assert_eq!(parse_flexible_date("The third Sunday of June", 2025), Some(ymd(2025, 6, 15)));
}

#[test]
fn test_parse_relative_fourth_thursday() {
    assert_eq!(
        parse_flexible_date("The fourth Thursday of November", 2025),
        Some(ymd(2025, 11, 27)),
    );
}

#[test]
fn test_parse_relative_fifth_monday() {
    // December 2025 has five Mondays: 1, 8, 15, 22, 29
    assert_eq!(
        parse_flexible_date("The fifth Monday of December", 2025),
        Some(ymd(2025, 12, 29)),
    );
}

#[test]
fn test_parse_relative_invalid_ordinal() {
    assert_eq!(parse_flexible_date("The sixth Monday of January", 2025), None);
}

#[test]
fn test_parse_relative_invalid_weekday() {
    assert_eq!(parse_flexible_date("The first Blursday of January", 2025), None);
}

#[test]
fn test_parse_invalid_date() {
    assert_eq!(parse_flexible_date("Invalid date", 2025), None);
}

#[test]
fn test_parse_empty_string() {
    assert_eq!(parse_flexible_date("", 2025), None);
}

// ── get_current_period boundaries ─────────────────────────────────────────

#[test]
fn test_period_exact_base_date() {
    let ps = vec![period("P", "February 6", 0, 0)];
    assert_eq!(get_current_period(&ps, ymd(2025, 2, 6)), "P");
}

#[test]
fn test_period_start_boundary() {
    // Feb 6 - 3 days = Feb 3; should match
    let ps = vec![period("P", "February 6", 3, 2)];
    assert_eq!(get_current_period(&ps, ymd(2025, 2, 3)), "P");
}

#[test]
fn test_period_end_boundary() {
    // Feb 6 + 2 days = Feb 8; should match
    let ps = vec![period("P", "February 6", 3, 2)];
    assert_eq!(get_current_period(&ps, ymd(2025, 2, 8)), "P");
}

#[test]
fn test_period_one_day_before_start() {
    // Feb 6 - 3 - 1 = Feb 2; should not match
    let ps = vec![period("P", "February 6", 3, 2)];
    assert_eq!(get_current_period(&ps, ymd(2025, 2, 2)), "Default");
}

#[test]
fn test_period_one_day_after_end() {
    // Feb 6 + 2 + 1 = Feb 9; should not match
    let ps = vec![period("P", "February 6", 3, 2)];
    assert_eq!(get_current_period(&ps, ymd(2025, 2, 9)), "Default");
}

#[test]
fn test_period_empty_list_returns_default() {
    let ps: Vec<(String, TimePeriod)> = vec![];
    assert_eq!(get_current_period(&ps, ymd(2025, 6, 15)), "Default");
}

#[test]
fn test_period_zero_window_adjacent_days_miss() {
    let ps = vec![period("P", "February 6", 0, 0)];
    assert_eq!(get_current_period(&ps, ymd(2025, 2, 5)), "Default");
    assert_eq!(get_current_period(&ps, ymd(2025, 2, 7)), "Default");
}

#[test]
fn test_period_multiple_matches_joined_by_space() {
    let ps = vec![
        period("Period1", "February 6", 2, 2),
        period("Period2", "February 6", 1, 1),
    ];
    assert_eq!(get_current_period(&ps, ymd(2025, 2, 6)), "Period1 Period2");
}

#[test]
fn test_period_only_wider_period_matches_boundary() {
    // Feb 4 is within Period1 (days_before=2) but outside Period2 (days_before=1)
    let ps = vec![
        period("Period1", "February 6", 2, 2),
        period("Period2", "February 6", 1, 1),
    ];
    assert_eq!(get_current_period(&ps, ymd(2025, 2, 4)), "Period1");
}

// ── YAML deserialization ──────────────────────────────────────────────────

#[test]
fn test_yaml_roundtrip_basic() {
    let yaml = "Date: Easter\nDaysBefore: 3\nDaysAfter: 2\n";
    let tp: TimePeriod = parse_time_period(yaml).unwrap();
    assert_eq!(tp.date, "Easter");
    assert_eq!(tp.days_before, 3);
    assert_eq!(tp.days_after, 2);
}

#[test]
fn test_yaml_ignores_comment_field() {
    let yaml = "Date: Easter\nDaysBefore: 5\nDaysAfter: 2\nComment: Easter celebration\n";
    let tp: TimePeriod = parse_time_period(yaml).unwrap();
    assert_eq!(tp.date, "Easter");
    assert_eq!(tp.days_before, 5);
}

#[test]
fn test_yaml_zero_days() {
    let yaml = "Date: Christmas\nDaysBefore: 0\nDaysAfter: 0\n";
    let tp: TimePeriod = parse_time_period(yaml).unwrap();
    assert_eq!(tp.days_before, 0);
    assert_eq!(tp.days_after, 0);
}

#[test]
fn test_yaml_missing_required_field_fails() {
    let yaml = "Date: Easter\nDaysBefore: 3\n";
    assert!(parse_time_period(yaml).is_none());
}
