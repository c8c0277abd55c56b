use name_time_period::calendar::{date_number, Date, Weekday};
use name_time_period::date_text::{
    holiday_date, holiday_keyword, ordinal_from_word, parse_flexible_date, parse_relative_date,
    relative_date_from_groups, weekday_from_word, Holiday,
};
use name_time_period::easter::{calculate_easter, easter_exists};
use name_time_period::period::{get_current_period, try_get_current_period, TimePeriod};
use name_time_period::text::{append_integer, text_equals};
use name_time_period::weekdays::{last_weekday_of_month, nth_weekday_of_month};
use name_time_period::yaml::{load_yaml_file, load_yaml_file_inner, parse_time_period, DEFAULT_CONFIG_YAML};

fn ymd(year: i32, month: u32, day: u32) -> Date {
    Date::from_ymd_opt(year, month, day).unwrap()
}

fn entry(name: &str, date: &str, before: i64, after: i64) -> (String, TimePeriod) {
    (
        name.to_string(),
        TimePeriod { date: date.to_string(), days_before: before, days_after: after },
    )
}


// ── calendar ──────────────────────────────────────────────────────────────

#[test]
fn from_ymd_checks_the_calendar_and_range() {
    assert!(Date::from_ymd_opt(2024, 2, 29).is_some());
    assert!(Date::from_ymd_opt(2025, 2, 29).is_none());
    assert!(Date::from_ymd_opt(2000, 2, 29).is_some());
    assert!(Date::from_ymd_opt(1900, 2, 29).is_none());
    assert!(Date::from_ymd_opt(2025, 4, 31).is_none());
    assert!(Date::from_ymd_opt(2025, 0, 1).is_none());
    assert!(Date::from_ymd_opt(2025, 13, 1).is_none());
    assert!(Date::from_ymd_opt(2025, 1, 0).is_none());
    assert!(Date::from_ymd_opt(262142, 12, 31).is_some());
    assert!(Date::from_ymd_opt(262143, 1, 1).is_none());
    assert!(Date::from_ymd_opt(-262143, 1, 1).is_some());
    assert!(Date::from_ymd_opt(-262144, 12, 31).is_none());
    assert_eq!(Date::from_ymd_opt(2025, 7, 4), Some(Date { year: 2025, month: 7, day: 4 }));
}

#[test]
fn weekdays_of_known_dates() {
    assert_eq!(ymd(2025, 1, 1).weekday(), Weekday::Wed);
    assert_eq!(ymd(1970, 1, 1).weekday(), Weekday::Thu);
    assert_eq!(ymd(1, 1, 1).weekday(), Weekday::Mon);
    assert_eq!(ymd(2000, 2, 29).weekday(), Weekday::Tue);
    assert_eq!(ymd(-1, 12, 31).weekday(), Weekday::Fri);
}

#[test]
fn day_numbers_count_from_year_one() {
    assert_eq!(date_number(&ymd(1, 1, 1)), 1);
    assert_eq!(date_number(&ymd(2, 1, 1)), 366);
    assert_eq!(date_number(&ymd(1970, 1, 1)), 719_163);
    assert_eq!(date_number(&ymd(0, 1, 1)), -365);
    assert_eq!(date_number(&ymd(-262143, 1, 1)), -95_746_129);
    assert_eq!(date_number(&ymd(262142, 12, 31)), 95_745_399);
}

#[test]
fn chronological_order_of_dates() {
    assert!(ymd(2024, 12, 31).is_on_or_before(&ymd(2025, 1, 1)));
    assert!(!ymd(2025, 1, 1).is_on_or_before(&ymd(2024, 12, 31)));
    assert!(ymd(2025, 3, 1).is_on_or_before(&ymd(2025, 3, 1)));
    assert!(ymd(2025, 2, 28).is_on_or_before(&ymd(2025, 3, 1)));
}

// ── Easter ────────────────────────────────────────────────────────────────

#[test]
fn easter_is_a_spring_sunday_for_many_years() {
    for year in 0..3000 {
        let easter = calculate_easter(year);
        assert_eq!(easter.weekday(), Weekday::Sun, "Easter {}", year);
        let in_window = (easter.month == 3 && easter.day >= 22)
            || (easter.month == 4 && easter.day <= 25);
        assert!(in_window, "Easter {} on {:?}", year, easter);
    }
}

#[test]
fn easter_known_extremes() {
    // Earliest and latest possible dates.
    assert_eq!(calculate_easter(1818), ymd(1818, 3, 22));
    assert_eq!(calculate_easter(1943), ymd(1943, 4, 25));
    assert_eq!(calculate_easter(2038), ymd(2038, 4, 25));
    assert_eq!(calculate_easter(2285), ymd(2285, 3, 22));
}

#[test]
fn easter_exists_only_when_the_algorithm_gives_a_date() {
    assert!(easter_exists(2025));
    assert!(easter_exists(0));
    assert!(easter_exists(262142));
    assert!(!easter_exists(-262141));
    assert!(!easter_exists(262143));
}

// ── weekdays of a month ───────────────────────────────────────────────────

#[test]
fn nth_weekday_of_a_missing_month_is_none() {
    assert_eq!(nth_weekday_of_month(2025, 13, Weekday::Mon, 1), None);
    assert_eq!(nth_weekday_of_month(2025, 0, Weekday::Mon, 1), None);
    assert_eq!(nth_weekday_of_month(262143, 1, Weekday::Mon, 1), None);
    assert_eq!(last_weekday_of_month(2025, 13, Weekday::Mon), None);
}

#[test]
fn nth_weekday_are_a_week_apart() {
    let first = nth_weekday_of_month(2024, 2, Weekday::Thu, 1).unwrap();
    for nth in 1..=5u32 {
        let d = nth_weekday_of_month(2024, 2, Weekday::Thu, nth).unwrap();
        assert_eq!(d.day, first.day + 7 * (nth - 1));
        assert_eq!(d.weekday(), Weekday::Thu);
    }
    // February 2024 has five Thursdays (1, 8, 15, 22, 29) but no sixth.
    assert_eq!(nth_weekday_of_month(2024, 2, Weekday::Thu, 6), None);
    assert_eq!(last_weekday_of_month(2024, 2, Weekday::Thu), Some(ymd(2024, 2, 29)));
}

#[test]
fn last_weekday_is_in_the_last_week() {
    for month in 1..=12u32 {
        for weekday in [
            Weekday::Mon,
            Weekday::Tue,
            Weekday::Wed,
            Weekday::Thu,
            Weekday::Fri,
            Weekday::Sat,
            Weekday::Sun,
        ] {
            let d = last_weekday_of_month(2023, month, weekday).unwrap();
            assert_eq!(d.weekday(), weekday);
            assert!(Date::from_ymd_opt(2023, month, d.day + 7).is_none());
            assert!(nth_weekday_of_month(2023, month, weekday, 4).is_some());
        }
    }
}

// ── date texts ────────────────────────────────────────────────────────────

#[test]
fn keywords_name_holidays() {
    assert_eq!(holiday_keyword("easter"), Some(Holiday::Easter));
    assert_eq!(holiday_keyword("mlkday"), Some(Holiday::MlkDay));
    assert_eq!(holiday_keyword("Easter"), None);
    assert_eq!(holiday_keyword("christmas"), None);
    assert_eq!(holiday_date(Holiday::MemorialDay, 2024), Some(ymd(2024, 5, 27)));
    assert_eq!(holiday_date(Holiday::Thanksgiving, 2024), Some(ymd(2024, 11, 28)));
    assert_eq!(holiday_date(Holiday::LaborDay, 2024), Some(ymd(2024, 9, 2)));
    assert_eq!(holiday_date(Holiday::MlkDay, 2024), Some(ymd(2024, 1, 15)));
    assert_eq!(holiday_date(Holiday::Easter, 2024), Some(ymd(2024, 3, 31)));
}

#[test]
fn keywords_are_trimmed_and_lowercased() {
    assert_eq!(parse_flexible_date("  Easter \t", 2025), Some(ymd(2025, 4, 20)));
    assert_eq!(parse_flexible_date("thanksGIVING", 2024), Some(ymd(2024, 11, 28)));
    assert_eq!(parse_flexible_date(" memorialday", 2024), Some(ymd(2024, 5, 27)));
}

#[test]
fn words_of_relative_dates() {
    assert_eq!(ordinal_from_word("third"), Some(3));
    assert_eq!(ordinal_from_word("Third"), None);
    assert_eq!(ordinal_from_word("sixth"), None);
    assert_eq!(weekday_from_word("saturday"), Some(Weekday::Sat));
    assert_eq!(weekday_from_word("sat"), None);
}

#[test]
fn relative_dates_from_groups() {
    let groups = vec![
        "The Second Sunday of May".to_string(),
        "Second".to_string(),
        "SUNDAY".to_string(),
        "may".to_string(),
    ];
    assert_eq!(relative_date_from_groups(&groups, 2025), Some(ymd(2025, 5, 11)));
    let short = vec!["x".to_string(), "first".to_string()];
    assert_eq!(relative_date_from_groups(&short, 2025), None);
}

#[test]
fn relative_dates_ignore_case_and_accept_short_months() {
    assert_eq!(parse_relative_date("the FIRST monday OF sep", 2025), Some(ymd(2025, 9, 1)));
    assert_eq!(parse_relative_date("Our day: the first Monday of Sept", 2025), None);
    assert_eq!(parse_relative_date("Our day: the first Monday of June", 2025), Some(ymd(2025, 6, 2)));
    assert_eq!(parse_relative_date("The fifth Monday of February", 2025), None);
    assert_eq!(parse_relative_date("The first Monday of Smarch", 2025), None);
    assert_eq!(parse_relative_date("first Monday of June", 2025), None);
}

#[test]
fn month_and_day_texts() {
    assert_eq!(parse_flexible_date("February 29", 2024), Some(ymd(2024, 2, 29)));
    assert_eq!(parse_flexible_date("February 29", 2025), None);
    assert_eq!(parse_flexible_date("Dec 25", 2025), Some(ymd(2025, 12, 25)));
    assert_eq!(parse_flexible_date("December 25 2024", 2025), None);
}

#[test]
fn integers_as_text() {
    let mut s = String::from("year ");
    append_integer(&mut s, 2025);
    assert_eq!(s, "year 2025");
    let mut s = String::new();
    append_integer(&mut s, -40);
    assert_eq!(s, "-40");
    let mut s = String::new();
    append_integer(&mut s, 0);
    assert_eq!(s, "0");
    let mut s = String::new();
    append_integer(&mut s, i32::MIN);
    assert_eq!(s, "-2147483648");
    assert!(text_equals("abc", "abc"));
    assert!(!text_equals("abc", "abd"));
}

// ── periods ───────────────────────────────────────────────────────────────

#[test]
fn periods_cross_month_and_year_ends() {
    let ps = vec![
        entry("LeapEve", "March 1", 1, 0),
        entry("NewYearEve", "December 31", 0, 1),
        entry("Christmas", "December 25", 3, 1),
    ];
    assert_eq!(get_current_period(&ps, ymd(2024, 2, 29)), "LeapEve");
    assert_eq!(get_current_period(&ps, ymd(2025, 2, 28)), "LeapEve");
    assert_eq!(get_current_period(&ps, ymd(2025, 12, 31)), "NewYearEve");
    assert_eq!(get_current_period(&ps, ymd(2025, 12, 22)), "Christmas");
    assert_eq!(get_current_period(&ps, ymd(2025, 12, 21)), "Default");
}

#[test]
fn periods_keep_their_order_and_skip_unknown_dates() {
    let ps = vec![
        entry("A", "Easter", 10, 10),
        entry("Unknown", "Someday", 100, 100),
        entry("B", "The third Sunday of April", 0, 0),
        entry("C", "April 20", 0, 0),
    ];
    assert_eq!(get_current_period(&ps, ymd(2025, 4, 20)), "A B C");
    assert_eq!(get_current_period(&ps, ymd(2025, 4, 21)), "A");
}

#[test]
fn negative_windows_are_empty() {
    let ps = vec![entry("Odd", "April 20", -1, 0)];
    assert_eq!(get_current_period(&ps, ymd(2025, 4, 20)), "Default");
    assert_eq!(get_current_period(&ps, ymd(2025, 4, 19)), "Default");
}

#[test]
fn checked_periods_refuse_what_would_fail() {
    let fine = vec![entry("P", "February 6", 3, 2)];
    assert_eq!(try_get_current_period(&fine, ymd(2025, 2, 4)), Some("P".to_string()));
    let too_wide = vec![entry("P", "February 6", 200_000_000, 0)];
    assert_eq!(try_get_current_period(&too_wide, ymd(2025, 2, 4)), None);
    let too_wide_after = vec![entry("P", "February 6", 0, i64::MAX)];
    assert_eq!(try_get_current_period(&too_wide_after, ymd(2025, 2, 4)), None);
    let ancient_easter = vec![entry("E", "easter", 0, 0)];
    assert_eq!(try_get_current_period(&ancient_easter, ymd(-262141, 5, 1)), None);
    let unknown = vec![entry("U", "nothing", i64::MAX, i64::MAX)];
    assert_eq!(try_get_current_period(&unknown, ymd(2025, 2, 4)), Some("Default".to_string()));
}

// ── configuration files ───────────────────────────────────────────────────

#[test]
fn default_configuration_loads_in_order() {
    let entries = load_yaml_file(DEFAULT_CONFIG_YAML);
    let names: Vec<&str> = entries.iter().map(|e| e.0.as_str()).collect();
    assert_eq!(names, vec!["MothersDay", "FathersDay", "EasterPeriod", "Thanksgiving", "LaborWeek"]);
    let expected = [
        ("MothersDay", "The second Sunday of May", 3, 1),
        ("FathersDay", "The third Sunday of June", 3, 1),
        ("EasterPeriod", "Easter", 5, 2),
        ("Thanksgiving", "Thanksgiving", 3, 2),
        ("LaborWeek", "LaborDay", 1, 2),
    ];
    for (e, (name, date, before, after)) in entries.iter().zip(expected.iter()) {
        assert_eq!(e.0, *name);
        assert_eq!(e.1.date, *date);
        assert_eq!(e.1.days_before, *before);
        assert_eq!(e.1.days_after, *after);
    }
    assert_eq!(get_current_period(&entries, ymd(2025, 5, 10)), "MothersDay");
    assert_eq!(get_current_period(&entries, ymd(2025, 4, 15)), "EasterPeriod");
    assert_eq!(get_current_period(&entries, ymd(2025, 7, 4)), "Default");
}

#[test]
fn unreadable_configurations_give_no_periods() {
    assert!(load_yaml_file("").is_empty());
    assert!(load_yaml_file_inner("Other: 1\n").is_none());
    assert!(load_yaml_file_inner("TimePeriods: 3\n").is_none());
    assert!(load_yaml_file_inner("[1, 2]\n").is_none());
    assert!(load_yaml_file_inner("TimePeriods: [\n").is_none());
    assert_eq!(load_yaml_file_inner("TimePeriods: []\n").map(|v| v.len()), Some(0));
}

#[test]
fn entries_that_describe_no_period_are_skipped() {
    let text = "TimePeriods:
  - 7
  - Broken:
      Date: Easter
  - Second:
      Date: [1]
      DaysBefore: 1
      DaysAfter: 1
    Fallback:
      Date: Easter
      DaysBefore: 1
      DaysAfter: 1
  - Floaty:
      Date: Easter
      DaysBefore: 1.5
      DaysAfter: 1
  - Huge:
      Date: Easter
      DaysBefore: 9223372036854775808
      DaysAfter: 1
";
    let entries = load_yaml_file(text);
    assert_eq!(entries.len(), 1);
    assert_eq!(entries[0].0, "Fallback");
}

#[test]
fn period_mapping_rules() {
    assert!(parse_time_period("Date: Easter\nDaysBefore: 1\nDaysAfter: 2\n1: x\n").is_none());
    assert!(parse_time_period("Date: 2025\nDaysBefore: 1\nDaysAfter: 2\n").is_none());
    assert!(parse_time_period("Date: Easter\nDaysBefore: '1'\nDaysAfter: 2\n").is_none());
    assert!(parse_time_period("Date: Easter\nDaysBefore: 1\nDaysAfter: 2\n!t Date: Easter\n").is_none());
    let tagged = parse_time_period("!p\nDate: !t Easter\nDaysBefore: -4\nDaysAfter: 2\n").unwrap();
    assert_eq!(tagged.date, "Easter");
    assert_eq!(tagged.days_before, -4);
    assert!(parse_time_period("~").is_none());
    assert!(parse_time_period("- Easter\n- 1\n- 2\n").is_none());
}

#[test]
fn nth_weekday_falls_in_week_n() {
    for month in 1..=12u32 {
        for nth in 1..=5u32 {
            if let Some(d) = nth_weekday_of_month(2026, month, Weekday::Fri, nth) {
                assert_eq!((d.day - 1) / 7, nth - 1);
            }
        }
    }
}

#[test]
fn no_sixth_weekday_in_any_month() {
    for month in 1..=12u32 {
        assert_eq!(nth_weekday_of_month(2024, month, Weekday::Sun, 6), None);
        assert_eq!(nth_weekday_of_month(2024, month, Weekday::Sun, u32::MAX), None);
    }
}
