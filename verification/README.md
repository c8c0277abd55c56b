# name_time_period

Which named time periods ("MothersDay", "EasterPeriod", ...) does a date fall
into? Each period is a date text with a window of days before and after it;
the answer lists every matching period, separated by spaces, or `Default`.

The library in `src/` is verified with Verus:

- `calendar`: dates as plain values, validity, day numbers, weekdays, and the
  proof that chronological order is the order of day numbers.
- `chrono_dates`: the date operations chrono performs (building a date, its
  weekday, moving it by days, parsing, month names), with their contracts.
- `easter`: Western Easter by the anonymous Gregorian algorithm, with the proof
  that from year 0 on it is a Sunday between 22 March and 25 April.
- `weekdays`: the n-th and the last weekday of a month, and their laws.
- `text`: trimming, lowercasing, regular-expression captures, decimal text.
- `date_text`: reading a period's date text (keyword, relative date, month and day).
- `period`: time periods and which of them a date falls into.
- `yaml`: reading the `TimePeriods` list of a YAML configuration.

`app/main.rs` is the command-line program: arguments, the configuration files
under `/etc` and `~/.config`, and printing the answer.
