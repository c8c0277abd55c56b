//! Time periods: a date text with a window of days before and after it, and
//! which named periods a date falls into.
use vstd::prelude::*;
use vstd::string::StringExecFns;
use crate::calendar::{
    date_number, day_number_in_range, lemma_order_matches_day_numbers, Date, MAX_YEAR, MIN_YEAR,
};
use crate::chrono_dates::{naive_minus_days, naive_plus_days};
use crate::date_text::{date_text_readable, flexible_date_spec, keyword_of, parse_flexible_date};
use crate::easter::easter_exists;
use crate::text::{text_equals, to_lowercase, trim};

verus! {

/// A period: the text of its date, and how many days before and after that
/// date it covers.
#[derive(Clone, Debug)]
pub struct TimePeriod {
    pub date: String,
    pub days_before: i64,
    pub days_after: i64,
}

impl View for TimePeriod {
    type V = (Seq<char>, i64, i64);

    open spec fn view(&self) -> (Seq<char>, i64, i64) {
        (self.date@, self.days_before, self.days_after)
    }
}

/// Named periods as plain values: (name, (date text, days before, days after)).
pub open spec fn entries_view(entries: Seq<(String, TimePeriod)>) -> Seq<
    (Seq<char>, (Seq<char>, i64, i64)),
> {
    entries.map_values(|e: (String, TimePeriod)| (e.0@, e.1@))
}

/// A date falls into a period when the period's date exists in the date's
/// year and the date lies from `days_before` days before it to `days_after`
/// days after it, both ends included.
#[verifier::opaque]
pub open spec fn period_matches(period: (Seq<char>, i64, i64), current: Date) -> bool {
    match flexible_date_spec(period.0, current.year) {
        Some(base) => base.number() - period.1 <= current.number() <= base.number() + period.2,
        None => false,
    }
}

/// A period can be checked against a date without a failure: its date can be
/// read, and its window does not reach beyond the dates the library holds.
#[verifier::opaque]
pub open spec fn period_checkable(period: (Seq<char>, i64, i64), current: Date) -> bool {
    &&& date_text_readable(period.0, current.year)
    &&& match flexible_date_spec(period.0, current.year) {
        Some(base) => day_number_in_range(base.number() - period.1) && day_number_in_range(
            base.number() + period.2,
        ),
        None => true,
    }
}

pub open spec fn all_checkable(entries: Seq<(Seq<char>, (Seq<char>, i64, i64))>, current: Date) -> bool {
    forall|i: int| 0 <= i < entries.len() ==> period_checkable(#[trigger] entries[i].1, current)
}

/// Names of the first `n` entries whose period the date falls into, in order.
pub open spec fn matching_names(
    entries: Seq<(Seq<char>, (Seq<char>, i64, i64))>,
    current: Date,
    n: int,
) -> Seq<Seq<char>>
    decreases n,
{
    if n <= 0 {
        Seq::empty()
    } else {
        let earlier = matching_names(entries, current, n - 1);
        if period_matches(entries[n - 1].1, current) {
            earlier.push(entries[n - 1].0)
        } else {
            earlier
        }
    }
}

/// Names joined by single spaces.
pub open spec fn join_with_spaces(names: Seq<Seq<char>>) -> Seq<char>
    decreases names.len(),
{
    if names.len() == 0 {
        Seq::empty()
    } else if names.len() == 1 {
        names[0]
    } else {
        join_with_spaces(names.drop_last()) + seq![' '] + names.last()
    }
}

/// The answer for a date: the names of all the periods it falls into, in
/// order, separated by spaces; "Default" when it falls into none.
pub open spec fn current_period_text(
    entries: Seq<(Seq<char>, (Seq<char>, i64, i64))>,
    current: Date,
) -> Seq<char> {
    let names = matching_names(entries, current, entries.len() as int);
    if names.len() == 0 {
        "Default"@
    } else {
        join_with_spaces(names)
    }
}

proof fn lemma_entries_view_index(entries: Seq<(String, TimePeriod)>, i: int)
    requires
        0 <= i < entries.len(),
    ensures
        entries_view(entries).len() == entries.len(),
        entries_view(entries)[i] == (entries[i].0@, entries[i].1@),
{
}

proof fn lemma_join_push(names: Seq<Seq<char>>, name: Seq<char>)
    ensures
        join_with_spaces(names.push(name)) == if names.len() == 0 {
            name
        } else {
            join_with_spaces(names) + seq![' '] + name
        },
{
    assert(names.push(name).drop_last() == names);
}

/// Whether `current_date` falls into `period`.
fn period_contains(period: &TimePeriod, current_date: &Date) -> (r: bool)
    requires
        current_date.is_valid(),
        period_checkable(period@, *current_date),
    ensures
        r == period_matches(period@, *current_date),
{
    reveal(period_matches);
    reveal(period_checkable);
    match parse_flexible_date(period.date.as_str(), current_date.year) {
        Some(base) => {
            let start = naive_minus_days(&base, period.days_before);
            let end = naive_plus_days(&base, period.days_after);
            proof {
                lemma_order_matches_day_numbers(start, *current_date);
                lemma_order_matches_day_numbers(*current_date, end);
            }
            start.is_on_or_before(current_date) && current_date.is_on_or_before(&end)
        },
        None => false,
    }
}

/// The names of all the periods that `current_date` falls into, in order and
/// separated by spaces, or "Default" when it falls into none.
pub fn get_current_period(periods: &[(String, TimePeriod)], current_date: Date) -> (r: String)
    requires
        current_date.is_valid(),
        all_checkable(entries_view(periods@), current_date),
    ensures
        r@ == current_period_text(entries_view(periods@), current_date),
{
    let ghost entries = entries_view(periods@);
    let mut out = String::new();
    let mut found = false;
    let mut i: usize = 0;
    proof {
        reveal_strlit(" ");
    }
    while i < periods.len()
        invariant
            0 <= i <= periods@.len(),
            entries == entries_view(periods@),
            current_date.is_valid(),
            all_checkable(entries, current_date),
            found == (matching_names(entries, current_date, i as int).len() > 0),
            out@ == join_with_spaces(matching_names(entries, current_date, i as int)),
        decreases periods@.len() - i,
    {
        let entry = &periods[i];
        proof {
            lemma_entries_view_index(periods@, i as int);
            assert(period_checkable(entries[i as int].1, current_date));
            reveal_strlit(" ");
        }
        let ghost earlier = matching_names(entries, current_date, i as int);
        let matched = period_contains(&entry.1, &current_date);
        if matched {
            if found {
                out.append(" ");
            }
            out.append(entry.0.as_str());
            proof {
                lemma_join_push(earlier, entry.0@);
            }
            found = true;
        }
        assert(matching_names(entries, current_date, i + 1) == if matched {
            earlier.push(entry.0@)
        } else {
            earlier
        });
        i = i + 1;
    }
    if found {
        out
    } else {
        String::from_str("Default")
    }
}

/// Whether `period` can be checked against `current_date`; `first` and `last`
/// are the day numbers of the first and last dates the library holds.
fn period_is_checkable(period: &TimePeriod, current_date: &Date, first: i64, last: i64) -> (r:
    bool)
    requires
        current_date.is_valid(),
        first == crate::calendar::min_day_number(),
        last == crate::calendar::max_day_number(),
    ensures
        r == period_checkable(period@, *current_date),
{
    reveal(period_checkable);
    let lower = to_lowercase(trim(period.date.as_str()));
    proof {
        reveal_strlit("easter");
    }
    if text_equals(lower.as_str(), "easter") && !easter_exists(current_date.year) {
        return false;
    }
    match parse_flexible_date(period.date.as_str(), current_date.year) {
        Some(base) => {
            let n = date_number(&base) as i128;
            let start = n - period.days_before as i128;
            let end = n + period.days_after as i128;
            first as i128 <= start && start <= last as i128 && first as i128 <= end && end
                <= last as i128
        },
        None => true,
    }
}

/// Like `get_current_period`, but first checks that every period can be
/// checked against the date; `None` when one cannot (its Easter date does not
/// exist, or its window reaches beyond the dates the library holds).
pub fn try_get_current_period(periods: &[(String, TimePeriod)], current_date: Date) -> (r: Option<
    String,
>)
    requires
        current_date.is_valid(),
    ensures
        match r {
            Some(text) => all_checkable(entries_view(periods@), current_date) && text@
                == current_period_text(entries_view(periods@), current_date),
            None => !all_checkable(entries_view(periods@), current_date),
        },
{
    let ghost entries = entries_view(periods@);
    let first = date_number(&Date { year: MIN_YEAR, month: 1, day: 1 });
    let last = date_number(&Date { year: MAX_YEAR, month: 12, day: 31 });
    let mut i: usize = 0;
    while i < periods.len()
        invariant
            0 <= i <= periods@.len(),
            entries == entries_view(periods@),
            current_date.is_valid(),
            first == crate::calendar::min_day_number(),
            last == crate::calendar::max_day_number(),
            forall|j: int| 0 <= j < i ==> period_checkable(#[trigger] entries[j].1, current_date),
        decreases periods@.len() - i,
    {
        proof {
            lemma_entries_view_index(periods@, i as int);
        }
        if !period_is_checkable(&periods[i].1, &current_date, first, last) {
            assert(!period_checkable(entries[i as int].1, current_date));
            return None;
        }
        i = i + 1;
    }
    Some(get_current_period(periods, current_date))
}

/// A period with no days before or after covers exactly its own date.
pub proof fn lemma_zero_window_is_its_date(date_text: Seq<char>, current: Date)
    requires
        current.is_valid(),
        flexible_date_spec(date_text, current.year) matches Some(base) && base.is_valid(),
    ensures
        period_matches((date_text, 0, 0), current) <==> flexible_date_spec(date_text, current.year)
            == Some(current),
{
    reveal(period_matches);
    let base = flexible_date_spec(date_text, current.year).unwrap();
    lemma_order_matches_day_numbers(base, current);
}

/// Widening a period's window keeps every date it covered.
pub proof fn lemma_wider_window_keeps_dates(
    period: (Seq<char>, i64, i64),
    wider: (Seq<char>, i64, i64),
    current: Date,
)
    requires
        wider.0 == period.0,
        period.1 <= wider.1,
        period.2 <= wider.2,
        period_matches(period, current),
    ensures
        period_matches(wider, current),
{
    reveal(period_matches);
}

} // verus!
