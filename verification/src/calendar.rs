//! Day-of-year arithmetic on a non-leap calendar.

use vstd::prelude::*;

verus! {

/// Length of month `month` (1 = January .. 12 = December) in a non-leap year;
/// 0 for any other index.
pub open spec fn month_length(month: int) -> int {
    if month == 1 { 31 }
    else if month == 2 { 28 }
    else if month == 3 { 31 }
    else if month == 4 { 30 }
    else if month == 5 { 31 }
    else if month == 6 { 30 }
    else if month == 7 { 31 }
    else if month == 8 { 31 }
    else if month == 9 { 30 }
    else if month == 10 { 31 }
    else if month == 11 { 30 }
    else if month == 12 { 31 }
    else { 0 }
}

/// Number of days in the months that come before `month` in the year:
/// the sum of `month_length(i)` over `1 <= i < month` (0 up to January,
/// 365 from one past December on).
pub open spec fn days_before_month(month: int) -> int {
    if month <= 1 { 0 }
    else if month == 2 { 31 }
    else if month == 3 { 59 }
    else if month == 4 { 90 }
    else if month == 5 { 120 }
    else if month == 6 { 151 }
    else if month == 7 { 181 }
    else if month == 8 { 212 }
    else if month == 9 { 243 }
    else if month == 10 { 273 }
    else if month == 11 { 304 }
    else if month == 12 { 334 }
    else { 365 }
}

/// The day number that `day_of_year` gives for a month and a day of that month.
pub open spec fn day_number(month: int, day_of_month: int) -> int {
    day_of_month + days_before_month(month)
}

/// A date of a non-leap year: a month from 1 to 12 and a day within that month.
pub open spec fn is_valid_date(month: int, day_of_month: int) -> bool {
    &&& 1 <= month <= 12
    &&& 1 <= day_of_month <= month_length(month)
}

/// Each month adds its own length: the days before month `month + 1` are the
/// days before `month` and the days of `month` itself.
pub proof fn lemma_days_before_next_month(month: int)
    ensures
        days_before_month(month + 1) == days_before_month(month) + month_length(month),
{
}

/// Every date of the year has a day number from 1 to 365.
pub proof fn lemma_day_number_in_year(month: int, day_of_month: int)
    requires
        is_valid_date(month, day_of_month),
    ensures
        1 <= day_number(month, day_of_month) <= 365,
{
}

/// Day numbers follow calendar order: a date that comes earlier in the year
/// (an earlier month, or the same month and an earlier day) has a smaller
/// day number. So no two dates share a day number.
pub proof fn lemma_day_number_follows_calendar_order(
    month1: int,
    day1: int,
    month2: int,
    day2: int,
)
    requires
        is_valid_date(month1, day1),
        is_valid_date(month2, day2),
        month1 < month2 || (month1 == month2 && day1 < day2),
    ensures
        day_number(month1, day1) < day_number(month2, day2),
{
}

/// The first day of a month comes right after the last day of the month before.
pub proof fn lemma_next_month_starts_after_last_day(month: int)
    requires
        1 <= month <= 11,
    ensures
        day_number(month + 1, 1) == day_number(month, month_length(month)) + 1,
{
}

/// Every day number from 1 to 365 belongs to some date of the year.
pub proof fn lemma_every_day_number_has_a_date(n: int)
    requires
        1 <= n <= 365,
    ensures
        exists|month: int, day_of_month: int|
            is_valid_date(month, day_of_month) && #[trigger] day_number(month, day_of_month) == n,
{
    let month: int = if n <= 31 { 1 }
        else if n <= 59 { 2 }
        else if n <= 90 { 3 }
        else if n <= 120 { 4 }
        else if n <= 151 { 5 }
        else if n <= 181 { 6 }
        else if n <= 212 { 7 }
        else if n <= 243 { 8 }
        else if n <= 273 { 9 }
        else if n <= 304 { 10 }
        else if n <= 334 { 11 }
        else { 12 };
    let day_of_month = n - days_before_month(month);
    assert(is_valid_date(month, day_of_month));
    assert(day_number(month, day_of_month) == n);
}

/// Calculates the day of the year (1 = January 1st) from a month
/// (January = 1 .. December = 12) and a day of that month, on a non-leap
/// calendar: the day of the month plus the lengths of all earlier months.
/// A month below 1 adds nothing; month 13 adds the whole year.
pub fn day_of_year(month: i32, day_of_month: i32) -> (result: i32)
    requires
        month <= 13,
        day_number(month as int, day_of_month as int) <= i32::MAX,
    ensures
        result == day_number(month as int, day_of_month as int),
{
    let days_in_month: [i32; 13] = [0, 31, 28, 31, 30, 31, 30, 31, 31, 30, 31, 30, 31];
    assert(forall|j: int| 0 <= j < 13 ==> #[trigger] days_in_month@[j] == month_length(j));

    let mut result: i32 = day_of_month;
    let mut i: i32 = 1;
    while i < month
        invariant
            1 <= i,
            i <= month || i == 1,
            month <= 13,
            forall|j: int| 0 <= j < 13 ==> #[trigger] days_in_month@[j] == month_length(j),
            result == day_number(i as int, day_of_month as int),
            day_number(month as int, day_of_month as int) <= i32::MAX,
        decreases month - i,
    {
        result = result + days_in_month[i as usize];
        i = i + 1;
    }
    result
}

} // verus!
