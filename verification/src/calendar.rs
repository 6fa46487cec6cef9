//! The two calendars: month lengths, the Gregorian leap rule, and the
//! Gregorian day number that serves as the pivot between dates.

use vstd::prelude::*;

verus! {

/// The calendar in which the fields of a date are to be read.
#[derive(Clone, Copy, Debug, PartialEq, Eq, Structural)]
pub enum Calendar {
    Jalali,
    Gregorian,
}

/// The number of days of `month` in a year of `calendar` that is leap or
/// not. A month outside `1..=12` has no days.
pub open spec fn month_length(calendar: Calendar, month: int, leap: bool) -> int {
    match calendar {
        Calendar::Jalali => {
            if 1 <= month <= 6 {
                31
            } else if 7 <= month <= 11 {
                30
            } else if month == 12 {
                if leap { 30 } else { 29 }
            } else {
                0
            }
        },
        Calendar::Gregorian => {
            if month == 2 {
                if leap { 29 } else { 28 }
            } else if month == 4 || month == 6 || month == 9 || month == 11 {
                30
            } else if 1 <= month <= 12 {
                31
            } else {
                0
            }
        },
    }
}

/// The one table of month lengths that validation, arithmetic and the
/// period classifier share.
pub fn days_in_month(calendar: Calendar, month: u8, leap: bool) -> (n: u8)
    ensures
        n as int == month_length(calendar, month as int, leap),
{
    match calendar {
        Calendar::Jalali => match month {
            1 | 2 | 3 | 4 | 5 | 6 => 31,
            7 | 8 | 9 | 10 | 11 => 30,
            12 => if leap { 30 } else { 29 },
            _ => 0,
        },
        Calendar::Gregorian => match month {
            2 => if leap { 29 } else { 28 },
            4 | 6 | 9 | 11 => 30,
            1 | 3 | 5 | 7 | 8 | 10 | 12 => 31,
            _ => 0,
        },
    }
}

/// The proleptic Gregorian leap rule: every fourth year, but of the
/// century years only those divisible by 400.
pub open spec fn gregorian_leap_year(year: int) -> bool {
    year % 4 == 0 && (year % 100 != 0 || year % 400 == 0)
}

/// Decides the Gregorian leap rule for any year, before and after year 1.
pub fn is_gregorian_leap_year(year: i32) -> (leap: bool)
    ensures
        leap == gregorian_leap_year(year as int),
{
    // 2_147_484_000 is a multiple of 400 above every negative i32.
    let shifted: i64 = year as i64 + 2_147_484_000;
    shifted % 4 == 0 && (shifted % 100 != 0 || shifted % 400 == 0)
}

/// The days of a Gregorian year that lie before the first of `month`: the
/// lengths of the months before it, added up.
pub open spec fn days_before_month(month: int, leap: bool) -> int
    decreases month,
{
    if month <= 1 {
        0
    } else {
        days_before_month(month - 1, leap) + month_length(Calendar::Gregorian, month - 1, leap)
    }
}

/// The days between the first of January of year 1 and the first of
/// January of `year`, negative for the years before.
pub open spec fn days_before_year(year: int) -> int {
    365 * (year - 1) + (year - 1) / 4 - (year - 1) / 100 + (year - 1) / 400
}

/// The running number of a Gregorian day; day 1 is the first of January of
/// year 1. It is the pivot through which a date in one calendar is an
/// offset of days from another.
pub open spec fn gregorian_day_number(year: int, month: int, day: int) -> int {
    days_before_year(year) + days_before_month(month, gregorian_leap_year(year)) + day
}

/// The fields of a day that exists in the Gregorian calendar.
pub open spec fn gregorian_fields_valid(year: int, month: int, day: int) -> bool {
    1 <= month <= 12 && 1 <= day <= month_length(
        Calendar::Gregorian,
        month,
        gregorian_leap_year(year),
    )
}

/// A year is 365 days long, and 366 when it is leap.
pub proof fn lemma_year_length(year: int)
    ensures
        days_before_year(year + 1) - days_before_year(year) == days_before_month(
            13,
            gregorian_leap_year(year),
        ),
        days_before_month(13, gregorian_leap_year(year)) == if gregorian_leap_year(year) {
            366int
        } else {
            365int
        },
{
    reveal_with_fuel(days_before_month, 13);
}

/// Later months begin later in the year.
pub proof fn lemma_days_before_month_increasing(earlier: int, later: int, leap: bool)
    requires
        1 <= earlier <= later <= 13,
    ensures
        days_before_month(earlier, leap) <= days_before_month(later, leap),
        earlier < later ==> days_before_month(earlier, leap) + month_length(
            Calendar::Gregorian,
            earlier,
            leap,
        ) <= days_before_month(later, leap),
    decreases later - earlier,
{
    if earlier < later {
        lemma_days_before_month_increasing(earlier, later - 1, leap);
    }
}

/// Later years begin later.
pub proof fn lemma_days_before_year_increasing(earlier: int, later: int)
    requires
        earlier <= later,
    ensures
        days_before_year(earlier) <= days_before_year(later),
{
}

/// A later date has a greater day number: the day number orders valid
/// dates as their fields do.
pub proof fn lemma_day_number_increasing(y1: int, m1: int, d1: int, y2: int, m2: int, d2: int)
    requires
        gregorian_fields_valid(y1, m1, d1),
        gregorian_fields_valid(y2, m2, d2),
        y1 < y2 || (y1 == y2 && (m1 < m2 || (m1 == m2 && d1 < d2))),
    ensures
        gregorian_day_number(y1, m1, d1) < gregorian_day_number(y2, m2, d2),
{
    let leap1 = gregorian_leap_year(y1);
    let leap2 = gregorian_leap_year(y2);
    if y1 < y2 {
        lemma_days_before_month_increasing(m1, 13, leap1);
        lemma_year_length(y1);
        lemma_days_before_year_increasing(y1 + 1, y2);
        lemma_days_before_month_increasing(1, m2, leap2);
    } else if m1 < m2 {
        lemma_days_before_month_increasing(m1, m2, leap1);
    }
}

/// No two valid dates share a day number.
pub proof fn lemma_day_number_injective(y1: int, m1: int, d1: int, y2: int, m2: int, d2: int)
    requires
        gregorian_fields_valid(y1, m1, d1),
        gregorian_fields_valid(y2, m2, d2),
        gregorian_day_number(y1, m1, d1) == gregorian_day_number(y2, m2, d2),
    ensures
        y1 == y2 && m1 == m2 && d1 == d2,
{
    if y1 < y2 || (y1 == y2 && (m1 < m2 || (m1 == m2 && d1 < d2))) {
        lemma_day_number_increasing(y1, m1, d1, y2, m2, d2);
    } else if y2 < y1 || (y2 == y1 && (m2 < m1 || (m2 == m1 && d2 < d1))) {
        lemma_day_number_increasing(y2, m2, d2, y1, m1, d1);
    }
}

/// The day after a valid date is a valid date, and so is the day before.
pub proof fn lemma_neighbouring_days(year: int, month: int, day: int)
    requires
        gregorian_fields_valid(year, month, day),
    ensures
        exists|y: int, m: int, d: int|
            gregorian_fields_valid(y, m, d) && #[trigger] gregorian_day_number(y, m, d)
                == gregorian_day_number(year, month, day) + 1,
        exists|y: int, m: int, d: int|
            gregorian_fields_valid(y, m, d) && #[trigger] gregorian_day_number(y, m, d)
                == gregorian_day_number(year, month, day) - 1,
{
    reveal_with_fuel(days_before_month, 13);
    let leap = gregorian_leap_year(year);
    let number = gregorian_day_number(year, month, day);
    if day < month_length(Calendar::Gregorian, month, leap) {
        assert(gregorian_day_number(year, month, day + 1) == number + 1);
    } else if month < 12 {
        assert(gregorian_day_number(year, month + 1, 1) == number + 1);
    } else {
        lemma_year_length(year);
        assert(gregorian_day_number(year + 1, 1, 1) == number + 1);
    }
    if day > 1 {
        assert(gregorian_day_number(year, month, day - 1) == number - 1);
    } else if month > 1 {
        let last = month_length(Calendar::Gregorian, month - 1, leap);
        assert(gregorian_day_number(year, month - 1, last) == number - 1);
    } else {
        lemma_year_length(year - 1);
        assert(gregorian_day_number(year - 1, 12, 31) == number - 1);
    }
}

/// Every integer is the day number of a valid date: the days of the
/// Gregorian calendar run on without gaps in both directions.
pub proof fn lemma_day_number_onto(number: int)
    ensures
        exists|y: int, m: int, d: int|
            gregorian_fields_valid(y, m, d) && #[trigger] gregorian_day_number(y, m, d) == number,
    decreases
        if number >= 1 { number - 1 } else { 1 - number },
{
    reveal_with_fuel(days_before_month, 2);
    if number == 1 {
        assert(gregorian_fields_valid(1, 1, 1) && gregorian_day_number(1, 1, 1) == 1);
    } else if number > 1 {
        lemma_day_number_onto(number - 1);
        let (y, m, d) = choose|y: int, m: int, d: int|
            gregorian_fields_valid(y, m, d) && #[trigger] gregorian_day_number(y, m, d) == number
                - 1;
        lemma_neighbouring_days(y, m, d);
    } else {
        lemma_day_number_onto(number + 1);
        let (y, m, d) = choose|y: int, m: int, d: int|
            gregorian_fields_valid(y, m, d) && #[trigger] gregorian_day_number(y, m, d) == number
                + 1;
        lemma_neighbouring_days(y, m, d);
    }
}

} // verus!
