//! Day arithmetic on Gregorian dates, as `chrono` and `date_component` do
//! it, and the clock.
//!
//! Nothing of what the functions marked `external_body` claim is proved.
//! Each calls the outside crates and carries a contract that is taken from
//! their documentation and source, stated over the Gregorian day number.

use chrono::{Datelike, Days, MappedLocalTime, NaiveDate, TimeZone, Utc};
use vstd::prelude::*;

use crate::calendar::{
    gregorian_day_number, gregorian_fields_valid, lemma_day_number_increasing,
};

verus! {

/// The first year of which `chrono` holds dates.
pub const MIN_CIVIL_YEAR: i32 = -262_143;

/// The last year of which `chrono` holds dates.
pub const MAX_CIVIL_YEAR: i32 = 262_142;

/// The fields of a Gregorian day that `chrono` can hold as a `NaiveDate`: a
/// day that exists, in a year from `MIN_CIVIL_YEAR` to `MAX_CIVIL_YEAR`.
pub open spec fn civil_fields(year: int, month: int, day: int) -> bool {
    gregorian_fields_valid(year, month, day) && MIN_CIVIL_YEAR <= year <= MAX_CIVIL_YEAR
}

/// The day number of the first day that `chrono` can hold.
pub open spec fn first_civil_day() -> int {
    gregorian_day_number(MIN_CIVIL_YEAR as int, 1, 1)
}

/// The day number of the last day that `chrono` can hold.
pub open spec fn last_civil_day() -> int {
    gregorian_day_number(MAX_CIVIL_YEAR as int, 12, 31)
}

/// The days that `chrono` can hold lie between its first and its last, and
/// these two are less than 2 to the power of 28 days apart.
pub proof fn lemma_civil_day_bounds(year: int, month: int, day: int)
    requires
        civil_fields(year, month, day),
    ensures
        first_civil_day() <= gregorian_day_number(year, month, day) <= last_civil_day(),
        first_civil_day() == -95_746_129,
        last_civil_day() == 95_745_399,
{
    reveal_with_fuel(crate::calendar::days_before_month, 13);
    if year != MIN_CIVIL_YEAR || month != 1 || day != 1 {
        lemma_day_number_increasing(MIN_CIVIL_YEAR as int, 1, 1, year, month, day);
    }
    if year != MAX_CIVIL_YEAR || month != 12 || day != 31 {
        lemma_day_number_increasing(year, month, day, MAX_CIVIL_YEAR as int, 12, 31);
    }
}

/// A day between the first and the last that `chrono` can hold is one that
/// it can hold.
pub proof fn lemma_civil_day_between(year: int, month: int, day: int)
    requires
        gregorian_fields_valid(year, month, day),
        first_civil_day() <= gregorian_day_number(year, month, day) <= last_civil_day(),
    ensures
        civil_fields(year, month, day),
{
    if year < MIN_CIVIL_YEAR {
        lemma_day_number_increasing(year, month, day, MIN_CIVIL_YEAR as int, 1, 1);
    }
    if year > MAX_CIVIL_YEAR {
        lemma_day_number_increasing(MAX_CIVIL_YEAR as int, 12, 31, year, month, day);
    }
}

/// Makes a `NaiveDate` with `NaiveDate::from_ymd_opt` and adds `days` days
/// to it with `NaiveDate::checked_add_days`.
///
/// Trusted: `chrono` makes the date exactly from the fields described by
/// [`civil_fields`], answers exactly if the day arrived at is one it can
/// hold, and answers with the day that lies `days` days later.
#[verifier::external_body]
pub(crate) fn civil_plus_days(year: i32, month: u8, day: u8, days: u64) -> (later: Option<(i32, u8, u8)>)
    ensures
        later is Some <==> (civil_fields(year as int, month as int, day as int)
            && gregorian_day_number(year as int, month as int, day as int) + days
            <= last_civil_day()),
        later matches Some(date) ==> civil_fields(date.0 as int, date.1 as int, date.2 as int),
        later matches Some(date) ==> gregorian_day_number(
            date.0 as int,
            date.1 as int,
            date.2 as int,
        ) == gregorian_day_number(year as int, month as int, day as int) + days,
{
    NaiveDate::from_ymd_opt(year, month as u32, day as u32)
        .and_then(|date| date.checked_add_days(Days::new(days)))
        .map(|date| (date.year(), date.month() as u8, date.day() as u8))
}

/// Makes a `NaiveDate` with `NaiveDate::from_ymd_opt` and takes `days` days
/// from it with `NaiveDate::checked_sub_days`.
///
/// Trusted: `chrono` makes the date exactly from the fields described by
/// [`civil_fields`], answers exactly if the day arrived at is one it can
/// hold, and answers with the day that lies `days` days earlier.
#[verifier::external_body]
pub(crate) fn civil_minus_days(year: i32, month: u8, day: u8, days: u64) -> (earlier: Option<(i32, u8, u8)>)
    ensures
        earlier is Some <==> (civil_fields(year as int, month as int, day as int)
            && gregorian_day_number(year as int, month as int, day as int) - days
            >= first_civil_day()),
        earlier matches Some(date) ==> civil_fields(date.0 as int, date.1 as int, date.2 as int),
        earlier matches Some(date) ==> gregorian_day_number(
            date.0 as int,
            date.1 as int,
            date.2 as int,
        ) == gregorian_day_number(year as int, month as int, day as int) - days,
{
    NaiveDate::from_ymd_opt(year, month as u32, day as u32)
        .and_then(|date| date.checked_sub_days(Days::new(days)))
        .map(|date| (date.year(), date.month() as u8, date.day() as u8))
}

/// Makes the two dates, at midnight of the zone `Utc`, with
/// `TimeZone::with_ymd_and_hms`, and has `date_component::calculate` take
/// the interval from the first to the second. Of the interval it hands out
/// `interval_days` and `invert`.
///
/// Trusted: both midnights are made exactly if both dates are described by
/// [`civil_fields`]; `interval_days` is the number of days between them,
/// whichever comes first, and `invert` says that the first date is the
/// later one.
#[verifier::external_body]
pub(crate) fn civil_days_between(
    from_year: i32,
    from_month: u8,
    from_day: u8,
    to_year: i32,
    to_month: u8,
    to_day: u8,
) -> (interval: Option<(isize, bool)>)
    ensures
        interval is Some <==> (civil_fields(from_year as int, from_month as int, from_day as int)
            && civil_fields(to_year as int, to_month as int, to_day as int)),
        interval matches Some((days, invert)) ==> invert == (gregorian_day_number(
            from_year as int,
            from_month as int,
            from_day as int,
        ) > gregorian_day_number(to_year as int, to_month as int, to_day as int)),
        interval matches Some((days, invert)) ==> days == vstd::math::abs(
            gregorian_day_number(to_year as int, to_month as int, to_day as int)
                - gregorian_day_number(from_year as int, from_month as int, from_day as int),
        ),
{
    let from = Utc.with_ymd_and_hms(from_year, from_month as u32, from_day as u32, 0, 0, 0);
    let to = Utc.with_ymd_and_hms(to_year, to_month as u32, to_day as u32, 0, 0, 0);
    match (from, to) {
        (MappedLocalTime::Single(from), MappedLocalTime::Single(to)) => {
            let interval = date_component::date_component::calculate(&from, &to);
            Some((interval.interval_days, interval.invert))
        },
        _ => None,
    }
}

/// Reads the clock with `Utc::now` and hands out the year, the month and
/// the day of that moment in the zone `Utc`.
///
/// Trusted: the day is one that `chrono` can hold, as described by
/// [`civil_fields`], because `Utc::now` makes its answer as a date of
/// `chrono`. Which day it is differs from call to call, and nothing is
/// claimed of that.
#[verifier::external_body]
pub(crate) fn utc_today() -> (today: (i32, u8, u8))
    ensures
        civil_fields(today.0 as int, today.1 as int, today.2 as int),
{
    let now = Utc::now();
    (now.year(), now.month() as u8, now.day() as u8)
}

} // verus!
