//! The Persian calendar as `icu_calendar` computes it: which years are leap,
//! and which Gregorian date is the same day as a Persian one.
//!
//! The leap rule of this library is the one of `icu_calendar`, version 1.5:
//! the arithmetic rule of the cycle of 33 years, in which a year is leap if
//! 25 times the year plus 11 leaves less than 8 on division by 33, with a
//! list of exception years. Each year of the list, 78 years from 1502 to
//! 2987, is not leap though the rule of 33 years says so, and the year after
//! it is leap in its place. With the list the rule agrees with the
//! astronomical calendar from 1178 to 3000. It is not the cycle of 2820
//! years, from which it differs in some years. The rule is written down
//! in no contract: the library asks `icu_calendar`, and the contracts speak
//! of its answer by the name [`persian_leap_year`].
//!
//! Nothing in this file is proved. Each function calls `icu_calendar` and
//! carries a contract that is taken from that crate's source.

use icu_calendar::persian::Persian;
use icu_calendar::Date;
use vstd::prelude::*;

use crate::calendar::{gregorian_leap_year, month_length, Calendar};

verus! {

/// Whether `icu_calendar` holds the Persian year `year` to be a leap year,
/// as `Date::is_in_leap_year` reports it for a date of that year: by the
/// rule of 33 years with its list of exception years.
pub uninterp spec fn persian_leap_year(year: int) -> bool;

/// The fields of the ISO date that `Date::to_iso` gives for the Persian date
/// `year`, `month`, `day`.
pub uninterp spec fn persian_to_iso(year: int, month: int, day: int) -> (int, int, int);

/// The fields of the Persian date that `Date::to_calendar` gives for the ISO
/// date `year`, `month`, `day`.
pub uninterp spec fn iso_to_persian(year: int, month: int, day: int) -> (int, int, int);

/// The fields from which `Date::try_new_persian_date` makes a date. It tests
/// the month and the day against their upper bounds only, so it takes a zero
/// for either.
pub open spec fn persian_fields_accepted(year: int, month: int, day: int) -> bool {
    0 <= month <= 12 && 0 <= day <= month_length(Calendar::Jalali, month, persian_leap_year(year))
}

/// The fields from which `Date::try_new_iso_date` makes a date: as for the
/// Persian constructor, only upper bounds are tested.
pub open spec fn iso_fields_accepted(year: int, month: int, day: int) -> bool {
    0 <= month <= 12 && 0 <= day <= month_length(
        Calendar::Gregorian,
        month,
        gregorian_leap_year(year),
    )
}

/// Calls `Date::try_new_persian_date` and, on the date it made,
/// `Date::is_in_leap_year`.
///
/// Trusted: the constructor succeeds exactly on the fields described by
/// [`persian_fields_accepted`], and the answer depends on the year alone.
#[verifier::external_body]
pub(crate) fn persian_date_leap(year: i32, month: u8, day: u8) -> (leap: Option<bool>)
    ensures
        leap is Some <==> persian_fields_accepted(year as int, month as int, day as int),
        leap matches Some(b) ==> b == persian_leap_year(year as int),
{
    Date::try_new_persian_date(year, month, day).ok().map(|date| date.is_in_leap_year())
}

/// Calls `Date::try_new_persian_date` and converts the date with
/// `Date::to_iso`.
///
/// Trusted: the constructor succeeds exactly on the fields described by
/// [`persian_fields_accepted`]; of the converted date only that it is a
/// function of the three fields.
#[verifier::external_body]
pub(crate) fn persian_date_to_iso(year: i32, month: u8, day: u8) -> (iso: Option<(i32, u8, u8)>)
    ensures
        iso is Some <==> persian_fields_accepted(year as int, month as int, day as int),
        iso matches Some(g) ==> (g.0 as int, g.1 as int, g.2 as int) == persian_to_iso(
            year as int,
            month as int,
            day as int,
        ),
{
    Date::try_new_persian_date(year, month, day).ok().map(
        |date| {
            let iso = date.to_iso();
            (iso.year().number, iso.month().ordinal as u8, iso.day_of_month().0 as u8)
        },
    )
}

/// Calls `Date::try_new_iso_date` and converts the date with
/// `Date::to_calendar` to the Persian calendar.
///
/// Trusted: the constructor succeeds exactly on the fields described by
/// [`iso_fields_accepted`]; of the converted date only that it is a function
/// of the three fields.
#[verifier::external_body]
pub(crate) fn iso_date_to_persian(year: i32, month: u8, day: u8) -> (persian: Option<(i32, u8, u8)>)
    ensures
        persian is Some <==> iso_fields_accepted(year as int, month as int, day as int),
        persian matches Some(p) ==> (p.0 as int, p.1 as int, p.2 as int) == iso_to_persian(
            year as int,
            month as int,
            day as int,
        ),
{
    Date::try_new_iso_date(year, month, day).ok().map(
        |date| {
            let persian = date.to_calendar(Persian);
            (persian.year().number, persian.month().ordinal as u8, persian.day_of_month().0 as u8)
        },
    )
}

} // verus!
