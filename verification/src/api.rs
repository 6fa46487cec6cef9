//! The operations on dates as texts: each takes its dates in the notation of
//! their calendar and answers with a text, a number or a flag, or with the
//! failure and the input that was at fault.

use vstd::prelude::*;

use crate::calendar::Calendar;
use crate::civil::{civil_fields, utc_today};
use crate::date::{CalendarDate, DateView};
use crate::error::{DateError, ErrorKind, Failure};
use crate::period::{period_state, state_text};
use crate::text::{date_fields, format_date, format_integer, integer_text, parse_date_fields};

verus! {

/// A failure of an operation on dates, with the input that is at fault put
/// to it.
pub open spec fn blamed<T>(result: Result<T, ErrorKind>, input: Seq<char>) -> Result<T, Failure> {
    match result {
        Ok(value) => Ok(value),
        Err(kind) => Err(Failure { kind, input }),
    }
}

/// The mathematical value of a result that holds a date.
pub open spec fn reported_date(result: Result<CalendarDate, DateError>) -> Result<
    DateView,
    Failure,
> {
    match result {
        Ok(date) => Ok(date@),
        Err(error) => Err(error@),
    }
}

/// The mathematical value of a result that holds a text.
pub open spec fn reported_text(result: Result<String, DateError>) -> Result<Seq<char>, Failure> {
    match result {
        Ok(text) => Ok(text@),
        Err(error) => Err(error@),
    }
}

/// The mathematical value of a result that holds a number.
pub open spec fn reported_number(result: Result<i32, DateError>) -> Result<int, Failure> {
    match result {
        Ok(number) => Ok(number as int),
        Err(error) => Err(error@),
    }
}

/// The mathematical value of a result that holds a flag.
pub open spec fn reported_flag(result: Result<bool, DateError>) -> Result<bool, Failure> {
    match result {
        Ok(flag) => Ok(flag),
        Err(error) => Err(error@),
    }
}

/// The mathematical value of a result that holds the fields of a date.
pub open spec fn reported_fields(result: Result<(i32, u8, u8), DateError>) -> Result<
    (int, int, int),
    Failure,
> {
    match result {
        Ok(fields) => Ok((fields.0 as int, fields.1 as int, fields.2 as int)),
        Err(error) => Err(error@),
    }
}

/// The text of the date in a result.
pub open spec fn as_text(result: Result<DateView, Failure>) -> Result<Seq<char>, Failure> {
    match result {
        Ok(date) => Ok(date.text()),
        Err(failure) => Err(failure),
    }
}

/// The fields that the text `date` holds, read as a date of `calendar`. A
/// text that is not three integers with the separator of the calendar
/// between them is a `Format` failure.
pub open spec fn spec_parse_raw(date: Seq<char>, calendar: Calendar) -> Result<
    (int, int, int),
    Failure,
> {
    match date_fields(date, calendar) {
        Some(fields) => Ok(fields),
        None => Err(Failure { kind: ErrorKind::Format, input: date }),
    }
}

/// The date that the text `date` holds, read as a date of `calendar`.
/// Fields that name no day are an `InvalidDate` failure.
pub open spec fn spec_parse(date: Seq<char>, calendar: Calendar) -> Result<DateView, Failure> {
    match spec_parse_raw(date, calendar) {
        Ok(fields) => {
            let parsed = DateView { calendar, year: fields.0, month: fields.1, day: fields.2 };
            if parsed.valid() {
                Ok(parsed)
            } else {
                Err(Failure { kind: ErrorKind::InvalidDate, input: date })
            }
        },
        Err(failure) => Err(failure),
    }
}

/// The Gregorian date of the day that the Jalali text `date` names.
pub open spec fn spec_jalali_date_to_gregorian_internal(date: Seq<char>) -> Result<
    DateView,
    Failure,
> {
    match spec_parse(date, Calendar::Jalali) {
        Ok(parsed) => blamed(parsed.to_gregorian(), date),
        Err(failure) => Err(failure),
    }
}

/// The Gregorian text of the day that the Jalali text `date` names.
pub open spec fn spec_jalali_date_to_gregorian(date: Seq<char>) -> Result<Seq<char>, Failure> {
    as_text(spec_jalali_date_to_gregorian_internal(date))
}

/// The Jalali text of the day that the Gregorian text `date` names.
pub open spec fn spec_gregorian_date_to_jalali(date: Seq<char>) -> Result<Seq<char>, Failure> {
    match spec_parse(date, Calendar::Gregorian) {
        Ok(parsed) => as_text(blamed(parsed.to_jalali(), date)),
        Err(failure) => Err(failure),
    }
}

/// The Jalali text of the Gregorian day with the given fields. Fields that
/// name no day are an `InvalidDate` failure, with the fields written as a
/// Gregorian text.
pub open spec fn spec_gregorian_fields_to_jalali(year: int, month: int, day: int) -> Result<
    Seq<char>,
    Failure,
> {
    let date = DateView { calendar: Calendar::Gregorian, year, month, day };
    if date.valid() {
        as_text(blamed(date.to_jalali(), date.text()))
    } else {
        Err(Failure { kind: ErrorKind::InvalidDate, input: date.text() })
    }
}

/// The Jalali date that lies `days` days behind the one that the Jalali
/// text `date` names.
pub open spec fn spec_jalali_date_add_days_internal(date: Seq<char>, days: int) -> Result<
    DateView,
    Failure,
> {
    match spec_parse(date, Calendar::Jalali) {
        Ok(parsed) => blamed(parsed.add_days(days), date),
        Err(failure) => Err(failure),
    }
}

/// The Jalali text of the day that lies `days` days behind the one that the
/// Jalali text `date` names.
pub open spec fn spec_jalali_date_add_days(date: Seq<char>, days: int) -> Result<
    Seq<char>,
    Failure,
> {
    as_text(spec_jalali_date_add_days_internal(date, days))
}

/// The Jalali text of the day that lies `months` months behind the one that
/// the Jalali text `date` names. At fault is the number of months if it is
/// not positive, and else the date.
pub open spec fn spec_jalali_date_add_months(date: Seq<char>, months: int) -> Result<
    Seq<char>,
    Failure,
> {
    match spec_parse(date, Calendar::Jalali) {
        Ok(parsed) => as_text(
            blamed(parsed.add_months(months), if months <= 0 {
                integer_text(months)
            } else {
                date
            }),
        ),
        Err(failure) => Err(failure),
    }
}

/// The number of days from the day that the Jalali text `date_start` names
/// to the one that `date_end` names, negative if the second is the earlier
/// one, with `addition` added to the number of days before the sign is
/// given to it.
///
/// Both texts are read before either day is converted. At fault is the
/// first text that cannot be read, then the first date that cannot be
/// taken to the Gregorian dates on which day arithmetic can be done, then
/// the addition.
pub open spec fn spec_jalali_date_diff_with_addition(
    date_start: Seq<char>,
    date_end: Seq<char>,
    addition: int,
) -> Result<int, Failure> {
    match (spec_parse(date_start, Calendar::Jalali), spec_parse(date_end, Calendar::Jalali)) {
        (Ok(start), Ok(end)) => match (
            blamed(start.to_civil(), date_start),
            blamed(end.to_civil(), date_end),
        ) {
            (Ok(from), Ok(to)) => blamed(from.distance(to, addition), integer_text(addition)),
            (Err(failure), _) => Err(failure),
            (_, Err(failure)) => Err(failure),
        },
        (Err(failure), _) => Err(failure),
        (_, Err(failure)) => Err(failure),
    }
}

/// Whether the day that the Jalali text `date` names lies in a leap year.
pub open spec fn spec_jalali_date_is_leap_year(date: Seq<char>) -> Result<bool, Failure> {
    match spec_parse(date, Calendar::Jalali) {
        Ok(parsed) => Ok(parsed.leap()),
        Err(failure) => Err(failure),
    }
}

/// The name of the place that the day named by the Jalali text `date` has in
/// its period with the anchor `start`.
pub open spec fn spec_jalali_date_period_state(date: Seq<char>, start: int) -> Result<
    Seq<char>,
    Failure,
> {
    match spec_parse(date, Calendar::Jalali) {
        Ok(parsed) => match blamed(period_state(parsed, start), date) {
            Ok(state) => Ok(state_text(state)),
            Err(failure) => Err(failure),
        },
        Err(failure) => Err(failure),
    }
}

/// Reads the year, the month and the day out of a text of `calendar`.
///
/// Fails with `Format` unless the text is three integers with the separator
/// of the calendar between them, the first of 32 bits and signed, the other
/// two of 8 bits and unsigned.
pub fn parse_raw(date: &str, calendar: Calendar) -> (fields: Result<(i32, u8, u8), DateError>)
    ensures
        reported_fields(fields) == spec_parse_raw(date@, calendar),
{
    match parse_date_fields(date, calendar) {
        Some(fields) => Ok(fields),
        None => Err(DateError::new(ErrorKind::Format, date)),
    }
}

/// Reads a date out of a text of `calendar`.
///
/// Fails with `Format` as [`parse_raw`] does, and with `InvalidDate` if the
/// calendar has no day with the fields that were read.
pub fn parse(date: &str, calendar: Calendar) -> (parsed: Result<CalendarDate, DateError>)
    ensures
        reported_date(parsed) == spec_parse(date@, calendar),
{
    let (year, month, day) = match parse_raw(date, calendar) {
        Ok(fields) => fields,
        Err(error) => { return Err(error); },
    };
    match CalendarDate::new(calendar, year, month, day) {
        Ok(parsed) => Ok(parsed),
        Err(kind) => Err(DateError::new(kind, date)),
    }
}

/// Reads the year, the month and the day out of a Jalali text.
pub fn jalali_date_parse_raw(date: &str) -> (fields: Result<(i32, u8, u8), DateError>)
    ensures
        reported_fields(fields) == spec_parse_raw(date@, Calendar::Jalali),
{
    parse_raw(date, Calendar::Jalali)
}

/// Reads a Jalali date out of its text.
pub fn jalali_date_parse(date: &str) -> (parsed: Result<CalendarDate, DateError>)
    ensures
        reported_date(parsed) == spec_parse(date@, Calendar::Jalali),
{
    parse(date, Calendar::Jalali)
}

/// The Gregorian date of the day that a Jalali text names.
pub fn jalali_date_to_gregorian_internal(date: &str) -> (converted: Result<CalendarDate, DateError>)
    ensures
        reported_date(converted) == spec_jalali_date_to_gregorian_internal(date@),
{
    let parsed = match jalali_date_parse(date) {
        Ok(parsed) => parsed,
        Err(error) => { return Err(error); },
    };
    match parsed.to_gregorian() {
        Ok(converted) => Ok(converted),
        Err(kind) => Err(DateError::new(kind, date)),
    }
}

/// The Gregorian text, `YYYY-MM-DD`, of the day that a Jalali text,
/// `YYYY/MM/DD`, names.
pub fn jalali_date_to_gregorian(date: &str) -> (text: Result<String, DateError>)
    ensures
        reported_text(text) == spec_jalali_date_to_gregorian(date@),
{
    match jalali_date_to_gregorian_internal(date) {
        Ok(converted) => Ok(converted.to_text()),
        Err(error) => Err(error),
    }
}

/// The Jalali text, `YYYY/MM/DD`, of the day that a Gregorian text,
/// `YYYY-MM-DD`, names.
pub fn gregorian_date_to_jalali(date: &str) -> (text: Result<String, DateError>)
    ensures
        reported_text(text) == spec_gregorian_date_to_jalali(date@),
{
    let parsed = match parse(date, Calendar::Gregorian) {
        Ok(parsed) => parsed,
        Err(error) => { return Err(error); },
    };
    match parsed.to_jalali() {
        Ok(converted) => Ok(converted.to_text()),
        Err(kind) => Err(DateError::new(kind, date)),
    }
}

/// The Jalali text of the Gregorian day with the given fields.
pub fn gregorian_fields_to_jalali(year: i32, month: u8, day: u8) -> (text: Result<String, DateError>)
    ensures
        reported_text(text) == spec_gregorian_fields_to_jalali(
            year as int,
            month as int,
            day as int,
        ),
{
    match CalendarDate::new(Calendar::Gregorian, year, month, day) {
        Ok(date) => match date.to_jalali() {
            Ok(converted) => Ok(converted.to_text()),
            Err(kind) => Err(DateError::new(kind, date.to_text().as_str())),
        },
        Err(kind) => Err(
            DateError::new(kind, format_date(Calendar::Gregorian, year, month, day).as_str()),
        ),
    }
}

/// The Jalali text of today, by the clock and in the zone `Utc`.
///
/// The clock decides the day, and it gives a Gregorian day that exists, on
/// which day arithmetic can be done. Whatever day it gives, the answer is
/// what [`gregorian_fields_to_jalali`] makes of that day. So the fields of
/// today are never at fault: the one failure left is an `Overflow`, where
/// the Jalali date of the day cannot be represented.
pub fn jalali_date_now() -> (text: Result<String, DateError>)
    ensures
        exists|year: i32, month: u8, day: u8|
            civil_fields(year as int, month as int, day as int) && reported_text(text)
                == #[trigger] spec_gregorian_fields_to_jalali(
                year as int,
                month as int,
                day as int,
            ),
        text matches Err(error) ==> error@.kind == ErrorKind::Overflow,
{
    let (year, month, day) = utc_today();
    gregorian_fields_to_jalali(year, month, day)
}

/// The Jalali date that lies `days` days behind the one that a Jalali text
/// names, or before it for a negative `days`.
pub fn jalali_date_add_days_internal(date: &str, days: i32) -> (moved: Result<CalendarDate, DateError>)
    ensures
        reported_date(moved) == spec_jalali_date_add_days_internal(date@, days as int),
{
    let parsed = match jalali_date_parse(date) {
        Ok(parsed) => parsed,
        Err(error) => { return Err(error); },
    };
    match parsed.add_days(days) {
        Ok(moved) => Ok(moved),
        Err(kind) => Err(DateError::new(kind, date)),
    }
}

/// The Jalali text of the day that lies `days` days behind the one that a
/// Jalali text names, or before it for a negative `days`.
pub fn jalali_date_add_days(date: &str, days: i32) -> (text: Result<String, DateError>)
    ensures
        reported_text(text) == spec_jalali_date_add_days(date@, days as int),
{
    match jalali_date_add_days_internal(date, days) {
        Ok(moved) => Ok(moved.to_text()),
        Err(error) => Err(error),
    }
}

/// The Jalali text of the day that lies `months` months behind the one that
/// a Jalali text names. The day of the month stays, or becomes the last day
/// of the month arrived at if that month is too short.
///
/// Fails with `InvalidArgument` unless `months` is positive.
pub fn jalali_date_add_months(date: &str, months: i32) -> (text: Result<String, DateError>)
    ensures
        reported_text(text) == spec_jalali_date_add_months(date@, months as int),
{
    let parsed = match jalali_date_parse(date) {
        Ok(parsed) => parsed,
        Err(error) => { return Err(error); },
    };
    match parsed.add_months(months) {
        Ok(moved) => Ok(moved.to_text()),
        Err(kind) => {
            if months <= 0 {
                Err(DateError::new(kind, format_integer(months).as_str()))
            } else {
                Err(DateError::new(kind, date))
            }
        },
    }
}

/// The number of days from the day that the first Jalali text names to the
/// day that the second names, with `addition` added to it, and then made
/// negative if the second day is the earlier one.
pub fn jalali_date_diff_with_addition(date_start: &str, date_end: &str, addition: i32) -> (days: Result<i32, DateError>)
    ensures
        reported_number(days) == spec_jalali_date_diff_with_addition(
            date_start@,
            date_end@,
            addition as int,
        ),
{
    let start = match jalali_date_parse(date_start) {
        Ok(start) => start,
        Err(error) => { return Err(error); },
    };
    let end = match jalali_date_parse(date_end) {
        Ok(end) => end,
        Err(error) => { return Err(error); },
    };
    let from = match start.to_civil() {
        Ok(from) => from,
        Err(kind) => { return Err(DateError::new(kind, date_start)); },
    };
    let to = match end.to_civil() {
        Ok(to) => to,
        Err(kind) => { return Err(DateError::new(kind, date_end)); },
    };
    match from.distance(&to, addition) {
        Ok(days) => Ok(days),
        Err(kind) => Err(DateError::new(kind, format_integer(addition).as_str())),
    }
}

/// The number of days from the day that the first Jalali text names to the
/// day that the second names, negative if the second is the earlier one.
pub fn jalali_date_diff(date_start: &str, date_end: &str) -> (days: Result<i32, DateError>)
    ensures
        reported_number(days) == spec_jalali_date_diff_with_addition(date_start@, date_end@, 0),
{
    jalali_date_diff_with_addition(date_start, date_end, 0)
}

/// Whether the day that a Jalali text names lies in a leap year, one whose
/// twelfth month has 30 days.
pub fn jalali_date_is_leap_year(date: &str) -> (leap: Result<bool, DateError>)
    ensures
        reported_flag(leap) == spec_jalali_date_is_leap_year(date@),
{
    match jalali_date_parse(date) {
        Ok(parsed) => Ok(parsed.is_leap_year()),
        Err(error) => Err(error),
    }
}

/// The place, `Start`, `End`, `Middle` or `Unknown`, that the day named by a
/// Jalali text has in its period with the anchor `start`.
pub fn jalali_date_period_state(date: &str, start: i32) -> (name: Result<String, DateError>)
    ensures
        reported_text(name) == spec_jalali_date_period_state(date@, start as int),
{
    let parsed = match jalali_date_parse(date) {
        Ok(parsed) => parsed,
        Err(error) => { return Err(error); },
    };
    match parsed.period_state(start) {
        Ok(state) => Ok(state.name().to_owned()),
        Err(kind) => Err(DateError::new(kind, date)),
    }
}

} // verus!
