//! Calendar dates: their construction, their conversion between the two
//! calendars, and the arithmetic on days and months.

use vstd::prelude::*;

use crate::calendar::{
    days_in_month, gregorian_day_number, gregorian_fields_valid, gregorian_leap_year,
    is_gregorian_leap_year, lemma_day_number_injective, lemma_day_number_onto, month_length,
    Calendar,
};
use crate::civil::{
    civil_days_between, civil_fields, civil_minus_days, civil_plus_days, first_civil_day,
    last_civil_day, lemma_civil_day_bounds, MAX_CIVIL_YEAR, MIN_CIVIL_YEAR,
};
use crate::error::ErrorKind;
use crate::persian::{
    iso_date_to_persian, iso_to_persian, persian_date_leap, persian_date_to_iso,
    persian_leap_year, persian_to_iso,
};
use crate::text::{date_text, format_date};

verus! {

/// Whether `year` is a leap year of `calendar`.
pub open spec fn leap_year(calendar: Calendar, year: int) -> bool {
    match calendar {
        Calendar::Jalali => persian_leap_year(year),
        Calendar::Gregorian => gregorian_leap_year(year),
    }
}

/// What a date is: a calendar and three fields. This is the mathematical
/// value of a [`CalendarDate`], and the contracts are stated over it.
pub struct DateView {
    pub calendar: Calendar,
    pub year: int,
    pub month: int,
    pub day: int,
}

impl DateView {
    /// Whether the year of the date is a leap year of its calendar.
    pub open spec fn leap(self) -> bool {
        leap_year(self.calendar, self.year)
    }

    /// Whether the day exists: a month from 1 to 12 and a day from 1 to the
    /// length of that month in that year.
    pub open spec fn valid(self) -> bool {
        1 <= self.month <= 12 && 1 <= self.day <= month_length(
            self.calendar,
            self.month,
            self.leap(),
        )
    }

    /// The date as text, in the notation of its calendar.
    pub open spec fn text(self) -> Seq<char> {
        date_text(self.calendar, self.year, self.month, self.day)
    }

    /// The day number of a Gregorian date.
    pub open spec fn gregorian_day(self) -> int {
        gregorian_day_number(self.year, self.month, self.day)
    }

    /// Whether this is a Gregorian date on which day arithmetic can start
    /// and end.
    pub open spec fn civil(self) -> bool {
        self.calendar == Calendar::Gregorian && civil_fields(self.year, self.month, self.day)
    }

    /// The same day in the Gregorian calendar.
    ///
    /// A Jalali date is converted by the Persian calendar of `icu_calendar`.
    /// The conversion stands if its result is a day that exists and
    /// converts back to the date it came from. Otherwise the day lies beyond
    /// the dates that can be represented, and that is an `Overflow`.
    pub open spec fn to_gregorian(self) -> Result<DateView, ErrorKind> {
        let iso = persian_to_iso(self.year, self.month, self.day);
        let date = DateView { calendar: Calendar::Gregorian, year: iso.0, month: iso.1, day: iso.2 };
        if self.calendar == Calendar::Gregorian {
            Ok(self)
        } else if date.valid() && iso_to_persian(iso.0, iso.1, iso.2) == (
            self.year,
            self.month,
            self.day,
        ) {
            Ok(date)
        } else {
            Err(ErrorKind::Overflow)
        }
    }

    /// The same day in the Jalali calendar; the counterpart of
    /// [`DateView::to_gregorian`].
    pub open spec fn to_jalali(self) -> Result<DateView, ErrorKind> {
        let persian = iso_to_persian(self.year, self.month, self.day);
        let date = DateView {
            calendar: Calendar::Jalali,
            year: persian.0,
            month: persian.1,
            day: persian.2,
        };
        if self.calendar == Calendar::Jalali {
            Ok(self)
        } else if date.valid() && persian_to_iso(persian.0, persian.1, persian.2) == (
            self.year,
            self.month,
            self.day,
        ) {
            Ok(date)
        } else {
            Err(ErrorKind::Overflow)
        }
    }

    /// The date of the same calendar that lies `days` days later, or
    /// earlier for a negative `days`.
    ///
    /// The days are counted in the Gregorian calendar: the date is taken
    /// there, the day with the day number that is greater by `days` is
    /// looked up, and that day is taken back. Both Gregorian days must be
    /// days on which day arithmetic can be done.
    pub open spec fn add_days(self, days: int) -> Result<DateView, ErrorKind> {
        match self.to_civil() {
            Err(kind) => Err(kind),
            Ok(start) => {
                let target = start.gregorian_day() + days;
                if target < first_civil_day() || target > last_civil_day() {
                    Err(ErrorKind::Overflow)
                } else if self.calendar == Calendar::Gregorian {
                    Ok(gregorian_on_day(target))
                } else {
                    gregorian_on_day(target).to_jalali()
                }
            },
        }
    }

    /// The same day as a Gregorian date on which day arithmetic can be done.
    /// A day beyond those dates is an `Overflow`.
    pub open spec fn to_civil(self) -> Result<DateView, ErrorKind> {
        match self.to_gregorian() {
            Ok(date) => if date.civil() {
                Ok(date)
            } else {
                Err(ErrorKind::Overflow)
            },
            Err(kind) => Err(kind),
        }
    }

    /// The number of days from this Gregorian date to the Gregorian date
    /// `end`, with `addition` added to it, and then made negative if `end`
    /// is the earlier date. A number beyond the integers of 32 bits is an
    /// `Overflow`.
    pub open spec fn distance(self, end: DateView, addition: int) -> Result<int, ErrorKind> {
        let days = end.gregorian_day() - self.gregorian_day();
        let value = if days < 0 {
            -(-days + addition)
        } else {
            days + addition
        };
        if self.civil() && end.civil() && i32::MIN <= value <= i32::MAX {
            Ok(value)
        } else {
            Err(ErrorKind::Overflow)
        }
    }

    /// The number of days from this date to `end`, negative if `end` is the
    /// earlier one, with `addition` added to the number of days before the
    /// sign is given to it.
    ///
    /// Either date may be of either calendar: both are taken to the
    /// Gregorian calendar, this date first, and the days are counted there.
    pub open spec fn diff_days(self, end: DateView, addition: int) -> Result<int, ErrorKind> {
        match (self.to_civil(), end.to_civil()) {
            (Ok(from), Ok(to)) => from.distance(to, addition),
            (Err(kind), _) => Err(kind),
            (_, Err(kind)) => Err(kind),
        }
    }

    /// The date `months` months later, for a positive `months`.
    ///
    /// Whole years are added to the year and the rest to the month, which
    /// rolls over into the next year past the twelfth. The day stays unless
    /// the month arrived at is too short for it: then it is the last day of
    /// that month, by the leap status of the year arrived at.
    pub open spec fn add_months(self, months: int) -> Result<DateView, ErrorKind> {
        let raw_month = self.month + months % 12;
        let year = self.year + months / 12 + if raw_month > 12 { 1int } else { 0int };
        let month = if raw_month > 12 { raw_month - 12 } else { raw_month };
        let length = month_length(self.calendar, month, leap_year(self.calendar, year));
        if months <= 0 {
            Err(ErrorKind::InvalidArgument)
        } else if year > i32::MAX {
            Err(ErrorKind::Overflow)
        } else {
            Ok(
                DateView {
                    calendar: self.calendar,
                    year,
                    month,
                    day: if self.day > length { length } else { self.day },
                },
            )
        }
    }
}

/// The Gregorian date with the day number `number`.
pub open spec fn gregorian_on_day(number: int) -> DateView {
    choose|date: DateView|
        date.calendar == Calendar::Gregorian && date.valid() && date.gregorian_day() == number
}

/// On every day there is a Gregorian date.
pub proof fn lemma_gregorian_on_day_exists(number: int)
    ensures
        gregorian_on_day(number).calendar == Calendar::Gregorian,
        gregorian_on_day(number).valid(),
        gregorian_on_day(number).gregorian_day() == number,
{
    lemma_day_number_onto(number);
    let (y, m, d) = choose|y: int, m: int, d: int|
        gregorian_fields_valid(y, m, d) && #[trigger] gregorian_day_number(y, m, d) == number;
    let witness = DateView { calendar: Calendar::Gregorian, year: y, month: m, day: d };
    assert(witness.calendar == Calendar::Gregorian && witness.valid() && witness.gregorian_day()
        == number);
}

/// Every Gregorian date is the one date on its day.
pub proof fn lemma_gregorian_on_day(date: DateView)
    requires
        date.calendar == Calendar::Gregorian,
        date.valid(),
    ensures
        gregorian_on_day(date.gregorian_day()) == date,
{
    let found = gregorian_on_day(date.gregorian_day());
    lemma_day_number_injective(
        found.year,
        found.month,
        found.day,
        date.year,
        date.month,
        date.day,
    );
}

/// A day of the Jalali or of the Gregorian calendar. A value of this type
/// always names a day that exists.
#[derive(Clone, Copy, Debug, PartialEq, Eq, Structural)]
pub struct CalendarDate {
    calendar: Calendar,
    year: i32,
    month: u8,
    day: u8,
}

impl View for CalendarDate {
    type V = DateView;

    closed spec fn view(&self) -> DateView {
        DateView {
            calendar: self.calendar,
            year: self.year as int,
            month: self.month as int,
            day: self.day as int,
        }
    }
}

/// The mathematical value of a result that holds a date.
pub open spec fn date_outcome(result: Result<CalendarDate, ErrorKind>) -> Result<
    DateView,
    ErrorKind,
> {
    match result {
        Ok(date) => Ok(date@),
        Err(kind) => Err(kind),
    }
}

/// The mathematical value of a result that holds a number.
pub open spec fn number_outcome(result: Result<i32, ErrorKind>) -> Result<int, ErrorKind> {
    match result {
        Ok(number) => Ok(number as int),
        Err(kind) => Err(kind),
    }
}

/// Decides the leap rule of `calendar` for `year`.
pub fn is_leap_year_of(calendar: Calendar, year: i32) -> (leap: bool)
    ensures
        leap == leap_year(calendar, year as int),
{
    match calendar {
        Calendar::Jalali => {
            // The first day of the first month exists in every year.
            persian_date_leap(year, 1, 1).unwrap()
        },
        Calendar::Gregorian => is_gregorian_leap_year(year),
    }
}

impl CalendarDate {
    /// Every date names a day that exists.
    #[verifier::type_invariant]
    pub open spec fn well_formed(self) -> bool {
        self@.valid()
    }

    /// Makes the date of `calendar` with the given fields, or fails with
    /// `InvalidDate` if that calendar has no such day.
    pub fn new(calendar: Calendar, year: i32, month: u8, day: u8) -> (made: Result<
        CalendarDate,
        ErrorKind,
    >)
        ensures
            made is Ok <==> (DateView {
                calendar,
                year: year as int,
                month: month as int,
                day: day as int,
            }).valid(),
            made matches Ok(date) ==> date@ == (DateView {
                calendar,
                year: year as int,
                month: month as int,
                day: day as int,
            }),
            made matches Err(kind) ==> kind == ErrorKind::InvalidDate,
    {
        if month < 1 || month > 12 || day < 1 {
            return Err(ErrorKind::InvalidDate);
        }
        let exists = match calendar {
            Calendar::Jalali => persian_date_leap(year, month, day).is_some(),
            Calendar::Gregorian => day <= days_in_month(
                calendar,
                month,
                is_gregorian_leap_year(year),
            ),
        };
        if exists {
            Ok(CalendarDate { calendar, year, month, day })
        } else {
            Err(ErrorKind::InvalidDate)
        }
    }

    /// The calendar of the date.
    pub fn calendar(&self) -> (calendar: Calendar)
        ensures
            calendar == self@.calendar,
    {
        self.calendar
    }

    /// The year of the date.
    pub fn year(&self) -> (year: i32)
        ensures
            year as int == self@.year,
    {
        self.year
    }

    /// The month of the date, from 1 to 12.
    pub fn month(&self) -> (month: u8)
        ensures
            month as int == self@.month,
            1 <= month <= 12,
    {
        proof {
            use_type_invariant(self);
        }
        self.month
    }

    /// The day of the month, from 1.
    pub fn day(&self) -> (day: u8)
        ensures
            day as int == self@.day,
            1 <= day <= 31,
    {
        proof {
            use_type_invariant(self);
        }
        self.day
    }

    /// The date as text, in the notation of its calendar.
    pub fn to_text(&self) -> (text: String)
        ensures
            text@ == self@.text(),
    {
        format_date(self.calendar, self.year, self.month, self.day)
    }

    /// Whether the date lies in a leap year of its calendar.
    pub fn is_leap_year(&self) -> (leap: bool)
        ensures
            leap == self@.leap(),
    {
        is_leap_year_of(self.calendar, self.year)
    }

    /// The same day in the Gregorian calendar. A Gregorian date is its own
    /// answer.
    ///
    /// Fails with `Overflow` if the Gregorian date of the day cannot be
    /// represented.
    pub fn to_gregorian(&self) -> (converted: Result<CalendarDate, ErrorKind>)
        ensures
            date_outcome(converted) == self@.to_gregorian(),
    {
        proof {
            use_type_invariant(self);
        }
        match self.calendar {
            Calendar::Gregorian => Ok(*self),
            Calendar::Jalali => {
                let (year, month, day) = persian_date_to_iso(
                    self.year,
                    self.month,
                    self.day,
                ).unwrap();
                let date = match CalendarDate::new(Calendar::Gregorian, year, month, day) {
                    Ok(date) => date,
                    Err(_) => { return Err(ErrorKind::Overflow); },
                };
                let back = iso_date_to_persian(year, month, day).unwrap();
                if back.0 == self.year && back.1 == self.month && back.2 == self.day {
                    Ok(date)
                } else {
                    Err(ErrorKind::Overflow)
                }
            },
        }
    }

    /// The same day in the Jalali calendar. A Jalali date is its own answer.
    ///
    /// Fails with `Overflow` if the Jalali date of the day cannot be
    /// represented.
    pub fn to_jalali(&self) -> (converted: Result<CalendarDate, ErrorKind>)
        ensures
            date_outcome(converted) == self@.to_jalali(),
    {
        proof {
            use_type_invariant(self);
        }
        match self.calendar {
            Calendar::Jalali => Ok(*self),
            Calendar::Gregorian => {
                let (year, month, day) = iso_date_to_persian(
                    self.year,
                    self.month,
                    self.day,
                ).unwrap();
                let date = match CalendarDate::new(Calendar::Jalali, year, month, day) {
                    Ok(date) => date,
                    Err(_) => { return Err(ErrorKind::Overflow); },
                };
                let back = persian_date_to_iso(year, month, day).unwrap();
                if back.0 == self.year && back.1 == self.month && back.2 == self.day {
                    Ok(date)
                } else {
                    Err(ErrorKind::Overflow)
                }
            },
        }
    }

    /// The date of the same calendar that lies `days` days later, or earlier
    /// for a negative `days`.
    ///
    /// Fails with `Overflow` if the day, or the day arrived at, lies beyond
    /// the dates on which day arithmetic can be done.
    pub fn add_days(&self, days: i32) -> (moved: Result<CalendarDate, ErrorKind>)
        ensures
            date_outcome(moved) == self@.add_days(days as int),
    {
        let start = match self.to_gregorian() {
            Ok(start) => start,
            Err(kind) => { return Err(kind); },
        };
        proof {
            use_type_invariant(&start);
            if start@.civil() {
                lemma_civil_day_bounds(start@.year, start@.month, start@.day);
            }
        }
        let arrived = if days > 0 {
            civil_plus_days(start.year, start.month, start.day, days as u64)
        } else {
            civil_minus_days(start.year, start.month, start.day, (-(days as i64)) as u64)
        };
        match arrived {
            None => Err(ErrorKind::Overflow),
            Some((year, month, day)) => {
                let date = CalendarDate { calendar: Calendar::Gregorian, year, month, day };
                proof {
                    lemma_gregorian_on_day(date@);
                    lemma_civil_day_bounds(year as int, month as int, day as int);
                }
                match self.calendar {
                    Calendar::Gregorian => Ok(date),
                    Calendar::Jalali => date.to_jalali(),
                }
            },
        }
    }

    /// The same day as a Gregorian date on which day arithmetic can be done.
    ///
    /// Fails with `Overflow` if the day lies beyond those dates.
    pub fn to_civil(&self) -> (converted: Result<CalendarDate, ErrorKind>)
        ensures
            date_outcome(converted) == self@.to_civil(),
    {
        match self.to_gregorian() {
            Ok(date) => {
                if MIN_CIVIL_YEAR <= date.year && date.year <= MAX_CIVIL_YEAR {
                    proof {
                        use_type_invariant(&date);
                    }
                    Ok(date)
                } else {
                    Err(ErrorKind::Overflow)
                }
            },
            Err(kind) => Err(kind),
        }
    }

    /// The number of days from this Gregorian date to the Gregorian date
    /// `end`, with `addition` added to it, and then made negative if `end`
    /// is the earlier date.
    ///
    /// Fails with `Overflow` if one of the two is no Gregorian date on which
    /// day arithmetic can be done, or if the result is beyond the integers
    /// of 32 bits.
    pub fn distance(&self, end: &CalendarDate, addition: i32) -> (days: Result<i32, ErrorKind>)
        ensures
            number_outcome(days) == self@.distance(end@, addition as int),
    {
        proof {
            use_type_invariant(self);
            use_type_invariant(end);
            if self@.civil() && end@.civil() {
                lemma_civil_day_bounds(self@.year, self@.month, self@.day);
                lemma_civil_day_bounds(end@.year, end@.month, end@.day);
            }
        }
        let between = match (self.calendar, end.calendar) {
            (Calendar::Gregorian, Calendar::Gregorian) => civil_days_between(
                self.year,
                self.month,
                self.day,
                end.year,
                end.month,
                end.day,
            ),
            _ => None,
        };
        match between {
            None => Err(ErrorKind::Overflow),
            Some((interval, invert)) => {
                let sum: i64 = interval as i64 + addition as i64;
                let value: i64 = if invert {
                    -sum
                } else {
                    sum
                };
                if value < i32::MIN as i64 || value > i32::MAX as i64 {
                    Err(ErrorKind::Overflow)
                } else {
                    Ok(value as i32)
                }
            },
        }
    }

    /// The number of days from this date to `end`, negative if `end` is the
    /// earlier one.
    ///
    /// Fails with `Overflow` if one of the two days lies beyond the dates on
    /// which day arithmetic can be done.
    pub fn diff_days(&self, end: &CalendarDate) -> (days: Result<i32, ErrorKind>)
        ensures
            number_outcome(days) == self@.diff_days(end@, 0),
    {
        self.diff_days_adjusted(end, 0)
    }

    /// The number of days from this date to `end`, with `addition` added to
    /// it, and then made negative if `end` is the earlier date.
    ///
    /// Fails with `Overflow` if one of the two days lies beyond the dates on
    /// which day arithmetic can be done, or if the result is beyond the
    /// integers of 32 bits.
    pub fn diff_days_adjusted(&self, end: &CalendarDate, addition: i32) -> (days: Result<i32, ErrorKind>)
        ensures
            number_outcome(days) == self@.diff_days(end@, addition as int),
    {
        let from = match self.to_civil() {
            Ok(from) => from,
            Err(kind) => { return Err(kind); },
        };
        let to = match end.to_civil() {
            Ok(to) => to,
            Err(kind) => { return Err(kind); },
        };
        from.distance(&to, addition)
    }

    /// The date `months` months later in the same calendar.
    ///
    /// Fails with `InvalidArgument` unless `months` is positive, and with
    /// `Overflow` if the year arrived at is beyond the years that a date can
    /// hold.
    pub fn add_months(&self, months: i32) -> (moved: Result<CalendarDate, ErrorKind>)
        ensures
            date_outcome(moved) == self@.add_months(months as int),
            moved matches Ok(date) ==> date@.valid(),
    {
        proof {
            use_type_invariant(self);
        }
        if months <= 0 {
            return Err(ErrorKind::InvalidArgument);
        }
        let raw_month: u8 = self.month + (months % 12) as u8;
        let carry: i64 = if raw_month > 12 { 1 } else { 0 };
        let month: u8 = if raw_month > 12 { raw_month - 12 } else { raw_month };
        let wide_year: i64 = self.year as i64 + (months / 12) as i64 + carry;
        if wide_year > i32::MAX as i64 {
            return Err(ErrorKind::Overflow);
        }
        let year: i32 = wide_year as i32;
        let length = days_in_month(self.calendar, month, is_leap_year_of(self.calendar, year));
        let day: u8 = if self.day > length { length } else { self.day };
        Ok(CalendarDate { calendar: self.calendar, year, month, day })
    }
}

} // verus!
