//! What holds of the operations on dates taken together.

use vstd::prelude::*;

use crate::api::{
    spec_gregorian_date_to_jalali, spec_jalali_date_add_days_internal,
    spec_jalali_date_diff_with_addition, spec_jalali_date_is_leap_year,
    spec_jalali_date_to_gregorian, spec_jalali_date_to_gregorian_internal, spec_parse,
};
use crate::calendar::{month_length, Calendar};
use crate::civil::{lemma_civil_day_between, lemma_civil_day_bounds};
use crate::date::{gregorian_on_day, lemma_gregorian_on_day_exists, DateView};
use crate::error::{ErrorKind, Failure};
use crate::text::{date_text, lemma_date_text_reads_back};

verus! {

/// A Jalali date that has a Gregorian date comes back from it: wherever
/// the conversion of a Jalali date succeeds, the conversion of its result
/// succeeds too and gives the date that was converted.
pub proof fn lemma_jalali_round_trip(date: DateView)
    requires
        date.calendar == Calendar::Jalali,
        date.valid(),
    ensures
        date.to_gregorian() matches Ok(gregorian) ==> gregorian.calendar == Calendar::Gregorian
            && gregorian.valid() && gregorian.to_jalali() == Ok::<DateView, ErrorKind>(date),
{
}

/// A Gregorian date that has a Jalali date comes back from it: wherever
/// the conversion of a Gregorian date succeeds, the conversion of its
/// result succeeds too and gives the date that was converted.
pub proof fn lemma_gregorian_round_trip(date: DateView)
    requires
        date.calendar == Calendar::Gregorian,
        date.valid(),
    ensures
        date.to_jalali() matches Ok(jalali) ==> jalali.calendar == Calendar::Jalali
            && jalali.valid() && jalali.to_gregorian() == Ok::<DateView, ErrorKind>(date),
{
}

/// The days from one date to another are the days from the other to the
/// one, with the sign turned; and where the one count fails, so does the
/// other.
pub proof fn lemma_diff_days_antisymmetric(first: DateView, second: DateView)
    requires
        first.valid(),
        second.valid(),
    ensures
        match first.diff_days(second, 0) {
            Ok(days) => second.diff_days(first, 0) == Ok::<int, ErrorKind>(-days),
            Err(_) => second.diff_days(first, 0) is Err,
        },
{
    if first.to_civil() is Ok && second.to_civil() is Ok {
        let from = first.to_civil()->Ok_0;
        let to = second.to_civil()->Ok_0;
        lemma_civil_day_bounds(from.year, from.month, from.day);
        lemma_civil_day_bounds(to.year, to.month, to.day);
    }
}

/// From a date to the date that lies `days` days later it is `days` days:
/// wherever adding the days succeeds, counting them succeeds too and gives
/// the number that was added.
pub proof fn lemma_diff_of_added_days(date: DateView, days: int)
    requires
        date.valid(),
    ensures
        date.add_days(days) matches Ok(moved) ==> moved.calendar == date.calendar && moved.valid()
            && date.diff_days(moved, 0) == Ok::<int, ErrorKind>(days),
{
    if date.add_days(days) is Ok {
        let moved = date.add_days(days)->Ok_0;
        let start = date.to_civil()->Ok_0;
        let target = start.gregorian_day() + days;
        let arrived = gregorian_on_day(target);
        lemma_gregorian_on_day_exists(target);
        lemma_civil_day_between(arrived.year, arrived.month, arrived.day);
        lemma_civil_day_bounds(start.year, start.month, start.day);
        assert(moved.to_civil() == Ok::<DateView, ErrorKind>(arrived));
    }
}

/// A Jalali date lies in a leap year exactly if the twelfth month of its
/// year has a thirtieth day, that is, if the date of that day can be made.
pub proof fn lemma_leap_year_has_day_thirty(date: DateView)
    requires
        date.calendar == Calendar::Jalali,
    ensures
        date.leap() <==> (DateView {
            calendar: Calendar::Jalali,
            year: date.year,
            month: 12,
            day: 30,
        }).valid(),
{
}

/// Adding months to a date gives a date that exists: the month arrived at
/// keeps the day if it has such a day, and else gives its last day.
pub proof fn lemma_add_months_clamps(date: DateView, months: int)
    requires
        date.valid(),
    ensures
        date.add_months(months) matches Ok(moved) ==> {
            let length = month_length(moved.calendar, moved.month, moved.leap());
            &&& moved.valid()
            &&& moved.calendar == date.calendar
            &&& 12 * moved.year + moved.month == 12 * date.year + date.month + months
            &&& moved.day == if date.day <= length { date.day } else { length }
        },
{
}

/// The text of a date is read as that date, if its year is from 0 to the
/// last that a date can hold.
pub proof fn lemma_text_reads_back(date: DateView)
    requires
        date.valid(),
        0 <= date.year <= i32::MAX,
    ensures
        spec_parse(date.text(), date.calendar) == Ok::<DateView, Failure>(date),
{
    lemma_date_text_reads_back(date.calendar, date.year, date.month, date.day);
}

/// A Jalali text that has a Gregorian text comes back from it, written
/// anew: wherever the conversion of a Jalali text succeeds and gives a year
/// from 0 to the last that a date can hold, the conversion of the Gregorian
/// text succeeds too and gives the text of the date that the Jalali text
/// holds. That is the Jalali text itself, if it was written as dates are.
///
/// A Gregorian text of a negative year cannot be read, so the condition on
/// the year cannot be left out. That the Gregorian year of a Jalali year is
/// not negative is a fact of the conversion by `icu_calendar`, of which no
/// contract speaks.
pub proof fn lemma_jalali_text_round_trip(date: Seq<char>)
    ensures
        spec_jalali_date_to_gregorian_internal(date) matches Ok(gregorian) ==> (0
            <= gregorian.year <= i32::MAX ==> spec_gregorian_date_to_jalali(gregorian.text())
            == Ok::<Seq<char>, Failure>(spec_parse(date, Calendar::Jalali)->Ok_0.text())),
        spec_jalali_date_to_gregorian_internal(date) matches Ok(gregorian) ==> (0
            <= gregorian.year <= i32::MAX && date == spec_parse(date, Calendar::Jalali)->Ok_0.text()
            ==> spec_gregorian_date_to_jalali(gregorian.text()) == Ok::<Seq<char>, Failure>(date)),
{
    if spec_jalali_date_to_gregorian_internal(date) is Ok {
        let parsed = spec_parse(date, Calendar::Jalali)->Ok_0;
        let gregorian = spec_jalali_date_to_gregorian_internal(date)->Ok_0;
        lemma_jalali_round_trip(parsed);
        if 0 <= gregorian.year <= i32::MAX {
            lemma_text_reads_back(gregorian);
        }
    }
}

/// A Gregorian text that has a Jalali text comes back from it, written
/// anew: wherever the conversion of a Gregorian text succeeds and gives a
/// year from 0 to the last that a date can hold, the conversion of the
/// Jalali text succeeds too and gives the text of the date that the
/// Gregorian text holds. That is the Gregorian text itself, if it was
/// written as dates are.
///
/// A Jalali text of a negative year is read only if no zero stands before
/// its sign, so the condition on the year cannot be left out.
pub proof fn lemma_gregorian_text_round_trip(date: Seq<char>)
    ensures
        spec_parse(date, Calendar::Gregorian) matches Ok(parsed) ==> (parsed.to_jalali() matches Ok(
            jalali,
        ) ==> (0 <= jalali.year <= i32::MAX ==> spec_gregorian_date_to_jalali(date) == Ok::<
            Seq<char>,
            Failure,
        >(jalali.text()) && spec_jalali_date_to_gregorian(jalali.text()) == Ok::<
            Seq<char>,
            Failure,
        >(parsed.text()))),
        spec_parse(date, Calendar::Gregorian) matches Ok(parsed) ==> (parsed.to_jalali() matches Ok(
            jalali,
        ) ==> (0 <= jalali.year <= i32::MAX && date == parsed.text()
            ==> spec_jalali_date_to_gregorian(jalali.text()) == Ok::<Seq<char>, Failure>(date))),
{
    if spec_parse(date, Calendar::Gregorian) is Ok {
        let parsed = spec_parse(date, Calendar::Gregorian)->Ok_0;
        if parsed.to_jalali() is Ok {
            let jalali = parsed.to_jalali()->Ok_0;
            lemma_gregorian_round_trip(parsed);
            if 0 <= jalali.year <= i32::MAX {
                lemma_text_reads_back(jalali);
            }
        }
    }
}

/// The days from the day of one Jalali text to the day of another are the
/// days from the other to the one, with the sign turned; and where the one
/// count fails, so does the other.
pub proof fn lemma_text_diff_antisymmetric(first: Seq<char>, second: Seq<char>)
    ensures
        match spec_jalali_date_diff_with_addition(first, second, 0) {
            Ok(days) => spec_jalali_date_diff_with_addition(second, first, 0) == Ok::<
                int,
                Failure,
            >(-days),
            Err(_) => spec_jalali_date_diff_with_addition(second, first, 0) is Err,
        },
{
    if spec_parse(first, Calendar::Jalali) is Ok && spec_parse(second, Calendar::Jalali) is Ok {
        let start = spec_parse(first, Calendar::Jalali)->Ok_0;
        let end = spec_parse(second, Calendar::Jalali)->Ok_0;
        lemma_diff_days_antisymmetric(start, end);
    }
}

/// From the day of a Jalali text to the day that lies `days` days later it
/// is `days` days: wherever adding the days succeeds and gives a year from
/// 0 to the last that a date can hold, counting the days to the text of the
/// date arrived at succeeds too and gives the number that was added. The
/// text of a year from -99 to -1 has zeros before its sign and is not read.
pub proof fn lemma_text_diff_of_added_days(date: Seq<char>, days: int)
    ensures
        spec_jalali_date_add_days_internal(date, days) matches Ok(moved) ==> (0 <= moved.year
            <= i32::MAX ==> spec_jalali_date_diff_with_addition(date, moved.text(), 0) == Ok::<
            int,
            Failure,
        >(days)),
{
    if spec_jalali_date_add_days_internal(date, days) is Ok {
        let parsed = spec_parse(date, Calendar::Jalali)->Ok_0;
        let moved = spec_jalali_date_add_days_internal(date, days)->Ok_0;
        lemma_diff_of_added_days(parsed, days);
        if 0 <= moved.year <= i32::MAX {
            lemma_text_reads_back(moved);
        }
    }
}

/// The day of a Jalali text lies in a leap year exactly if the thirtieth
/// day of the twelfth month of its year can be read as a date. This is said
/// of the years that are not negative, whose texts can be read.
pub proof fn lemma_text_leap_year_has_day_thirty(date: Seq<char>)
    ensures
        spec_parse(date, Calendar::Jalali) matches Ok(parsed) ==> (0 <= parsed.year <= i32::MAX
            ==> spec_jalali_date_is_leap_year(date) == Ok::<bool, Failure>(
            spec_parse(date_text(Calendar::Jalali, parsed.year, 12, 30), Calendar::Jalali) is Ok,
        )),
{
    if spec_parse(date, Calendar::Jalali) is Ok {
        let parsed = spec_parse(date, Calendar::Jalali)->Ok_0;
        if 0 <= parsed.year <= i32::MAX {
            lemma_date_text_reads_back(Calendar::Jalali, parsed.year, 12, 30);
            lemma_leap_year_has_day_thirty(parsed);
        }
    }
}

} // verus!
