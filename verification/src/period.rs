//! Where a day stands in a period that recurs month by month and ends on a
//! fixed day of the month, the anchor.

use vstd::prelude::*;

use crate::calendar::{days_in_month, month_length, Calendar};
use crate::date::{CalendarDate, DateView};
use crate::error::ErrorKind;

verus! {

/// The place of a day in its period.
#[derive(Clone, Copy, Debug, PartialEq, Eq, Structural)]
pub enum PeriodState {
    /// The first day of a period.
    Start,
    /// The last day of a period.
    End,
    /// A day inside a period.
    Middle,
    /// The anchor is no day of a month, and the day neither opens nor closes
    /// a period by the end of its month.
    Unknown,
}

/// The name of a state.
pub open spec fn state_text(state: PeriodState) -> Seq<char> {
    match state {
        PeriodState::Start => "Start"@,
        PeriodState::End => "End"@,
        PeriodState::Middle => "Middle"@,
        PeriodState::Unknown => "Unknown"@,
    }
}

impl PeriodState {
    /// The name of the state.
    pub fn name(&self) -> (text: &'static str)
        ensures
            text@ == state_text(*self),
    {
        match self {
            PeriodState::Start => "Start",
            PeriodState::End => "End",
            PeriodState::Middle => "Middle",
            PeriodState::Unknown => "Unknown",
        }
    }
}

/// Whether `date` is the last day of its month.
pub open spec fn closes_month(date: DateView) -> bool {
    date.day == month_length(date.calendar, date.month, date.leap())
}

/// The last days of the Jalali months, one by one: day 31 of the first six
/// months, day 30 of the next five, and of the twelfth month day 30 in a
/// leap year and day 29 in another.
pub proof fn lemma_last_days_of_jalali_months(date: DateView)
    requires
        date.calendar == Calendar::Jalali,
        date.valid(),
    ensures
        closes_month(date) <==> (date.day == 29 && date.month == 12 && !date.leap()) || (date.day
            == 30 && (7 <= date.month <= 11 || (date.month == 12 && date.leap()))) || (date.day
            == 31 && date.month <= 6),
{
}

/// Whether the first day of the Jalali month `month` opens a period because
/// the anchor lies behind the end of the month before: after one of the
/// first six months, which have 31 days, only the anchor 31 does; after one
/// of the later months any anchor from 30 on.
pub open spec fn opens_after_short_month(month: int, anchor: int) -> bool {
    (2 <= month <= 7 && anchor == 31) || (8 <= month <= 12 && anchor >= 30)
}

/// The place of a day by the anchor alone, for an anchor that is a day of a
/// month: the anchor closes a period and the day after it opens one.
pub open spec fn state_by_anchor(day: int, anchor: int) -> PeriodState {
    if !(1 <= anchor <= 31) {
        PeriodState::Unknown
    } else if day == anchor {
        PeriodState::End
    } else if day == anchor + 1 {
        PeriodState::Start
    } else {
        PeriodState::Middle
    }
}

/// The place of the Jalali date `date` in its period with the anchor
/// `anchor`. The rules are tried in this order:
///
/// 1. The last day of a month closes a period if the anchor is not before
///    it: a month that is too short for the anchor ends the period all the
///    same.
/// 2. The first day of the year opens a period if the anchor is 30 or more,
///    or is the day of the month of the day before.
/// 3. The first day of another month opens a period if
///    [`opens_after_short_month`] says so.
/// 4. Otherwise the anchor decides, by [`state_by_anchor`].
///
/// The day before the first day of the year is found by day arithmetic,
/// which can fail; it is asked for only where the second rule needs it.
pub open spec fn jalali_period_state(date: DateView, anchor: int) -> Result<
    PeriodState,
    ErrorKind,
> {
    let new_year = date.month == 1 && date.day == 1;
    if closes_month(date) && date.day <= anchor {
        Ok(PeriodState::End)
    } else if new_year && anchor >= 30 {
        Ok(PeriodState::Start)
    } else if new_year && date.add_days(-1) is Err {
        Err(date.add_days(-1)->Err_0)
    } else if new_year && anchor == date.add_days(-1)->Ok_0.day {
        Ok(PeriodState::Start)
    } else if date.day == 1 && opens_after_short_month(date.month, anchor) {
        Ok(PeriodState::Start)
    } else {
        Ok(state_by_anchor(date.day, anchor))
    }
}

/// The place of a day in its period with the anchor `anchor`. The periods
/// follow the Jalali months, so a Gregorian date is taken to the Jalali
/// calendar first.
pub open spec fn period_state(date: DateView, anchor: int) -> Result<PeriodState, ErrorKind> {
    match date.to_jalali() {
        Ok(jalali) => jalali_period_state(jalali, anchor),
        Err(kind) => Err(kind),
    }
}

impl CalendarDate {
    /// The place of the day in its period with the anchor `anchor`.
    ///
    /// Fails with `Overflow` if the day cannot be taken to the Jalali
    /// calendar, or if it is the first of a Jalali year, the anchor is below
    /// 30, and the day before lies beyond the dates on which day arithmetic
    /// can be done.
    pub fn period_state(&self, anchor: i32) -> (state: Result<PeriodState, ErrorKind>)
        ensures
            state == period_state(self@, anchor as int),
    {
        let date = match self.to_jalali() {
            Ok(date) => date,
            Err(kind) => { return Err(kind); },
        };
        let month = date.month();
        let day = date.day();
        let length = days_in_month(Calendar::Jalali, month, date.is_leap_year());
        if day == length && day as i32 <= anchor {
            return Ok(PeriodState::End);
        }
        if day == 1 {
            if month == 1 {
                if anchor >= 30 {
                    return Ok(PeriodState::Start);
                }
                let before = match date.add_days(-1) {
                    Ok(before) => before,
                    Err(kind) => { return Err(kind); },
                };
                if anchor == before.day() as i32 {
                    return Ok(PeriodState::Start);
                }
            }
            if (2 <= month && month <= 7 && anchor == 31) || (8 <= month && anchor >= 30) {
                return Ok(PeriodState::Start);
            }
        }
        if 1 <= anchor && anchor <= 31 {
            if day as i32 == anchor {
                Ok(PeriodState::End)
            } else if day as i32 == anchor + 1 {
                Ok(PeriodState::Start)
            } else {
                Ok(PeriodState::Middle)
            }
        } else {
            Ok(PeriodState::Unknown)
        }
    }
}

} // verus!
