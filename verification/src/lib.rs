//! Conversion between the Jalali (Persian) and the Gregorian calendar, day and
//! month arithmetic on dates, and the classification of a date within a
//! recurring period that is anchored to a day of the month.
//!
//! The operations of [`api`] take and give dates as texts. They are built on
//! [`CalendarDate`], a date that is known to exist. What the Persian calendar
//! is comes from `icu_calendar`, and the counting of days from `chrono` and
//! `date_component`; [`persian`] and [`civil`] say what is taken on trust
//! from them. [`laws`] states what holds of the operations together.

pub mod api;
pub mod calendar;
pub mod civil;
pub mod date;
pub mod error;
pub mod laws;
pub mod period;
pub mod persian;
pub mod text;

pub use api::{
    gregorian_date_to_jalali, gregorian_fields_to_jalali, jalali_date_add_days,
    jalali_date_add_days_internal, jalali_date_add_months, jalali_date_diff,
    jalali_date_diff_with_addition, jalali_date_is_leap_year, jalali_date_now, jalali_date_parse,
    jalali_date_parse_raw, jalali_date_period_state, jalali_date_to_gregorian,
    jalali_date_to_gregorian_internal,
};
pub use calendar::Calendar;
pub use date::CalendarDate;
pub use error::{DateError, ErrorKind};
pub use period::PeriodState;
