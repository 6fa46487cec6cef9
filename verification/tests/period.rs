use jalali_date::{jalali_date_period_state, Calendar, CalendarDate, ErrorKind, PeriodState};

fn state(date: &str, anchor: i32) -> String {
    jalali_date_period_state(date, anchor).unwrap()
}

#[test]
fn last_day_of_a_month_of_31_days_on_the_anchor_ends_the_period() {
    assert_eq!(state("1403/06/31", 31), "End");
}

#[test]
fn last_day_of_a_month_ends_the_period_if_the_anchor_is_not_before_it() {
    assert_eq!(state("1403/07/30", 30), "End");
    assert_eq!(state("1403/07/30", 31), "End");
    assert_eq!(state("1403/12/30", 31), "End");
    assert_eq!(state("1404/12/29", 29), "End");
    assert_eq!(state("1404/12/29", 30), "End");
    assert_eq!(state("1404/12/29", 31), "End");
    assert_eq!(state("1403/01/31", 40), "End");
    assert_eq!(state("1403/01/31", i32::MAX), "End");
}

#[test]
fn last_day_of_a_month_behind_the_anchor_is_inside_the_period() {
    assert_eq!(state("1403/06/31", 15), "Middle");
    assert_eq!(state("1403/07/30", 28), "Middle");
    assert_eq!(state("1404/12/29", 27), "Middle");
    assert_eq!(state("1403/06/31", 30), "Start");
    assert_eq!(state("1403/07/30", 29), "Start");
}

#[test]
fn day_29_of_the_twelfth_month_of_a_leap_year_is_no_end_of_a_month() {
    assert_eq!(state("1403/12/29", 30), "Middle");
    assert_eq!(state("1403/12/29", 31), "Middle");
    assert_eq!(state("1403/12/29", 29), "End");
    assert_eq!(state("1403/12/30", 30), "End");
}

#[test]
fn first_day_of_the_year_starts_the_period_for_a_late_anchor() {
    assert_eq!(state("1403/01/01", 30), "Start");
    assert_eq!(state("1403/01/01", 31), "Start");
    assert_eq!(state("1403/01/01", 45), "Start");
    assert_eq!(state("1404/01/01", 30), "Start");
}

#[test]
fn first_day_of_the_year_starts_the_period_if_the_anchor_is_the_day_before() {
    assert_eq!(state("1403/01/01", 29), "Start");
    assert_eq!(state("1404/01/01", 29), "Middle");
    assert_eq!(state("1403/01/01", 28), "Middle");
    assert_eq!(state("1403/01/01", 1), "End");
    assert_eq!(state("1403/01/01", 0), "Unknown");
    assert_eq!(state("1403/01/01", -5), "Unknown");
}

#[test]
fn first_day_of_a_month_starts_the_period_if_the_month_before_was_too_short() {
    for month in 2..=7 {
        let date = format!("1403/{:02}/01", month);
        assert_eq!(state(&date, 31), "Start", "{}", date);
        assert_eq!(state(&date, 30), "Middle", "{}", date);
        assert_eq!(state(&date, 32), "Unknown", "{}", date);
    }
    for month in 8..=12 {
        let date = format!("1403/{:02}/01", month);
        assert_eq!(state(&date, 31), "Start", "{}", date);
        assert_eq!(state(&date, 30), "Start", "{}", date);
        assert_eq!(state(&date, 32), "Start", "{}", date);
        assert_eq!(state(&date, 29), "Middle", "{}", date);
    }
}

#[test]
fn the_anchor_ends_the_period_and_the_day_after_starts_it() {
    assert_eq!(state("1403/05/15", 15), "End");
    assert_eq!(state("1403/05/16", 15), "Start");
    assert_eq!(state("1403/05/17", 15), "Middle");
    assert_eq!(state("1403/05/14", 15), "Middle");
    assert_eq!(state("1403/05/01", 1), "End");
    assert_eq!(state("1403/05/02", 1), "Start");
    assert_eq!(state("1403/05/01", 31), "Start");
    assert_eq!(state("1403/05/31", 31), "End");
}

#[test]
fn an_anchor_that_is_no_day_of_a_month_is_unknown() {
    assert_eq!(state("1403/05/15", 0), "Unknown");
    assert_eq!(state("1403/05/15", -1), "Unknown");
    assert_eq!(state("1403/05/15", 32), "Unknown");
    assert_eq!(state("1403/05/15", i32::MIN), "Unknown");
    assert_eq!(state("1403/05/15", i32::MAX), "Unknown");
}

#[test]
fn a_negative_anchor_is_before_every_day() {
    assert_eq!(state("1403/06/31", -1), "Unknown");
    assert_eq!(state("1403/06/31", 0), "Unknown");
    assert_eq!(state("1404/12/29", i32::MIN), "Unknown");
}

#[test]
fn period_state_reports_the_text() {
    let error = jalali_date_period_state("1403/06", 31).unwrap_err();
    assert_eq!(error.kind, ErrorKind::Format);
    assert_eq!(error.input, "1403/06");
    let error = jalali_date_period_state("1403/07/31", 31).unwrap_err();
    assert_eq!(error.kind, ErrorKind::InvalidDate);
    assert_eq!(error.input, "1403/07/31");
}

#[test]
fn period_state_needs_the_day_before_the_first_day_of_a_year() {
    let error = jalali_date_period_state("300000/01/01", 29).unwrap_err();
    assert_eq!(error.kind, ErrorKind::Overflow);
    assert_eq!(error.input, "300000/01/01");
    assert_eq!(state("300000/01/01", 30), "Start");
    assert_eq!(state("300000/01/02", 29), "Middle");
    assert_eq!(state("300000/02/01", 31), "Start");
}

#[test]
fn period_state_of_a_date() {
    let date = CalendarDate::new(Calendar::Jalali, 1403, 6, 31).unwrap();
    assert_eq!(date.period_state(31), Ok(PeriodState::End));
    assert_eq!(date.period_state(30), Ok(PeriodState::Start));
    assert_eq!(date.period_state(10), Ok(PeriodState::Middle));
    assert_eq!(date.period_state(0), Ok(PeriodState::Unknown));
    assert_eq!(PeriodState::End.name(), "End");
    assert_eq!(PeriodState::Start.name(), "Start");
    assert_eq!(PeriodState::Middle.name(), "Middle");
    assert_eq!(PeriodState::Unknown.name(), "Unknown");
}

#[test]
fn period_state_of_a_gregorian_date_is_that_of_its_jalali_day() {
    let date = CalendarDate::new(Calendar::Gregorian, 2024, 9, 21).unwrap();
    assert_eq!(date.to_jalali().unwrap().to_text(), "1403/06/31");
    assert_eq!(date.period_state(31), Ok(PeriodState::End));
    let date = CalendarDate::new(Calendar::Gregorian, 2024, 3, 20).unwrap();
    assert_eq!(date.period_state(29), Ok(PeriodState::Start));
}
