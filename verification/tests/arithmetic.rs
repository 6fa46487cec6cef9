use jalali_date::{
    jalali_date_add_days, jalali_date_add_days_internal, jalali_date_add_months, jalali_date_diff,
    jalali_date_diff_with_addition, jalali_date_is_leap_year, Calendar, CalendarDate, ErrorKind,
};

fn jalali(year: i32, month: u8, day: u8) -> CalendarDate {
    CalendarDate::new(Calendar::Jalali, year, month, day).unwrap()
}

fn gregorian(year: i32, month: u8, day: u8) -> CalendarDate {
    CalendarDate::new(Calendar::Gregorian, year, month, day).unwrap()
}

#[test]
fn test_jalali_date_add_days() {
    assert_eq!("1403/05/30", jalali_date_add_days("1403/05/28", 2).unwrap());
}

#[test]
fn add_days_crosses_months_and_years() {
    assert_eq!(jalali_date_add_days("1403/06/31", 1).unwrap(), "1403/07/01");
    assert_eq!(jalali_date_add_days("1403/12/30", 1).unwrap(), "1404/01/01");
    assert_eq!(jalali_date_add_days("1404/12/29", 1).unwrap(), "1405/01/01");
    assert_eq!(jalali_date_add_days("1403/01/01", 365).unwrap(), "1403/12/30");
    assert_eq!(jalali_date_add_days("1403/01/01", 366).unwrap(), "1404/01/01");
    assert_eq!(jalali_date_add_days("1403/01/01", 36525).unwrap(), "1503/01/02");
}

#[test]
fn add_days_goes_back_for_a_negative_number() {
    assert_eq!(jalali_date_add_days("1403/05/30", -2).unwrap(), "1403/05/28");
    assert_eq!(jalali_date_add_days("1404/01/01", -1).unwrap(), "1403/12/30");
    assert_eq!(jalali_date_add_days("1403/01/01", -1).unwrap(), "1402/12/29");
    assert_eq!(jalali_date_add_days("1403/01/01", -37620).unwrap(), "1300/01/01");
}

#[test]
fn add_days_of_zero_days_is_the_same_day() {
    assert_eq!(jalali_date_add_days("1403/05/28", 0).unwrap(), "1403/05/28");
    assert_eq!(jalali_date_add_days("1403/5/28", 0).unwrap(), "1403/05/28");
}

#[test]
fn add_days_spans_thousands_of_years() {
    assert_eq!(jalali_date_add_days("1403/01/01", 1_000_000).unwrap(), "4140/11/26");
    assert_eq!(jalali_date_add_days("1403/01/01", -1_000_000).unwrap(), "-1335/02/03");
    assert_eq!(jalali_date_add_days("4140/11/26", -1_000_000).unwrap(), "1403/01/01");
}

#[test]
fn add_days_gives_a_date() {
    let moved = jalali_date_add_days_internal("1403/05/28", 2).unwrap();
    assert_eq!(moved, jalali(1403, 5, 30));
}

#[test]
fn add_days_stays_in_the_calendar_of_the_date() {
    let date = gregorian(2024, 2, 28);
    assert_eq!(date.add_days(2).unwrap(), gregorian(2024, 3, 1));
    assert_eq!(date.add_days(-59).unwrap(), gregorian(2023, 12, 31));
    let date = gregorian(2023, 2, 28);
    assert_eq!(date.add_days(1).unwrap(), gregorian(2023, 3, 1));
}

#[test]
fn add_days_beyond_the_days_that_can_be_counted_overflows() {
    for days in [i32::MAX, i32::MIN, 100_000_000, -100_000_000] {
        let error = jalali_date_add_days("1403/01/01", days).unwrap_err();
        assert_eq!(error.kind, ErrorKind::Overflow);
        assert_eq!(error.input, "1403/01/01");
    }
    let error = jalali_date_add_days("300000/01/01", 1).unwrap_err();
    assert_eq!(error.kind, ErrorKind::Overflow);
    let error = jalali_date_add_days("-300000/01/01", 0).unwrap_err();
    assert_eq!(error.kind, ErrorKind::Overflow);
}

#[test]
fn add_days_reaches_the_last_day_that_can_be_counted() {
    let last = gregorian(262142, 12, 31);
    assert_eq!(last.add_days(0).unwrap(), last);
    assert_eq!(last.add_days(1), Err(ErrorKind::Overflow));
    assert_eq!(last.add_days(-1).unwrap(), gregorian(262142, 12, 30));
    let first = gregorian(-262143, 1, 1);
    assert_eq!(first.add_days(-1), Err(ErrorKind::Overflow));
    assert_eq!(first.add_days(1).unwrap(), gregorian(-262143, 1, 2));
    assert_eq!(gregorian(262143, 1, 1).add_days(-1), Err(ErrorKind::Overflow));
    assert_eq!(gregorian(-262144, 12, 31).add_days(1), Err(ErrorKind::Overflow));
}

#[test]
fn add_days_reports_the_text() {
    let error = jalali_date_add_days("1403/05", 2).unwrap_err();
    assert_eq!(error.kind, ErrorKind::Format);
    assert_eq!(error.input, "1403/05");
    let error = jalali_date_add_days("1403/07/31", 2).unwrap_err();
    assert_eq!(error.kind, ErrorKind::InvalidDate);
    assert_eq!(error.input, "1403/07/31");
}

#[test]
fn diff_of_a_day_and_itself_is_zero() {
    assert_eq!(jalali_date_diff("1403/01/01", "1403/01/01").unwrap(), 0);
}

#[test]
fn diff_counts_the_days_to_the_second_date() {
    assert_eq!(jalali_date_diff("1403/05/28", "1403/05/30").unwrap(), 2);
    assert_eq!(jalali_date_diff("1403/01/01", "1404/01/01").unwrap(), 366);
    assert_eq!(jalali_date_diff("1404/01/01", "1405/01/01").unwrap(), 365);
    assert_eq!(jalali_date_diff("1403/01/01", "1500/10/10").unwrap(), 35714);
    assert_eq!(jalali_date_diff("1403/01/01", "1300/01/01").unwrap(), -37620);
}

#[test]
fn diff_turns_its_sign_with_the_order_of_the_dates() {
    let pairs = [
        ("1403/05/28", "1403/05/30"),
        ("1403/01/01", "1404/01/01"),
        ("1300/01/01", "1500/10/10"),
        ("1403/12/30", "1403/12/30"),
        ("-1335/02/03", "4140/11/26"),
    ];
    for (first, second) in pairs {
        let there = jalali_date_diff(first, second).unwrap();
        let back = jalali_date_diff(second, first).unwrap();
        assert_eq!(there, -back);
    }
    assert_eq!(jalali_date_diff("-1335/02/03", "4140/11/26").unwrap(), 2_000_000);
}

#[test]
fn diff_adds_before_it_gives_the_sign() {
    assert_eq!(jalali_date_diff_with_addition("1403/01/01", "1403/01/11", 5).unwrap(), 15);
    assert_eq!(jalali_date_diff_with_addition("1403/01/11", "1403/01/01", 5).unwrap(), -15);
    assert_eq!(jalali_date_diff_with_addition("1403/01/01", "1403/01/01", 7).unwrap(), 7);
    assert_eq!(jalali_date_diff_with_addition("1403/01/01", "1403/01/11", -25).unwrap(), -15);
    assert_eq!(jalali_date_diff_with_addition("1403/01/11", "1403/01/01", -25).unwrap(), 15);
    assert_eq!(jalali_date_diff_with_addition("1403/01/01", "1403/01/11", 0).unwrap(), 10);
}

#[test]
fn diff_beyond_the_integers_overflows() {
    let error = jalali_date_diff_with_addition("1403/01/01", "1403/01/11", i32::MAX).unwrap_err();
    assert_eq!(error.kind, ErrorKind::Overflow);
    assert_eq!(error.input, "2147483647");
    assert_eq!(
        jalali_date_diff_with_addition("1403/01/01", "1403/01/11", i32::MAX - 10).unwrap(),
        i32::MAX
    );
    assert_eq!(
        jalali_date_diff_with_addition("1403/01/11", "1403/01/01", i32::MAX - 10).unwrap(),
        -i32::MAX
    );
    assert_eq!(
        jalali_date_diff_with_addition("1403/01/01", "1403/01/11", i32::MIN).unwrap(),
        i32::MIN + 10
    );
    assert_eq!(
        jalali_date_diff_with_addition("1403/01/11", "1403/01/01", i32::MIN).unwrap(),
        i32::MAX - 9
    );
    let error = jalali_date_diff_with_addition("1403/01/11", "1403/01/01", i32::MAX).unwrap_err();
    assert_eq!(error.kind, ErrorKind::Overflow);
    assert_eq!(error.input, "2147483647");
    assert_eq!(
        jalali_date_diff_with_addition("1403/01/11", "1403/01/01", i32::MAX - 9).unwrap(),
        i32::MIN
    );
    let error = jalali_date_diff_with_addition("1403/01/01", "1403/01/11", i32::MAX - 9).unwrap_err();
    assert_eq!(error.kind, ErrorKind::Overflow);
}

#[test]
fn diff_reports_the_date_that_is_at_fault() {
    let error = jalali_date_diff("1403/01", "1403/13/01").unwrap_err();
    assert_eq!(error.kind, ErrorKind::Format);
    assert_eq!(error.input, "1403/01");
    let error = jalali_date_diff("1403/01/01", "1403/13/01").unwrap_err();
    assert_eq!(error.kind, ErrorKind::InvalidDate);
    assert_eq!(error.input, "1403/13/01");
    let error = jalali_date_diff("300000/01/01", "1403/13/01").unwrap_err();
    assert_eq!(error.kind, ErrorKind::InvalidDate);
    assert_eq!(error.input, "1403/13/01");
    let error = jalali_date_diff("300000/01/01", "1403/01/01").unwrap_err();
    assert_eq!(error.kind, ErrorKind::Overflow);
    assert_eq!(error.input, "300000/01/01");
    let error = jalali_date_diff("1403/01/01", "-300000/01/01").unwrap_err();
    assert_eq!(error.kind, ErrorKind::Overflow);
    assert_eq!(error.input, "-300000/01/01");
}

#[test]
fn diff_takes_dates_of_either_calendar() {
    let first = jalali(1403, 5, 29);
    let second = gregorian(2024, 8, 21);
    assert_eq!(first.diff_days(&second).unwrap(), 2);
    assert_eq!(second.diff_days(&first).unwrap(), -2);
    assert_eq!(first.diff_days_adjusted(&second, 3).unwrap(), 5);
    assert_eq!(second.diff_days_adjusted(&first, 3).unwrap(), -5);
    assert_eq!(gregorian(2024, 1, 1).diff_days(&gregorian(2025, 1, 1)).unwrap(), 366);
}

#[test]
fn diff_spans_all_the_days_that_can_be_counted() {
    let first = gregorian(-262143, 1, 1);
    let last = gregorian(262142, 12, 31);
    assert_eq!(first.diff_days(&last).unwrap(), 191_491_528);
    assert_eq!(last.diff_days(&first).unwrap(), -191_491_528);
    assert_eq!(first.diff_days(&gregorian(262143, 1, 1)), Err(ErrorKind::Overflow));
    assert_eq!(gregorian(-262144, 12, 31).diff_days(&last), Err(ErrorKind::Overflow));
}

#[test]
fn distance_is_counted_between_gregorian_dates_only() {
    let first = gregorian(2024, 8, 19);
    let second = gregorian(2024, 8, 21);
    assert_eq!(first.distance(&second, 0).unwrap(), 2);
    assert_eq!(second.distance(&first, 1).unwrap(), -3);
    assert_eq!(jalali(1403, 5, 29).distance(&second, 0), Err(ErrorKind::Overflow));
    assert_eq!(first.distance(&jalali(1403, 5, 29), 0), Err(ErrorKind::Overflow));
}

#[test]
fn diff_of_a_date_and_the_date_some_days_later_is_that_number() {
    for days in [0, 1, -1, 2, 29, 30, 31, 365, 366, -366, 12345, -54321, 1_000_000, -1_000_000] {
        let moved = jalali_date_add_days("1403/06/31", days).unwrap();
        assert_eq!(jalali_date_diff("1403/06/31", &moved).unwrap(), days);
        let date = gregorian(2024, 2, 29);
        let moved = date.add_days(days).unwrap();
        assert_eq!(date.diff_days(&moved).unwrap(), days);
    }
}

#[test]
fn add_months_clamps_the_day_to_the_month_arrived_at() {
    assert_eq!(jalali_date_add_months("1403/06/31", 6).unwrap(), "1403/12/30");
    assert_eq!(jalali_date_add_months("1404/06/31", 6).unwrap(), "1404/12/29");
    assert_eq!(jalali_date_add_months("1403/06/31", 1).unwrap(), "1403/07/30");
    assert_eq!(jalali_date_add_months("1403/06/30", 6).unwrap(), "1403/12/30");
    assert_eq!(jalali_date_add_months("1404/06/30", 6).unwrap(), "1404/12/29");
    assert_eq!(jalali_date_add_months("1403/11/30", 1).unwrap(), "1403/12/30");
    assert_eq!(jalali_date_add_months("1404/11/30", 1).unwrap(), "1404/12/29");
}

#[test]
fn add_months_clamps_by_the_year_arrived_at() {
    assert_eq!(jalali_date_add_months("1403/12/30", 12).unwrap(), "1404/12/29");
    assert_eq!(jalali_date_add_months("1402/12/29", 12).unwrap(), "1403/12/29");
    assert_eq!(jalali_date_add_months("1403/12/30", 60).unwrap(), "1408/12/30");
    assert_eq!(jalali_date_add_months("1402/06/31", 18).unwrap(), "1403/12/30");
}

#[test]
fn add_months_keeps_a_day_that_the_month_has() {
    assert_eq!(jalali_date_add_months("1403/01/15", 1).unwrap(), "1403/02/15");
    assert_eq!(jalali_date_add_months("1403/01/31", 5).unwrap(), "1403/06/31");
    assert_eq!(jalali_date_add_months("1403/01/15", 12).unwrap(), "1404/01/15");
    assert_eq!(jalali_date_add_months("1403/01/15", 11).unwrap(), "1403/12/15");
    assert_eq!(jalali_date_add_months("1403/12/29", 1).unwrap(), "1404/01/29");
}

#[test]
fn add_months_rolls_over_into_the_next_year() {
    assert_eq!(jalali_date_add_months("1403/10/10", 3).unwrap(), "1404/01/10");
    assert_eq!(jalali_date_add_months("1403/12/01", 1).unwrap(), "1404/01/01");
    assert_eq!(jalali_date_add_months("1403/12/01", 11).unwrap(), "1404/11/01");
    assert_eq!(jalali_date_add_months("1403/02/03", 25).unwrap(), "1405/03/03");
    assert_eq!(jalali_date_add_months("1403/12/03", 35).unwrap(), "1406/11/03");
    assert_eq!(jalali_date_add_months("0001/01/01", 2147483647).unwrap(), "178956971/08/01");
}

#[test]
fn add_months_refuses_months_that_are_not_positive() {
    let error = jalali_date_add_months("1403/06/31", 0).unwrap_err();
    assert_eq!(error.kind, ErrorKind::InvalidArgument);
    assert_eq!(error.input, "0");
    let error = jalali_date_add_months("1403/06/31", -3).unwrap_err();
    assert_eq!(error.kind, ErrorKind::InvalidArgument);
    assert_eq!(error.input, "-3");
    let error = jalali_date_add_months("1403/06/31", i32::MIN).unwrap_err();
    assert_eq!(error.kind, ErrorKind::InvalidArgument);
    assert_eq!(error.input, "-2147483648");
}

#[test]
fn add_months_reads_the_date_before_the_months() {
    let error = jalali_date_add_months("1403/06", 0).unwrap_err();
    assert_eq!(error.kind, ErrorKind::Format);
    assert_eq!(error.input, "1403/06");
    let error = jalali_date_add_months("1403/07/31", -1).unwrap_err();
    assert_eq!(error.kind, ErrorKind::InvalidDate);
    assert_eq!(error.input, "1403/07/31");
}

#[test]
fn add_months_beyond_the_last_year_overflows() {
    let error = jalali_date_add_months("2147483647/12/01", 1).unwrap_err();
    assert_eq!(error.kind, ErrorKind::Overflow);
    assert_eq!(error.input, "2147483647/12/01");
    let error = jalali_date_add_months("2147483647/01/01", 12).unwrap_err();
    assert_eq!(error.kind, ErrorKind::Overflow);
    assert_eq!(jalali_date_add_months("2147483647/01/01", 11).unwrap(), "2147483647/12/01");
}

#[test]
fn add_months_follows_the_calendar_of_the_date() {
    assert_eq!(gregorian(2024, 1, 31).add_months(1).unwrap(), gregorian(2024, 2, 29));
    assert_eq!(gregorian(2023, 1, 31).add_months(1).unwrap(), gregorian(2023, 2, 28));
    assert_eq!(gregorian(2023, 8, 31).add_months(14).unwrap(), gregorian(2024, 10, 31));
    assert_eq!(gregorian(2023, 8, 31).add_months(0), Err(ErrorKind::InvalidArgument));
}

#[test]
fn leap_years_have_a_thirtieth_day_in_the_twelfth_month() {
    assert_eq!(jalali_date_is_leap_year("1403/01/01").unwrap(), true);
    assert_eq!(jalali_date_is_leap_year("1403/12/30").unwrap(), true);
    assert_eq!(jalali_date_is_leap_year("1404/01/01").unwrap(), false);
    assert_eq!(jalali_date_is_leap_year("1399/05/05").unwrap(), true);
    assert_eq!(jalali_date_is_leap_year("1408/05/05").unwrap(), true);
    assert_eq!(jalali_date_is_leap_year("1502/05/05").unwrap(), false);
    assert_eq!(jalali_date_is_leap_year("1503/05/05").unwrap(), true);
    for year in -100..3100 {
        let leap = jalali(year, 1, 1).is_leap_year();
        let made = CalendarDate::new(Calendar::Jalali, year, 12, 30);
        assert_eq!(leap, made.is_ok(), "{}", year);
        assert!(CalendarDate::new(Calendar::Jalali, year, 12, 29).is_ok());
        assert!(CalendarDate::new(Calendar::Jalali, year, 12, 31).is_err());
    }
}

#[test]
fn leap_year_reports_the_text() {
    let error = jalali_date_is_leap_year("1403-01-01").unwrap_err();
    assert_eq!(error.kind, ErrorKind::Format);
    assert_eq!(error.input, "1403-01-01");
    let error = jalali_date_is_leap_year("1404/12/30").unwrap_err();
    assert_eq!(error.kind, ErrorKind::InvalidDate);
}

#[test]
fn gregorian_leap_years_follow_the_rule_of_the_centuries() {
    assert!(gregorian(2024, 1, 1).is_leap_year());
    assert!(!gregorian(2023, 1, 1).is_leap_year());
    assert!(!gregorian(1900, 1, 1).is_leap_year());
    assert!(gregorian(2000, 1, 1).is_leap_year());
    assert!(gregorian(0, 1, 1).is_leap_year());
    assert!(gregorian(-4, 1, 1).is_leap_year());
    assert!(!gregorian(-100, 1, 1).is_leap_year());
    assert!(gregorian(-400, 1, 1).is_leap_year());
    assert!(!gregorian(-1, 1, 1).is_leap_year());
}
