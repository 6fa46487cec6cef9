use jalali_date::{
    gregorian_date_to_jalali, gregorian_fields_to_jalali, jalali_date_now, jalali_date_parse,
    jalali_date_to_gregorian, jalali_date_to_gregorian_internal, Calendar, CalendarDate,
    ErrorKind,
};

fn jalali(year: i32, month: u8, day: u8) -> CalendarDate {
    CalendarDate::new(Calendar::Jalali, year, month, day).unwrap()
}

fn gregorian(year: i32, month: u8, day: u8) -> CalendarDate {
    CalendarDate::new(Calendar::Gregorian, year, month, day).unwrap()
}

fn jalali_month_days(date: &CalendarDate) -> u8 {
    match date.month() {
        1..=6 => 31,
        7..=11 => 30,
        _ => {
            if date.is_leap_year() {
                30
            } else {
                29
            }
        }
    }
}

#[test]
fn gregorian_text_of_a_jalali_date() {
    assert_eq!(jalali_date_to_gregorian("1403/05/29").unwrap(), "2024-08-19");
    assert_eq!(jalali_date_to_gregorian("1403/01/01").unwrap(), "2024-03-20");
    assert_eq!(jalali_date_to_gregorian("1403/12/30").unwrap(), "2025-03-20");
    assert_eq!(jalali_date_to_gregorian("1348/10/11").unwrap(), "1970-01-01");
    assert_eq!(jalali_date_to_gregorian("1392/04/25").unwrap(), "2013-07-16");
}

#[test]
fn jalali_text_of_a_gregorian_date() {
    assert_eq!(gregorian_date_to_jalali("2024-08-19").unwrap(), "1403/05/29");
    assert_eq!(gregorian_date_to_jalali("2024-03-20").unwrap(), "1403/01/01");
    assert_eq!(gregorian_date_to_jalali("2025-03-21").unwrap(), "1404/01/01");
    assert_eq!(gregorian_date_to_jalali("1970-01-01").unwrap(), "1348/10/11");
    assert_eq!(gregorian_date_to_jalali("2000-02-29").unwrap(), "1378/12/10");
}

#[test]
fn conversion_of_the_first_jalali_year() {
    assert_eq!(jalali_date_to_gregorian("0001/01/01").unwrap(), "0622-03-21");
    assert_eq!(gregorian_date_to_jalali("0622-03-21").unwrap(), "0001/01/01");
    assert_eq!(gregorian_date_to_jalali("0621-03-21").unwrap(), "0000/01/01");
}

#[test]
fn conversion_writes_a_sign_behind_the_zeros() {
    assert_eq!(gregorian_date_to_jalali("0001-01-01").unwrap(), "-621/10/11");
    assert_eq!(jalali_date_to_gregorian("-700/03/04").unwrap(), "0-79-05-25");
    assert_eq!(jalali_date_to_gregorian("-100/01/01").unwrap(), "0521-03-21");
}

#[test]
fn conversion_takes_fields_without_zeros_and_with_a_plus() {
    assert_eq!(jalali_date_to_gregorian("1403/5/29").unwrap(), "2024-08-19");
    assert_eq!(jalali_date_to_gregorian("+1403/+05/+29").unwrap(), "2024-08-19");
    assert_eq!(jalali_date_to_gregorian("001403/005/029").unwrap(), "2024-08-19");
    assert_eq!(gregorian_date_to_jalali("2024-8-19").unwrap(), "1403/05/29");
}

#[test]
fn conversion_gives_a_date_of_the_other_calendar() {
    let converted = jalali_date_to_gregorian_internal("1403/05/29").unwrap();
    assert_eq!(converted.calendar(), Calendar::Gregorian);
    assert_eq!(converted.year(), 2024);
    assert_eq!(converted.month(), 8);
    assert_eq!(converted.day(), 19);
    let back = converted.to_jalali().unwrap();
    assert_eq!(back, jalali(1403, 5, 29));
}

#[test]
fn conversion_to_the_own_calendar_changes_nothing() {
    let date = jalali(1403, 5, 29);
    assert_eq!(date.to_jalali().unwrap(), date);
    let date = gregorian(2024, 8, 19);
    assert_eq!(date.to_gregorian().unwrap(), date);
}

#[test]
fn jalali_dates_come_back_from_the_gregorian_calendar() {
    for year in 1290..1520 {
        for month in 1..=12u8 {
            let length = jalali_month_days(&jalali(year, month, 1));
            for day in 1..=length {
                let date = jalali(year, month, day);
                let converted = date.to_gregorian().unwrap();
                assert_eq!(converted.calendar(), Calendar::Gregorian);
                assert_eq!(converted.to_jalali().unwrap(), date);
            }
        }
    }
}

#[test]
fn gregorian_dates_come_back_from_the_jalali_calendar() {
    let lengths = [31u8, 28, 31, 30, 31, 30, 31, 31, 30, 31, 30, 31];
    for year in 1890..2140 {
        for month in 1..=12u8 {
            let mut length = lengths[(month - 1) as usize];
            if month == 2 && gregorian(year, 1, 1).is_leap_year() {
                length = 29;
            }
            for day in 1..=length {
                let date = gregorian(year, month, day);
                let converted = date.to_jalali().unwrap();
                assert_eq!(converted.calendar(), Calendar::Jalali);
                assert_eq!(converted.to_gregorian().unwrap(), date);
            }
        }
    }
}

#[test]
fn years_around_a_correction_of_the_leap_rule_come_back() {
    assert_eq!(jalali_date_to_gregorian("1502/12/29").unwrap(), "2124-03-19");
    assert_eq!(jalali_date_to_gregorian("1503/01/01").unwrap(), "2124-03-20");
    assert_eq!(jalali_date_to_gregorian("1503/12/30").unwrap(), "2125-03-20");
    assert_eq!(jalali_date_to_gregorian("1504/01/01").unwrap(), "2125-03-21");
    assert_eq!(gregorian_date_to_jalali("2124-03-19").unwrap(), "1502/12/29");
    assert_eq!(gregorian_date_to_jalali("2125-03-20").unwrap(), "1503/12/30");
}

#[test]
fn consecutive_jalali_days_are_consecutive_gregorian_days() {
    let mut date = jalali(1402, 12, 25);
    let mut expected = date.to_gregorian().unwrap();
    for _ in 0..400 {
        date = date.add_days(1).unwrap();
        expected = expected.add_days(1).unwrap();
        assert_eq!(date.to_gregorian().unwrap(), expected);
    }
}

#[test]
fn conversion_beyond_the_years_of_a_date_overflows() {
    let last = jalali(i32::MAX, 1, 1);
    assert_eq!(last.to_gregorian(), Err(ErrorKind::Overflow));
    let first = gregorian(i32::MIN, 1, 1);
    assert_eq!(first.to_jalali(), Err(ErrorKind::Overflow));
    let error = jalali_date_to_gregorian("2147483647/01/01").unwrap_err();
    assert_eq!(error.kind, ErrorKind::Overflow);
    assert_eq!(error.input, "2147483647/01/01");
    let error = gregorian_date_to_jalali("-2147483648-01-01").unwrap_err();
    assert_eq!(error.kind, ErrorKind::Format);
}

#[test]
fn conversion_near_the_ends_of_the_years_of_a_date() {
    let first = jalali(i32::MIN, 1, 1);
    let converted = first.to_gregorian().unwrap();
    assert_eq!(converted.to_jalali().unwrap(), first);
    let last = gregorian(i32::MAX, 12, 31);
    let converted = last.to_jalali().unwrap();
    assert_eq!(converted.to_gregorian().unwrap(), last);
}

#[test]
fn conversion_reports_a_malformed_text() {
    for text in ["", "1403", "1403/05", "1403/05/29/01", "1403-05-29", "1403//29", "/05/29", "1403/05/"] {
        let error = jalali_date_to_gregorian(text).unwrap_err();
        assert_eq!(error.kind, ErrorKind::Format, "{}", text);
        assert_eq!(error.input, text);
    }
    for text in ["2024/08/19", "2024-08", "2024-08-19-", "20x4-08-19"] {
        let error = gregorian_date_to_jalali(text).unwrap_err();
        assert_eq!(error.kind, ErrorKind::Format, "{}", text);
        assert_eq!(error.input, text);
    }
}

#[test]
fn conversion_reports_a_day_that_does_not_exist() {
    for text in ["1403/13/01", "1403/00/10", "1403/05/00", "1403/07/31", "1404/12/30", "1403/12/31", "1403/01/32"] {
        let error = jalali_date_to_gregorian(text).unwrap_err();
        assert_eq!(error.kind, ErrorKind::InvalidDate, "{}", text);
        assert_eq!(error.input, text);
    }
    for text in ["2023-02-29", "2024-02-30", "2024-00-10", "2024-13-01", "2024-04-31", "1900-02-29", "2024-01-00"] {
        let error = gregorian_date_to_jalali(text).unwrap_err();
        assert_eq!(error.kind, ErrorKind::InvalidDate, "{}", text);
        assert_eq!(error.input, text);
    }
    assert!(gregorian_date_to_jalali("2024-02-29").is_ok());
    assert!(gregorian_date_to_jalali("2000-02-29").is_ok());
    assert!(jalali_date_to_gregorian("1403/12/30").is_ok());
}

#[test]
fn jalali_text_of_gregorian_fields() {
    assert_eq!(gregorian_fields_to_jalali(2024, 8, 19).unwrap(), "1403/05/29");
    let error = gregorian_fields_to_jalali(2023, 2, 29).unwrap_err();
    assert_eq!(error.kind, ErrorKind::InvalidDate);
    assert_eq!(error.input, "2023-02-29");
}

#[test]
fn today_is_a_jalali_date() {
    let today = jalali_date_now().unwrap();
    let parsed = jalali_date_parse(&today).unwrap();
    assert_eq!(parsed.to_text(), today);
    assert!(parsed.year() >= 1404);
    let gregorian = parsed.to_gregorian().unwrap();
    assert!(gregorian.year() >= 2025);
    assert_eq!(gregorian.to_jalali().unwrap(), parsed);
}
