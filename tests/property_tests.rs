use range_date::calendar::{CalendarDate, MAX_DATE_YEAR};
use range_date::error::PeriodError;
use range_date::leap_year;
use range_date::range_type::DatePeriod;

#[test]
fn leap_years_follow_the_gregorian_rule() {
    assert!(leap_year(2024));
    assert!(!leap_year(2023));
    assert!(leap_year(2000));
    assert!(!leap_year(1900));
    assert!(leap_year(0));
    assert!(leap_year(-4));
    assert!(!leap_year(-100));
    assert!(leap_year(-400));
    assert!(leap_year(i32::MIN));
    assert!(!leap_year(i32::MAX));
}

#[test]
fn constructors_reject_indices_out_of_range() {
    assert_eq!(DatePeriod::quarter(2024, 5), Err(PeriodError::OutOfRange));
    assert_eq!(DatePeriod::month(2024, 13), Err(PeriodError::OutOfRange));
    assert_eq!(DatePeriod::daily(2023, 366), Err(PeriodError::OutOfRange));
    assert_eq!(DatePeriod::daily(2024, 366), Ok(DatePeriod::Daily(2024, 366)));
    assert_eq!(DatePeriod::daily(2100, 366), Err(PeriodError::OutOfRange));
    assert_eq!(DatePeriod::daily(2000, 366), Ok(DatePeriod::Daily(2000, 366)));
    assert_eq!(DatePeriod::quarter(2024, 4), Ok(DatePeriod::Quarter(2024, 4)));
    assert_eq!(DatePeriod::month(2024, 1), Ok(DatePeriod::Month(2024, 1)));
}

#[test]
fn text_round_trips() {
    let periods = [
        DatePeriod::Year(2024),
        DatePeriod::Year(0),
        DatePeriod::Year(7),
        DatePeriod::Year(9999),
        DatePeriod::Quarter(42, 4),
        DatePeriod::Month(999, 12),
        DatePeriod::Month(2024, 1),
        DatePeriod::Daily(2024, 366),
        DatePeriod::Daily(5, 1),
    ];
    for p in periods {
        assert_eq!(DatePeriod::parse(&p.to_string()), Ok(p));
    }
}

#[test]
fn years_are_padded_to_four_digits() {
    assert_eq!(DatePeriod::Year(7).to_string(), "0007Y");
    assert_eq!(DatePeriod::Quarter(42, 3).to_string(), "0042Q3");
    assert_eq!(DatePeriod::Month(999, 10).to_string(), "0999M10");
    assert_eq!(DatePeriod::Daily(0, 1).to_string(), "0000D1");
    assert_eq!(DatePeriod::Year(12345).to_string(), "12345Y");
    assert_eq!(DatePeriod::Daily(2024, 100).to_string(), "2024D100");
}

#[test]
fn five_digit_years_do_not_read_back() {
    assert_eq!(DatePeriod::parse("12345Y"), Err(PeriodError::InvalidFormat));
}

#[test]
fn parse_reports_each_error_kind() {
    assert_eq!(DatePeriod::parse("2024"), Err(PeriodError::InvalidFormat));
    assert_eq!(DatePeriod::parse(""), Err(PeriodError::InvalidFormat));
    assert_eq!(DatePeriod::parse("20a4Q1"), Err(PeriodError::InvalidFormat));
    assert_eq!(DatePeriod::parse("2024Y1"), Err(PeriodError::InvalidFormat));
    assert_eq!(DatePeriod::parse("2024X1"), Err(PeriodError::InvalidFormat));
    assert_eq!(DatePeriod::parse("2024Q"), Err(PeriodError::MissingIndex));
    assert_eq!(DatePeriod::parse("2024D"), Err(PeriodError::MissingIndex));
    assert_eq!(DatePeriod::parse("2024M1x"), Err(PeriodError::InvalidFormat));
    assert_eq!(DatePeriod::parse("2024M-1"), Err(PeriodError::InvalidFormat));
    assert_eq!(DatePeriod::parse("2024D4294967296"), Err(PeriodError::InvalidFormat));
    assert_eq!(DatePeriod::parse("2024D4294967295"), Err(PeriodError::OutOfRange));
    assert_eq!(DatePeriod::parse("2024Q0"), Err(PeriodError::OutOfRange));
    assert_eq!(DatePeriod::parse("2023D366"), Err(PeriodError::OutOfRange));
}

#[test]
fn parse_accepts_leading_zeros_and_plus_signs() {
    assert_eq!(DatePeriod::parse("2024M0000000012"), Ok(DatePeriod::Month(2024, 12)));
    assert_eq!(DatePeriod::parse("0024Y"), Ok(DatePeriod::Year(24)));
    assert_eq!(DatePeriod::parse("+024Y"), Ok(DatePeriod::Year(24)));
    assert_eq!(DatePeriod::parse("2024Q+3"), Ok(DatePeriod::Quarter(2024, 3)));
    assert_eq!(DatePeriod::parse("2024Q+"), Err(PeriodError::InvalidFormat));
}

#[test]
fn succ_and_pred_are_inverse() {
    let periods = [
        DatePeriod::Year(2024),
        DatePeriod::Quarter(2024, 1),
        DatePeriod::Quarter(2024, 4),
        DatePeriod::Month(2023, 12),
        DatePeriod::Month(2024, 1),
        DatePeriod::Daily(2024, 366),
        DatePeriod::Daily(2023, 365),
        DatePeriod::Daily(2025, 1),
    ];
    for p in periods {
        assert_eq!(p.succ().unwrap().pred(), Ok(p));
        assert_eq!(p.pred().unwrap().succ(), Ok(p));
    }
    assert_eq!(DatePeriod::Daily(2025, 1).pred(), Ok(DatePeriod::Daily(2024, 366)));
}

#[test]
fn stepping_stops_at_the_ends_of_the_years() {
    assert_eq!(DatePeriod::Year(0).pred(), Err(PeriodError::NoPredecessor));
    assert_eq!(DatePeriod::Daily(0, 1).pred(), Err(PeriodError::NoPredecessor));
    assert_eq!(DatePeriod::Year(u32::MAX).succ(), Err(PeriodError::NoSuccessor));
    assert_eq!(DatePeriod::Quarter(u32::MAX, 4).succ(), Err(PeriodError::NoSuccessor));
    assert_eq!(
        DatePeriod::Quarter(u32::MAX, 3).succ(),
        Ok(DatePeriod::Quarter(u32::MAX, 4))
    );
}

#[test]
fn children_aggregate_to_their_parent() {
    let parents = [
        DatePeriod::Year(2024),
        DatePeriod::Quarter(2024, 1),
        DatePeriod::Quarter(2025, 4),
        DatePeriod::Month(2024, 1),
    ];
    for p in parents {
        for child in p.decompose() {
            assert_eq!(child.aggregate(), p);
        }
    }
    assert_eq!(DatePeriod::Year(2024).aggregate(), DatePeriod::Year(2024));
}

#[test]
fn later_months_list_days_numbered_from_one() {
    let days = DatePeriod::Month(2024, 3).decompose();
    assert_eq!(days.len(), 31);
    assert_eq!(days[0], DatePeriod::Daily(2024, 1));
    assert_eq!(days[30], DatePeriod::Daily(2024, 31));
    assert_eq!(DatePeriod::Month(2023, 12).decompose().len(), 31);
    assert_eq!(DatePeriod::Month(2023, 11).decompose().len(), 30);
}

#[test]
fn leap_february_decomposes_into_its_days() {
    let leap = DatePeriod::month(2024, 2).unwrap().decompose();
    assert_eq!(leap.len(), 29);
    assert_eq!(*leap.last().unwrap(), DatePeriod::Daily(2024, 29));
    assert_eq!(DatePeriod::month(2023, 2).unwrap().decompose().len(), 28);
}

#[test]
fn days_aggregate_to_their_month() {
    assert_eq!(DatePeriod::Daily(2024, 60).aggregate(), DatePeriod::Month(2024, 2));
    assert_eq!(DatePeriod::Daily(2023, 60).aggregate(), DatePeriod::Month(2023, 3));
    assert_eq!(DatePeriod::Daily(2024, 366).aggregate(), DatePeriod::Month(2024, 12));
    assert_eq!(DatePeriod::Month(2024, 3).aggregate(), DatePeriod::Quarter(2024, 1));
    assert_eq!(DatePeriod::Month(2024, 7).aggregate(), DatePeriod::Quarter(2024, 3));
}

#[test]
fn quarter_contains_its_days_only() {
    let q2 = DatePeriod::quarter(2024, 2).unwrap();
    assert!(q2.contains_date(CalendarDate::from_ymd_opt(2024, 5, 15).unwrap()));
    assert!(!q2.contains_date(CalendarDate::from_ymd_opt(2024, 7, 1).unwrap()));
    assert!(!q2.contains_date(CalendarDate::from_ymd_opt(2023, 5, 15).unwrap()));
    let day = DatePeriod::Daily(2024, 60);
    assert!(day.contains_date(CalendarDate::from_ymd_opt(2024, 2, 29).unwrap()));
    assert!(!day.contains_date(CalendarDate::from_ymd_opt(2024, 3, 1).unwrap()));
}

#[test]
fn quarters_between_cross_the_year() {
    let start = CalendarDate::from_ymd_opt(2024, 10, 1).unwrap();
    let end = CalendarDate::from_ymd_opt(2025, 3, 31).unwrap();
    assert_eq!(
        DatePeriod::between_date_as_quarter(start, end),
        Ok(vec![DatePeriod::Quarter(2024, 4), DatePeriod::Quarter(2025, 1)])
    );
}

#[test]
fn days_between_cross_the_year() {
    let start = CalendarDate::from_ymd_opt(2023, 12, 30).unwrap();
    let end = CalendarDate::from_ymd_opt(2024, 1, 2).unwrap();
    assert_eq!(
        DatePeriod::between_date_as_daily(start, end),
        Ok(vec![
            DatePeriod::Daily(2023, 364),
            DatePeriod::Daily(2023, 365),
            DatePeriod::Daily(2024, 1),
            DatePeriod::Daily(2024, 2),
        ])
    );
}

#[test]
fn reversed_dates_give_no_periods() {
    let start = CalendarDate::from_ymd_opt(2024, 1, 1).unwrap();
    let end = CalendarDate::from_ymd_opt(2024, 1, 2).unwrap();
    assert_eq!(DatePeriod::between_date_as_daily(end, start), Ok(vec![]));
    assert_eq!(DatePeriod::between_date_as_month(end, start), Ok(vec![]));
    assert_eq!(DatePeriod::between_date_as_quarter(end, start), Ok(vec![]));
    assert_eq!(DatePeriod::between_date_as_year(end, start), Ok(vec![]));
    assert_eq!(
        DatePeriod::between_date_as_month(start, end),
        Ok(vec![DatePeriod::Month(2024, 1)])
    );
}

#[test]
fn dates_convert_to_periods() {
    let date = CalendarDate::from_ymd_opt(2024, 5, 15).unwrap();
    assert_eq!(DatePeriod::from_date_as_daily(date), DatePeriod::Daily(2024, 136));
    let last = CalendarDate::from_ymd_opt(2023, 12, 31).unwrap();
    assert_eq!(DatePeriod::from_date_as_daily(last), DatePeriod::Daily(2023, 365));
    assert_eq!(DatePeriod::from_date_as_quarter(last), DatePeriod::Quarter(2023, 4));
    let march = CalendarDate::from_ymd_opt(2023, 3, 31).unwrap();
    assert_eq!(DatePeriod::from_date_as_quarter(march), DatePeriod::Quarter(2023, 1));
}

#[test]
fn boundaries_beyond_the_calendar_overflow() {
    assert_eq!(
        DatePeriod::Year(MAX_DATE_YEAR + 1).get_first_day(),
        Err(PeriodError::CalendarOverflow)
    );
    assert_eq!(
        DatePeriod::Daily(MAX_DATE_YEAR + 1, 1).get_last_day(),
        Err(PeriodError::CalendarOverflow)
    );
    assert_eq!(
        DatePeriod::Month(MAX_DATE_YEAR, 11).get_last_day(),
        Ok(CalendarDate::from_ymd_opt(MAX_DATE_YEAR, 11, 30).unwrap())
    );
    assert_eq!(
        DatePeriod::Year(MAX_DATE_YEAR).get_last_day(),
        Ok(CalendarDate::from_ymd_opt(MAX_DATE_YEAR, 12, 31).unwrap())
    );
    assert!(!DatePeriod::Year(MAX_DATE_YEAR + 1)
        .contains_date(CalendarDate::from_ymd_opt(2024, 1, 1).unwrap()));
}

#[test]
fn last_days_of_months_and_quarters() {
    assert_eq!(
        DatePeriod::Month(2023, 2).get_last_day(),
        Ok(CalendarDate::from_ymd_opt(2023, 2, 28).unwrap())
    );
    assert_eq!(
        DatePeriod::Month(2024, 12).get_last_day(),
        Ok(CalendarDate::from_ymd_opt(2024, 12, 31).unwrap())
    );
    assert_eq!(
        DatePeriod::Quarter(2024, 3).get_last_day(),
        Ok(CalendarDate::from_ymd_opt(2024, 9, 30).unwrap())
    );
    assert_eq!(
        DatePeriod::Daily(2024, 60).get_first_day(),
        Ok(CalendarDate::from_ymd_opt(2024, 2, 29).unwrap())
    );
}

#[test]
fn last_year_of_the_calendar_holds_its_periods() {
    let date = CalendarDate::from_ymd_opt(MAX_DATE_YEAR, 11, 15).unwrap();
    let quarter = DatePeriod::Quarter(MAX_DATE_YEAR, 4);
    assert_eq!(DatePeriod::from_date_as_quarter(date), quarter);
    assert!(quarter.contains_date(date));
    assert!(DatePeriod::from_date_as_month(date).contains_date(date));
    assert!(DatePeriod::from_date_as_year(date).contains_date(date));
    assert!(DatePeriod::from_date_as_daily(date).contains_date(date));
    let year_end = CalendarDate::from_ymd_opt(MAX_DATE_YEAR, 12, 31).unwrap();
    assert_eq!(quarter.get_last_day(), Ok(year_end));
    let december = DatePeriod::Month(MAX_DATE_YEAR, 12);
    assert_eq!(december.get_last_day(), Ok(year_end));
    assert!(december.contains_date(year_end));
    let days = december.decompose();
    assert_eq!(days.len(), 31);
    assert_eq!(days[30], DatePeriod::Daily(MAX_DATE_YEAR, 31));
}

#[test]
fn every_date_lies_in_its_own_periods() {
    let dates = [(2024, 1, 1), (2024, 2, 29), (2023, 12, 31), (0, 1, 1), (1999, 7, 4)];
    for (y, m, d) in dates {
        let date = CalendarDate::from_ymd_opt(y, m, d).unwrap();
        assert!(DatePeriod::from_date_as_year(date).contains_date(date));
        assert!(DatePeriod::from_date_as_quarter(date).contains_date(date));
        assert!(DatePeriod::from_date_as_month(date).contains_date(date));
        assert!(DatePeriod::from_date_as_daily(date).contains_date(date));
    }
}
