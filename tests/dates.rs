use orarend::icstime::{
    chrono_as_date_tuple, current_timestamp, day_of_week, day_to_dowstr, days_in_month, next_day,
    prev_day, today_as_date_tuple, date_of_tuple, ICSTime, ParseError, TimeStamp,
};
use orarend::navigation::week_bounds;

#[test]
fn weekday_of_known_dates() {
    assert_eq!(day_of_week((2024, 1, 1)), 0);
    assert_eq!(day_of_week((2000, 3, 1)), 2);
    assert_eq!(day_of_week((2024, 2, 29)), 3);
    assert_eq!(day_of_week((2000, 2, 29)), 1);
    assert_eq!(day_of_week((1, 1, 1)), 0);
}

#[test]
fn weekday_names() {
    assert_eq!(day_to_dowstr((2024, 1, 1)), "Hétfő");
    assert_eq!(day_to_dowstr((2024, 1, 7)), "Vasárnap");
}

#[test]
fn days_in_month_leap_rules() {
    assert_eq!(days_in_month(2024, 2), 29);
    assert_eq!(days_in_month(2023, 2), 28);
    assert_eq!(days_in_month(1900, 2), 28);
    assert_eq!(days_in_month(2000, 2), 29);
    assert_eq!(days_in_month(2024, 4), 30);
    assert_eq!(days_in_month(2024, 12), 31);
}

#[test]
fn next_day_rolls_over() {
    assert_eq!(next_day((2024, 2, 29)), (2024, 3, 1));
    assert_eq!(next_day((2023, 2, 28)), (2023, 3, 1));
    assert_eq!(next_day((2023, 12, 31)), (2024, 1, 1));
    assert_eq!(next_day((2024, 6, 10)), (2024, 6, 11));
}

#[test]
fn prev_day_rolls_back() {
    assert_eq!(prev_day((2024, 3, 1)), (2024, 2, 29));
    assert_eq!(prev_day((2024, 1, 1)), (2023, 12, 31));
    assert_eq!(prev_day((2024, 5, 1)), (2024, 4, 30));
}

#[test]
fn next_of_prev_is_identity_over_two_years() {
    let mut d = (2023, 1, 2);
    for _ in 0..800 {
        assert_eq!(next_day(prev_day(d)), d);
        assert_eq!(prev_day(next_day(d)), d);
        let n = next_day(d);
        assert_eq!((day_of_week(d) + 1) % 7, day_of_week(n));
        d = n;
    }
}

#[test]
fn timestamp_add_carries_hours() {
    let t = TimeStamp { h: 7, m: 45 };
    assert_eq!(t.add(30), TimeStamp { h: 8, m: 15 });
    assert_eq!(t.add(10), TimeStamp { h: 7, m: 55 });
    assert_eq!(t.add(135), TimeStamp { h: 10, m: 0 });
    let mut u = TimeStamp { h: 23, m: 59 };
    u.add_assign(1);
    assert_eq!(u, TimeStamp { h: 24, m: 0 });
}

#[test]
fn time_literal_shifted_by_offset() {
    let t = ICSTime::new("20240610T074500").unwrap();
    assert_eq!((t.year, t.month, t.day), (2024, 6, 10));
    assert_eq!((t.hour, t.min), (9, 45));
    assert_eq!(t.dow, 0);
    let z = ICSTime::new("20240229T120000Z").unwrap();
    assert_eq!((z.month, z.day, z.hour, z.dow), (2, 29, 14, 3));
    assert!(t.is_on_day((2024, 6, 10)));
    assert!(!t.is_on_day((2024, 6, 11)));
}

#[test]
fn bad_time_literals_are_rejected() {
    assert_eq!(ICSTime::new("2024061"), Err(ParseError::InvalidDateLiteral));
    assert_eq!(ICSTime::new("2024x610T074500"), Err(ParseError::InvalidDateLiteral));
    assert_eq!(ICSTime::new("20230229T074500"), Err(ParseError::InvalidDateLiteral));
    assert_eq!(ICSTime::new("20241310T074500"), Err(ParseError::InvalidDateLiteral));
    assert_eq!(ICSTime::new("20240610T256000"), Err(ParseError::InvalidDateLiteral));
    assert_eq!(ICSTime::new("00000610T074500"), Err(ParseError::InvalidDateLiteral));
}

#[test]
fn week_bounds_cross_month() {
    assert_eq!(week_bounds((2024, 7, 31)), ((2024, 7, 29), (2024, 8, 4)));
    assert_eq!(week_bounds((2024, 7, 29)), ((2024, 7, 29), (2024, 8, 4)));
    assert_eq!(week_bounds((2024, 8, 4)), ((2024, 7, 29), (2024, 8, 4)));
    assert_eq!(week_bounds((2024, 12, 31)), ((2024, 12, 30), (2025, 1, 5)));
}

#[test]
fn week_bounds_clamped_at_range_ends() {
    assert_eq!(week_bounds((1, 1, 3)).0, (1, 1, 1));
    assert_eq!(week_bounds((9999, 12, 31)).1, (9999, 12, 31));
}

#[test]
fn chrono_dates_as_tuples() {
    let d = chrono::NaiveDate::from_ymd_opt(2024, 6, 10).unwrap();
    assert_eq!(chrono_as_date_tuple(&d), (2024, 6, 10));
    let e = chrono::NaiveDate::from_ymd_opt(1999, 12, 31).unwrap();
    assert_eq!(chrono_as_date_tuple(&e), (1999, 12, 31));
}

#[test]
fn clock_readings_in_range() {
    let today = today_as_date_tuple().unwrap();
    assert!(today.1 >= 1 && today.1 <= 12);
    assert!(today.2 >= 1 && today.2 <= days_in_month(today.0, today.1));
    let now = current_timestamp();
    assert!(now.h < 24 && now.m < 60);
}

#[test]
fn time_values_as_text() {
    let t = ICSTime::new("20000301T220500").unwrap();
    assert_eq!(t.to_text(), "Szerda, 2000.03.01. 24:05");
}

#[test]
fn tuples_as_dates() {
    assert_eq!(date_of_tuple((2024, 2, 29)), Some((2024, 2, 29)));
    assert_eq!(date_of_tuple((2023, 2, 29)), None);
    assert_eq!(date_of_tuple((0, 1, 1)), None);
    assert_eq!(date_of_tuple((-5, 1, 1)), None);
    assert_eq!(date_of_tuple((10000, 1, 1)), None);
    assert_eq!(date_of_tuple((2024, 4, 31)), None);
    assert_eq!(date_of_tuple((2024, 4, 0)), None);
}
