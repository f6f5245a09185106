use calendar_date::implementation::{
    days_per_month, days_per_year, is_year_leap, normalize_year, standarize_year,
    standarized_months_day, validate, validate_raw, year_index,
};
use calendar_date::{Date, DateError};

#[test]
fn leap_years_follow_the_gregorian_rule() {
    assert!(is_year_leap(2000));
    assert!(!is_year_leap(1900));
    assert!(is_year_leap(1996));
    assert!(!is_year_leap(2023));
    assert!(is_year_leap(400));
    assert!(is_year_leap(0));
    assert!(is_year_leap(-4));
    assert!(!is_year_leap(-1));
    assert!(!is_year_leap(-100));
    assert!(is_year_leap(-400));
}

#[test]
fn a_date_knows_whether_its_year_is_leap() {
    assert!(Date::new(2000, 6, 1).unwrap().is_leap_year());
    assert!(!Date::new(1900, 6, 1).unwrap().is_leap_year());
    assert!(Date::new(1996, 6, 1).unwrap().is_leap_year());
    assert!(!Date::new(2023, 6, 1).unwrap().is_leap_year());
    assert!(Date::new(400, 6, 1).unwrap().is_leap_year());
    // The year before year 1 is the continuous year 0, a leap year.
    assert!(Date::new(-1, 6, 1).unwrap().is_leap_year());
    assert!(!Date::new(-4, 6, 1).unwrap().is_leap_year());
    assert!(Date::new(-5, 6, 1).unwrap().is_leap_year());
}

#[test]
fn months_have_their_lengths() {
    let common: [u32; 12] = [31, 28, 31, 30, 31, 30, 31, 31, 30, 31, 30, 31];
    for month in 1..=12u32 {
        assert_eq!(days_per_month(2023, month), common[(month - 1) as usize]);
        let leap = if month == 2 { 29 } else { common[(month - 1) as usize] };
        assert_eq!(days_per_month(2024, month), leap);
    }
    assert_eq!(days_per_month(1900, 2), 28);
    assert_eq!(days_per_month(2000, 2), 29);
}

#[test]
fn years_have_their_lengths() {
    assert_eq!(days_per_year(2023), 365);
    assert_eq!(days_per_year(2024), 366);
    assert_eq!(days_per_year(1900), 365);
    assert_eq!(days_per_year(2000), 366);
    assert_eq!(days_per_year(0), 366);
}

#[test]
fn historical_years_skip_zero() {
    assert_eq!(normalize_year(-1), 0);
    assert_eq!(normalize_year(-2), -1);
    assert_eq!(normalize_year(-9999), -9998);
    assert_eq!(normalize_year(1), 1);
    assert_eq!(normalize_year(9999), 9999);
    assert_eq!(standarize_year(0), -1);
    assert_eq!(standarize_year(-1), -2);
    assert_eq!(standarize_year(1), 1);
    for year in -9999..=9999 {
        if year != 0 {
            assert_eq!(standarize_year(normalize_year(year)), year);
        }
    }
    for year in -9998..=9999 {
        assert_ne!(standarize_year(year), 0);
        assert_eq!(normalize_year(standarize_year(year)), year);
    }
}

#[test]
fn positions_within_the_year() {
    assert_eq!(year_index(2000, 1, 1), 1);
    assert_eq!(year_index(2000, 2, 29), 60);
    assert_eq!(year_index(2000, 3, 1), 61);
    assert_eq!(year_index(2001, 3, 1), 60);
    assert_eq!(year_index(2001, 12, 31), 365);
    assert_eq!(year_index(2000, 12, 31), 366);
    assert_eq!(year_index(2023, 7, 4), 185);
}

#[test]
fn month_and_day_survive_the_round_trip() {
    for year in [-9999, -401, -400, -5, -4, -1, 1, 4, 100, 400, 1900, 1999, 2000, 2023, 2024, 9999]
    {
        let normal = normalize_year(year);
        let mut position = 0;
        for month in 1..=12u32 {
            for day in 1..=days_per_month(normal, month) {
                position += 1;
                assert_eq!(year_index(normal, month, day), position);
                let date = Date::new(year, month, day).expect("a day of the calendar");
                assert_eq!(standarized_months_day(&date), (month, day));
            }
        }
        assert_eq!(position, days_per_year(normal));
    }
}

#[test]
fn raw_input_is_classified() {
    assert_eq!(validate_raw(10000, 5, 12), Err(DateError::OutOfLimits));
    assert_eq!(validate_raw(-10000, 5, 12), Err(DateError::OutOfLimits));
    assert_eq!(validate_raw(10000, 13, 40), Err(DateError::OutOfLimits));
    assert_eq!(validate_raw(2000, 2, 29), Ok(()));
    assert_eq!(validate_raw(1, 2, 29), Err(DateError::InvalidNewInput));
    assert_eq!(validate_raw(0, 1, 1), Err(DateError::InvalidNewInput));
    assert_eq!(validate_raw(2000, 0, 1), Err(DateError::InvalidNewInput));
    assert_eq!(validate_raw(2000, 13, 1), Err(DateError::InvalidNewInput));
    assert_eq!(validate_raw(2000, 1, 0), Err(DateError::InvalidNewInput));
    assert_eq!(validate_raw(2000, 1, 32), Err(DateError::InvalidNewInput));
    assert_eq!(validate_raw(2000, 4, 31), Err(DateError::InvalidNewInput));
    assert_eq!(validate_raw(9999, 12, 31), Ok(()));
    assert_eq!(validate_raw(-9999, 1, 1), Ok(()));
    // Historical year -1 is the continuous year 0, which is leap.
    assert_eq!(validate_raw(-1, 2, 29), Ok(()));
    assert_eq!(validate_raw(-4, 2, 29), Err(DateError::InvalidNewInput));
    assert_eq!(validate_raw(-5, 2, 29), Ok(()));
}

#[test]
fn construction_reports_the_same_errors() {
    assert_eq!(Date::new(10000, 5, 12), Err(DateError::OutOfLimits));
    assert!(Date::new(2000, 2, 29).is_ok());
    assert_eq!(Date::new(1, 2, 29), Err(DateError::InvalidNewInput));
    assert_eq!(Date::new(0, 1, 1), Err(DateError::InvalidNewInput));
    assert_eq!(Date::new(-10000, 1, 1), Err(DateError::OutOfLimits));
    assert_eq!(Date::new(2023, 2, 29), Err(DateError::InvalidNewInput));
    assert_eq!(Date::new(2023, 11, 31), Err(DateError::InvalidNewInput));
}

#[test]
fn dates_inside_the_range_are_valid() {
    for (year, month, day) in [(2000, 2, 29), (-9999, 1, 1), (9999, 12, 31), (-1, 12, 31)] {
        let date = Date::new(year, month, day).unwrap();
        assert_eq!(validate(&date), Ok(()));
    }
}
