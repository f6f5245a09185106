use calendar_date::implementation::{
    add_n_days, date_index, gauss_algorithm, gauss_algorithm_weekday_normalizer, is_date_before,
    reference_date,
};
use calendar_date::{Date, DateError};

fn date(year: i32, month: u32, day: u32) -> Date {
    Date::new(year, month, day).expect("a day of the calendar")
}

#[test]
fn the_epoch_is_the_first_day_of_year_one() {
    assert_eq!(reference_date(), date(1, 1, 1));
    assert_eq!(date_index(&reference_date()), 0);
}

#[test]
fn day_numbers_are_counted_from_the_epoch() {
    assert_eq!(date_index(&date(1, 1, 2)), 1);
    assert_eq!(date_index(&date(1, 12, 31)), 364);
    assert_eq!(date_index(&date(2, 1, 1)), 365);
    assert_eq!(date_index(&date(2000, 1, 1)), 730119);
    assert_eq!(date_index(&date(9999, 12, 31)), 3652058);
    assert_eq!(date_index(&date(-1, 12, 31)), -1);
    assert_eq!(date_index(&date(-1, 12, 30)), -2);
    assert_eq!(date_index(&date(-1, 1, 1)), -366);
    assert_eq!(date_index(&date(-2, 12, 31)), -367);
    assert_eq!(date_index(&date(-9999, 1, 1)), -3652060);
}

#[test]
fn the_distance_is_signed() {
    let a = date(2000, 1, 1);
    let b = date(2005, 3, 30);
    assert_eq!(Date::days_between(&a, &a), 0);
    assert_eq!(Date::days_between(&b, &b), 0);
    assert_eq!(Date::days_between(&a, &b), 1915);
    assert_eq!(Date::days_between(&b, &a), -Date::days_between(&a, &b));
    let c = date(-1, 12, 25);
    let d = date(1, 1, 6);
    assert_eq!(Date::days_between(&c, &d), 12);
    assert_eq!(Date::days_between(&d, &c), -12);
    assert_eq!(
        Date::days_between(&date(-9999, 1, 1), &date(9999, 12, 31)),
        3652060 + 3652058
    );
}

#[test]
fn the_distance_grows_by_one_with_each_day() {
    let a = date(-3, 5, 17);
    let mut b = date(-2, 12, 1);
    let mut expected = Date::days_between(&a, &b);
    assert_eq!(expected, 198 + 365);
    // From the year before the epoch's year, across the epoch, into year 2.
    for _ in 0..800 {
        let before = b;
        b.add_days(1).expect("inside the range");
        expected += 1;
        assert_eq!(Date::days_between(&a, &b), expected);
        assert_eq!(Date::days_between(&before, &b), 1);
        assert!(is_date_before(&before, &b));
        assert!(!is_date_before(&b, &before));
        assert!(date_index(&before) < date_index(&b));
    }
    assert_eq!(b, date(2, 2, 8));
}

#[test]
fn calendar_order() {
    assert!(is_date_before(&date(1999, 12, 31), &date(2000, 1, 1)));
    assert!(!is_date_before(&date(2000, 1, 1), &date(1999, 12, 31)));
    assert!(is_date_before(&date(2000, 1, 1), &date(2000, 1, 2)));
    assert!(!is_date_before(&date(2000, 1, 1), &date(2000, 1, 1)));
    assert!(is_date_before(&date(-1, 12, 31), &date(1, 1, 1)));
    assert!(is_date_before(&date(-2, 12, 31), &date(-1, 1, 1)));
}

#[test]
fn sunday_moves_to_the_end_of_the_week() {
    assert_eq!(gauss_algorithm_weekday_normalizer(0), 6);
    assert_eq!(gauss_algorithm_weekday_normalizer(1), 0);
    assert_eq!(gauss_algorithm_weekday_normalizer(2), 1);
    assert_eq!(gauss_algorithm_weekday_normalizer(3), 2);
    assert_eq!(gauss_algorithm_weekday_normalizer(4), 3);
    assert_eq!(gauss_algorithm_weekday_normalizer(5), 4);
    assert_eq!(gauss_algorithm_weekday_normalizer(6), 5);
}

#[test]
fn days_of_the_week() {
    // Saturday.
    assert_eq!(gauss_algorithm(&date(2000, 1, 1)), Ok(5));
    // The epoch is a Monday.
    assert_eq!(gauss_algorithm(&date(1, 1, 1)), Ok(0));
    assert_eq!(gauss_algorithm(&date(1, 1, 7)), Ok(6));
    assert_eq!(gauss_algorithm(&date(2024, 2, 29)), Ok(3));
    assert_eq!(gauss_algorithm(&date(9999, 12, 31)), Ok(4));
}

#[test]
fn no_day_of_the_week_before_year_one() {
    assert_eq!(gauss_algorithm(&date(-1, 12, 31)), Err(DateError::NotRepresentable));
    assert_eq!(gauss_algorithm(&date(-1, 1, 1)), Err(DateError::NotRepresentable));
    assert_eq!(gauss_algorithm(&date(-9999, 1, 1)), Err(DateError::NotRepresentable));
    assert_eq!(gauss_algorithm(&date(-44, 3, 15)), Err(DateError::NotRepresentable));
    let mut x = date(1, 1, 1);
    assert_eq!(gauss_algorithm(&x), Ok(0));
    x.remove_days(1).unwrap();
    assert_eq!(gauss_algorithm(&x), Err(DateError::NotRepresentable));
}

#[test]
fn the_day_of_the_week_is_the_day_number_modulo_seven() {
    for (year, month, day) in [(1, 1, 1), (1899, 12, 1), (1999, 1, 1), (2399, 12, 1), (9997, 6, 1)]
    {
        let mut x = date(year, month, day);
        for _ in 0..900 {
            let weekday = gauss_algorithm(&x).expect("a date from year 1 on");
            assert!(weekday < 7);
            assert_eq!(i64::from(weekday), date_index(&x) % 7);
            add_n_days(&mut x, 1);
        }
    }
}
