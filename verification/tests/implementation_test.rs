use calendar_date::implementation::{
    add_n_days, add_n_months, add_n_years, date_index, gauss_algorithm, remove_n_days,
    remove_n_months, remove_n_years, standarized_months_day, validate_raw,
};
use calendar_date::Date;

#[test]
fn validate_raw_test() {
    validate_raw(10000, 5, 12).expect_err("correct error");
    validate_raw(2000, 2, 29).expect("correct no error");
    validate_raw(1, 2, 29).expect_err("correct error");
}

#[test]
fn standarized_months_day_test() {
    let x = Date::new(2000, 12, 31).expect("error creating instance in test");
    assert_eq!(standarized_months_day(&x), (12, 31));
}

#[test]
fn add_days_test() {
    let mut y = Date::new(2000, 2, 29).expect("error creating instance in test");
    add_n_days(&mut y, 1000);
    let z = Date::new(2002, 11, 25).expect("error creating instance in test");
    assert_eq!(y, z);
}

#[test]
fn add_n_months_test() {
    let mut x = Date::new(2000, 2, 20).expect("error creating instance in test");
    let expected = Date::new(2001, 5, 20).expect("error creating instance in test");
    add_n_months(&mut x, 15);
    assert_eq!(x, expected);
}

#[test]
fn add_n_years_test() {
    let mut x = Date::new(2000, 12, 31).expect("error creating instance in test");
    let expected = Date::new(2002, 12, 31).expect("error creating instance in test");
    add_n_years(&mut x, 2);
    assert_eq!(x, expected);
}

#[test]
fn remove_n_days_test() {
    let mut x = Date::new(2000, 12, 31).expect("error creating instance in test");
    let expected = Date::new(1999, 12, 31).expect("error creating instance in test");
    remove_n_days(&mut x, 366);
    assert_eq!(x, expected);
}

#[test]
fn remove_n_months_test() {
    let mut x = Date::new(2000, 12, 31).expect("error creating instance in test");
    let expected = Date::new(1984, 4, 30).expect("error creating instance in test");
    remove_n_months(&mut x, 200);
    assert_eq!(x, expected);
}

#[test]
fn remove_years_test() {
    let mut x = Date::new(2000, 12, 31).expect("error creating instance in test");
    let expected = Date::new(1801, 12, 31).expect("error creating instance in test");
    remove_n_years(&mut x, 199);
    assert_eq!(x, expected);
}

#[test]
fn date_index_test() {
    assert_eq!(
        -184813,
        date_index(&Date::new(-506, 1, 1).expect("error creating instance in test"))
    );
    assert_eq!(
        0,
        date_index(&Date::new(1, 1, 1).expect("error creating instance in test"))
    );
    assert_eq!(
        365026,
        date_index(&Date::new(1000, 5, 30).expect("error creating instance in test"))
    );
    assert_eq!(
        1310776,
        date_index(&Date::new(3589, 10, 14).expect("error creating instance in test"))
    );
}

#[test]
fn gauss_algorithm_test() {
    let w = Date::new(2000, 1, 1).expect("error creating instance in test");
    let x = Date::new(1856, 1, 31).expect("error creating instance in test");
    let y = Date::new(1000, 7, 26).expect("error creating instance in test");
    let z = Date::new(1, 5, 15).expect("error creating instance in test");
    assert_eq!(gauss_algorithm(&w), Ok(5));
    assert_eq!(gauss_algorithm(&x), Ok(3));
    assert_eq!(gauss_algorithm(&y), Ok(5));
    assert_eq!(gauss_algorithm(&z), Ok(1));
}
