use calendar_date::Date;

#[test]
fn new_test() {
    let _w = Date::new(2000, 2, 29).expect("error in w");
    let _x = Date::new(2001, 2, 29).expect_err("expected error in x");
    let _y = Date::new(-1, 2, 28).expect("error in y");
    let _z = Date::new(0, 50, 15).expect_err("error expected in z");
}

#[test]
fn add_test() {
    let mut x = Date::new(2000, 2, 29).expect("error creating instance in test");
    let y = x;
    x.add_years(10000).expect_err("msg");
    assert_eq!(x, y);
}

#[test]
fn multiple_operation_test() {
    let mut x = Date::new(2000, 2, 29).expect("error creating instance in test");
    let expected = x.clone();
    x.add_days(50)
        .expect("error adding")
        .add_weeks(5)
        .expect("error adding");
    x.remove_days(50)
        .expect("error removing")
        .remove_weeks(5)
        .expect("error removing");
    assert_eq!(x, expected);
}

#[test]
fn days_between_test() {
    let x: Date = Date::new(2000, 1, 1).expect("error creating instance in test");
    let y = Date::new(2005, 3, 30).expect("error creating instance in test");
    assert_eq!(1915, Date::days_between(&x, &y));
    assert_eq!(-1915, Date::days_between(&y, &x));
}
