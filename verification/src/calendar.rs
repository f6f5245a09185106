//! The proleptic Gregorian calendar as mathematics: the leap-year rule, month
//! and year lengths, the position of a day within its year, and the count of
//! days since the epoch. Every function here works on continuous year numbers
//! (the year before year 1 is year 0), never on historical ones.

use vstd::prelude::*;

verus! {

/// First historical year that a date may be built from.
pub const MIN_HISTORICAL_YEAR: i32 = -9999;

/// Last historical year that a date may be built from.
pub const MAX_HISTORICAL_YEAR: i32 = 9999;

/// First continuous year that a date may lie in: historical year -9999.
pub const MIN_YEAR: i32 = -9998;

/// Last continuous year that a date may lie in.
pub const MAX_YEAR: i32 = 9999;

/// The number of years from the first supported year to the last.
pub const YEAR_SPAN: u32 = 19997;

/// A year is leap when it is divisible by 4, except for the centuries that are
/// not divisible by 400.
pub open spec fn is_leap(year: int) -> bool {
    year % 4 == 0 && (year % 100 != 0 || year % 400 == 0)
}

/// The number of days in `year`.
pub open spec fn days_in_year(year: int) -> int {
    if is_leap(year) {
        366
    } else {
        365
    }
}

/// The number of days in month `month` of `year`, for a month in `1..=12`.
pub open spec fn days_in_month(year: int, month: int) -> int {
    if month == 2 {
        if is_leap(year) {
            29
        } else {
            28
        }
    } else if month == 4 || month == 6 || month == 9 || month == 11 {
        30
    } else {
        31
    }
}

/// `month` and `day` name a day that exists in `year`.
pub open spec fn is_month_day(year: int, month: int, day: int) -> bool {
    1 <= month <= 12 && 1 <= day <= days_in_month(year, month)
}

/// The number of days of a common year that lie before the first day of each
/// month: the lengths of the months before it added up.
pub const DAYS_BEFORE_MONTH: [i32; 12] = [0, 31, 59, 90, 120, 151, 181, 212, 243, 273, 304, 334];

/// The number of days of `year` that lie before the first day of `month`, for
/// a month in `1..=12`: the lengths of the months `1..month` added up, which
/// from March on in a leap year is one more than in a common year.
pub open spec fn days_before_month(year: int, month: int) -> int {
    DAYS_BEFORE_MONTH[month - 1] + if month > 2 && is_leap(year) {
        1int
    } else {
        0int
    }
}

/// The 1-based position within `year` of the day `month`/`day`.
pub open spec fn day_of_year(year: int, month: int, day: int) -> int {
    days_before_month(year, month) + day
}

/// The month that day `index` of `year` falls in: the last month that begins
/// before that day.
pub open spec fn month_of_index(year: int, index: int) -> int {
    if index > days_before_month(year, 12) {
        12
    } else if index > days_before_month(year, 11) {
        11
    } else if index > days_before_month(year, 10) {
        10
    } else if index > days_before_month(year, 9) {
        9
    } else if index > days_before_month(year, 8) {
        8
    } else if index > days_before_month(year, 7) {
        7
    } else if index > days_before_month(year, 6) {
        6
    } else if index > days_before_month(year, 5) {
        5
    } else if index > days_before_month(year, 4) {
        4
    } else if index > days_before_month(year, 3) {
        3
    } else if index > days_before_month(year, 2) {
        2
    } else {
        1
    }
}

/// The day of the month that day `index` of `year` is.
pub open spec fn day_of_index(year: int, index: int) -> int {
    index - days_before_month(year, month_of_index(year, index))
}

/// The continuous number of a historical year: historical years have no year
/// 0, so the years before year 1 move up by one.
pub open spec fn normalized(year: int) -> int {
    if year < 0 {
        year + 1
    } else {
        year
    }
}

/// The historical number of a continuous year; the inverse of [`normalized`].
pub open spec fn historical(year: int) -> int {
    if year <= 0 {
        year - 1
    } else {
        year
    }
}

/// A historical year, a month and a day that together name a day inside the
/// supported range.
pub open spec fn is_raw_date(year: int, month: int, day: int) -> bool {
    &&& MIN_HISTORICAL_YEAR <= year <= MAX_HISTORICAL_YEAR
    &&& year != 0
    &&& is_month_day(normalized(year), month, day)
}

/// The signed number of days from the first day of year 1 to the first day of
/// `year`: 365 for each year between the two and one more for each leap year
/// among them, negative when `year` comes first.
pub open spec fn days_before_year(year: int) -> int {
    365 * (year - 1) + (year - 1) / 4 - (year - 1) / 100 + (year - 1) / 400
}

/// The signed number of days from the epoch (day 1 of year 1) to day `index`
/// of `year`. It is 0 at the epoch and grows by one with each day.
pub open spec fn day_number(year: int, index: int) -> int {
    days_before_year(year) + index - 1
}

/// Gauss's month offsets for a common year: the number of days before each
/// month, reduced modulo 7.
pub const MONTH_OFFSET: [i32; 12] = [0, 3, 3, 6, 1, 4, 6, 2, 5, 0, 3, 5];

/// Gauss's month offsets for a leap year.
pub const MONTH_OFFSET_LEAP: [i32; 12] = [0, 3, 4, 0, 2, 5, 0, 3, 6, 1, 4, 6];

/// Gauss's offset of month `month` of `year`, for a month in `1..=12`.
pub open spec fn gauss_month_offset(year: int, month: int) -> int {
    if is_leap(year) {
        MONTH_OFFSET_LEAP[month - 1] as int
    } else {
        MONTH_OFFSET[month - 1] as int
    }
}

/// Gauss's congruence for the day of the week of `month`/`day` of `year`,
/// where 0 is Sunday and 6 is Saturday.
pub open spec fn gauss_weekday(year: int, month: int, day: int) -> int {
    (day + gauss_month_offset(year, month) + 5 * ((year - 1) % 4) + 4 * ((year - 1) % 100) + 6 * ((
    year - 1) % 400)) % 7
}

/// The day of the week counted from Monday as 0, for one counted from Sunday
/// as 0.
pub open spec fn monday_based(weekday: int) -> int {
    (weekday + 6) % 7
}

} // verus!
