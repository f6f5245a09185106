//! The engine behind [`crate::Date`]: calendar rules, the conversion between
//! month/day and the position within the year, and unchecked date arithmetic.

use crate::calendar::{
    day_number, day_of_year, days_before_month, days_before_year, days_in_month, days_in_year,
    gauss_month_offset, gauss_weekday, historical, is_leap, is_month_day, is_raw_date,
    monday_based, normalized, MAX_HISTORICAL_YEAR, MAX_YEAR, MIN_HISTORICAL_YEAR, MIN_YEAR,
    MONTH_OFFSET, MONTH_OFFSET_LEAP,
};
use crate::lemmas::{
    lemma_day_number_order, lemma_days_before_month, lemma_days_before_next_year,
    lemma_index_of_month_day, lemma_plus_days, lemma_plus_months, lemma_weekday_of_day_number,
    lemma_year_of_day_number,
};
use crate::model::DateView;
use crate::{Date, DateError};
use vstd::prelude::*;

verus! {

/// Whether `year` is a leap year.
pub fn is_year_leap(year: i32) -> (leap: bool)
    ensures
        leap == is_leap(year as int),
{
    if year % 4 != 0 {
        false
    } else if year % 100 != 0 {
        true
    } else {
        year % 400 == 0
    }
}

/// The number of days in month `month` of `year`.
pub fn days_per_month(year: i32, month: u32) -> (days: u32)
    requires
        1 <= month <= 12,
    ensures
        days == days_in_month(year as int, month as int),
        28 <= days <= 31,
{
    match month {
        1 | 3 | 5 | 7 | 8 | 10 | 12 => 31,
        2 => if is_year_leap(year) {
            29
        } else {
            28
        },
        _ => 30,
    }
}

/// The number of days in `year`.
pub fn days_per_year(year: i32) -> (days: u32)
    ensures
        days == days_in_year(year as int),
{
    if is_year_leap(year) {
        366
    } else {
        365
    }
}

/// Checks a historical year, a month and a day before a date is built from
/// them. A year outside the supported range is reported first; then a year 0,
/// a month outside `1..=12`, or a day that the month does not have.
pub fn validate_raw(year: i32, month: u32, day: u32) -> (r: Result<(), DateError>)
    ensures
        r is Ok <==> is_raw_date(year as int, month as int, day as int),
        r matches Err(e) ==> e == if MIN_HISTORICAL_YEAR <= year <= MAX_HISTORICAL_YEAR {
            DateError::InvalidNewInput
        } else {
            DateError::OutOfLimits
        },
{
    if year < MIN_HISTORICAL_YEAR || year > MAX_HISTORICAL_YEAR {
        Err(DateError::OutOfLimits)
    } else if (year == 0) || (month == 0) || (month > 12) || (day == 0) || (day > days_per_month(
        normalize_year(year),
        month,
    )) {
        Err(DateError::InvalidNewInput)
    } else {
        Ok(())
    }
}

/// Checks a date after arithmetic: the day's position must not exceed the
/// length of its year, and the year must lie in the supported range.
pub fn validate(date: &Date) -> (r: Result<(), DateError>)
    ensures
        r is Ok <==> date@.index <= days_in_year(date@.year) && date@.within_limits(),
        r matches Err(e) ==> e == if date@.index > days_in_year(date@.year) {
            DateError::InternalError
        } else {
            DateError::OutOfLimits
        },
{
    if date.index > days_per_year(date.year) {
        Err(DateError::InternalError)
    } else if date.year > MAX_YEAR || date.year < MIN_YEAR {
        Err(DateError::OutOfLimits)
    } else {
        Ok(())
    }
}

/// The continuous number of the historical year `year`.
pub fn normalize_year(year: i32) -> (normal: i32)
    requires
        year != 0,
    ensures
        normal == normalized(year as int),
{
    if year < 0 {
        year + 1
    } else {
        year
    }
}

/// The historical number of the continuous year `year`.
pub fn standarize_year(year: i32) -> (standard: i32)
    requires
        year > i32::MIN,
    ensures
        standard == historical(year as int),
{
    if year <= 0 {
        year - 1
    } else {
        year
    }
}

/// The position within `year` of the day `month`/`day`.
pub fn year_index(year: i32, month: u32, day: u32) -> (index: u32)
    requires
        is_month_day(year as int, month as int, day as int),
    ensures
        index == day_of_year(year as int, month as int, day as int),
        1 <= index <= days_in_year(year as int),
{
    let mut sum: u32 = 0;
    let mut m: u32 = 1;
    while m < month
        invariant
            1 <= m <= month <= 12,
            sum == days_before_month(year as int, m as int),
        decreases month - m,
    {
        proof {
            lemma_days_before_month(year as int, m as int);
        }
        sum = sum + days_per_month(year, m);
        m = m + 1;
    }
    proof {
        lemma_index_of_month_day(year as int, month as int, day as int);
    }
    sum + day
}

/// The month and the day of the month of `date`.
pub fn standarized_months_day(date: &Date) -> (month_day: (u32, u32))
    requires
        date@.is_calendar_day(),
    ensures
        month_day.0 == date@.month(),
        month_day.1 == date@.day(),
        is_month_day(date@.year, month_day.0 as int, month_day.1 as int),
        day_of_year(date@.year, month_day.0 as int, month_day.1 as int) == date@.index,
{
    let mut index_aux: u32 = date.index;
    let mut month_index: u32 = 1;
    while index_aux > days_per_month(date.year, month_index)
        invariant
            1 <= month_index <= 12,
            1 <= index_aux,
            date@.is_calendar_day(),
            days_before_month(date@.year, month_index as int) + index_aux == date@.index,
        decreases 12 - month_index,
    {
        proof {
            lemma_days_before_month(date@.year, month_index as int);
        }
        index_aux = index_aux - days_per_month(date.year, month_index);
        month_index = month_index + 1;
    }
    proof {
        lemma_index_of_month_day(date@.year, month_index as int, index_aux as int);
    }
    (month_index, index_aux)
}

/// Moves `date` forward by `n` days. The year reached, which lies no further
/// on than years of 365 days would carry, has to fit the year's integer type.
pub fn add_n_days(date: &mut Date, n: u32)
    requires
        old(date)@.is_calendar_day(),
        old(date)@.year + n / 365 + 1 <= i32::MAX,
    ensures
        final(date)@ == old(date)@.plus_days(n as int),
        final(date)@.is_calendar_day(),
        final(date)@.day_number() == old(date)@.day_number() + n,
{
    let ghost target: DateView = date@.plus_days(n as int);
    proof {
        lemma_plus_days(date@, n as int);
    }
    let mut index: u64 = date.index as u64 + n as u64;
    let mut year: i32 = date.year;
    while index > days_per_year(year) as u64
        invariant
            1 <= index <= 366 + u32::MAX,
            target.is_calendar_day(),
            target.year <= i32::MAX,
            day_number(year as int, index as int) == target.day_number(),
        decreases index,
    {
        proof {
            lemma_year_of_day_number(target, year as int, index as int);
            lemma_days_before_next_year(year as int);
        }
        index = index - days_per_year(year) as u64;
        year = year + 1;
    }
    date.year = year;
    date.index = index as u32;
    proof {
        lemma_day_number_order(date@, target);
    }
}

/// Moves `date` back by `n` days. The year reached, which lies no further
/// back than years of 365 days would carry, has to fit the year's integer
/// type.
pub fn remove_n_days(date: &mut Date, n: u32)
    requires
        old(date)@.is_calendar_day(),
        old(date)@.year - n / 365 - 1 >= i32::MIN,
    ensures
        final(date)@ == old(date)@.plus_days(-(n as int)),
        final(date)@.is_calendar_day(),
        final(date)@.day_number() == old(date)@.day_number() - n,
{
    let ghost target: DateView = date@.plus_days(-(n as int));
    proof {
        lemma_plus_days(date@, -(n as int));
    }
    let mut substraction: i64 = date.index as i64 - n as i64;
    let mut year: i32 = date.year;
    while substraction < 1
        invariant
            -(u32::MAX as int) <= substraction <= 366,
            substraction <= days_in_year(year as int),
            target.is_calendar_day(),
            target.year >= i32::MIN,
            day_number(year as int, substraction as int) == target.day_number(),
        decreases 366 - substraction,
    {
        proof {
            lemma_year_of_day_number(target, year as int, substraction as int);
            lemma_days_before_next_year(year as int - 1);
        }
        year = year - 1;
        substraction = substraction + days_per_year(year) as i64;
    }
    date.year = year;
    date.index = substraction as u32;
    proof {
        lemma_day_number_order(date@, target);
    }
}

/// Moves `date` forward by `n` months, keeping the day of the month where the
/// month reached has it and taking that month's last day where it has not.
/// The year reached has to fit the year's integer type.
pub fn add_n_months(date: &mut Date, n: u32)
    requires
        old(date)@.is_calendar_day(),
        old(date)@.year + n / 12 + 1 <= i32::MAX,
    ensures
        final(date)@ == old(date)@.plus_months(n as int),
        final(date)@.is_calendar_day(),
{
    let ghost start: DateView = date@;
    proof {
        lemma_plus_months(start, n as int);
    }
    let standard: (u32, u32) = standarized_months_day(date);
    let mut months: u64 = standard.0 as u64 + n as u64;
    let mut days: u32 = standard.1;
    let mut year: i32 = date.year;
    while months > 12
        invariant
            1 <= months <= 12 + u32::MAX,
            start.year <= year,
            12 * (year - start.year) + months == start.month() + n,
            start.year + n / 12 + 1 <= i32::MAX,
        decreases months,
    {
        year = year + 1;
        months = months - 12;
    }
    let month: u32 = months as u32;
    if days > days_per_month(year, month) {
        days = days_per_month(year, month);
    }
    date.year = year;
    date.index = year_index(year, month, days);
}

/// Moves `date` back by `n` months, keeping the day of the month where the
/// month reached has it and taking that month's last day where it has not.
/// The year reached has to fit the year's integer type.
pub fn remove_n_months(date: &mut Date, n: u32)
    requires
        old(date)@.is_calendar_day(),
        old(date)@.year - n / 12 - 1 >= i32::MIN,
    ensures
        final(date)@ == old(date)@.plus_months(-(n as int)),
        final(date)@.is_calendar_day(),
{
    let ghost start: DateView = date@;
    proof {
        lemma_plus_months(start, -(n as int));
    }
    let standard: (u32, u32) = standarized_months_day(date);
    let mut months: i64 = standard.0 as i64 - n as i64;
    let mut days: u32 = standard.1;
    let mut year: i32 = date.year;
    while months < 1
        invariant
            -(u32::MAX as int) <= months <= 12,
            year <= start.year,
            12 * (year - start.year) + months == start.month() - n,
            start.year - n / 12 - 1 >= i32::MIN,
        decreases 12 - months,
    {
        year = year - 1;
        months = months + 12;
    }
    let month: u32 = months as u32;
    if days > days_per_month(year, month) {
        days = days_per_month(year, month);
    }
    date.year = year;
    date.index = year_index(year, month, days);
}

/// Moves `date` forward by `n` years, keeping its position within the year
/// where the year reached has it and taking that year's last day where it has
/// not. The year reached has to fit the year's integer type.
pub fn add_n_years(date: &mut Date, n: u32)
    requires
        old(date)@.year + n <= i32::MAX,
    ensures
        final(date)@ == old(date)@.plus_years(n as int),
        old(date)@.is_calendar_day() ==> final(date)@.is_calendar_day(),
{
    let year: i64 = date.year as i64 + n as i64;
    date.year = year as i32;
    if date.index > days_per_year(date.year) {
        date.index = days_per_year(date.year);
    }
}

/// Moves `date` back by `n` years, keeping its position within the year where
/// the year reached has it and taking that year's last day where it has not.
/// The year reached has to fit the year's integer type.
pub fn remove_n_years(date: &mut Date, n: u32)
    requires
        old(date)@.year - n >= i32::MIN,
    ensures
        final(date)@ == old(date)@.plus_years(-(n as int)),
        old(date)@.is_calendar_day() ==> final(date)@.is_calendar_day(),
{
    let year: i64 = date.year as i64 - n as i64;
    date.year = year as i32;
    if date.index > days_per_year(date.year) {
        date.index = days_per_year(date.year);
    }
}

/// The epoch that days are counted from: day 1 of year 1.
pub fn reference_date() -> (epoch: Date)
    ensures
        epoch@ == (DateView { year: 1, index: 1 }),
{
    Date { year: 1, index: 1 }
}

/// The signed number of days from the epoch to `date`.
pub fn date_index(date: &Date) -> (days: i64)
    requires
        date@.is_calendar_day(),
    ensures
        days == date@.day_number(),
{
    let reference: Date = reference_date();
    let mut sum: i64 = 0;
    let mut year: i32 = if date.year > 0 {
        reference.year
    } else {
        date.year
    };
    let last: i32 = if date.year > 0 {
        date.year
    } else {
        reference.year
    };
    while year < last
        invariant
            year <= last,
            date@.year > 0 ==> 1 <= year && last == date@.year && sum == days_before_year(
                year as int,
            ),
            date@.year <= 0 ==> last == 1 && sum == days_before_year(year as int)
                - days_before_year(date@.year),
            0 <= sum <= 366 * (year - i32::MIN),
        decreases last - year,
    {
        proof {
            lemma_days_before_next_year(year as int);
        }
        sum = sum + days_per_year(year) as i64;
        year = year + 1;
    }
    let offset: i64 = (date.index - reference.index) as i64;
    if is_date_before(date, &reference) {
        -(sum - offset)
    } else {
        sum + offset
    }
}

/// Whether `date1` comes before `date2` in the calendar.
pub fn is_date_before(date1: &Date, date2: &Date) -> (before: bool)
    ensures
        before == date1@.is_before(date2@),
{
    if date1.year < date2.year {
        true
    } else if date1.year > date2.year {
        false
    } else {
        date1.index < date2.index
    }
}

/// Turns a day of the week counted from Sunday as 0 into one counted from
/// Monday as 0, so that Sunday becomes 6.
pub fn gauss_algorithm_weekday_normalizer(weekday: u8) -> (normal: u8)
    requires
        weekday < 7,
    ensures
        normal == monday_based(weekday as int),
        normal < 7,
{
    match weekday {
        0 => 6,
        1 => 0,
        2 => 1,
        3 => 2,
        4 => 3,
        5 => 4,
        _ => 5,
    }
}

/// The day of the week of `date` by Gauss's congruence, from Monday as 0 to
/// Sunday as 6. The congruence is defined for the years from year 1 on; a
/// date before them is `NotRepresentable`.
pub fn gauss_algorithm(date: &Date) -> (r: Result<u8, DateError>)
    requires
        date@.is_calendar_day(),
    ensures
        r is Ok <==> date@.year > 0,
        match r {
            Ok(weekday) => {
                &&& weekday == date@.weekday()
                &&& weekday == date@.day_number() % 7
                &&& weekday < 7
            },
            Err(e) => e == DateError::NotRepresentable,
        },
{
    if date.year <= 0 {
        return Err(DateError::NotRepresentable);
    }
    let month_day: (u32, u32) = standarized_months_day(date);
    let index: usize = (month_day.0 - 1) as usize;
    let offset: i32 = if is_year_leap(date.year) {
        MONTH_OFFSET_LEAP[index]
    } else {
        MONTH_OFFSET[index]
    };
    assert(offset == gauss_month_offset(date@.year, date@.month()));
    let years: i32 = date.year - 1;
    let d: i32 = (month_day.1 as i32 + offset + 5 * (years % 4) + 4 * (years % 100) + 6 * (years
        % 400)) % 7;
    assert(d == gauss_weekday(date@.year, date@.month(), date@.day()));
    proof {
        lemma_weekday_of_day_number(date@);
    }
    Ok(gauss_algorithm_weekday_normalizer(d as u8))
}

} // verus!
