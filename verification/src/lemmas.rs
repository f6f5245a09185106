//! Facts about the calendar functions that the proofs of the engine rest on.

use crate::calendar::{
    day_number, day_of_index, day_of_year, days_before_month, days_before_year, days_in_month,
    days_in_year, gauss_month_offset, is_month_day, month_of_index, MAX_YEAR, MIN_YEAR,
};
use crate::model::DateView;
use vstd::prelude::*;

verus! {

/// The days before a month are the lengths of the months before it added
/// up: none before the first month, each month's length more before the next,
/// and with the last month's length the whole year.
pub proof fn lemma_days_before_month(year: int, month: int)
    requires
        1 <= month <= 12,
    ensures
        days_before_month(year, 1) == 0,
        month < 12 ==> days_before_month(year, month + 1) == days_before_month(year, month)
            + days_in_month(year, month),
        days_before_month(year, 12) + days_in_month(year, 12) == days_in_year(year),
        0 <= days_before_month(year, month) <= days_in_year(year) - days_in_month(year, month),
{
}

/// The month and day of a position within the year name a day of that year,
/// and that day has this position.
pub proof fn lemma_month_day_of_index(year: int, index: int)
    requires
        1 <= index <= days_in_year(year),
    ensures
        is_month_day(year, month_of_index(year, index), day_of_index(year, index)),
        day_of_year(year, month_of_index(year, index), day_of_index(year, index)) == index,
{
}

/// Only one month and day of a year have a given position.
pub proof fn lemma_index_of_month_day(year: int, month: int, day: int)
    requires
        is_month_day(year, month, day),
    ensures
        1 <= day_of_year(year, month, day) <= days_in_year(year),
        month_of_index(year, day_of_year(year, month, day)) == month,
        day_of_index(year, day_of_year(year, month, day)) == day,
{
}

/// The days before a year are the lengths of the years since year 1 added
/// up: none before year 1, and each year's length more before the next.
pub proof fn lemma_days_before_next_year(year: int)
    ensures
        days_before_year(1) == 0,
        days_before_year(year + 1) == days_before_year(year) + days_in_year(year),
{
    let by_4: int = if year % 4 == 0 {
        1
    } else {
        0
    };
    let by_100: int = if year % 100 == 0 {
        1
    } else {
        0
    };
    let by_400: int = if year % 400 == 0 {
        1
    } else {
        0
    };
    assert(year / 4 == (year - 1) / 4 + by_4);
    assert(year / 100 == (year - 1) / 100 + by_100);
    assert(year / 400 == (year - 1) / 400 + by_400);
    assert(year % 400 == 0 ==> year % 100 == 0);
    assert(year % 100 == 0 ==> year % 4 == 0);
    assert(days_in_year(year) == 365 + by_4 - by_100 + by_400);
}

/// Between two years lie at least 365 days for each year of the span.
pub proof fn lemma_days_before_year_grows(from: int, to: int)
    requires
        from <= to,
    ensures
        days_before_year(to) - days_before_year(from) >= 365 * (to - from),
        days_before_year(to) - days_before_year(from) <= 366 * (to - from),
    decreases to - from,
{
    if from < to {
        lemma_days_before_year_grows(from, to - 1);
        lemma_days_before_next_year(to - 1);
    }
}

/// A day number is at most 366 days per year away from the epoch.
pub proof fn lemma_day_number_bounds(v: DateView)
    requires
        v.is_calendar_day(),
    ensures
        v.year >= 1 ==> 365 * (v.year - 1) <= v.day_number() < 366 * v.year,
        v.year <= 1 ==> 366 * (v.year - 1) <= v.day_number() < 365 * v.year + 1,
{
    if v.year >= 1 {
        lemma_days_before_year_grows(1, v.year);
    } else {
        lemma_days_before_year_grows(v.year, 1);
    }
}

/// The day number follows calendar order: of two calendar days the earlier one
/// has the smaller day number, and equal day numbers mean the same day.
pub proof fn lemma_day_number_order(a: DateView, b: DateView)
    requires
        a.is_calendar_day(),
        b.is_calendar_day(),
    ensures
        a.is_before(b) <==> a.day_number() < b.day_number(),
        a == b <==> a.day_number() == b.day_number(),
{
    if a.year < b.year {
        lemma_days_before_year_grows(a.year + 1, b.year);
        lemma_days_before_next_year(a.year);
    } else if b.year < a.year {
        lemma_days_before_year_grows(b.year + 1, a.year);
        lemma_days_before_next_year(b.year);
    }
}

/// A calendar day lies in the supported range exactly when its day number
/// lies between those of the first and the last day of that range.
pub proof fn lemma_limits_by_day_number(v: DateView)
    requires
        v.is_calendar_day(),
    ensures
        v.year <= MAX_YEAR <==> v.day_number() <= DateView::last_day_number(),
        v.year >= MIN_YEAR <==> v.day_number() >= DateView::first_day_number(),
        v.within_limits() <==> DateView::first_day_number() <= v.day_number()
            <= DateView::last_day_number(),
{
    let first: DateView = DateView { year: MIN_YEAR as int, index: 1 };
    let last: DateView = DateView {
        year: MAX_YEAR as int,
        index: days_in_year(MAX_YEAR as int),
    };
    lemma_day_number_order(v, first);
    lemma_day_number_order(v, last);
}

/// Where a position, counted from the first day of `year`, has the day number
/// of the calendar day `v`: a position from 1 on lies in the year of `v` or
/// before it, one up to the length of `year` in that year or after it.
pub proof fn lemma_year_of_day_number(v: DateView, year: int, index: int)
    requires
        v.is_calendar_day(),
        day_number(year, index) == v.day_number(),
    ensures
        index >= 1 ==> year <= v.year,
        index > days_in_year(year) ==> year < v.year,
        index <= days_in_year(year) ==> year >= v.year,
        index < 1 ==> year > v.year,
{
    if year < v.year {
        lemma_days_before_year_grows(year + 1, v.year);
        lemma_days_before_next_year(year);
    } else if v.year < year {
        lemma_days_before_year_grows(v.year + 1, year);
        lemma_days_before_next_year(v.year);
    }
}

/// `on_day_number(n)` is a calendar day and has the day number `n`.
pub proof fn lemma_on_day_number(n: int)
    ensures
        DateView::on_day_number(n).is_calendar_day(),
        DateView::on_day_number(n).day_number() == n,
{
    let cycle: int = n / 146097;
    let in_cycle: int = n % 146097;
    let century: int = if in_cycle / 36524 < 3 {
        in_cycle / 36524
    } else {
        3
    };
    let in_century: int = in_cycle - 36524 * century;
    let block: int = in_century / 1461;
    let in_block: int = in_century - 1461 * block;
    let nth: int = if in_block / 365 < 3 {
        in_block / 365
    } else {
        3
    };
    let before: int = 400 * cycle + 100 * century + 4 * block + nth;
    assert(0 <= block <= 24);
    assert(0 <= in_block <= 1460);
    assert(before / 400 == cycle);
    assert(before / 100 == 4 * cycle + century);
    assert(before / 4 == 100 * cycle + 25 * century + block);
    assert(days_before_year(before + 1) == 146097 * cycle + 36524 * century + 1461 * block + 365
        * nth);
    if in_block == 1460 {
        assert(nth == 3);
        assert((before + 1) % 4 == 0);
        if block == 24 {
            assert(century == 3);
            assert(before + 1 == 400 * (cycle + 1));
            assert((before + 1) % 400 == 0);
        } else {
            assert(before + 1 == 100 * (4 * cycle + century) + 4 * (block + 1));
            assert((before + 1) % 100 != 0);
        }
    }
}

/// A calendar day is the day on its own day number.
pub proof fn lemma_on_own_day_number(v: DateView)
    requires
        v.is_calendar_day(),
    ensures
        DateView::on_day_number(v.day_number()) == v,
{
    lemma_on_day_number(v.day_number());
    lemma_day_number_order(v, DateView::on_day_number(v.day_number()));
}

/// The day `n` days away is a calendar day whose day number differs by `n`;
/// its year lies on the side that `n` points to, no further away than years
/// of 365 days would reach and no nearer than years of 366 days would.
pub proof fn lemma_plus_days(v: DateView, n: int)
    requires
        v.is_calendar_day(),
    ensures
        v.plus_days(n).is_calendar_day(),
        v.plus_days(n).day_number() == v.day_number() + n,
        n >= 0 ==> v.year <= v.plus_days(n).year <= v.year + (v.index + n - 1) / 365,
        n >= 0 ==> 366 * (v.plus_days(n).year - v.year) >= n + v.index - 366,
        n <= 0 ==> v.year + (n - 365) / 365 <= v.plus_days(n).year <= v.year,
        n <= 0 ==> 366 * (v.year - v.plus_days(n).year) >= 1 - n - v.index,
{
    let w: DateView = v.plus_days(n);
    lemma_on_day_number(v.day_number() + n);
    lemma_day_number_order(v, w);
    if v.year <= w.year {
        lemma_days_before_year_grows(v.year, w.year);
    } else {
        lemma_days_before_year_grows(w.year, v.year);
    }
}

/// The day some months away is a calendar day in the month that the count
/// reaches; its year lies a twelfth of the count away, or one more.
pub proof fn lemma_plus_months(v: DateView, n: int)
    requires
        v.is_calendar_day(),
    ensures
        v.plus_months(n).is_calendar_day(),
        v.plus_months(n).year == v.year + (v.month() - 1 + n) / 12,
        n >= 0 ==> v.year + n / 12 <= v.plus_months(n).year <= v.year + n / 12 + 1,
        n <= 0 ==> v.year + n / 12 <= v.plus_months(n).year <= v.year,
        v.plus_months(n).month() == (v.month() - 1 + n) % 12 + 1,
        v.plus_months(n).day() == if v.day() <= days_in_month(
            v.plus_months(n).year,
            v.plus_months(n).month(),
        ) {
            v.day()
        } else {
            days_in_month(v.plus_months(n).year, v.plus_months(n).month())
        },
{
    lemma_month_day_of_index(v.year, v.index);
    let months: int = v.month() - 1 + n;
    let year: int = v.year + months / 12;
    let month: int = months % 12 + 1;
    let day: int = if v.day() <= days_in_month(year, month) {
        v.day()
    } else {
        days_in_month(year, month)
    };
    lemma_index_of_month_day(year, month, day);
}

/// Gauss's offset of a month leaves the same remainder modulo 7 as the number
/// of days before that month.
pub proof fn lemma_gauss_month_offset(year: int, month: int)
    requires
        1 <= month <= 12,
    ensures
        0 <= gauss_month_offset(year, month) < 7,
        gauss_month_offset(year, month) == days_before_month(year, month) % 7,
{
}

/// The year's part of Gauss's congruence leaves the same remainder modulo 7
/// as the number of days before the year.
pub proof fn lemma_gauss_year_term(year: int)
    ensures
        (5 * ((year - 1) % 4) + 4 * ((year - 1) % 100) + 6 * ((year - 1) % 400)) % 7
            == days_before_year(year) % 7,
{
    let n: int = year - 1;
    let term: int = 5 * (n % 4) + 4 * (n % 100) + 6 * (n % 400);
    assert(term - days_before_year(year) == 7 * (-50 * n - 3 * (n / 4) - 57 * (n / 100) - 343 * (n
        / 400)));
}

/// Remainders modulo 7 add up: where `offset` stands for `before` and `term`
/// for `start`, the sum with `offset` and `term`, moved back by one day of
/// the week, leaves the remainder of the sum with `before` and `start` less
/// one.
proof fn lemma_weekday_sum(day: int, offset: int, before: int, term: int, start: int)
    requires
        offset == before % 7,
        term % 7 == start % 7,
    ensures
        ((day + offset + term) % 7 + 6) % 7 == (start + before + day - 1) % 7,
{
    let a: int = before / 7;
    let b: int = term / 7;
    let c: int = start / 7;
    let r: int = term % 7;
    assert(before == 7 * a + offset);
    assert(term == 7 * b + r);
    assert(start == 7 * c + r);
    let x: int = day + offset + r;
    assert(day + offset + term == x + 7 * b);
    assert((x + 7 * b) % 7 == x % 7);
    assert(start + before + day - 1 == x - 1 + 7 * (a + c));
    assert((x - 1 + 7 * (a + c)) % 7 == (x - 1) % 7);
    assert((x % 7 + 6) % 7 == (x - 1) % 7);
}

/// Gauss's congruence agrees with the day number: the epoch is a Monday, so
/// the day of the week counted from Monday is the day number modulo 7.
pub proof fn lemma_weekday_of_day_number(v: DateView)
    requires
        v.is_calendar_day(),
    ensures
        0 <= v.weekday() < 7,
        v.weekday() == v.day_number() % 7,
{
    lemma_month_day_of_index(v.year, v.index);
    lemma_gauss_month_offset(v.year, v.month());
    lemma_gauss_year_term(v.year);
    let n: int = v.year - 1;
    let term: int = 5 * (n % 4) + 4 * (n % 100) + 6 * (n % 400);
    lemma_weekday_sum(
        v.day(),
        gauss_month_offset(v.year, v.month()),
        days_before_month(v.year, v.month()),
        term,
        days_before_year(v.year),
    );
}

} // verus!
