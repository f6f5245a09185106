//! What holds of the date operations for every date, proved over the values
//! that their contracts speak of.

use crate::calendar::{day_number, historical, is_leap, is_month_day, normalized};
use crate::lemmas::{
    lemma_day_number_order, lemma_index_of_month_day, lemma_month_day_of_index,
    lemma_on_own_day_number, lemma_plus_days,
};
use crate::model::DateView;
use vstd::prelude::*;

verus! {

/// Converting between historical and continuous years and back changes
/// nothing: the two numberings differ only in that the historical one has no
/// year 0.
pub proof fn lemma_year_numbering_round_trip(year: int)
    ensures
        normalized(historical(year)) == year,
        historical(year) != 0,
        year != 0 ==> historical(normalized(year)) == year,
{
}

/// A month and a day, turned into the position within the year and back, come
/// out unchanged.
pub proof fn lemma_month_day_round_trip(year: int, month: int, day: int)
    requires
        is_month_day(year, month, day),
    ensures
        DateView::of(year, month, day).is_calendar_day(),
        DateView::of(year, month, day).month() == month,
        DateView::of(year, month, day).day() == day,
{
    lemma_index_of_month_day(year, month, day);
}

/// A calendar day, turned into its month and day and back, comes out
/// unchanged.
pub proof fn lemma_index_round_trip(v: DateView)
    requires
        v.is_calendar_day(),
    ensures
        is_month_day(v.year, v.month(), v.day()),
        DateView::of(v.year, v.month(), v.day()) == v,
{
    lemma_month_day_of_index(v.year, v.index);
}

/// The day number is 0 at the epoch, and it orders the calendar days as the
/// calendar does, across the first year as anywhere else.
pub proof fn lemma_day_number_is_calendar_order(a: DateView, b: DateView)
    requires
        a.is_calendar_day(),
        b.is_calendar_day(),
    ensures
        day_number(1, 1) == 0,
        a.is_before(b) <==> a.day_number() < b.day_number(),
        a == b <==> a.day_number() == b.day_number(),
{
    lemma_day_number_order(a, b);
}

/// The day `n` days away is the calendar day whose day number is `n` more; no
/// other day is.
pub proof fn lemma_plus_days_is(v: DateView, n: int, w: DateView)
    requires
        v.is_calendar_day(),
        w.is_calendar_day(),
    ensures
        v.plus_days(n) == w <==> w.day_number() == v.day_number() + n,
{
    lemma_plus_days(v, n);
    lemma_day_number_order(v.plus_days(n), w);
}

/// Moving by some days and then by some more is moving by the sum.
pub proof fn lemma_plus_days_adds_up(v: DateView, m: int, n: int)
    requires
        v.is_calendar_day(),
    ensures
        v.plus_days(m).plus_days(n) == v.plus_days(m + n),
        v.plus_days(0) == v,
{
    lemma_plus_days(v, m);
    lemma_on_own_day_number(v);
}

/// Adding a number of days and then removing as many gives back the day that
/// one started from, and so does removing first and adding after. The day in
/// between is a calendar day, so where it lies in the supported range both
/// steps are accepted.
pub proof fn lemma_add_then_remove_days(v: DateView, n: int)
    requires
        v.is_calendar_day(),
    ensures
        v.plus_days(n).is_calendar_day(),
        v.plus_days(n).plus_days(-n) == v,
        v.plus_days(-n).is_calendar_day(),
        v.plus_days(-n).plus_days(n) == v,
{
    lemma_plus_days(v, n);
    lemma_plus_days(v, -n);
    lemma_plus_days_adds_up(v, n, -n);
    lemma_plus_days_adds_up(v, -n, n);
}

/// The distance from a day to itself is 0, and the distance back is the
/// distance forth negated.
pub proof fn lemma_days_until_antisymmetric(a: DateView, b: DateView)
    ensures
        a.days_until(a) == 0,
        a.days_until(b) == -b.days_until(a),
{
}

/// The distance to a day grows by one with each day that the day advances; so
/// the distance to the day `n` days after `b` is `n` more than that to `b`.
pub proof fn lemma_days_until_advances(a: DateView, b: DateView, n: int)
    requires
        b.is_calendar_day(),
    ensures
        a.days_until(b.plus_days(1)) == a.days_until(b) + 1,
        a.days_until(b.plus_days(n)) == a.days_until(b) + n,
        b.days_until(b.plus_days(n)) == n,
{
    lemma_plus_days(b, 1);
    lemma_plus_days(b, n);
}

/// The distance between two calendar days is positive exactly when the second
/// is the later one, and 0 only from a day to itself.
pub proof fn lemma_days_until_sign(a: DateView, b: DateView)
    requires
        a.is_calendar_day(),
        b.is_calendar_day(),
    ensures
        a.days_until(b) > 0 <==> a.is_before(b),
        a.days_until(b) == 0 <==> a == b,
{
    lemma_day_number_order(a, b);
}

/// Moving by whole years keeps the position within the year. The one
/// exception is the last day of a leap year moved into a common year, which
/// becomes the last day of that year, the 31st of December. The 29th of
/// February is no exception: in a common year its position is that of the
/// 1st of March.
pub proof fn lemma_plus_years_keeps_index(v: DateView, n: int)
    requires
        v.is_calendar_day(),
    ensures
        v.plus_years(n).is_calendar_day(),
        v.plus_years(n).year == v.year + n,
        v.index <= 365 || is_leap(v.year + n) ==> v.plus_years(n).index == v.index,
        v.index == 366 && !is_leap(v.year + n) ==> {
            &&& v.plus_years(n).index == 365
            &&& v.plus_years(n).month() == 12
            &&& v.plus_years(n).day() == 31
        },
        v.month() == 2 && v.day() == 29 && !is_leap(v.year + n) ==> {
            &&& v.plus_years(n).month() == 3
            &&& v.plus_years(n).day() == 1
        },
{
    let w: DateView = v.plus_years(n);
    lemma_month_day_of_index(v.year, v.index);
    lemma_index_of_month_day(w.year, 12, 31);
    lemma_index_of_month_day(w.year, 3, 1);
}

} // verus!
