//! The mathematical value that a [`crate::Date`] stands for, and the
//! arithmetic of dates stated on that value.

use crate::calendar::{
    day_number, day_of_index, day_of_year, days_in_month, days_in_year, gauss_weekday,
    monday_based, month_of_index, MAX_YEAR, MIN_YEAR,
};
use vstd::prelude::*;

verus! {

/// A day given by a continuous year and the 1-based position of the day within
/// that year.
pub struct DateView {
    pub year: int,
    pub index: int,
}

impl DateView {
    /// The day exists: its position lies within the length of its year.
    pub open spec fn is_calendar_day(self) -> bool {
        1 <= self.index <= days_in_year(self.year)
    }

    /// The year lies in the supported range.
    pub open spec fn within_limits(self) -> bool {
        MIN_YEAR <= self.year <= MAX_YEAR
    }

    /// The day number of the first day of the supported range.
    pub open spec fn first_day_number() -> int {
        day_number(MIN_YEAR as int, 1)
    }

    /// The day number of the last day of the supported range.
    pub open spec fn last_day_number() -> int {
        day_number(MAX_YEAR as int, days_in_year(MAX_YEAR as int))
    }

    /// The day exists and lies in the supported range. Every date that the
    /// checked operations hand out satisfies this.
    pub open spec fn wf(self) -> bool {
        self.is_calendar_day() && self.within_limits()
    }

    /// The day `month`/`day` of the continuous year `year`.
    pub open spec fn of(year: int, month: int, day: int) -> DateView {
        DateView { year, index: day_of_year(year, month, day) }
    }

    /// The month that the day falls in.
    pub open spec fn month(self) -> int {
        month_of_index(self.year, self.index)
    }

    /// The day of the month.
    pub open spec fn day(self) -> int {
        day_of_index(self.year, self.index)
    }

    /// The signed number of days from the epoch to this day.
    pub open spec fn day_number(self) -> int {
        day_number(self.year, self.index)
    }

    /// The day reached by moving `years` years, then `months` months from
    /// there, then `days` days from there.
    pub open spec fn plus(self, years: int, months: int, days: int) -> DateView {
        self.plus_years(years).plus_months(months).plus_days(days)
    }

    /// The number of days from this day to `other`, negative when `other`
    /// comes first.
    pub open spec fn days_until(self, other: DateView) -> int {
        other.day_number() - self.day_number()
    }

    /// The day of the week by Gauss's congruence, counted from Monday as 0 to
    /// Sunday as 6.
    pub open spec fn weekday(self) -> int {
        monday_based(gauss_weekday(self.year, self.month(), self.day()))
    }

    /// Calendar order: an earlier year, or the same year and an earlier day.
    pub open spec fn is_before(self, other: DateView) -> bool {
        self.year < other.year || (self.year == other.year && self.index < other.index)
    }

    /// The calendar day whose day number is `n`. Every 400 years hold 146097
    /// days; within them a century holds 36524 days, but for the last, which
    /// holds one more; within a century four years hold 1461 days, but for
    /// the last four, which may hold one less; and within four years a year
    /// holds 365 days, but for the last, which may hold one more.
    pub open spec fn on_day_number(n: int) -> DateView {
        let cycle: int = n / 146097;
        let in_cycle: int = n % 146097;
        let century: int = if in_cycle / 36524 < 3 {
            in_cycle / 36524
        } else {
            3
        };
        let in_century: int = in_cycle - 36524 * century;
        let block: int = in_century / 1461;
        let in_block: int = in_century - 1461 * block;
        let nth: int = if in_block / 365 < 3 {
            in_block / 365
        } else {
            3
        };
        DateView {
            year: 1 + 400 * cycle + 100 * century + 4 * block + nth,
            index: in_block - 365 * nth + 1,
        }
    }

    /// The day `n` days after this one; before it when `n` is negative.
    pub open spec fn plus_days(self, n: int) -> DateView {
        Self::on_day_number(self.day_number() + n)
    }

    /// The same day of the month `n` months later; earlier when `n` is
    /// negative. Where the month reached is too short to have that day, the
    /// result is the last day of that month.
    pub open spec fn plus_months(self, n: int) -> DateView {
        let months: int = self.month() - 1 + n;
        let year: int = self.year + months / 12;
        let month: int = months % 12 + 1;
        let day: int = if self.day() <= days_in_month(year, month) {
            self.day()
        } else {
            days_in_month(year, month)
        };
        Self::of(year, month, day)
    }

    /// The same position within the year `n` years later; earlier when `n` is
    /// negative. Where the year reached is too short to have that position,
    /// the result is the last day of that year.
    pub open spec fn plus_years(self, n: int) -> DateView {
        let year: int = self.year + n;
        let index: int = if self.index <= days_in_year(year) {
            self.index
        } else {
            days_in_year(year)
        };
        DateView { year, index }
    }
}

} // verus!
