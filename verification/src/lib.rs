//! Dates of the proleptic Gregorian calendar: validated construction from a
//! historical year, a month and a day; addition and removal of days, weeks,
//! months and years; the signed distance between two dates in days; and the
//! day of the week.
//!
//! Historical years have no year 0: the year before year 1 is year -1. A
//! [`Date`] holds the continuous year instead, in which that year is year 0,
//! and every rule and every contract below the constructor speaks of
//! continuous years.
//!
//! - [`calendar`] states the calendar as mathematics.
//! - [`model`] is the value that a date stands for, with the arithmetic of
//!   dates stated on it.
//! - [`implementation`] is the engine: rules, conversions and unchecked
//!   arithmetic, each proved against the two above.
//! - [`lemmas`] and [`laws`] hold what is proved of the calendar functions
//!   and of the date operations.
//! - [`text`] writes dates and errors out.

use vstd::prelude::*;

pub mod calendar;
pub mod implementation;
pub mod laws;
pub mod lemmas;
pub mod model;
pub mod text;

use crate::calendar::{
    is_leap, is_raw_date, normalized, MAX_HISTORICAL_YEAR, MIN_HISTORICAL_YEAR, YEAR_SPAN,
};
use crate::implementation::{
    add_n_days, add_n_months, add_n_years, date_index, is_year_leap, normalize_year,
    remove_n_days, remove_n_months, remove_n_years, standarize_year, standarized_months_day,
    validate, validate_raw, year_index,
};
use crate::lemmas::{
    lemma_day_number_bounds, lemma_index_of_month_day, lemma_limits_by_day_number,
    lemma_plus_days, lemma_plus_months,
};
use crate::model::DateView;
use crate::text::{append_signed_decimal, append_zero_padded, date_text, error_text};
use vstd::string::StringExecFns;

verus! {

/// Why a date could not be built or changed.
#[derive(Clone, Copy, Debug, PartialEq, Eq, Structural)]
pub enum DateError {
    /// The year is 0, or the month or the day does not exist in that year.
    InvalidNewInput,
    /// The year lies outside the supported range.
    OutOfLimits,
    /// The day's position exceeds the length of its year.
    InternalError,
    /// The day of the week was asked of a date before year 1.
    NotRepresentable,
}

/// A day of the proleptic Gregorian calendar, held as a continuous year and
/// the position of the day within that year.
#[derive(Clone, Copy, Debug, PartialEq, Eq, Structural)]
pub struct Date {
    year: i32,
    index: u32,
}

impl View for Date {
    type V = DateView;

    open(crate) spec fn view(&self) -> DateView {
        DateView { year: self.year as int, index: self.index as int }
    }
}

impl DateError {
    /// What the error says of itself.
    pub fn message(&self) -> (text: &'static str)
        ensures
            text@ == error_text(*self),
    {
        match self {
            DateError::InvalidNewInput => "Invalid input introducing values to NEW",
            DateError::OutOfLimits => "the date is outside of the limits (-9999 - 9999) years",
            DateError::InternalError => "internal error, found a weird number in index",
            DateError::NotRepresentable => "the day of the week is not defined before the year 1",
        }
    }
}

impl Date {
    /// Builds the date of the historical year `year`, the month `month` and
    /// the day `day`. A year outside the supported range is `OutOfLimits`; a
    /// year 0, or a month or day that does not exist, is `InvalidNewInput`.
    pub fn new(year: i32, month: u32, day: u32) -> (r: Result<Date, DateError>)
        ensures
            r is Ok <==> is_raw_date(year as int, month as int, day as int),
            match r {
                Ok(date) => {
                    &&& date@ == DateView::of(normalized(year as int), month as int, day as int)
                    &&& date@.wf()
                    &&& date@.month() == month
                    &&& date@.day() == day
                },
                Err(e) => e == if MIN_HISTORICAL_YEAR <= year <= MAX_HISTORICAL_YEAR {
                    DateError::InvalidNewInput
                } else {
                    DateError::OutOfLimits
                },
            },
    {
        validate_raw(year, month, day)?;
        let year: i32 = normalize_year(year);
        proof {
            lemma_index_of_month_day(year as int, month as int, day as int);
        }
        let x = Date { year, index: year_index(year, month, day) };
        Ok(x)
    }

    /// Moves the date forward by `days` days, unless that leaves the
    /// supported range.
    pub fn add_days(&mut self, days: u32) -> (r: Result<&mut Self, DateError>)
        requires
            old(self)@.wf(),
        ensures
            r is Ok <==> old(self)@.plus_days(days as int).within_limits(),
            r is Ok <==> old(self)@.day_number() + days <= DateView::last_day_number(),
            match r {
                Ok(date) => {
                    &&& date@ == old(self)@.plus_days(days as int)
                    &&& date@.day_number() == old(self)@.day_number() + days
                    &&& date@.wf()
                    &&& *final(self) == *final(date)
                },
                Err(e) => e == DateError::OutOfLimits && *final(self) == *old(self),
            },
    {
        let mut aux = *self;
        proof {
            lemma_plus_days(aux@, days as int);
            lemma_limits_by_day_number(aux@.plus_days(days as int));
        }
        add_n_days(&mut aux, days);
        validate(&aux)?;
        *self = aux;
        Ok(self)
    }

    /// Moves the date forward by `weeks` weeks, unless that leaves the
    /// supported range.
    pub fn add_weeks(&mut self, weeks: u32) -> (r: Result<&mut Self, DateError>)
        requires
            old(self)@.wf(),
        ensures
            r is Ok <==> old(self)@.plus_days(7 * weeks).within_limits(),
            r is Ok <==> old(self)@.day_number() + 7 * weeks <= DateView::last_day_number(),
            match r {
                Ok(date) => {
                    &&& date@ == old(self)@.plus_days(7 * weeks)
                    &&& date@.day_number() == old(self)@.day_number() + 7 * weeks
                    &&& date@.wf()
                    &&& *final(self) == *final(date)
                },
                Err(e) => e == DateError::OutOfLimits && *final(self) == *old(self),
            },
    {
        let mut aux = *self;
        proof {
            lemma_plus_days(aux@, 7 * weeks);
            lemma_limits_by_day_number(aux@.plus_days(7 * weeks));
        }
        // More days than `u32` holds lead far out of the supported range.
        let days: u32 = match weeks.checked_mul(7) {
            Some(days) => days,
            None => {
                return Err(DateError::OutOfLimits);
            },
        };
        add_n_days(&mut aux, days);
        validate(&aux)?;
        *self = aux;
        Ok(self)
    }

    /// Moves the date forward by `months` months, unless that leaves the
    /// supported range. A day that the month reached does not have becomes
    /// that month's last day.
    pub fn add_months(&mut self, months: u32) -> (r: Result<&mut Self, DateError>)
        requires
            old(self)@.wf(),
        ensures
            r is Ok <==> old(self)@.plus_months(months as int).within_limits(),
            match r {
                Ok(date) => {
                    &&& date@ == old(self)@.plus_months(months as int)
                    &&& date@.wf()
                    &&& *final(self) == *final(date)
                },
                Err(e) => e == DateError::OutOfLimits && *final(self) == *old(self),
            },
    {
        let mut aux = *self;
        proof {
            lemma_plus_months(aux@, months as int);
        }
        add_n_months(&mut aux, months);
        validate(&aux)?;
        *self = aux;
        Ok(self)
    }

    /// Moves the date forward by `years` years, unless that leaves the
    /// supported range. The position within the year is kept; one that the
    /// year reached does not have becomes that year's last day.
    pub fn add_years(&mut self, years: u32) -> (r: Result<&mut Self, DateError>)
        requires
            old(self)@.wf(),
        ensures
            r is Ok <==> old(self)@.plus_years(years as int).within_limits(),
            match r {
                Ok(date) => {
                    &&& date@ == old(self)@.plus_years(years as int)
                    &&& date@.wf()
                    &&& *final(self) == *final(date)
                },
                Err(e) => e == DateError::OutOfLimits && *final(self) == *old(self),
            },
    {
        let mut aux = *self;
        // More years than the supported range spans lead out of it.
        if years > YEAR_SPAN {
            return Err(DateError::OutOfLimits);
        }
        add_n_years(&mut aux, years);
        validate(&aux)?;
        *self = aux;
        Ok(self)
    }

    /// Moves the date back by `days` days, unless that leaves the supported
    /// range.
    pub fn remove_days(&mut self, days: u32) -> (r: Result<&mut Self, DateError>)
        requires
            old(self)@.wf(),
        ensures
            r is Ok <==> old(self)@.plus_days(-(days as int)).within_limits(),
            r is Ok <==> old(self)@.day_number() - days >= DateView::first_day_number(),
            match r {
                Ok(date) => {
                    &&& date@ == old(self)@.plus_days(-(days as int))
                    &&& date@.day_number() == old(self)@.day_number() - days
                    &&& date@.wf()
                    &&& *final(self) == *final(date)
                },
                Err(e) => e == DateError::OutOfLimits && *final(self) == *old(self),
            },
    {
        let mut aux = *self;
        proof {
            lemma_plus_days(aux@, -(days as int));
            lemma_limits_by_day_number(aux@.plus_days(-(days as int)));
        }
        remove_n_days(&mut aux, days);
        validate(&aux)?;
        *self = aux;
        Ok(self)
    }

    /// Moves the date back by `weeks` weeks, unless that leaves the supported
    /// range.
    pub fn remove_weeks(&mut self, weeks: u32) -> (r: Result<&mut Self, DateError>)
        requires
            old(self)@.wf(),
        ensures
            r is Ok <==> old(self)@.plus_days(-7 * weeks).within_limits(),
            r is Ok <==> old(self)@.day_number() - 7 * weeks >= DateView::first_day_number(),
            match r {
                Ok(date) => {
                    &&& date@ == old(self)@.plus_days(-7 * weeks)
                    &&& date@.day_number() == old(self)@.day_number() - 7 * weeks
                    &&& date@.wf()
                    &&& *final(self) == *final(date)
                },
                Err(e) => e == DateError::OutOfLimits && *final(self) == *old(self),
            },
    {
        let mut aux = *self;
        proof {
            lemma_plus_days(aux@, -7 * weeks);
            lemma_limits_by_day_number(aux@.plus_days(-7 * weeks));
        }
        // More days than `u32` holds lead far out of the supported range.
        let days: u32 = match weeks.checked_mul(7) {
            Some(days) => days,
            None => {
                return Err(DateError::OutOfLimits);
            },
        };
        remove_n_days(&mut aux, days);
        validate(&aux)?;
        *self = aux;
        Ok(self)
    }

    /// Moves the date back by `months` months, unless that leaves the
    /// supported range. A day that the month reached does not have becomes
    /// that month's last day.
    pub fn remove_months(&mut self, months: u32) -> (r: Result<&mut Self, DateError>)
        requires
            old(self)@.wf(),
        ensures
            r is Ok <==> old(self)@.plus_months(-(months as int)).within_limits(),
            match r {
                Ok(date) => {
                    &&& date@ == old(self)@.plus_months(-(months as int))
                    &&& date@.wf()
                    &&& *final(self) == *final(date)
                },
                Err(e) => e == DateError::OutOfLimits && *final(self) == *old(self),
            },
    {
        let mut aux = *self;
        proof {
            lemma_plus_months(aux@, -(months as int));
        }
        remove_n_months(&mut aux, months);
        validate(&aux)?;
        *self = aux;
        Ok(self)
    }

    /// Moves the date back by `years` years, unless that leaves the supported
    /// range. The position within the year is kept; one that the year
    /// reached does not have becomes that year's last day.
    pub fn remove_years(&mut self, years: u32) -> (r: Result<&mut Self, DateError>)
        requires
            old(self)@.wf(),
        ensures
            r is Ok <==> old(self)@.plus_years(-(years as int)).within_limits(),
            match r {
                Ok(date) => {
                    &&& date@ == old(self)@.plus_years(-(years as int))
                    &&& date@.wf()
                    &&& *final(self) == *final(date)
                },
                Err(e) => e == DateError::OutOfLimits && *final(self) == *old(self),
            },
    {
        let mut aux = *self;
        // More years than the supported range spans lead out of it.
        if years > YEAR_SPAN {
            return Err(DateError::OutOfLimits);
        }
        remove_n_years(&mut aux, years);
        validate(&aux)?;
        *self = aux;
        Ok(self)
    }

    /// Moves the date forward by `years` years, then by `months` months, then
    /// by `days` days, each step starting from the result of the one before.
    /// The date changes only if the day reached lies in the supported range.
    pub fn add(&mut self, years: u32, months: u32, days: u32) -> (r: Result<
        &mut Self,
        DateError,
    >)
        requires
            old(self)@.wf(),
        ensures
            r is Ok <==> old(self)@.plus(years as int, months as int, days as int).within_limits(),
            r is Ok <==> old(self)@.plus_years(years as int).plus_months(
                months as int,
            ).day_number() + days <= DateView::last_day_number(),
            match r {
                Ok(date) => {
                    &&& date@ == old(self)@.plus(years as int, months as int, days as int)
                    &&& date@.day_number() == old(self)@.plus_years(years as int).plus_months(
                        months as int,
                    ).day_number() + days
                    &&& date@.wf()
                    &&& *final(self) == *final(date)
                },
                Err(e) => e == DateError::OutOfLimits && *final(self) == *old(self),
            },
    {
        let mut aux = *self;
        proof {
            let in_years: DateView = aux@.plus_years(years as int);
            let in_months: DateView = in_years.plus_months(months as int);
            lemma_plus_months(in_years, months as int);
            lemma_plus_days(in_months, days as int);
            lemma_limits_by_day_number(in_months);
            lemma_limits_by_day_number(in_months.plus_days(days as int));
        }
        // More years than the supported range spans lead out of it, whatever
        // the months and days add.
        if years > YEAR_SPAN {
            return Err(DateError::OutOfLimits);
        }
        add_n_years(&mut aux, years);
        add_n_months(&mut aux, months);
        add_n_days(&mut aux, days);
        validate(&aux)?;
        *self = aux;
        Ok(self)
    }

    /// Moves the date back by `years` years, then by `months` months, then by
    /// `days` days, each step starting from the result of the one before. The
    /// date changes only if the day reached lies in the supported range.
    pub fn subtract(&mut self, years: u32, months: u32, days: u32) -> (r: Result<
        &mut Self,
        DateError,
    >)
        requires
            old(self)@.wf(),
        ensures
            r is Ok <==> old(self)@.plus(
                -(years as int),
                -(months as int),
                -(days as int),
            ).within_limits(),
            r is Ok <==> old(self)@.plus_years(-(years as int)).plus_months(
                -(months as int),
            ).day_number() - days >= DateView::first_day_number(),
            match r {
                Ok(date) => {
                    &&& date@ == old(self)@.plus(
                        -(years as int),
                        -(months as int),
                        -(days as int),
                    )
                    &&& date@.day_number() == old(self)@.plus_years(-(years as int)).plus_months(
                        -(months as int),
                    ).day_number() - days
                    &&& date@.wf()
                    &&& *final(self) == *final(date)
                },
                Err(e) => e == DateError::OutOfLimits && *final(self) == *old(self),
            },
    {
        let mut aux = *self;
        proof {
            let in_years: DateView = aux@.plus_years(-(years as int));
            let in_months: DateView = in_years.plus_months(-(months as int));
            lemma_plus_months(in_years, -(months as int));
            lemma_plus_days(in_months, -(days as int));
            lemma_limits_by_day_number(in_months);
            lemma_limits_by_day_number(in_months.plus_days(-(days as int)));
        }
        // More years than the supported range spans lead out of it, whatever
        // the months and days take away.
        if years > YEAR_SPAN {
            return Err(DateError::OutOfLimits);
        }
        remove_n_years(&mut aux, years);
        remove_n_months(&mut aux, months);
        remove_n_days(&mut aux, days);
        validate(&aux)?;
        *self = aux;
        Ok(self)
    }

    /// The number of days from `date1` to `date2`: positive when `date2` is
    /// the later one, negative when it is the earlier one.
    pub fn days_between(date1: &Date, date2: &Date) -> (days: i64)
        requires
            date1@.is_calendar_day(),
            date2@.is_calendar_day(),
        ensures
            days == date1@.days_until(date2@),
    {
        proof {
            lemma_day_number_bounds(date1@);
            lemma_day_number_bounds(date2@);
        }
        date_index(date2) - date_index(date1)
    }

    /// Whether the year of the date is a leap year.
    pub fn is_leap_year(&self) -> (leap: bool)
        ensures
            leap == is_leap(self@.year),
    {
        is_year_leap(self.year)
    }

    /// The date as text: the historical year, the month and the day, the last
    /// two with two digits at least, separated by hyphens between spaces.
    pub fn format(&self) -> (text: String)
        requires
            self@.is_calendar_day(),
            self@.year > i32::MIN,
        ensures
            text@ == date_text(self@),
    {
        let month_day: (u32, u32) = standarized_months_day(self);
        let mut text = String::new();
        append_signed_decimal(&mut text, standarize_year(self.year));
        text.append(" - ");
        append_zero_padded(&mut text, month_day.0);
        text.append(" - ");
        append_zero_padded(&mut text, month_day.1);
        assert(text@ =~= date_text(self@));
        text
    }
}

} // verus!
