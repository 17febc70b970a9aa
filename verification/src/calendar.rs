//! Plain calendar dates for the registry's date fields.
//!
//! Registry dates travel as a year plus a day-of-year ordinal; this module
//! holds the proleptic Gregorian rules needed to turn that encoding into a
//! year, month and day, and to step one month back.

use vstd::prelude::*;

verus! {

/// A calendar date, proleptic Gregorian.
#[derive(Clone, Copy, Debug, PartialEq, Eq, Hash, Structural)]
pub struct CalendarDate {
    pub year: i32,
    pub month: u32,
    pub day: u32,
}

pub open spec fn is_leap_year(y: int) -> bool {
    y % 4 == 0 && (y % 100 != 0 || y % 400 == 0)
}

pub open spec fn days_in_month(y: int, m: int) -> int {
    if m == 2 {
        if is_leap_year(y) {
            29
        } else {
            28
        }
    } else if m == 4 || m == 6 || m == 9 || m == 11 {
        30
    } else {
        31
    }
}

pub open spec fn days_in_year(y: int) -> int {
    if is_leap_year(y) {
        366
    } else {
        365
    }
}

/// Days of year `y` that lie strictly before month `m`.
pub open spec fn days_before_month(y: int, m: int) -> int
    decreases m,
{
    if m <= 1 {
        0
    } else {
        days_before_month(y, m - 1) + days_in_month(y, m - 1)
    }
}

pub open spec fn valid_date(d: CalendarDate) -> bool {
    1 <= d.month <= 12 && 1 <= d.day <= days_in_month(d.year as int, d.month as int)
}

/// Day-of-year ordinal of a date, starting at 1 for January the 1st.
pub open spec fn ordinal_of(d: CalendarDate) -> int {
    days_before_month(d.year as int, d.month as int) + d.day
}

proof fn lemma_days_before_month_13(y: int)
    ensures
        days_before_month(y, 13) == days_in_year(y),
{
    reveal_with_fuel(days_before_month, 14);
}

/// Walking the months of `spec_from_yo`, with the days already accounted
/// for taken off the ordinal.
pub open spec fn spec_yo_walk(y: i32, m: int, rem: int) -> CalendarDate
    decreases 13 - m,
{
    if m >= 12 || rem <= days_in_month(y as int, m) {
        CalendarDate { year: y, month: m as u32, day: rem as u32 }
    } else {
        spec_yo_walk(y, m + 1, rem - days_in_month(y as int, m))
    }
}

/// The date of year `y` with day-of-year `ord`, if the ordinal is in range.
pub open spec fn spec_from_yo(y: i32, ord: int) -> Option<CalendarDate> {
    if 1 <= ord <= days_in_year(y as int) {
        Some(spec_yo_walk(y, 1, ord))
    } else {
        None
    }
}

impl CalendarDate {
    /// Builds a date from its parts, refusing out-of-range months or days.
    pub fn from_ymd_opt(year: i32, month: u32, day: u32) -> (r: Option<CalendarDate>)
        ensures
            r matches Some(d) ==> d == (CalendarDate { year, month, day }) && valid_date(d),
            r is Some <==> valid_date(CalendarDate { year, month, day }),
    {
        let d = CalendarDate { year, month, day };
        if 1 <= month && month <= 12 && 1 <= day && day <= Self::days_in_month_exec(
            year,
            month,
        ) {
            Some(d)
        } else {
            None
        }
    }

    #[verifier::rlimit(50)]
    fn days_in_month_exec(year: i32, month: u32) -> (r: u32)
        ensures
            r == days_in_month(year as int, month as int),
    {
        if month == 2 {
            if (year % 4 == 0) && (year % 100 != 0 || year % 400 == 0) {
                29
            } else {
                28
            }
        } else if month == 4 || month == 6 || month == 9 || month == 11 {
            30
        } else {
            31
        }
    }

    /// Builds a date from a year and a day-of-year ordinal; `None` when the
    /// ordinal is zero or past the end of that year.
    pub fn from_yo_opt(year: i32, ordinal: u32) -> (r: Option<CalendarDate>)
        ensures
            r == spec_from_yo(year, ordinal as int),
            r matches Some(d) ==> valid_date(d) && ordinal_of(d) == ordinal && d.year == year,
    {
        let leap = (year % 4 == 0) && (year % 100 != 0 || year % 400 == 0);
        let year_days: u32 = if leap {
            366
        } else {
            365
        };
        if ordinal == 0 || ordinal > year_days {
            return None;
        }
        let mut m: u32 = 1;
        let mut rem: u32 = ordinal;
        while m < 12 && rem > Self::days_in_month_exec(year, m)
            invariant
                1 <= m <= 12,
                1 <= rem,
                rem == ordinal - days_before_month(year as int, m as int),
                1 <= ordinal <= days_in_year(year as int),
                spec_yo_walk(year, 1, ordinal as int) == spec_yo_walk(year, m as int, rem as int),
            decreases 12 - m,
        {
            rem = rem - Self::days_in_month_exec(year, m);
            m = m + 1;
        }
        proof {
            lemma_days_before_month_13(year as int);
            if m == 12 {
                reveal_with_fuel(days_before_month, 14);
            }
        }
        Some(CalendarDate { year, month: m, day: rem })
    }

    /// The same day one month earlier, as `previous_month` computes it.
    pub open spec fn previous_month_spec(self) -> CalendarDate {
        if self.month == 1 {
            CalendarDate { year: (self.year - 1) as i32, month: 12, day: self.day }
        } else {
            CalendarDate { year: self.year, month: (self.month - 1) as u32, day: self.day }
        }
    }

    /// The same day one month earlier, December of the previous year when
    /// the month is January.
    pub fn previous_month(&self) -> (r: CalendarDate)
        requires
            self.year > i32::MIN,
            1 <= self.month <= 12,
        ensures
            r == self.previous_month_spec(),
    {
        if self.month == 1 {
            CalendarDate { year: self.year - 1, month: 12, day: self.day }
        } else {
            CalendarDate { year: self.year, month: self.month - 1, day: self.day }
        }
    }
}

/// Chronological order on dates, by year, then month, then day.
pub open spec fn spec_date_le(a: CalendarDate, b: CalendarDate) -> bool {
    if a.year != b.year {
        a.year < b.year
    } else if a.month != b.month {
        a.month < b.month
    } else {
        a.day <= b.day
    }
}

pub fn date_le(a: &CalendarDate, b: &CalendarDate) -> (r: bool)
    ensures
        r == spec_date_le(*a, *b),
{
    if a.year != b.year {
        a.year < b.year
    } else if a.month != b.month {
        a.month < b.month
    } else {
        a.day <= b.day
    }
}

} // verus!
