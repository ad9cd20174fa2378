//! Calendar dates of the proleptic Gregorian calendar, without a time of day.

use vstd::prelude::*;

verus! {

/// Whether `year` has a 29th of February.
pub open spec fn is_leap_year(year: int) -> bool {
    year % 4 == 0 && (year % 100 != 0 || year % 400 == 0)
}

/// The number of days of the given month, 0 for a month that does not exist.
pub open spec fn days_in_month(year: int, month: int) -> int {
    if month == 2 {
        if is_leap_year(year) {
            29
        } else {
            28
        }
    } else if month == 4 || month == 6 || month == 9 || month == 11 {
        30
    } else if 1 <= month <= 12 {
        31
    } else {
        0
    }
}

/// A date as the calendar writes it.
pub struct Ymd {
    pub year: int,
    pub month: int,
    pub day: int,
}

impl Ymd {
    /// Whether the calendar has this day.
    pub open spec fn exists_in_calendar(self) -> bool {
        1 <= self.month <= 12 && 1 <= self.day <= days_in_month(self.year, self.month)
    }

    /// Whether `self` is an earlier day than `other`.
    pub open spec fn is_before(self, other: Ymd) -> bool {
        self.year < other.year || (self.year == other.year && (self.month < other.month || (
            self.month == other.month && self.day < other.day)))
    }
}

/// Of two days, one is before the other or both are the same day, and never
/// two of these at once. A day before a second one is before every day that
/// the second is before.
pub proof fn days_are_in_order(one: Ymd, other: Ymd, third: Ymd)
    ensures
        one.is_before(other) || other.is_before(one) || one == other,
        !(one.is_before(other) && other.is_before(one)),
        !one.is_before(one),
        one.is_before(other) && other.is_before(third) ==> one.is_before(third),
{
}

/// A day of the calendar.
#[derive(Clone, Copy, Debug, PartialEq, Eq, PartialOrd, Ord, Hash)]
pub struct Date {
    year: i32,
    month: u32,
    day: u32,
}

impl View for Date {
    type V = Ymd;

    closed spec fn view(&self) -> Ymd {
        Ymd { year: self.year as int, month: self.month as int, day: self.day as int }
    }
}

impl Date {
    #[verifier::type_invariant]
    spec fn in_calendar(self) -> bool {
        self@.exists_in_calendar()
    }

    /// The date of the given year, month and day, where the calendar has it.
    pub fn from_ymd_opt(year: i32, month: u32, day: u32) -> (date: Option<Date>)
        ensures
            date.is_some() <==> (Ymd { year: year as int, month: month as int, day: day as int })
                .exists_in_calendar(),
            date.is_some() ==> date.unwrap()@ == (Ymd {
                year: year as int,
                month: month as int,
                day: day as int,
            }),
    {
        if month < 1 || month > 12 || day < 1 {
            return None;
        }
        let leap: bool = year % 4 == 0 && (year % 100 != 0 || year % 400 == 0);
        let length: u32 = if month == 2 {
            if leap {
                29
            } else {
                28
            }
        } else if month == 4 || month == 6 || month == 9 || month == 11 {
            30
        } else {
            31
        };
        if day > length {
            None
        } else {
            Some(Date { year, month, day })
        }
    }

    /// The year.
    pub fn year(&self) -> (year: i32)
        ensures
            year == self@.year,
    {
        self.year
    }

    /// The month, from 1.
    pub fn month(&self) -> (month: u32)
        ensures
            month == self@.month,
            1 <= month <= 12,
    {
        proof {
            use_type_invariant(self);
        }
        self.month
    }

    /// The day of the month, from 1.
    pub fn day(&self) -> (day: u32)
        ensures
            day == self@.day,
            1 <= day <= days_in_month(self@.year, self@.month),
    {
        proof {
            use_type_invariant(self);
        }
        self.day
    }

    /// Whether both are the same day.
    pub fn is_same(&self, other: &Date) -> (same: bool)
        ensures
            same == (self@ == other@),
    {
        self.year == other.year && self.month == other.month && self.day == other.day
    }

    /// Whether `self` is an earlier day than `other`.
    pub fn is_before(&self, other: &Date) -> (before: bool)
        ensures
            before == self@.is_before(other@),
    {
        self.year < other.year || (self.year == other.year && (self.month < other.month || (
            self.month == other.month && self.day < other.day)))
    }
}

} // verus!
