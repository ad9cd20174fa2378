//! Responsibilities: what work is owed, on which days, and how much of it.

use crate::date::Date;
use crate::date::Ymd;
use vstd::prelude::*;

verus! {

/// The days on which a responsibility applies.
#[derive(Debug, PartialEq)]
pub enum Distribution {
    /// Every day from `alpha` to `omega`, both included.
    Continuous { alpha: Date, omega: Date },
    /// The listed days and no others.
    Discrete { dates: Vec<Date> },
}

/// The days that a list of dates holds, in its order.
pub open spec fn days_of(dates: Seq<Date>) -> Seq<Ymd> {
    dates.map_values(|d: Date| d@)
}

/// What a `Distribution` stands for.
pub enum DistributionModel {
    Continuous { alpha: Ymd, omega: Ymd },
    Discrete { dates: Seq<Ymd> },
}

impl DistributionModel {
    /// Whether the distribution holds the given day.
    pub open spec fn applies_on(self, date: Ymd) -> bool {
        match self {
            DistributionModel::Continuous { alpha, omega } => !date.is_before(alpha)
                && !omega.is_before(date),
            DistributionModel::Discrete { dates } => dates.contains(date),
        }
    }
}

impl View for Distribution {
    type V = DistributionModel;

    open spec fn view(&self) -> DistributionModel {
        match self {
            Distribution::Continuous { alpha, omega } => DistributionModel::Continuous {
                alpha: alpha@,
                omega: omega@,
            },
            Distribution::Discrete { dates } => DistributionModel::Discrete {
                dates: days_of(dates@),
            },
        }
    }
}

impl Distribution {
    /// Whether the responsibility applies on `date`.
    pub fn applies_on(&self, date: &Date) -> (applies: bool)
        ensures
            applies == self@.applies_on(date@),
    {
        match self {
            Distribution::Continuous { alpha, omega } => {
                !date.is_before(alpha) && !omega.is_before(date)
            },
            Distribution::Discrete { dates } => {
                let ghost days = days_of(dates@);
                let mut i: usize = 0;
                while i < dates.len()
                    invariant
                        i <= dates.len(),
                        days == days_of(dates@),
                        self@ == (DistributionModel::Discrete { dates: days }),
                        forall|k: int| 0 <= k < i ==> days[k] != date@,
                    decreases dates.len() - i,
                {
                    if dates[i].is_same(date) {
                        assert(days[i as int] == date@);
                        assert(days.contains(date@));
                        return true;
                    }
                    i += 1;
                }
                false
            },
        }
    }
}

/// How much effort a responsibility takes.
#[derive(Debug, PartialEq)]
pub enum Effort {
    /// A fixed quantity, taken off the day's total before anything is shared.
    Absolute(i64),
    /// A weight by which the rest of the day is shared.
    Relative(i64),
}

/// What an `Effort` stands for.
pub enum EffortModel {
    Absolute(int),
    Relative(int),
}

impl View for Effort {
    type V = EffortModel;

    open spec fn view(&self) -> EffortModel {
        match self {
            Effort::Absolute(value) => EffortModel::Absolute(*value as int),
            Effort::Relative(weight) => EffortModel::Relative(*weight as int),
        }
    }
}

/// Work that is owed on some days.
#[derive(Debug, PartialEq)]
pub struct Responsibility {
    pub account: String,
    pub description: String,
    pub distribution: Distribution,
    pub effort: Effort,
}

/// What a `Responsibility` stands for.
pub struct ResponsibilityModel {
    pub account: Seq<char>,
    pub description: Seq<char>,
    pub distribution: DistributionModel,
    pub effort: EffortModel,
}

impl View for Responsibility {
    type V = ResponsibilityModel;

    open spec fn view(&self) -> ResponsibilityModel {
        ResponsibilityModel {
            account: self.account@,
            description: self.description@,
            distribution: self.distribution@,
            effort: self.effort@,
        }
    }
}

} // verus!
