//! Activities: the effort that one responsibility takes on one day.

use crate::responsibility::Effort;
use crate::responsibility::EffortModel;
use crate::responsibility::Responsibility;
use crate::responsibility::ResponsibilityModel;
use crate::rounding::is_half_way;
use crate::rounding::is_on_grid;
use crate::rounding::midpoint_rounds_up;
use crate::rounding::round_half_up;
use crate::rounding::round_share;
use crate::rounding::rounded;
use crate::rounding::rounded_is_near;
use crate::rounding::rounded_is_on_grid;
use crate::rounding::rounding_keeps_grid_values;
use vstd::prelude::*;

verus! {

/// The effort that a responsibility takes on a day.
#[derive(Debug, PartialEq)]
pub struct Activity<'a> {
    pub account: &'a String,
    pub description: &'a String,
    pub absolute_effort: i64,
}

/// What an `Activity` stands for.
pub struct ActivityModel {
    pub account: Seq<char>,
    pub description: Seq<char>,
    pub absolute_effort: int,
}

impl<'a> View for Activity<'a> {
    type V = ActivityModel;

    open spec fn view(&self) -> ActivityModel {
        ActivityModel {
            account: self.account@,
            description: self.description@,
            absolute_effort: self.absolute_effort as int,
        }
    }
}

/// The numerator of the effort of a responsibility on a day, before it is
/// rounded: an absolute effort as it is, whatever the jitter, or the relative
/// weight, moved by its jitter, times the balance.
pub open spec fn raw_numerator(effort: EffortModel, balance: int, jitter: int) -> int {
    match effort {
        EffortModel::Absolute(value) => value,
        EffortModel::Relative(weight) => (weight + jitter) * balance,
    }
}

/// The denominator of the effort of a responsibility on a day, before it is
/// rounded: 1 for an absolute effort, the total weight for a relative one.
pub open spec fn raw_denominator(effort: EffortModel, total_weight: int) -> int {
    match effort {
        EffortModel::Absolute(_) => 1,
        EffortModel::Relative(_) => total_weight,
    }
}

/// The effort of a responsibility on a day, rounded to the resolution.
///
/// An absolute effort is taken as it is, whatever the jitter. A relative one
/// is the share of the balance that the weight, moved by its jitter, has in
/// the total weight.
pub open spec fn resolved_effort(
    effort: EffortModel,
    total_weight: int,
    balance: int,
    jitter: int,
    resolution: int,
) -> int {
    rounded(
        raw_numerator(effort, balance, jitter),
        raw_denominator(effort, total_weight),
        resolution,
    )
}

/// The activity that a responsibility comes to on a day.
pub open spec fn resolved(
    responsibility: ResponsibilityModel,
    total_weight: int,
    balance: int,
    jitter: int,
    resolution: int,
) -> ActivityModel {
    ActivityModel {
        account: responsibility.account,
        description: responsibility.description,
        absolute_effort: resolved_effort(
            responsibility.effort,
            total_weight,
            balance,
            jitter,
            resolution,
        ),
    }
}

/// The effort is the multiple of the resolution nearest to the value before
/// rounding, the upper one of two that are equally near, and the value itself
/// where that lies on the grid.
pub proof fn effort_is_nearest(
    effort: EffortModel,
    total_weight: int,
    balance: int,
    jitter: int,
    resolution: int,
)
    requires
        resolution > 0,
        raw_denominator(effort, total_weight) > 0,
    ensures
        -(raw_denominator(effort, total_weight) * resolution) <= 2 * (raw_numerator(
            effort,
            balance,
            jitter,
        ) - resolved_effort(effort, total_weight, balance, jitter, resolution) * raw_denominator(
            effort,
            total_weight,
        )) < raw_denominator(effort, total_weight) * resolution,
        resolved_effort(effort, total_weight, balance, jitter, resolution) % resolution == 0,
        forall|steps: int| #[trigger]
            is_half_way(
                raw_numerator(effort, balance, jitter),
                raw_denominator(effort, total_weight),
                resolution,
                steps,
            ) ==> resolved_effort(effort, total_weight, balance, jitter, resolution) == (steps
                + 1) * resolution,
        forall|steps: int| #[trigger]
            is_on_grid(
                raw_numerator(effort, balance, jitter),
                raw_denominator(effort, total_weight),
                resolution,
                steps,
            ) ==> resolved_effort(effort, total_weight, balance, jitter, resolution) == steps
                * resolution,
{
    let numerator = raw_numerator(effort, balance, jitter);
    let denominator = raw_denominator(effort, total_weight);
    rounded_is_near(numerator, denominator, resolution);
    rounded_is_on_grid(numerator, denominator, resolution);
    assert forall|steps: int| #[trigger]
        is_half_way(numerator, denominator, resolution, steps) implies rounded(
        numerator,
        denominator,
        resolution,
    ) == (steps + 1) * resolution by {
        midpoint_rounds_up(numerator, steps, denominator, resolution);
    }
    assert forall|steps: int| #[trigger]
        is_on_grid(numerator, denominator, resolution, steps) implies rounded(
        numerator,
        denominator,
        resolution,
    ) == steps * resolution by {
        rounding_keeps_grid_values(steps, denominator, resolution);
    }
}

impl<'a> Activity<'a> {
    /// The activity that `r` comes to, where the day's relative weights add
    /// up to `tot_rel_eff` and `bal_abs_eff` is left of the day's effort for
    /// them to share.
    pub fn from(
        r: &'a Responsibility,
        tot_rel_eff: i64,
        bal_abs_eff: i64,
        jitter: i64,
        resolution: i64,
    ) -> (activity: Activity<'a>)
        requires
            resolution > 0,
            r.effort is Relative ==> tot_rel_eff > 0,
            i64::MIN <= resolved_effort(
                r.effort@,
                tot_rel_eff as int,
                bal_abs_eff as int,
                jitter as int,
                resolution as int,
            ) <= i64::MAX,
        ensures
            activity@ == resolved(
                r@,
                tot_rel_eff as int,
                bal_abs_eff as int,
                jitter as int,
                resolution as int,
            ),
            -(raw_denominator(r.effort@, tot_rel_eff as int) * resolution) <= 2 * (raw_numerator(
                r.effort@,
                bal_abs_eff as int,
                jitter as int,
            ) - activity.absolute_effort * raw_denominator(r.effort@, tot_rel_eff as int))
                < raw_denominator(r.effort@, tot_rel_eff as int) * resolution,
            activity.absolute_effort as int % resolution as int == 0,
            forall|steps: int| #[trigger]
                is_half_way(
                    raw_numerator(r.effort@, bal_abs_eff as int, jitter as int),
                    raw_denominator(r.effort@, tot_rel_eff as int),
                    resolution as int,
                    steps,
                ) ==> activity.absolute_effort == (steps + 1) * resolution,
            forall|steps: int| #[trigger]
                is_on_grid(
                    raw_numerator(r.effort@, bal_abs_eff as int, jitter as int),
                    raw_denominator(r.effort@, tot_rel_eff as int),
                    resolution as int,
                    steps,
                ) ==> activity.absolute_effort == steps * resolution,
    {
        proof {
            effort_is_nearest(
                r.effort@,
                tot_rel_eff as int,
                bal_abs_eff as int,
                jitter as int,
                resolution as int,
            );
        }
        let abs_effort_rounded: i64 = match r.effort {
            Effort::Absolute(effort) => round_half_up(effort, resolution),
            Effort::Relative(effort) => round_share(
                effort as i128 + jitter as i128,
                tot_rel_eff,
                bal_abs_eff,
                resolution,
            ),
        };
        Activity {
            account: &r.account,
            description: &r.description,
            absolute_effort: abs_effort_rounded,
        }
    }
}

} // verus!
