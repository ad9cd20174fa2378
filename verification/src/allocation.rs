//! What a day at work is: which responsibilities apply on a date, what is
//! left for the relative ones to share, and what falls to each.

use crate::activity::resolved;
use crate::activity::resolved_effort;
use crate::activity::ActivityModel;
use crate::date::Ymd;
use crate::jitter::is_perturbation;
use crate::responsibility::EffortModel;
use crate::responsibility::ResponsibilityModel;
use crate::rounding::magnitude;
use crate::rounding::rounded;
use crate::rounding::rounded_share_is_bounded;
use crate::rounding::rounded_whole_is_bounded;
use crate::sequences::added;
use crate::sequences::minimum;
use crate::sequences::minimum_is_least;
use crate::sequences::sum;
use crate::sequences::sum_covers_each;
use crate::sequences::sum_of_added;
use vstd::prelude::*;

verus! {

/// The responsibilities that apply on `date`, in their order.
pub open spec fn selected(responsibilities: Seq<ResponsibilityModel>, date: Ymd) -> Seq<
    ResponsibilityModel,
>
    decreases responsibilities.len(),
{
    if responsibilities.len() == 0 {
        Seq::empty()
    } else if responsibilities.last().distribution.applies_on(date) {
        selected(responsibilities.drop_last(), date).push(responsibilities.last())
    } else {
        selected(responsibilities.drop_last(), date)
    }
}

/// The absolute efforts, added up.
pub open spec fn absolute_sum(relevant: Seq<ResponsibilityModel>) -> int
    decreases relevant.len(),
{
    if relevant.len() == 0 {
        0
    } else {
        absolute_sum(relevant.drop_last()) + match relevant.last().effort {
            EffortModel::Absolute(value) => value,
            EffortModel::Relative(_) => 0,
        }
    }
}

/// The magnitudes of the absolute efforts, added up.
pub open spec fn absolute_load(relevant: Seq<ResponsibilityModel>) -> int
    decreases relevant.len(),
{
    if relevant.len() == 0 {
        0
    } else {
        absolute_load(relevant.drop_last()) + match relevant.last().effort {
            EffortModel::Absolute(value) => magnitude(value),
            EffortModel::Relative(_) => 0,
        }
    }
}

/// The relative weights, in the order of their responsibilities.
pub open spec fn weights(relevant: Seq<ResponsibilityModel>) -> Seq<int>
    decreases relevant.len(),
{
    if relevant.len() == 0 {
        Seq::empty()
    } else {
        match relevant.last().effort {
            EffortModel::Absolute(_) => weights(relevant.drop_last()),
            EffortModel::Relative(weight) => weights(relevant.drop_last()).push(weight),
        }
    }
}

/// The activities of the responsibilities, in their order. A relative weight
/// is moved by the jitter at its place among the relative weights.
pub open spec fn activities(
    relevant: Seq<ResponsibilityModel>,
    total_weight: int,
    balance: int,
    jitter: Seq<int>,
    resolution: int,
) -> Seq<ActivityModel>
    decreases relevant.len(),
{
    if relevant.len() == 0 {
        Seq::empty()
    } else {
        let front = relevant.drop_last();
        let moved = match relevant.last().effort {
            EffortModel::Absolute(_) => 0,
            EffortModel::Relative(_) => jitter[weights(front).len() as int],
        };
        activities(front, total_weight, balance, jitter, resolution).push(
            resolved(relevant.last(), total_weight, balance, moved, resolution),
        )
    }
}

/// The efforts of the activities, added up.
pub open spec fn total_effort(activities: Seq<ActivityModel>) -> int
    decreases activities.len(),
{
    if activities.len() == 0 {
        0
    } else {
        total_effort(activities.drop_last()) + activities.last().absolute_effort
    }
}

/// What a `DayAtWork` stands for.
pub struct DayModel {
    pub date: Ymd,
    pub activities: Seq<ActivityModel>,
    pub total_effort: int,
}

/// The day at work on `date`, where `jitter` moves the relative weights.
///
/// What the absolute efforts leave of `total` is shared among the relative
/// weights.
pub open spec fn allocation(
    date: Ymd,
    total: int,
    resolution: int,
    responsibilities: Seq<ResponsibilityModel>,
    jitter: Seq<int>,
) -> DayModel {
    let relevant = selected(responsibilities, date);
    let activities = activities(
        relevant,
        sum(weights(relevant)),
        total - absolute_sum(relevant),
        jitter,
        resolution,
    );
    DayModel { date, activities, total_effort: total_effort(activities) }
}

/// Whether every relative weight is above zero.
pub open spec fn weights_positive(relevant: Seq<ResponsibilityModel>) -> bool {
    forall|i: int|
        0 <= i < relevant.len() ==> match (#[trigger] relevant[i]).effort {
            EffortModel::Absolute(_) => true,
            EffortModel::Relative(weight) => weight > 0,
        }
}

/// A bound on the magnitude of what one activity can take: the day's total,
/// every absolute effort and one step of the resolution.
pub open spec fn reach(total: int, resolution: int, relevant: Seq<ResponsibilityModel>) -> int {
    magnitude(total) + absolute_load(relevant) + resolution
}

/// Whether the day on `date` can be worked out: the resolution and the
/// relative weights are above zero, and the sums that the day needs fit the
/// machine's integers.
pub open spec fn admissible(
    date: Ymd,
    total: int,
    resolution: int,
    responsibilities: Seq<ResponsibilityModel>,
) -> bool {
    let relevant = selected(responsibilities, date);
    &&& resolution > 0
    &&& weights_positive(relevant)
    &&& sum(weights(relevant)) <= i64::MAX
    &&& relevant.len() * reach(total, resolution, relevant) <= i64::MAX
}

/// Whether `jitter` has one offset for each weight and leaves each weight
/// between zero and the sum of the weights.
pub open spec fn moves_within(weights: Seq<int>, jitter: Seq<int>) -> bool {
    &&& jitter.len() == weights.len()
    &&& forall|k: int|
        0 <= k < weights.len() ==> 0 <= #[trigger] weights[k] + jitter[k] <= sum(weights)
}

/// The weights of the first responsibilities are the first weights.
pub(crate) proof fn lemma_weights_prefix(relevant: Seq<ResponsibilityModel>, i: int)
    requires
        0 <= i <= relevant.len(),
    ensures
        weights(relevant.take(i)).len() <= weights(relevant).len(),
        weights(relevant.take(i)) == weights(relevant).take(weights(relevant.take(i)).len() as int),
    decreases relevant.len(),
{
    if i == relevant.len() {
        assert(relevant.take(i) =~= relevant);
        assert(weights(relevant).take(weights(relevant).len() as int) =~= weights(relevant));
    } else {
        let front = relevant.drop_last();
        lemma_weights_prefix(front, i);
        assert(front.take(i) =~= relevant.take(i));
        let count = weights(relevant.take(i)).len() as int;
        assert(weights(front).take(count) =~= weights(relevant).take(count));
    }
}

/// The weight of a relative responsibility stands among the weights, after
/// those of the responsibilities before it.
pub(crate) proof fn lemma_weight_at(relevant: Seq<ResponsibilityModel>, i: int)
    requires
        0 <= i < relevant.len(),
        relevant[i].effort is Relative,
    ensures
        weights(relevant.take(i)).len() < weights(relevant).len(),
        weights(relevant)[weights(relevant.take(i)).len() as int] == relevant[i].effort->Relative_0,
        weights(relevant.take(i + 1)) == weights(relevant.take(i)).push(
            relevant[i].effort->Relative_0,
        ),
{
    lemma_weights_prefix(relevant, i + 1);
    assert(relevant.take(i + 1).drop_last() =~= relevant.take(i));
    let count = weights(relevant.take(i)).len() as int;
    assert(weights(relevant.take(i + 1))[count] == weights(relevant).take(count + 1)[count]);
}

/// Every one of the weights is the weight of a responsibility.
pub(crate) proof fn lemma_weights_are_positive(relevant: Seq<ResponsibilityModel>)
    requires
        weights_positive(relevant),
    ensures
        forall|k: int| 0 <= k < weights(relevant).len() ==> #[trigger] weights(relevant)[k] > 0,
    decreases relevant.len(),
{
    if relevant.len() > 0 {
        let front = relevant.drop_last();
        assert forall|i: int| 0 <= i < front.len() implies match (#[trigger] front[i]).effort {
            EffortModel::Absolute(_) => true,
            EffortModel::Relative(weight) => weight > 0,
        } by {
            assert(front[i] == relevant[i]);
        }
        lemma_weights_are_positive(front);
        assert(relevant[relevant.len() - 1] == relevant.last());
        assert forall|k: int| 0 <= k < weights(relevant).len() implies #[trigger] weights(
            relevant,
        )[k] > 0 by {
            if k < weights(front).len() {
                assert(weights(relevant)[k] == weights(front)[k]);
            }
        }
    }
}

/// What a responsibility adds to the absolute efforts and to their load.
pub(crate) proof fn lemma_absolute_step(relevant: Seq<ResponsibilityModel>, i: int)
    requires
        0 <= i < relevant.len(),
    ensures
        absolute_sum(relevant.take(i + 1)) == absolute_sum(relevant.take(i)) + match relevant[i].effort {
            EffortModel::Absolute(value) => value,
            EffortModel::Relative(_) => 0,
        },
        absolute_load(relevant.take(i + 1)) == absolute_load(relevant.take(i)) + match relevant[i].effort {
            EffortModel::Absolute(value) => magnitude(value),
            EffortModel::Relative(_) => 0,
        },
{
    assert(relevant.take(i + 1).drop_last() =~= relevant.take(i));
}

/// The absolute efforts add up to no more, in magnitude, than their load.
pub(crate) proof fn lemma_load_bounds_sum(relevant: Seq<ResponsibilityModel>)
    ensures
        magnitude(absolute_sum(relevant)) <= absolute_load(relevant),
    decreases relevant.len(),
{
    if relevant.len() > 0 {
        lemma_load_bounds_sum(relevant.drop_last());
    }
}

/// The load of the first responsibilities is no more than the load of all.
pub(crate) proof fn lemma_load_prefix(relevant: Seq<ResponsibilityModel>, i: int)
    requires
        0 <= i <= relevant.len(),
    ensures
        0 <= absolute_load(relevant.take(i)) <= absolute_load(relevant),
    decreases relevant.len(),
{
    lemma_load_bounds_sum(relevant.take(i));
    if i == relevant.len() {
        assert(relevant.take(i) =~= relevant);
    } else {
        let front = relevant.drop_last();
        lemma_load_prefix(front, i);
        assert(front.take(i) =~= relevant.take(i));
    }
}

/// A perturbation leaves every weight between zero and the sum of the
/// weights, where the weights are above zero.
pub proof fn perturbation_moves_within(weights: Seq<int>, jitter: Seq<int>)
    requires
        forall|k: int| 0 <= k < weights.len() ==> #[trigger] weights[k] > 0,
        is_perturbation(weights, jitter),
    ensures
        moves_within(weights, jitter),
{
    if weights.len() > 0 {
        minimum_is_least(weights);
        let moved = added(weights, jitter);
        sum_of_added(weights, jitter);
        assert forall|k: int| 0 <= k < weights.len() implies 0 <= #[trigger] weights[k]
            + jitter[k] <= sum(weights) by {
            assert(-minimum(weights) <= jitter[k]);
            assert(minimum(weights) <= weights[k]);
            assert forall|m: int| 0 <= m < moved.len() implies #[trigger] moved[m] >= 0 by {
                assert(-minimum(weights) <= jitter[m]);
                assert(minimum(weights) <= weights[m]);
            }
            sum_covers_each(moved, k);
        }
    }
}

/// Offsets of zero leave every weight between zero and the sum of the
/// weights, where the weights are above zero.
pub proof fn zeros_move_within(weights: Seq<int>, jitter: Seq<int>)
    requires
        forall|k: int| 0 <= k < weights.len() ==> #[trigger] weights[k] > 0,
        jitter.len() == weights.len(),
        forall|k: int| 0 <= k < jitter.len() ==> #[trigger] jitter[k] == 0,
    ensures
        moves_within(weights, jitter),
{
    assert forall|k: int| 0 <= k < weights.len() implies 0 <= #[trigger] weights[k] + jitter[k]
        <= sum(weights) by {
        assert(jitter[k] == 0);
        sum_covers_each(weights, k);
    }
}

/// The responsibilities of two lists in a row that apply are those of the
/// first list that apply, then those of the second.
pub proof fn selected_of_both(
    first: Seq<ResponsibilityModel>,
    second: Seq<ResponsibilityModel>,
    date: Ymd,
)
    ensures
        selected(first + second, date) == selected(first, date) + selected(second, date),
    decreases second.len(),
{
    if second.len() == 0 {
        assert(first + second =~= first);
        assert(selected(first, date) + selected(second, date) =~= selected(first, date));
    } else {
        selected_of_both(first, second.drop_last(), date);
        assert((first + second).drop_last() =~= first + second.drop_last());
        assert((first + second).last() == second.last());
        if second.last().distribution.applies_on(date) {
            assert((selected(first, date) + selected(second.drop_last(), date)).push(second.last())
                =~= selected(first, date) + selected(second.drop_last(), date).push(
                second.last(),
            ));
        }
    }
}

/// Every responsibility that is selected applies on the date, and there are
/// no more of them than responsibilities.
pub proof fn selected_apply(responsibilities: Seq<ResponsibilityModel>, date: Ymd)
    ensures
        selected(responsibilities, date).len() <= responsibilities.len(),
        forall|i: int|
            0 <= i < selected(responsibilities, date).len() ==> (#[trigger] selected(
                responsibilities,
                date,
            )[i]).distribution.applies_on(date),
    decreases responsibilities.len(),
{
    if responsibilities.len() > 0 {
        let front = responsibilities.drop_last();
        selected_apply(front, date);
        assert forall|i: int| 0 <= i < selected(responsibilities, date).len() implies (
        #[trigger] selected(responsibilities, date)[i]).distribution.applies_on(date) by {
            if i < selected(front, date).len() {
                assert(selected(responsibilities, date)[i] == selected(front, date)[i]);
            }
        }
    }
}

/// A responsibility that applies on the date is selected.
pub proof fn applicable_is_selected(responsibilities: Seq<ResponsibilityModel>, date: Ymd, i: int)
    requires
        0 <= i < responsibilities.len(),
        responsibilities[i].distribution.applies_on(date),
    ensures
        selected(responsibilities, date).contains(responsibilities[i]),
    decreases responsibilities.len(),
{
    let front = responsibilities.drop_last();
    if i == responsibilities.len() - 1 {
        let last = selected(front, date).len() as int;
        assert(selected(responsibilities, date)[last] == responsibilities[i]);
    } else {
        applicable_is_selected(front, date, i);
        let k = choose|k: int|
            0 <= k < selected(front, date).len() && selected(front, date)[k] == front[i];
        assert(selected(responsibilities, date)[k] == responsibilities[i]);
    }
}

/// A responsibility that does not apply on the date changes nothing of the
/// day: without it the day at work is the same.
pub proof fn excluded_changes_nothing(
    date: Ymd,
    total: int,
    resolution: int,
    responsibilities: Seq<ResponsibilityModel>,
    jitter: Seq<int>,
    i: int,
)
    requires
        0 <= i < responsibilities.len(),
        !responsibilities[i].distribution.applies_on(date),
    ensures
        allocation(date, total, resolution, responsibilities.remove(i), jitter) == allocation(
            date,
            total,
            resolution,
            responsibilities,
            jitter,
        ),
{
    let before = responsibilities.take(i);
    let one = seq![responsibilities[i]];
    let after = responsibilities.skip(i + 1);
    assert(responsibilities =~= before + one + after);
    assert(responsibilities.remove(i) =~= before + after);
    selected_of_both(before + one, after, date);
    selected_of_both(before, one, date);
    selected_of_both(before, after, date);
    assert(one.last() == responsibilities[i]);
    assert(selected(one.drop_last(), date) =~= Seq::<ResponsibilityModel>::empty());
    assert(selected(one, date) =~= Seq::<ResponsibilityModel>::empty());
    assert(selected(before, date) + selected(one, date) =~= selected(before, date));
}

/// Whether every one of the responsibilities has an absolute effort.
pub open spec fn all_absolute(relevant: Seq<ResponsibilityModel>) -> bool {
    forall|i: int| 0 <= i < relevant.len() ==> (#[trigger] relevant[i]).effort is Absolute
}

/// There is one activity for each responsibility, in the same order, and a
/// relative weight is moved by the offset at its place among the relative
/// weights.
pub proof fn activity_of_each(
    relevant: Seq<ResponsibilityModel>,
    i: int,
    total_weight: int,
    balance: int,
    jitter: Seq<int>,
    resolution: int,
)
    requires
        0 <= i < relevant.len(),
    ensures
        activities(relevant, total_weight, balance, jitter, resolution).len() == relevant.len(),
        activities(relevant, total_weight, balance, jitter, resolution)[i] == resolved(
            relevant[i],
            total_weight,
            balance,
            match relevant[i].effort {
                EffortModel::Absolute(_) => 0,
                EffortModel::Relative(_) => jitter[weights(relevant.take(i)).len() as int],
            },
            resolution,
        ),
    decreases relevant.len(),
{
    let front = relevant.drop_last();
    let moved = match relevant.last().effort {
        EffortModel::Absolute(_) => 0,
        EffortModel::Relative(_) => jitter[weights(front).len() as int],
    };
    assert(activities(relevant, total_weight, balance, jitter, resolution) == activities(
        front,
        total_weight,
        balance,
        jitter,
        resolution,
    ).push(resolved(relevant.last(), total_weight, balance, moved, resolution)));
    if i == relevant.len() - 1 {
        assert(relevant.take(i) =~= front);
        if front.len() > 0 {
            activity_of_each(front, 0, total_weight, balance, jitter, resolution);
        }
    } else {
        activity_of_each(front, i, total_weight, balance, jitter, resolution);
        assert(front.take(i) =~= relevant.take(i));
    }
}

/// Whether each absolute effort of the responsibilities stands in the
/// activity at its place, rounded and otherwise as it is.
pub open spec fn absolute_efforts_stand(
    relevant: Seq<ResponsibilityModel>,
    activities: Seq<ActivityModel>,
    resolution: int,
) -> bool {
    forall|i: int|
        0 <= i < relevant.len() && (#[trigger] relevant[i]).effort is Absolute
            ==> activities[i].absolute_effort == rounded(
            relevant[i].effort->Absolute_0,
            1,
            resolution,
        )
}

/// Whether the day is the one that the responsibilities come to on `date`
/// whatever the total and the jitter: there is one activity for each
/// responsibility that applies, every absolute effort stands as it is, a day
/// on which only absolute efforts apply does not depend on the total, and a
/// day on which nothing applies is empty.
pub open spec fn is_day_of(
    day: DayModel,
    date: Ymd,
    resolution: int,
    responsibilities: Seq<ResponsibilityModel>,
) -> bool {
    let relevant = selected(responsibilities, date);
    &&& day.date == date
    &&& day.activities.len() == relevant.len()
    &&& day.total_effort == total_effort(day.activities)
    &&& absolute_efforts_stand(relevant, day.activities, resolution)
    &&& all_absolute(relevant) ==> day == allocation(
        date,
        0,
        resolution,
        responsibilities,
        Seq::empty(),
    )
    &&& relevant.len() == 0 ==> day.activities.len() == 0 && day.total_effort == 0
}

/// Every day at work is the day of its responsibilities, whatever the total
/// and the jitter.
pub proof fn allocation_is_day(
    date: Ymd,
    total: int,
    resolution: int,
    responsibilities: Seq<ResponsibilityModel>,
    jitter: Seq<int>,
)
    ensures
        is_day_of(
            allocation(date, total, resolution, responsibilities, jitter),
            date,
            resolution,
            responsibilities,
        ),
{
    let relevant = selected(responsibilities, date);
    let day = allocation(date, total, resolution, responsibilities, jitter);
    let weight = sum(weights(relevant));
    let balance = total - absolute_sum(relevant);
    if relevant.len() > 0 {
        activity_of_each(relevant, 0, weight, balance, jitter, resolution);
    }
    assert forall|i: int|
        0 <= i < relevant.len() && (#[trigger] relevant[i]).effort is Absolute implies day.activities[i].absolute_effort
        == rounded(relevant[i].effort->Absolute_0, 1, resolution) by {
        absolute_effort_stands(relevant, i, weight, balance, jitter, resolution);
    }
    if all_absolute(relevant) {
        absolute_day_ignores_total(
            date,
            total,
            0,
            resolution,
            responsibilities,
            jitter,
            Seq::empty(),
        );
    }
}

/// Where every responsibility has an absolute effort, there are no weights
/// to move.
pub proof fn absolute_efforts_leave_no_weights(relevant: Seq<ResponsibilityModel>)
    requires
        all_absolute(relevant),
    ensures
        weights(relevant).len() == 0,
    decreases relevant.len(),
{
    if relevant.len() > 0 {
        let front = relevant.drop_last();
        assert forall|i: int| 0 <= i < front.len() implies (#[trigger] front[i]).effort is Absolute by {
            assert(front[i] == relevant[i]);
        }
        absolute_efforts_leave_no_weights(front);
        assert(relevant[relevant.len() - 1].effort is Absolute);
    }
}

/// An absolute effort is rounded as it is: neither the total nor the other
/// responsibilities nor the jitter change what falls to it.
pub proof fn absolute_effort_stands(
    relevant: Seq<ResponsibilityModel>,
    i: int,
    total_weight: int,
    balance: int,
    jitter: Seq<int>,
    resolution: int,
)
    requires
        0 <= i < relevant.len(),
        relevant[i].effort is Absolute,
    ensures
        activities(relevant, total_weight, balance, jitter, resolution)[i].absolute_effort
            == rounded(relevant[i].effort->Absolute_0, 1, resolution),
{
    activity_of_each(relevant, i, total_weight, balance, jitter, resolution);
}

/// A relative effort is its share of what the absolute efforts leave of the
/// total.
pub proof fn relative_effort_shares_balance(
    date: Ymd,
    total: int,
    resolution: int,
    responsibilities: Seq<ResponsibilityModel>,
    jitter: Seq<int>,
    i: int,
)
    requires
        0 <= i < selected(responsibilities, date).len(),
        selected(responsibilities, date)[i].effort is Relative,
    ensures
        allocation(date, total, resolution, responsibilities, jitter).activities[i].absolute_effort
            == rounded(
            (selected(responsibilities, date)[i].effort->Relative_0 + jitter[weights(
                selected(responsibilities, date).take(i),
            ).len() as int]) * (total - absolute_sum(selected(responsibilities, date))),
            sum(weights(selected(responsibilities, date))),
            resolution,
        ),
{
    let relevant = selected(responsibilities, date);
    activity_of_each(
        relevant,
        i,
        sum(weights(relevant)),
        total - absolute_sum(relevant),
        jitter,
        resolution,
    );
}

/// On a day on which only absolute efforts apply, the activities and their
/// total are the same whatever the day's total effort and the jitter.
pub proof fn absolute_day_ignores_total(
    date: Ymd,
    total: int,
    other_total: int,
    resolution: int,
    responsibilities: Seq<ResponsibilityModel>,
    jitter: Seq<int>,
    other_jitter: Seq<int>,
)
    requires
        all_absolute(selected(responsibilities, date)),
    ensures
        allocation(date, total, resolution, responsibilities, jitter) == allocation(
            date,
            other_total,
            resolution,
            responsibilities,
            other_jitter,
        ),
{
    let relevant = selected(responsibilities, date);
    let weight = sum(weights(relevant));
    let one = activities(relevant, weight, total - absolute_sum(relevant), jitter, resolution);
    let other = activities(
        relevant,
        weight,
        other_total - absolute_sum(relevant),
        other_jitter,
        resolution,
    );
    assert forall|i: int| 0 <= i < relevant.len() implies one[i] == other[i] by {
        activity_of_each(
            relevant,
            i,
            weight,
            total - absolute_sum(relevant),
            jitter,
            resolution,
        );
        activity_of_each(
            relevant,
            i,
            weight,
            other_total - absolute_sum(relevant),
            other_jitter,
            resolution,
        );
    }
    if relevant.len() > 0 {
        activity_of_each(
            relevant,
            0,
            weight,
            total - absolute_sum(relevant),
            jitter,
            resolution,
        );
        activity_of_each(
            relevant,
            0,
            weight,
            other_total - absolute_sum(relevant),
            other_jitter,
            resolution,
        );
    }
    assert(one =~= other);
}

/// The effort of an activity lies within the day's reach.
pub(crate) proof fn lemma_effort_within_reach(
    relevant: Seq<ResponsibilityModel>,
    i: int,
    total: int,
    jitter: Seq<int>,
    resolution: int,
)
    requires
        0 <= i < relevant.len(),
        resolution > 0,
        weights_positive(relevant),
        moves_within(weights(relevant), jitter),
    ensures
        magnitude(
            resolved_effort(
                relevant[i].effort,
                sum(weights(relevant)),
                total - absolute_sum(relevant),
                match relevant[i].effort {
                    EffortModel::Absolute(_) => 0,
                    EffortModel::Relative(_) => jitter[weights(relevant.take(i)).len() as int],
                },
                resolution,
            ),
        ) <= reach(total, resolution, relevant),
        relevant[i].effort is Relative ==> sum(weights(relevant)) > 0,
{
    lemma_load_bounds_sum(relevant);
    lemma_load_prefix(relevant, i);
    lemma_load_prefix(relevant, i + 1);
    lemma_absolute_step(relevant, i);
    match relevant[i].effort {
        EffortModel::Absolute(value) => {
            rounded_whole_is_bounded(value, resolution);
        },
        EffortModel::Relative(weight) => {
            let place = weights(relevant.take(i)).len() as int;
            lemma_weight_at(relevant, i);
            lemma_weights_are_positive(relevant);
            sum_covers_each(weights(relevant), place);
            assert(0 <= weights(relevant)[place] + jitter[place] <= sum(weights(relevant)));
            rounded_share_is_bounded(
                weight + jitter[place],
                sum(weights(relevant)),
                total - absolute_sum(relevant),
                resolution,
            );
        },
    }
}

/// The efforts of a list of activities with one more at its end.
pub(crate) proof fn lemma_total_effort_push(activities: Seq<ActivityModel>, activity: ActivityModel)
    ensures
        total_effort(activities.push(activity)) == total_effort(activities)
            + activity.absolute_effort,
{
    assert(activities.push(activity).drop_last() =~= activities);
}

/// The first activities of a day are those of its first responsibilities.
pub(crate) proof fn lemma_activities_step(
    relevant: Seq<ResponsibilityModel>,
    i: int,
    total_weight: int,
    balance: int,
    jitter: Seq<int>,
    resolution: int,
)
    requires
        0 <= i < relevant.len(),
    ensures
        activities(relevant.take(i + 1), total_weight, balance, jitter, resolution) == activities(
            relevant.take(i),
            total_weight,
            balance,
            jitter,
            resolution,
        ).push(
            resolved(
                relevant[i],
                total_weight,
                balance,
                match relevant[i].effort {
                    EffortModel::Absolute(_) => 0,
                    EffortModel::Relative(_) => jitter[weights(relevant.take(i)).len() as int],
                },
                resolution,
            ),
        ),
{
    assert(relevant.take(i + 1).drop_last() =~= relevant.take(i));
}

/// A product grows with its first factor where the second is not negative.
pub(crate) proof fn lemma_count_times_reach(count: int, limit: int, reach: int)
    by (nonlinear_arith)
    requires
        0 <= count < limit,
        reach >= 0,
    ensures
        count * reach + reach <= limit * reach,
        (count + 1) * reach == count * reach + reach,
        0 <= count * reach,
        reach <= limit * reach,
{
}

} // verus!
