//! The day at work: every responsibility that applies on a date, with the
//! effort that falls to it.

use crate::activity::Activity;
use crate::activity::ActivityModel;
use crate::allocation::absolute_load;
use crate::allocation::absolute_sum;
use crate::allocation::activities;
use crate::allocation::admissible;
use crate::allocation::allocation;
use crate::allocation::allocation_is_day;
use crate::allocation::is_day_of;
use crate::allocation::lemma_absolute_step;
use crate::allocation::lemma_activities_step;
use crate::allocation::lemma_count_times_reach;
use crate::allocation::lemma_effort_within_reach;
use crate::allocation::lemma_load_bounds_sum;
use crate::allocation::lemma_load_prefix;
use crate::allocation::lemma_total_effort_push;
use crate::allocation::lemma_weight_at;
use crate::allocation::lemma_weights_are_positive;
use crate::allocation::lemma_weights_prefix;
use crate::allocation::moves_within;
use crate::allocation::perturbation_moves_within;
use crate::allocation::reach;
use crate::allocation::selected;
use crate::allocation::total_effort;
use crate::allocation::weights;
use crate::allocation::weights_positive;
use crate::allocation::DayModel;
use crate::date::Date;
use crate::jitter::is_perturbation;
use crate::jitter::jitter;
use crate::responsibility::Effort;
use crate::responsibility::EffortModel;
use crate::responsibility::Responsibility;
use crate::responsibility::ResponsibilityModel;
use crate::rounding::magnitude;
use crate::sequences::ints;
use crate::sequences::sum;
use crate::sequences::sum_covers_prefix;
use crate::sequences::sum_of_pushed;
use vstd::prelude::*;

verus! {

/// What each of the responsibilities stands for.
pub open spec fn models(responsibilities: Seq<Responsibility>) -> Seq<ResponsibilityModel> {
    responsibilities.map_values(|r: Responsibility| r@)
}

/// What each of the borrowed responsibilities stands for.
pub open spec fn borrowed_models(relevant: Seq<&Responsibility>) -> Seq<ResponsibilityModel> {
    relevant.map_values(|r: &Responsibility| r@)
}

/// The responsibilities that apply on `date`, in their order.
pub fn select<'a>(date: &Date, responsibilities: &'a Vec<Responsibility>) -> (relevant: Vec<
    &'a Responsibility,
>)
    ensures
        borrowed_models(relevant@) == selected(models(responsibilities@), date@),
{
    let mut relevant: Vec<&Responsibility> = Vec::new();
    let ghost all = models(responsibilities@);
    let mut i: usize = 0;
    while i < responsibilities.len()
        invariant
            i <= responsibilities.len(),
            all == models(responsibilities@),
            borrowed_models(relevant@) == selected(all.take(i as int), date@),
        decreases responsibilities.len() - i,
    {
        let r: &Responsibility = &responsibilities[i];
        proof {
            assert(all.take(i + 1).drop_last() =~= all.take(i as int));
            assert(all.take(i + 1).last() == r@);
        }
        if r.distribution.applies_on(date) {
            proof {
                assert(borrowed_models(relevant@.push(r)) =~= borrowed_models(relevant@).push(r@));
            }
            relevant.push(r);
        }
        i += 1;
    }
    proof {
        assert(all.take(responsibilities.len() as int) =~= all);
    }
    relevant
}

/// The total of the weights, what the absolute efforts leave of
/// `tot_abs_eff`, and the weights themselves.
fn aggregate(tot_abs_eff: i64, relevant: &Vec<&Responsibility>) -> (aggregate: (i64, i64, Vec<i64>))
    requires
        weights_positive(borrowed_models(relevant@)),
        sum(weights(borrowed_models(relevant@))) <= i64::MAX,
        relevant.len() > 0 ==> magnitude(tot_abs_eff as int) + absolute_load(
            borrowed_models(relevant@),
        ) <= i64::MAX,
    ensures
        aggregate.0 == sum(weights(borrowed_models(relevant@))),
        aggregate.1 == tot_abs_eff - absolute_sum(borrowed_models(relevant@)),
        ints(aggregate.2@) == weights(borrowed_models(relevant@)),
{
    let mut tot_rel_eff: i64 = 0;
    let mut bal_abs_eff: i64 = tot_abs_eff;
    let mut jitter_source: Vec<i64> = Vec::new();
    let ghost all = borrowed_models(relevant@);
    proof {
        lemma_weights_are_positive(all);
        assert(ints(jitter_source@) =~= weights(all.take(0)));
    }
    let mut i: usize = 0;
    while i < relevant.len()
        invariant
            i <= relevant.len(),
            all == borrowed_models(relevant@),
            forall|k: int| 0 <= k < weights(all).len() ==> #[trigger] weights(all)[k] > 0,
            sum(weights(all)) <= i64::MAX,
            relevant.len() > 0 ==> magnitude(tot_abs_eff as int) + absolute_load(all) <= i64::MAX,
            tot_rel_eff == sum(weights(all.take(i as int))),
            bal_abs_eff == tot_abs_eff - absolute_sum(all.take(i as int)),
            ints(jitter_source@) == weights(all.take(i as int)),
        decreases relevant.len() - i,
    {
        let r: &Responsibility = relevant[i];
        proof {
            assert(all[i as int] == r@);
            assert(all.take(i + 1).drop_last() =~= all.take(i as int));
            lemma_absolute_step(all, i as int);
            lemma_load_prefix(all, i + 1);
            lemma_load_bounds_sum(all.take(i + 1));
            lemma_weights_prefix(all, i + 1);
            sum_covers_prefix(weights(all), weights(all.take(i + 1)).len() as int);
        }
        match r.effort {
            Effort::Absolute(effort) => {
                bal_abs_eff = bal_abs_eff - effort;
            },
            Effort::Relative(effort) => {
                proof {
                    sum_of_pushed(weights(all.take(i as int)), effort as int);
                    assert(ints(jitter_source@.push(effort)) =~= ints(jitter_source@).push(
                        effort as int,
                    ));
                }
                tot_rel_eff = tot_rel_eff + effort;
                jitter_source.push(effort);
            },
        }
        i += 1;
    }
    proof {
        assert(all.take(relevant.len() as int) =~= all);
    }
    (tot_rel_eff, bal_abs_eff, jitter_source)
}

/// What each of the activities stands for.
pub open spec fn activity_models<'a>(activities: Seq<Activity<'a>>) -> Seq<ActivityModel> {
    activities.map_values(|a: Activity<'a>| a@)
}

/// The activities of a day, with the efforts that fall to them.
#[derive(Debug, PartialEq)]
pub struct DayAtWork<'a> {
    activities: Vec<Activity<'a>>,
    date: Date,
    total_effort: i64,
}

impl<'a> View for DayAtWork<'a> {
    type V = DayModel;

    closed spec fn view(&self) -> DayModel {
        DayModel {
            date: self.date@,
            activities: activity_models(self.activities@),
            total_effort: self.total_effort as int,
        }
    }
}

impl<'a> DayAtWork<'a> {
    #[verifier::type_invariant]
    spec fn adds_up(self) -> bool {
        self.total_effort == total_effort(activity_models(self.activities@))
    }

    /// The day at work on `date`: the responsibilities that apply on it, with
    /// what the absolute ones take of `tot_abs_eff` and what falls to each of
    /// the relative ones of the rest, every effort rounded to `resolution`.
    ///
    /// The relative weights are moved by a perturbation that `jitter` draws
    /// for them.
    pub fn new(
        date: Date,
        tot_abs_eff: i64,
        resolution: i64,
        responsibilities: &'a Vec<Responsibility>,
    ) -> (day: DayAtWork<'a>)
        requires
            admissible(
                date@,
                tot_abs_eff as int,
                resolution as int,
                models(responsibilities@),
            ),
        ensures
            exists|jitter: Seq<int>| #[trigger]
                is_perturbation(weights(selected(models(responsibilities@), date@)), jitter)
                    && day@ == allocation(
                    date@,
                    tot_abs_eff as int,
                    resolution as int,
                    models(responsibilities@),
                    jitter,
                ),
            weights(selected(models(responsibilities@), date@)).len() == 0 ==> day@ == allocation(
                date@,
                tot_abs_eff as int,
                resolution as int,
                models(responsibilities@),
                Seq::empty(),
            ),
            is_day_of(day@, date@, resolution as int, models(responsibilities@)),
    {
        let relevant: Vec<&'a Responsibility> = select(&date, responsibilities);
        let ghost all = borrowed_models(relevant@);
        proof {
            lemma_load_prefix(all, 0);
            if relevant.len() > 0 {
                lemma_count_times_reach(
                    0,
                    relevant.len() as int,
                    reach(tot_abs_eff as int, resolution as int, all),
                );
            }
            lemma_weights_are_positive(all);
        }
        let parts: (i64, i64, Vec<i64>) = aggregate(tot_abs_eff, &relevant);
        let tot_rel_eff: i64 = parts.0;
        let bal_abs_eff: i64 = parts.1;
        let jitter_source: Vec<i64> = parts.2;
        proof {
            assert forall|i: int| 0 <= i < jitter_source.len() implies jitter_source[i] > 0 by {
                assert(ints(jitter_source@)[i] == weights(all)[i]);
            }
        }
        let effort_jitter: Vec<i64> = jitter(&jitter_source);
        proof {
            perturbation_moves_within(weights(all), ints(effort_jitter@));
        }
        let day: DayAtWork<'a> = Self::resolve(
            date,
            resolution,
            relevant,
            tot_rel_eff,
            bal_abs_eff,
            &effort_jitter,
            Ghost(tot_abs_eff as int),
        );
        proof {
            assert(is_perturbation(
                weights(selected(models(responsibilities@), date@)),
                ints(effort_jitter@),
            ));
            if weights(all).len() == 0 {
                assert(ints(effort_jitter@) =~= Seq::empty());
            }
            allocation_is_day(
                date@,
                tot_abs_eff as int,
                resolution as int,
                models(responsibilities@),
                ints(effort_jitter@),
            );
        }
        day
    }

    /// Whether `new` can work out the day on `date`.
    pub fn admits(
        date: &Date,
        tot_abs_eff: i64,
        resolution: i64,
        responsibilities: &Vec<Responsibility>,
    ) -> (admits: bool)
        ensures
            admits == admissible(
                date@,
                tot_abs_eff as int,
                resolution as int,
                models(responsibilities@),
            ),
    {
        if resolution <= 0 {
            return false;
        }
        let relevant: Vec<&Responsibility> = select(date, responsibilities);
        let ghost all = borrowed_models(relevant@);
        let mut load: i128 = 0;
        let mut weight: i128 = 0;
        let mut i: usize = 0;
        while i < relevant.len()
            invariant
                i <= relevant.len(),
                resolution > 0,
                all == borrowed_models(relevant@),
                all == selected(models(responsibilities@), date@),
                load == absolute_load(all.take(i as int)),
                weight == sum(weights(all.take(i as int))),
                0 <= load <= i64::MAX,
                0 <= weight <= i64::MAX,
                weights_positive(all.take(i as int)),
            decreases relevant.len() - i,
        {
            let r: &Responsibility = relevant[i];
            proof {
                assert(all[i as int] == r@);
                assert(all.take(i + 1).drop_last() =~= all.take(i as int));
                lemma_absolute_step(all, i as int);
                lemma_load_prefix(all, i + 1);
                lemma_count_times_reach(
                    0,
                    relevant.len() as int,
                    reach(tot_abs_eff as int, resolution as int, all),
                );
            }
            match r.effort {
                Effort::Absolute(effort) => {
                    let size: i128 = if effort < 0 {
                        -(effort as i128)
                    } else {
                        effort as i128
                    };
                    if load + size > i64::MAX as i128 {
                        return false;
                    }
                    load = load + size;
                },
                Effort::Relative(effort) => {
                    if effort <= 0 {
                        return false;
                    }
                    proof {
                        lemma_weight_at(all, i as int);
                        sum_of_pushed(weights(all.take(i as int)), effort as int);
                        if weights_positive(all) {
                            lemma_weights_are_positive(all);
                            lemma_weights_prefix(all, i + 1);
                            sum_covers_prefix(weights(all), weights(all.take(i + 1)).len() as int);
                        }
                    }
                    if weight + effort as i128 > i64::MAX as i128 {
                        return false;
                    }
                    weight = weight + effort as i128;
                },
            }
            proof {
                assert forall|k: int| 0 <= k < i + 1 implies match (#[trigger] all.take(
                    i + 1,
                )[k]).effort {
                    EffortModel::Absolute(_) => true,
                    EffortModel::Relative(weight) => weight > 0,
                } by {
                    if k < i {
                        assert(all.take(i as int)[k] == all.take(i + 1)[k]);
                    }
                }
            }
            i += 1;
        }
        proof {
            assert(all.take(relevant.len() as int) =~= all);
        }
        if relevant.len() == 0 {
            return true;
        }
        let total_size: i128 = if tot_abs_eff < 0 {
            -(tot_abs_eff as i128)
        } else {
            tot_abs_eff as i128
        };
        let limit: i128 = total_size + load + resolution as i128;
        proof {
            lemma_count_times_reach(0, relevant.len() as int, limit as int);
        }
        if limit > i64::MAX as i128 {
            return false;
        }
        proof {
            assert(relevant.len() * limit <= 0xffff_ffff_ffff_ffff * 0x7fff_ffff_ffff_ffff)
                by (nonlinear_arith)
                requires
                    0 <= relevant.len() <= 0xffff_ffff_ffff_ffff,
                    0 <= limit <= 0x7fff_ffff_ffff_ffff,
            ;
        }
        relevant.len() as i128 * limit <= i64::MAX as i128
    }

    /// The day at work on `date`, as `new` gives it, with the relative
    /// weights moved by `effort_jitter`: the first offset moves the first
    /// relative weight that applies, and so on.
    pub fn with_jitter(
        date: Date,
        tot_abs_eff: i64,
        resolution: i64,
        responsibilities: &'a Vec<Responsibility>,
        effort_jitter: &Vec<i64>,
    ) -> (day: DayAtWork<'a>)
        requires
            admissible(
                date@,
                tot_abs_eff as int,
                resolution as int,
                models(responsibilities@),
            ),
            moves_within(
                weights(selected(models(responsibilities@), date@)),
                ints(effort_jitter@),
            ),
        ensures
            day@ == allocation(
                date@,
                tot_abs_eff as int,
                resolution as int,
                models(responsibilities@),
                ints(effort_jitter@),
            ),
            is_day_of(day@, date@, resolution as int, models(responsibilities@)),
    {
        let relevant: Vec<&'a Responsibility> = select(&date, responsibilities);
        let ghost all = borrowed_models(relevant@);
        proof {
            lemma_load_prefix(all, 0);
            if relevant.len() > 0 {
                lemma_count_times_reach(
                    0,
                    relevant.len() as int,
                    reach(tot_abs_eff as int, resolution as int, all),
                );
            }
        }
        let parts: (i64, i64, Vec<i64>) = aggregate(tot_abs_eff, &relevant);
        proof {
            allocation_is_day(
                date@,
                tot_abs_eff as int,
                resolution as int,
                models(responsibilities@),
                ints(effort_jitter@),
            );
        }
        Self::resolve(
            date,
            resolution,
            relevant,
            parts.0,
            parts.1,
            effort_jitter,
            Ghost(tot_abs_eff as int),
        )
    }

    /// The activities, in the order of their responsibilities.
    pub fn activities(&self) -> (activities: &Vec<Activity<'a>>)
        ensures
            activity_models(activities@) == self@.activities,
    {
        &self.activities
    }

    /// The date of the day.
    pub fn date(&self) -> (date: Date)
        ensures
            date@ == self@.date,
    {
        self.date
    }

    /// The efforts of the activities, added up.
    pub fn total_effort(&self) -> (total: i64)
        ensures
            total == self@.total_effort,
            total == total_effort(self@.activities),
    {
        proof {
            use_type_invariant(self);
        }
        self.total_effort
    }

    /// The activities of the responsibilities in `relevant`, in their order,
    /// and their total.
    fn resolve(
        date: Date,
        resolution: i64,
        relevant: Vec<&'a Responsibility>,
        tot_rel_eff: i64,
        bal_abs_eff: i64,
        effort_jitter: &Vec<i64>,
        Ghost(total): Ghost<int>,
    ) -> (day: DayAtWork<'a>)
        requires
            resolution > 0,
            weights_positive(borrowed_models(relevant@)),
            moves_within(weights(borrowed_models(relevant@)), ints(effort_jitter@)),
            tot_rel_eff == sum(weights(borrowed_models(relevant@))),
            bal_abs_eff == total - absolute_sum(borrowed_models(relevant@)),
            relevant.len() * reach(total, resolution as int, borrowed_models(relevant@))
                <= i64::MAX,
        ensures
            day@.date == date@,
            day@.activities == activities(
                borrowed_models(relevant@),
                tot_rel_eff as int,
                bal_abs_eff as int,
                ints(effort_jitter@),
                resolution as int,
            ),
            day@.total_effort == total_effort(day@.activities),
    {
        let mut entries: Vec<Activity<'a>> = Vec::new();
        let mut running: i64 = 0;
        let mut place: usize = 0;
        let ghost all = borrowed_models(relevant@);
        let ghost moves = ints(effort_jitter@);
        let ghost limit = reach(total, resolution as int, all);
        proof {
            lemma_load_prefix(all, 0);
            assert(activity_models(entries@) =~= activities(
                all.take(0),
                tot_rel_eff as int,
                bal_abs_eff as int,
                moves,
                resolution as int,
            ));
        }
        let mut i: usize = 0;
        while i < relevant.len()
            invariant
                i <= relevant.len(),
                resolution > 0,
                all == borrowed_models(relevant@),
                moves == ints(effort_jitter@),
                limit == reach(total, resolution as int, all),
                limit >= 0,
                weights_positive(all),
                moves_within(weights(all), moves),
                tot_rel_eff == sum(weights(all)),
                bal_abs_eff == total - absolute_sum(all),
                relevant.len() * limit <= i64::MAX,
                place == weights(all.take(i as int)).len(),
                activity_models(entries@) == activities(
                    all.take(i as int),
                    tot_rel_eff as int,
                    bal_abs_eff as int,
                    moves,
                    resolution as int,
                ),
                running == total_effort(activity_models(entries@)),
                magnitude(running as int) <= i * limit,
            decreases relevant.len() - i,
        {
            let r: &'a Responsibility = relevant[i];
            proof {
                assert(all[i as int] == r@);
                lemma_effort_within_reach(all, i as int, total, moves, resolution as int);
                lemma_activities_step(
                    all,
                    i as int,
                    tot_rel_eff as int,
                    bal_abs_eff as int,
                    moves,
                    resolution as int,
                );
                lemma_count_times_reach(i as int, relevant.len() as int, limit);
                assert(all.take(i + 1).drop_last() =~= all.take(i as int));
            }
            let moved: i64 = match r.effort {
                Effort::Absolute(_) => 0,
                Effort::Relative(_) => {
                    proof {
                        lemma_weight_at(all, i as int);
                        assert(place < effort_jitter.len());
                    }
                    let moved: i64 = effort_jitter[place];
                    place = place + 1;
                    moved
                },
            };
            let activity: Activity<'a> = Activity::from(
                r,
                tot_rel_eff,
                bal_abs_eff,
                moved,
                resolution,
            );
            proof {
                lemma_total_effort_push(activity_models(entries@), activity@);
                assert(activity_models(entries@.push(activity)) =~= activity_models(
                    entries@,
                ).push(activity@));
            }
            running = running + activity.absolute_effort;
            entries.push(activity);
            i += 1;
        }
        proof {
            assert(all.take(relevant.len() as int) =~= all);
        }
        DayAtWork { activities: entries, date, total_effort: running }
    }
}

} // verus!
