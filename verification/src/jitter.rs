//! A random perturbation of weights that adds up to nothing.
//!
//! One offset is drawn for each weight, from a range given by the smallest
//! weight. The offsets are then recentred, so that their sum is zero, and the
//! draw is repeated until every recentred offset stays within that range.

use crate::sequences::added;
use crate::sequences::ints;
use crate::sequences::minimum;
use crate::sequences::minimum_is_least;
use crate::sequences::sum;
use crate::sequences::sum_of_added;
use crate::sequences::sum_of_zeros;
use rand::distributions::Distribution;
use rand::distributions::Uniform;
use rand::rngs::ThreadRng;
use vstd::prelude::*;

verus! {

/// The most draws that `jitter` makes before it settles for no perturbation.
/// It is beyond what a run can reach, and there so that `jitter` ends on
/// every input.
pub const REDRAW_LIMIT: u64 = u64::MAX;

/// `rand::rngs::ThreadRng`, the generator of random numbers that each thread
/// has for itself. Nothing is known of what it holds.
#[verifier::external_type_specification]
#[verifier::external_body]
pub struct ExThreadRng(rand::rngs::ThreadRng);

/// `ThreadRng::default`: a handle to the generator of the calling thread.
/// Nothing is claimed of it.
#[verifier::external_body]
fn thread_generator() -> ThreadRng {
    ThreadRng::default()
}

/// `Uniform::from` on the range `low..high`, and one `sample` from it with
/// the given generator: a whole number from `low` up to, but not including,
/// `high`. Which one is not known. `Uniform::from` panics on a range that
/// holds no number, so `low` must be below `high`.
#[verifier::external_body]
fn sample_between(generator: &mut ThreadRng, low: i64, high: i64) -> (sample: i64)
    requires
        low < high,
    ensures
        low <= sample < high,
{
    Uniform::from(low..high).sample(generator)
}

/// Whether every value lies between `-bound` and `bound`, both included.
pub open spec fn stays_within(values: Seq<int>, bound: int) -> bool {
    forall|i: int| 0 <= i < values.len() ==> -bound <= #[trigger] values[i] <= bound
}

/// Whether `offsets` can come out of a draw of `count` offsets from `-bound`
/// up to, but not including, `bound`.
pub open spec fn is_draw(offsets: Seq<int>, count: nat, bound: int) -> bool {
    &&& offsets.len() == count
    &&& forall|i: int| 0 <= i < offsets.len() ==> -bound <= #[trigger] offsets[i] < bound
}

/// The mean of the offsets, as a whole number, rounded down.
pub open spec fn mean(offsets: Seq<int>) -> int
    recommends
        offsets.len() > 0,
{
    sum(offsets) / (offsets.len() as int)
}

/// What the sum of the offsets has above their mean taken once for each.
pub open spec fn excess(offsets: Seq<int>) -> int
    recommends
        offsets.len() > 0,
{
    sum(offsets) % (offsets.len() as int)
}

/// The offsets less their mean. The excess is taken off the first offsets,
/// one from each.
pub open spec fn recentred(offsets: Seq<int>) -> Seq<int>
    recommends
        offsets.len() > 0,
{
    Seq::new(
        offsets.len(),
        |i: int|
            offsets[i] - mean(offsets) - if i < excess(offsets) {
                1int
            } else {
                0int
            },
    )
}

/// Whether `output` is a perturbation for the weights `source`: one offset
/// for each weight, none beyond the smallest weight in either direction, and
/// all of them together zero.
pub open spec fn is_perturbation(source: Seq<int>, output: Seq<int>) -> bool {
    &&& output.len() == source.len()
    &&& sum(output) == 0
    &&& stays_within(output, minimum(source))
}

/// The sum of the first `k` recentred offsets.
proof fn lemma_recentred_prefix(offsets: Seq<int>, k: int)
    requires
        0 <= k <= offsets.len(),
        offsets.len() > 0,
    ensures
        sum(recentred(offsets).take(k)) == sum(offsets.take(k)) - k * mean(offsets) - if k
            < excess(offsets) {
            k
        } else {
            excess(offsets)
        },
    decreases k,
{
    if k == 0 {
        assert(0 * mean(offsets) == 0);
    } else {
        lemma_recentred_prefix(offsets, k - 1);
        assert(recentred(offsets).take(k).drop_last() =~= recentred(offsets).take(k - 1));
        assert(offsets.take(k).drop_last() =~= offsets.take(k - 1));
        assert(k * mean(offsets) == (k - 1) * mean(offsets) + mean(offsets))
            by (nonlinear_arith);
    }
}

/// Recentred offsets add up to zero.
pub proof fn recentred_sums_to_zero(offsets: Seq<int>)
    requires
        offsets.len() > 0,
    ensures
        recentred(offsets).len() == offsets.len(),
        sum(recentred(offsets)) == 0,
{
    let count = offsets.len() as int;
    lemma_recentred_prefix(offsets, count);
    assert(recentred(offsets).take(count) =~= recentred(offsets));
    assert(offsets.take(count) =~= offsets);
    vstd::arithmetic::div_mod::lemma_fundamental_div_mod(sum(offsets), count);
    assert(count * mean(offsets) == mean(offsets) * count) by (nonlinear_arith);
}

/// Weights that a perturbation has moved add up to what they added up to
/// before.
pub proof fn perturbation_keeps_the_sum(source: Seq<int>, output: Seq<int>)
    requires
        is_perturbation(source, output),
    ensures
        sum(added(source, output)) == sum(source),
{
    sum_of_added(source, output);
}

/// The smallest value of `source`.
pub fn smallest(source: &Vec<i64>) -> (least: i64)
    requires
        source.len() > 0,
    ensures
        least == minimum(ints(source@)),
{
    let mut least: i64 = source[0];
    let mut i: usize = 1;
    assert(ints(source@).take(1) =~= seq![source[0] as int]);
    while i < source.len()
        invariant
            1 <= i <= source.len(),
            least == minimum(ints(source@).take(i as int)),
        decreases source.len() - i,
    {
        assert(ints(source@).take(i + 1).drop_last() =~= ints(source@).take(i as int));
        if source[i] < least {
            least = source[i];
        }
        i += 1;
    }
    assert(ints(source@).take(source.len() as int) =~= ints(source@));
    least
}

/// The sum of `values`.
fn total(values: &Vec<i64>) -> (total: i128)
    ensures
        total == sum(ints(values@)),
        -0x8000_0000_0000_0000 * values.len() <= total <= 0x8000_0000_0000_0000 * values.len(),
{
    let mut total: i128 = 0;
    let mut i: usize = 0;
    while i < values.len()
        invariant
            i <= values.len(),
            total == sum(ints(values@).take(i as int)),
            -0x8000_0000_0000_0000 * i <= total <= 0x8000_0000_0000_0000 * i,
        decreases values.len() - i,
    {
        assert(ints(values@).take(i + 1).drop_last() =~= ints(values@).take(i as int));
        total = total + values[i] as i128;
        i += 1;
    }
    assert(ints(values@).take(values.len() as int) =~= ints(values@));
    total
}

/// The drawn offsets less their mean, where none of them then lies beyond
/// `bound` in either direction.
pub fn recentre(offsets: &Vec<i64>, bound: i64) -> (output: Option<Vec<i64>>)
    requires
        offsets.len() > 0,
    ensures
        output.is_some() <==> stays_within(recentred(ints(offsets@)), bound as int),
        output.is_some() ==> ints(output.unwrap()@) == recentred(ints(offsets@)),
{
    let count: i128 = offsets.len() as i128;
    let total: i128 = total(offsets);
    let size: i128 = if total < 0 {
        -total
    } else {
        total
    };
    let whole: i128 = size / count;
    let rest: i128 = size % count;
    let centre: i128 = if total >= 0 {
        whole
    } else if rest == 0 {
        -whole
    } else {
        -whole - 1
    };
    let left: i128 = if total >= 0 || rest == 0 {
        rest
    } else {
        count - rest
    };
    proof {
        vstd::arithmetic::div_mod::lemma_fundamental_div_mod(size as int, count as int);
        assert(total == centre * count + left) by (nonlinear_arith)
            requires
                size == count * whole + rest,
                total >= 0 ==> total == size && centre == whole && left == rest,
                total < 0 && rest == 0 ==> total == -size && centre == -whole && left == 0,
                total < 0 && rest != 0 ==> total == -size && centre == -whole - 1 && left == count
                    - rest,
        ;
        vstd::arithmetic::div_mod::lemma_fundamental_div_mod_converse(
            total as int,
            count as int,
            centre as int,
            left as int,
        );
        assert(-0x8000_0000_0000_0000 <= centre <= 0x8000_0000_0000_0000) by (nonlinear_arith)
            requires
                total == centre * count + left,
                0 <= left < count,
                -0x8000_0000_0000_0000 * count <= total <= 0x8000_0000_0000_0000 * count,
        ;
    }
    let ghost target = recentred(ints(offsets@));
    let mut output: Vec<i64> = Vec::new();
    let mut i: usize = 0;
    while i < offsets.len()
        invariant
            i <= offsets.len(),
            count == offsets.len(),
            target == recentred(ints(offsets@)),
            centre == mean(ints(offsets@)),
            left == excess(ints(offsets@)),
            -0x8000_0000_0000_0000 <= centre <= 0x8000_0000_0000_0000,
            output.len() == i,
            forall|k: int| 0 <= k < i ==> #[trigger] output[k] as int == target[k],
            forall|k: int| 0 <= k < i ==> -bound <= #[trigger] target[k] <= bound,
        decreases offsets.len() - i,
    {
        let share: i128 = if (i as i128) < left {
            1
        } else {
            0
        };
        let value: i128 = offsets[i] as i128 - centre - share;
        assert(value == target[i as int]);
        if value < -(bound as i128) || value > bound as i128 {
            return None;
        }
        output.push(value as i64);
        i += 1;
    }
    assert(ints(output@) =~= target);
    Some(output)
}

/// `count` offsets, each drawn from `-bound` up to, but not including,
/// `bound`.
fn draw(generator: &mut ThreadRng, count: usize, bound: i64) -> (offsets: Vec<i64>)
    requires
        bound > 0,
    ensures
        is_draw(ints(offsets@), count as nat, bound as int),
{
    let mut offsets: Vec<i64> = Vec::new();
    let mut i: usize = 0;
    while i < count
        invariant
            i <= count,
            bound > 0,
            offsets.len() == i,
            forall|k: int| 0 <= k < i ==> -bound <= #[trigger] offsets[k] < bound,
        decreases count - i,
    {
        let offset: i64 = sample_between(generator, -bound, bound);
        offsets.push(offset);
        i += 1;
    }
    offsets
}

/// `count` offsets of zero.
fn no_offsets(count: usize) -> (offsets: Vec<i64>)
    ensures
        offsets.len() == count,
        forall|k: int| 0 <= k < count ==> offsets[k] == 0,
{
    let mut offsets: Vec<i64> = Vec::new();
    let mut i: usize = 0;
    while i < count
        invariant
            i <= count,
            offsets.len() == i,
            forall|k: int| 0 <= k < i ==> offsets[k] == 0,
        decreases count - i,
    {
        offsets.push(0);
        i += 1;
    }
    offsets
}

/// A perturbation for the weights `source`: one offset for each weight, in
/// the order of the weights.
///
/// The offsets are a recentred draw from the range that the smallest weight
/// gives. A draw that leaves that range when it is recentred is thrown away
/// and made again. After `REDRAW_LIMIT` draws the offsets are all zero, which
/// is the recentred draw of zeros.
pub fn jitter(source: &Vec<i64>) -> (output: Vec<i64>)
    requires
        forall|i: int| 0 <= i < source.len() ==> source[i] > 0,
    ensures
        is_perturbation(ints(source@), ints(output@)),
        sum(added(ints(source@), ints(output@))) == sum(ints(source@)),
        source.len() > 0 ==> exists|offsets: Seq<int>| #[trigger]
            is_draw(offsets, source.len() as nat, minimum(ints(source@))) && ints(output@)
                == recentred(offsets),
{
    if source.len() == 0 {
        let output: Vec<i64> = Vec::new();
        proof {
            perturbation_keeps_the_sum(ints(source@), ints(output@));
        }
        return output;
    }
    let bound: i64 = smallest(source);
    proof {
        minimum_is_least(ints(source@));
        let k = choose|k: int| 0 <= k < source.len() && ints(source@)[k] == minimum(ints(source@));
        assert(source[k] > 0);
    }
    let mut generator: ThreadRng = thread_generator();
    let mut draws: u64 = 0;
    while draws < REDRAW_LIMIT
        invariant
            source.len() > 0,
            bound > 0,
            bound == minimum(ints(source@)),
        decreases REDRAW_LIMIT - draws,
    {
        let offsets: Vec<i64> = draw(&mut generator, source.len(), bound);
        match recentre(&offsets, bound) {
            Some(output) => {
                proof {
                    recentred_sums_to_zero(ints(offsets@));
                    assert(is_draw(ints(offsets@), source.len() as nat, minimum(ints(source@))));
                    perturbation_keeps_the_sum(ints(source@), ints(output@));
                }
                return output;
            },
            None => {},
        }
        draws += 1;
    }
    let output: Vec<i64> = no_offsets(source.len());
    proof {
        let zeros = ints(output@);
        sum_of_zeros(zeros);
        assert(recentred(zeros) =~= zeros);
        assert(is_draw(zeros, source.len() as nat, minimum(ints(source@))));
        perturbation_keeps_the_sum(ints(source@), zeros);
    }
    output
}

} // verus!
