//! Sums and least values of lists of whole numbers.

use vstd::prelude::*;

verus! {

/// The values of a list of machine integers.
pub open spec fn ints(values: Seq<i64>) -> Seq<int> {
    values.map_values(|v: i64| v as int)
}

/// The sum of the values.
pub open spec fn sum(values: Seq<int>) -> int
    decreases values.len(),
{
    if values.len() == 0 {
        0
    } else {
        sum(values.drop_last()) + values.last()
    }
}

/// The smallest of the values, 0 where there is none.
pub open spec fn minimum(values: Seq<int>) -> int
    decreases values.len(),
{
    if values.len() == 0 {
        0
    } else if values.len() == 1 {
        values[0]
    } else if values.last() < minimum(values.drop_last()) {
        values.last()
    } else {
        minimum(values.drop_last())
    }
}

/// The values of `left`, each with the value of `right` at its place added.
pub open spec fn added(left: Seq<int>, right: Seq<int>) -> Seq<int> {
    Seq::new(left.len(), |k: int| left[k] + right[k])
}

/// The smallest value is one of the values, and none is below it.
pub proof fn minimum_is_least(values: Seq<int>)
    requires
        values.len() > 0,
    ensures
        values.contains(minimum(values)),
        forall|i: int| 0 <= i < values.len() ==> minimum(values) <= #[trigger] values[i],
    decreases values.len(),
{
    if values.len() == 1 {
        assert(values[0] == minimum(values));
    } else {
        let front = values.drop_last();
        minimum_is_least(front);
        if values.last() < minimum(front) {
            assert(values[values.len() - 1] == minimum(values));
        } else {
            let k = choose|k: int| 0 <= k < front.len() && front[k] == minimum(front);
            assert(values[k] == minimum(values));
        }
        assert forall|i: int| 0 <= i < values.len() implies minimum(values)
            <= #[trigger] values[i] by {
            if i < front.len() {
                assert(front[i] == values[i]);
            }
        }
    }
}

/// One more value at the end of a list adds itself to the sum.
pub proof fn sum_of_pushed(values: Seq<int>, value: int)
    ensures
        sum(values.push(value)) == sum(values) + value,
{
    assert(values.push(value).drop_last() =~= values);
}

/// Values that are not negative do not add up to less than zero.
pub proof fn sum_is_not_negative(values: Seq<int>)
    requires
        forall|m: int| 0 <= m < values.len() ==> #[trigger] values[m] >= 0,
    ensures
        sum(values) >= 0,
    decreases values.len(),
{
    if values.len() > 0 {
        sum_is_not_negative(values.drop_last());
    }
}

/// Of values that are not negative, the first ones add up to no more than
/// all of them.
pub proof fn sum_covers_prefix(values: Seq<int>, k: int)
    requires
        0 <= k <= values.len(),
        forall|m: int| 0 <= m < values.len() ==> #[trigger] values[m] >= 0,
    ensures
        0 <= sum(values.take(k)) <= sum(values),
    decreases values.len(),
{
    sum_is_not_negative(values.take(k));
    if k == values.len() {
        assert(values.take(k) =~= values);
    } else {
        let front = values.drop_last();
        sum_covers_prefix(front, k);
        assert(front.take(k) =~= values.take(k));
    }
}

/// Of values that are not negative, none is above the sum of all.
pub proof fn sum_covers_each(values: Seq<int>, k: int)
    requires
        0 <= k < values.len(),
        forall|m: int| 0 <= m < values.len() ==> #[trigger] values[m] >= 0,
    ensures
        0 <= values[k] <= sum(values),
{
    sum_covers_prefix(values, k);
    sum_covers_prefix(values, k + 1);
    assert(values.take(k + 1).drop_last() =~= values.take(k));
}

/// Two lists of one length, added value by value, add up to the two sums.
pub proof fn sum_of_added(left: Seq<int>, right: Seq<int>)
    requires
        left.len() == right.len(),
    ensures
        sum(added(left, right)) == sum(left) + sum(right),
    decreases left.len(),
{
    if left.len() > 0 {
        sum_of_added(left.drop_last(), right.drop_last());
        assert(added(left, right).drop_last() =~= added(left.drop_last(), right.drop_last()));
    }
}

/// Zeros add up to zero.
pub proof fn sum_of_zeros(values: Seq<int>)
    requires
        forall|k: int| 0 <= k < values.len() ==> values[k] == 0,
    ensures
        sum(values) == 0,
    decreases values.len(),
{
    if values.len() > 0 {
        sum_of_zeros(values.drop_last());
    }
}

} // verus!
