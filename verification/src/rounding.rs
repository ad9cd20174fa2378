//! Rounding of an effort to the grid of a resolution.
//!
//! The value to round is a fraction `numerator / denominator`. It goes to the
//! nearest multiple of the resolution, and to the upper one of the two where
//! it lies half way between them. This holds of negative values too.

use vstd::prelude::*;

verus! {

/// The multiple of `resolution` that `numerator / denominator` is rounded to.
///
/// The remainder is what the value has above the multiple below it, so it is
/// never negative. A remainder below half a step is dropped, any other is
/// filled up to the next step.
pub open spec fn rounded(numerator: int, denominator: int, resolution: int) -> int
    recommends
        denominator > 0,
        resolution > 0,
{
    let step = denominator * resolution;
    let steps = numerator / step;
    let remainder = numerator % step;
    if 2 * remainder < step {
        steps * resolution
    } else {
        (steps + 1) * resolution
    }
}

/// Whether `numerator / denominator` lies on the grid, `steps` steps from
/// zero.
pub open spec fn is_on_grid(numerator: int, denominator: int, resolution: int, steps: int) -> bool {
    numerator == steps * resolution * denominator
}

/// Whether `numerator / denominator` lies half way between `steps` steps and
/// one step more.
pub open spec fn is_half_way(numerator: int, denominator: int, resolution: int, steps: int) -> bool {
    2 * numerator == (2 * steps + 1) * (denominator * resolution)
}

/// The magnitude of a signed value.
pub open spec fn magnitude(value: int) -> int {
    if value < 0 {
        -value
    } else {
        value
    }
}

/// The sign and the magnitude of a fraction's numerator, as one integer.
pub open spec fn signed(negative: bool, magnitude: int) -> int {
    if negative {
        -magnitude
    } else {
        magnitude
    }
}

/// A step is no smaller than the resolution and the denominator.
proof fn lemma_step_positive(denominator: int, resolution: int)
    by (nonlinear_arith)
    requires
        denominator > 0,
        resolution > 0,
    ensures
        denominator * resolution >= resolution,
        denominator * resolution >= denominator,
{
}

/// A number of steps is no larger than what the steps come to.
proof fn lemma_steps_bound(steps: int, resolution: int, limit: int)
    by (nonlinear_arith)
    requires
        resolution > 0,
        steps >= 0,
        steps * resolution <= limit,
    ensures
        steps <= limit,
{
}

/// The quotient and the remainder of a value, from those of its magnitude.
proof fn lemma_floor_parts(negative: bool, size: int, step: int)
    requires
        size >= 0,
        step > 0,
    ensures
        0 <= size % step < step,
        0 <= size / step <= size,
        !negative || size % step == 0 ==> signed(negative, size) / step == signed(
            negative,
            size / step,
        ) && signed(negative, size) % step == size % step,
        negative && size % step != 0 ==> signed(negative, size) / step == -(size / step) - 1
            && signed(negative, size) % step == step - size % step,
{
    vstd::arithmetic::div_mod::lemma_fundamental_div_mod(size, step);
    let q = size / step;
    let r = size % step;
    assert(step * q == q * step) by (nonlinear_arith);
    assert((-q) * step == -(q * step)) by (nonlinear_arith);
    assert((-q - 1) * step == -(q * step) - step) by (nonlinear_arith);
    assert(0 <= q <= size) by (nonlinear_arith)
        requires
            size == q * step + r,
            0 <= r < step,
            step > 0,
            size >= 0,
    ;
    if !negative {
    } else if r == 0 {
        vstd::arithmetic::div_mod::lemma_fundamental_div_mod_converse(-size, step, -q, 0);
    } else {
        vstd::arithmetic::div_mod::lemma_fundamental_div_mod_converse(
            -size,
            step,
            -q - 1,
            step - r,
        );
    }
}

/// Rounds the fraction of the given sign and magnitude over `denominator`.
pub fn round_fraction(negative: bool, magnitude: u128, denominator: u64, resolution: u64) -> (r: i64)
    requires
        0 < denominator <= i64::MAX,
        0 < resolution <= i64::MAX,
        i64::MIN <= rounded(signed(negative, magnitude as int), denominator as int, resolution as int)
            <= i64::MAX,
    ensures
        r == rounded(signed(negative, magnitude as int), denominator as int, resolution as int),
{
    let wide_resolution: u128 = resolution as u128;
    proof {
        assert(denominator * resolution <= 0x7fff_ffff_ffff_ffff * 0x7fff_ffff_ffff_ffff)
            by (nonlinear_arith)
            requires
                0 < denominator <= 0x7fff_ffff_ffff_ffff,
                0 < resolution <= 0x7fff_ffff_ffff_ffff,
        ;
        lemma_step_positive(denominator as int, resolution as int);
    }
    let step: u128 = denominator as u128 * wide_resolution;
    let steps: u128 = magnitude / step;
    let rest: u128 = magnitude % step;
    // Away from zero, a negative value goes down and any other goes up: the
    // exact half goes up, so only the value that is not negative takes it.
    let grows: bool = if negative {
        rest > step - rest
    } else {
        rest >= step - rest
    };
    let ghost target = rounded(
        signed(negative, magnitude as int),
        denominator as int,
        resolution as int,
    );
    proof {
        lemma_floor_parts(negative, magnitude as int, step as int);
        assert((-(steps as int)) * resolution == -(steps * resolution)) by (nonlinear_arith);
        assert((-(steps as int) - 1) * resolution == -((steps + 1) * resolution))
            by (nonlinear_arith);
        assert((-(steps as int) - 1 + 1) * resolution == -(steps * resolution))
            by (nonlinear_arith);
        if grows {
            assert(target == signed(negative, (steps + 1) * resolution));
            lemma_steps_bound(steps + 1, resolution as int, 0x8000_0000_0000_0000);
        } else {
            assert(target == signed(negative, steps * resolution));
        }
    }
    let count: u128 = if grows {
        steps + 1
    } else {
        steps
    };
    let reach: u128 = count * wide_resolution;
    if negative {
        (-(reach as i128)) as i64
    } else {
        reach as i64
    }
}

/// Rounds a whole value to the grid of `resolution`.
pub fn round_half_up(value: i64, resolution: i64) -> (r: i64)
    requires
        resolution > 0,
        i64::MIN <= rounded(value as int, 1, resolution as int) <= i64::MAX,
    ensures
        r == rounded(value as int, 1, resolution as int),
{
    let size: u128 = if value < 0 {
        (-(value as i128)) as u128
    } else {
        value as u128
    };
    round_fraction(value < 0, size, 1, resolution as u64)
}

/// The product of two factors, from their signs and magnitudes.
proof fn lemma_signed_product(part: int, amount: int)
    by (nonlinear_arith)
    requires
        -0x1_0000_0000_0000_0000 <= part <= 0x1_0000_0000_0000_0000,
        -0x8000_0000_0000_0000 <= amount <= 0x8000_0000_0000_0000,
    ensures
        0 <= magnitude(part) * magnitude(amount) <= 0x8000_0000_0000_0000_0000_0000_0000_0000,
        part * amount == signed((part < 0) != (amount < 0), magnitude(part) * magnitude(amount)),
{
}

/// Rounds the share of `amount` that `part` has in `whole` to the grid of
/// `resolution`.
pub fn round_share(part: i128, whole: i64, amount: i64, resolution: i64) -> (r: i64)
    requires
        -0x1_0000_0000_0000_0000 <= part <= 0x1_0000_0000_0000_0000,
        whole > 0,
        resolution > 0,
        i64::MIN <= rounded(part * amount, whole as int, resolution as int) <= i64::MAX,
    ensures
        r == rounded(part * amount, whole as int, resolution as int),
{
    let part_size: u128 = if part < 0 {
        (-part) as u128
    } else {
        part as u128
    };
    let amount_size: u128 = if amount < 0 {
        (-(amount as i128)) as u128
    } else {
        amount as u128
    };
    proof {
        lemma_signed_product(part as int, amount as int);
    }
    round_fraction(
        (part < 0) != (amount < 0),
        part_size * amount_size,
        whole as u64,
        resolution as u64,
    )
}

/// A value that lies on the grid is rounded to itself.
pub proof fn rounding_keeps_grid_values(steps: int, denominator: int, resolution: int)
    requires
        denominator > 0,
        resolution > 0,
    ensures
        rounded(steps * resolution * denominator, denominator, resolution) == steps * resolution,
{
    let step = denominator * resolution;
    let numerator = steps * resolution * denominator;
    lemma_step_positive(denominator, resolution);
    assert(numerator == steps * step) by (nonlinear_arith)
        requires
            numerator == steps * resolution * denominator,
            step == denominator * resolution,
    ;
    vstd::arithmetic::div_mod::lemma_fundamental_div_mod_converse(numerator, step, steps, 0);
}

/// Rounding a rounded value changes nothing.
pub proof fn rounding_is_idempotent(numerator: int, denominator: int, resolution: int)
    requires
        denominator > 0,
        resolution > 0,
    ensures
        rounded(rounded(numerator, denominator, resolution), 1, resolution) == rounded(
            numerator,
            denominator,
            resolution,
        ),
{
    let steps = numerator / (denominator * resolution);
    rounding_keeps_grid_values(steps, 1, resolution);
    rounding_keeps_grid_values(steps + 1, 1, resolution);
}

/// A value half way between two neighbours on the grid is rounded to the
/// upper one.
pub proof fn midpoint_rounds_up(numerator: int, steps: int, denominator: int, resolution: int)
    requires
        denominator > 0,
        resolution > 0,
        is_half_way(numerator, denominator, resolution, steps),
    ensures
        rounded(numerator, denominator, resolution) == (steps + 1) * resolution,
{
    let step = denominator * resolution;
    lemma_step_positive(denominator, resolution);
    assert((2 * steps + 1) * step == 2 * (steps * step) + step) by (nonlinear_arith);
    let half = numerator - steps * step;
    vstd::arithmetic::div_mod::lemma_fundamental_div_mod_converse(numerator, step, steps, half);
}

/// The rounded value is the multiple of the resolution nearest to the value:
/// scaled by the denominator, it lies no more than half a step above the
/// numerator and less than half a step below it. It is not negative where
/// the value is not, and not above zero where the value is not.
pub proof fn rounded_is_near(numerator: int, denominator: int, resolution: int)
    requires
        denominator > 0,
        resolution > 0,
    ensures
        -(denominator * resolution) <= 2 * (numerator - rounded(
            numerator,
            denominator,
            resolution,
        ) * denominator) < denominator * resolution,
        numerator >= 0 ==> rounded(numerator, denominator, resolution) >= 0,
        numerator <= 0 ==> rounded(numerator, denominator, resolution) <= 0,
{
    let step = denominator * resolution;
    lemma_step_positive(denominator, resolution);
    vstd::arithmetic::div_mod::lemma_fundamental_div_mod(numerator, step);
    let steps = numerator / step;
    let remainder = numerator % step;
    assert(0 <= remainder < step) by {
        vstd::arithmetic::div_mod::lemma_mod_bound(numerator, step);
    }
    assert(step * steps == steps * step) by (nonlinear_arith);
    assert(steps * resolution * denominator == steps * step) by (nonlinear_arith)
        requires
            step == denominator * resolution,
    ;
    assert((steps + 1) * resolution * denominator == steps * step + step) by (nonlinear_arith)
        requires
            step == denominator * resolution,
    ;
    assert(numerator >= 0 ==> steps >= 0) by (nonlinear_arith)
        requires
            numerator == steps * step + remainder,
            0 <= remainder < step,
    ;
    assert(numerator < 0 ==> steps < 0) by (nonlinear_arith)
        requires
            numerator == steps * step + remainder,
            0 <= remainder < step,
    ;
    assert(steps >= 0 ==> steps * resolution >= 0 && (steps + 1) * resolution >= 0)
        by (nonlinear_arith)
        requires
            resolution > 0,
    ;
    assert(steps < 0 ==> steps * resolution <= 0 && (steps + 1) * resolution <= 0)
        by (nonlinear_arith)
        requires
            resolution > 0,
    ;
    if numerator == 0 {
        assert(steps == 0 && remainder == 0) by (nonlinear_arith)
            requires
                0 == steps * step + remainder,
                0 <= remainder < step,
        ;
        assert(0 * resolution == 0);
    }
}

/// The rounded value is a whole number of steps of the resolution.
pub proof fn rounded_is_on_grid(numerator: int, denominator: int, resolution: int)
    requires
        denominator > 0,
        resolution > 0,
    ensures
        rounded(numerator, denominator, resolution) % resolution == 0,
{
    let steps = numerator / (denominator * resolution);
    vstd::arithmetic::div_mod::lemma_fundamental_div_mod_converse(
        steps * resolution,
        resolution,
        steps,
        0,
    );
    vstd::arithmetic::div_mod::lemma_fundamental_div_mod_converse(
        (steps + 1) * resolution,
        resolution,
        steps + 1,
        0,
    );
}

/// Cancels a positive factor on both sides of a comparison.
proof fn lemma_cancel(left: int, right: int, factor: int)
    by (nonlinear_arith)
    requires
        factor > 0,
        left * factor <= right * factor,
    ensures
        left <= right,
{
}

/// The rounded share of an amount lies between zero and the amount, with no
/// more than one step beyond the amount.
pub proof fn rounded_share_is_bounded(part: int, whole: int, amount: int, resolution: int)
    requires
        0 <= part <= whole,
        whole > 0,
        resolution > 0,
    ensures
        amount >= 0 ==> 0 <= rounded(part * amount, whole, resolution) <= amount + resolution,
        amount < 0 ==> amount - resolution <= rounded(part * amount, whole, resolution) <= 0,
{
    let numerator = part * amount;
    let value = rounded(numerator, whole, resolution);
    rounded_is_near(numerator, whole, resolution);
    lemma_step_positive(whole, resolution);
    assert((amount + resolution) * whole == amount * whole + whole * resolution)
        by (nonlinear_arith);
    assert((amount - resolution) * whole == amount * whole - whole * resolution)
        by (nonlinear_arith);
    if amount >= 0 {
        assert(0 <= numerator <= amount * whole) by (nonlinear_arith)
            requires
                numerator == part * amount,
                0 <= part <= whole,
                amount >= 0,
        ;
        lemma_cancel(value, amount + resolution, whole);
    } else {
        assert(amount * whole <= numerator <= 0) by (nonlinear_arith)
            requires
                numerator == part * amount,
                0 <= part <= whole,
                amount < 0,
        ;
        lemma_cancel(amount - resolution, value, whole);
    }
}

/// A rounded whole value lies between zero and the value, with no more than
/// one step beyond the value.
pub proof fn rounded_whole_is_bounded(value: int, resolution: int)
    requires
        resolution > 0,
    ensures
        value >= 0 ==> 0 <= rounded(value, 1, resolution) <= value + resolution,
        value < 0 ==> value - resolution <= rounded(value, 1, resolution) <= 0,
{
    rounded_share_is_bounded(1, 1, value, resolution);
    assert(1 * value == value);
}

} // verus!
