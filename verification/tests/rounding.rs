use workday::rounding::round_fraction;
use workday::rounding::round_half_up;
use workday::rounding::round_share;

#[test]
fn value_on_the_grid_is_kept() {
    assert_eq!(round_half_up(0, 250_000), 0);
    assert_eq!(round_half_up(750_000, 250_000), 750_000);
    assert_eq!(round_half_up(-750_000, 250_000), -750_000);
    assert_eq!(round_half_up(7, 1), 7);
    assert_eq!(round_half_up(i64::MAX, 1), i64::MAX);
    assert_eq!(round_half_up(i64::MIN, 1), i64::MIN);
}

#[test]
fn rounding_twice_is_rounding_once() {
    for value in [1i64, 124_999, 125_000, 125_001, 999_999, -1, -124_999, -125_000, -600_000] {
        let once = round_half_up(value, 250_000);
        assert_eq!(round_half_up(once, 250_000), once);
    }
}

#[test]
fn midpoint_is_rounded_up() {
    assert_eq!(round_half_up(125_000, 250_000), 250_000);
    assert_eq!(round_half_up(1_125_000, 250_000), 1_250_000);
    assert_eq!(round_half_up(1, 2), 2);
    assert_eq!(round_half_up(3, 2), 4);
    assert_eq!(round_half_up(-375_000, 250_000), -250_000);
    assert_eq!(round_half_up(-1, 2), 0);
}

#[test]
fn value_below_the_midpoint_is_rounded_down() {
    assert_eq!(round_half_up(124_999, 250_000), 0);
    assert_eq!(round_half_up(1_100_000, 250_000), 1_000_000);
    assert_eq!(round_half_up(4, 3), 3);
}

#[test]
fn value_above_the_midpoint_is_rounded_up() {
    assert_eq!(round_half_up(125_001, 250_000), 250_000);
    assert_eq!(round_half_up(1_200_000, 250_000), 1_250_000);
    assert_eq!(round_half_up(5, 3), 6);
}

#[test]
fn negative_value_goes_to_the_nearest_multiple() {
    assert_eq!(round_half_up(-300_000, 250_000), -250_000);
    assert_eq!(round_half_up(-200_000, 250_000), -250_000);
    assert_eq!(round_half_up(-187_500, 250_000), -250_000);
    assert_eq!(round_half_up(-125_001, 250_000), -250_000);
    assert_eq!(round_half_up(-124_999, 250_000), 0);
    assert_eq!(round_half_up(-100_000, 250_000), 0);
    assert_eq!(round_half_up(-499_999, 250_000), -500_000);
    assert_eq!(round_half_up(-4, 3), -3);
    assert_eq!(round_half_up(-5, 3), -6);
    assert_eq!(round_half_up(i64::MIN, i64::MAX), -i64::MAX);
}

#[test]
fn negative_midpoint_is_rounded_up() {
    assert_eq!(round_half_up(-125_000, 250_000), 0);
    assert_eq!(round_half_up(-375_000, 250_000), -250_000);
    assert_eq!(round_half_up(-625_000, 250_000), -500_000);
    assert_eq!(round_half_up(-1, 2), 0);
    assert_eq!(round_half_up(-3, 2), -2);
}

#[test]
fn fraction_is_rounded_as_its_value() {
    // 7 / 2 = 3.5, on the grid of 1
    assert_eq!(round_fraction(false, 7, 2, 1), 4);
    // 10 / 3 = 3.33.., on the grid of 1
    assert_eq!(round_fraction(false, 10, 3, 1), 3);
    // 11 / 3 = 3.66.., on the grid of 1
    assert_eq!(round_fraction(false, 11, 3, 1), 4);
    // -11 / 3 = -3.66..
    assert_eq!(round_fraction(true, 11, 3, 1), -4);
    // -10 / 3 = -3.33..
    assert_eq!(round_fraction(true, 10, 3, 1), -3);
    // -7 / 2 = -3.5, a tie between -4 and -3
    assert_eq!(round_fraction(true, 7, 2, 1), -3);
    // -50 / 4 = -12.5, on the grid of 5: a tie between -15 and -10
    assert_eq!(round_fraction(true, 50, 4, 5), -10);
    // -51 / 4 = -12.75
    assert_eq!(round_fraction(true, 51, 4, 5), -15);
    // 50 / 4 = 12.5, on the grid of 5: a tie between 10 and 15
    assert_eq!(round_fraction(false, 50, 4, 5), 15);
    // 49 / 4 = 12.25
    assert_eq!(round_fraction(false, 49, 4, 5), 10);
    assert_eq!(round_fraction(true, 0, 4, 5), 0);
    // 2^127 / (2^63 - 1) does not fit, 2^125 / (2^63 - 1) = 2^62 + 0.5.. does
    assert_eq!(round_fraction(false, 1u128 << 125, i64::MAX as u64, 1), (1i64 << 62) + 1);
    assert_eq!(round_fraction(true, (1u128 << 63) * 3, 3, 1), i64::MIN);
}

#[test]
fn share_is_rounded_as_its_value() {
    // 3 / 4 of 10 = 7.5
    assert_eq!(round_share(3, 4, 10, 1), 8);
    // 1 / 3 of 8.0 = 2.66..
    assert_eq!(round_share(1, 3, 8_000_000, 250_000), 2_750_000);
    // 1 / 3 of 7.0 = 2.33..
    assert_eq!(round_share(1, 3, 7_000_000, 250_000), 2_250_000);
    // -1 / 2 of 3 = -1.5, a tie between -2 and -1
    assert_eq!(round_share(-1, 2, 3, 1), -1);
    assert_eq!(round_share(1, 2, -3, 1), -1);
    // -1 / 2 of -3 = 1.5
    assert_eq!(round_share(-1, 2, -3, 1), 2);
    assert_eq!(round_share(0, 5, 7, 2), 0);
    assert_eq!(round_share(5, 5, 7, 2), 8);
    assert_eq!(round_share(5, 5, 6, 2), 6);
    // 1 / 3 of -8.0 = -2.66.. and 1 / 3 of -7.0 = -2.33..
    assert_eq!(round_share(1, 3, -8_000_000, 250_000), -2_750_000);
    assert_eq!(round_share(1, 3, -7_000_000, 250_000), -2_250_000);
    // 2^64 / (2^63 - 1) of -2^61 = -(2^62 + 0.5..), just below the half
    assert_eq!(round_share(1i128 << 64, i64::MAX, -(1i64 << 61), 1), -(1i64 << 62) - 1);
    assert_eq!(round_share(-(1i128 << 64), i64::MAX, -(1i64 << 61), 1), (1i64 << 62) + 1);
}
