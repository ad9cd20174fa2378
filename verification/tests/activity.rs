use workday::activity::Activity;
use workday::date::Date;
use workday::responsibility::Distribution;
use workday::responsibility::Effort;
use workday::responsibility::Responsibility;

/// Quantities are written in millionths.
fn units(x: f64) -> i64 {
    (x * 1_000_000.0).round() as i64
}

fn day(year: i32, month: u32, day: u32) -> Date {
    Date::from_ymd_opt(year, month, day).unwrap()
}

fn team_meetings() -> Responsibility {
    Responsibility {
        account: String::from("Team meetings"),
        description: String::from("Weekly team meeting"),
        distribution: Distribution::Discrete {
            dates: vec![day(2022, 12, 25), day(2023, 1, 1)],
        },
        effort: Effort::Absolute(units(1.0)),
    }
}

fn timesheet() -> Responsibility {
    Responsibility {
        account: String::from("Non-billable tasks"),
        description: String::from("Prepare timesheet"),
        distribution: Distribution::Continuous {
            alpha: day(2022, 1, 1),
            omega: day(2023, 12, 31),
        },
        effort: Effort::Relative(units(1.0)),
    }
}

#[test]
fn from_absolute() {
    let expected = Activity {
        account: &String::from("Team meetings"),
        description: &String::from("Weekly team meeting"),
        absolute_effort: units(1.0),
    };

    let r: Responsibility = team_meetings();

    let actual = Activity::from(&r, units(0.0), units(0.0), units(0.0), units(0.25));

    assert_eq!(actual, expected);
}

#[test]
fn from_relative() {
    let expected = Activity {
        account: &String::from("Non-billable tasks"),
        description: &String::from("Prepare timesheet"),
        absolute_effort: units(3.0),
    };

    let r: Responsibility = timesheet();

    let actual = Activity::from(&r, units(2.0), units(6.0), units(0.0), units(0.25));

    assert_eq!(actual, expected);
}

#[test]
fn absolute_effort_ignores_the_day() {
    let r = team_meetings();
    let one = Activity::from(&r, 0, 0, 0, units(0.25));
    let other = Activity::from(&r, units(5.0), units(-3.0), units(0.5), units(0.25));
    assert_eq!(one, other);
    assert_eq!(one.absolute_effort, units(1.0));
}

#[test]
fn absolute_effort_is_rounded() {
    let mut r = team_meetings();
    r.effort = Effort::Absolute(units(1.1));
    assert_eq!(Activity::from(&r, 0, 0, 0, units(0.25)).absolute_effort, units(1.0));
    r.effort = Effort::Absolute(units(1.125));
    assert_eq!(Activity::from(&r, 0, 0, 0, units(0.25)).absolute_effort, units(1.25));
    r.effort = Effort::Absolute(units(1.2));
    assert_eq!(Activity::from(&r, 0, 0, 0, units(0.25)).absolute_effort, units(1.25));
}

#[test]
fn relative_effort_is_the_share_of_the_balance() {
    let r = timesheet();
    // (1.0 + 0.5) / 4.0 * 7.0 = 2.625, a tie between 2.5 and 2.75
    let a = Activity::from(&r, units(4.0), units(7.0), units(0.5), units(0.25));
    assert_eq!(a.absolute_effort, units(2.75));
    // (1.0 - 0.25) / 3.0 * 7.0 = 1.75
    let b = Activity::from(&r, units(3.0), units(7.0), units(-0.25), units(0.25));
    assert_eq!(b.absolute_effort, units(1.75));
    // (1.0 + 0.0) / 3.0 * 8.0 = 2.666.., nearest 2.75
    let c = Activity::from(&r, units(3.0), units(8.0), 0, units(0.25));
    assert_eq!(c.absolute_effort, units(2.75));
    // (1.0 + 0.0) / 3.0 * 7.0 = 2.333.., nearest 2.25
    let d = Activity::from(&r, units(3.0), units(7.0), 0, units(0.25));
    assert_eq!(d.absolute_effort, units(2.25));
}

#[test]
fn relative_effort_of_a_negative_balance_goes_to_the_nearest_multiple() {
    let r = timesheet();
    // 1.0 / 2.0 * -0.75 = -0.375, a tie between -0.5 and -0.25
    let a = Activity::from(&r, units(2.0), units(-0.75), 0, units(0.25));
    assert_eq!(a.absolute_effort, units(-0.25));
    // 1.0 / 2.0 * -0.4 = -0.2
    let b = Activity::from(&r, units(2.0), units(-0.4), 0, units(0.25));
    assert_eq!(b.absolute_effort, units(-0.25));
    // 1.0 / 2.0 * -0.2 = -0.1
    let c = Activity::from(&r, units(2.0), units(-0.2), 0, units(0.25));
    assert_eq!(c.absolute_effort, 0);
    // 1.0 / 3.0 * -2.0 = -0.66..
    let d = Activity::from(&r, units(3.0), units(-2.0), 0, units(0.25));
    assert_eq!(d.absolute_effort, units(-0.75));
}

#[test]
fn negative_absolute_effort_goes_to_the_nearest_multiple() {
    let mut r = team_meetings();
    r.effort = Effort::Absolute(units(-0.1875));
    assert_eq!(Activity::from(&r, 0, 0, 0, units(0.25)).absolute_effort, units(-0.25));
    r.effort = Effort::Absolute(units(-0.125));
    assert_eq!(Activity::from(&r, 0, 0, 0, units(0.25)).absolute_effort, 0);
    r.effort = Effort::Absolute(units(-0.1));
    assert_eq!(Activity::from(&r, 0, 0, 0, units(0.25)).absolute_effort, 0);
    r.effort = Effort::Absolute(units(-1.0));
    assert_eq!(Activity::from(&r, 0, 0, 0, units(0.25)).absolute_effort, units(-1.0));
}

#[test]
fn relative_effort_takes_the_widest_values() {
    let mut r = timesheet();
    r.effort = Effort::Relative(i64::MAX);
    let a = Activity::from(&r, i64::MAX, i64::MAX - 1, 0, 1);
    assert_eq!(a.absolute_effort, i64::MAX - 1);
    r.effort = Effort::Relative(i64::MIN);
    let b = Activity::from(&r, i64::MAX, 1, i64::MIN, i64::MAX);
    assert_eq!(b.absolute_effort, 0);
    // -2^64 / (2^63 - 1) * -2^61 = 2^62 + 2^62 / (2^63 - 1), just above the half
    let c = Activity::from(&r, i64::MAX, -(1i64 << 61), i64::MIN, 1);
    assert_eq!(c.absolute_effort, (1i64 << 62) + 1);
}

#[test]
fn activity_keeps_account_and_description() {
    let r = timesheet();
    let a = Activity::from(&r, units(2.0), units(6.0), 0, units(0.25));
    assert_eq!(a.account, &r.account);
    assert_eq!(a.description, &r.description);
}
