use workday::date::Date;
use workday::responsibility::Distribution;
use workday::responsibility::Effort;
use workday::responsibility::Responsibility;

fn day(year: i32, month: u32, day: u32) -> Date {
    Date::from_ymd_opt(year, month, day).unwrap()
}

#[test]
fn continuous_distribution_holds_its_range() {
    let january = Distribution::Continuous { alpha: day(2023, 1, 1), omega: day(2023, 1, 31) };
    assert!(january.applies_on(&day(2023, 1, 15)));
    assert!(!january.applies_on(&day(2023, 2, 1)));
}

#[test]
fn continuous_distribution_holds_both_ends() {
    let january = Distribution::Continuous { alpha: day(2023, 1, 1), omega: day(2023, 1, 31) };
    assert!(january.applies_on(&day(2023, 1, 1)));
    assert!(january.applies_on(&day(2023, 1, 31)));
    assert!(!january.applies_on(&day(2022, 12, 31)));
    assert!(!january.applies_on(&day(2024, 1, 15)));
    assert!(!january.applies_on(&day(2022, 1, 15)));
}

#[test]
fn continuous_distribution_of_one_day() {
    let one = Distribution::Continuous { alpha: day(2023, 3, 7), omega: day(2023, 3, 7) };
    assert!(one.applies_on(&day(2023, 3, 7)));
    assert!(!one.applies_on(&day(2023, 3, 6)));
    assert!(!one.applies_on(&day(2023, 3, 8)));
}

#[test]
fn continuous_distribution_that_ends_before_it_begins_holds_nothing() {
    let none = Distribution::Continuous { alpha: day(2023, 1, 31), omega: day(2023, 1, 1) };
    assert!(!none.applies_on(&day(2023, 1, 15)));
    assert!(!none.applies_on(&day(2023, 1, 1)));
    assert!(!none.applies_on(&day(2023, 1, 31)));
}

#[test]
fn discrete_distribution_holds_its_dates() {
    let holidays = Distribution::Discrete { dates: vec![day(2022, 12, 25), day(2023, 1, 1)] };
    assert!(holidays.applies_on(&day(2023, 1, 1)));
    assert!(!holidays.applies_on(&day(2023, 1, 2)));
    assert!(holidays.applies_on(&day(2022, 12, 25)));
    assert!(!holidays.applies_on(&day(2022, 12, 26)));
}

#[test]
fn discrete_distribution_without_dates_holds_nothing() {
    let never = Distribution::Discrete { dates: Vec::new() };
    assert!(!never.applies_on(&day(2023, 1, 1)));
}

#[test]
fn responsibilities_are_compared_by_their_fields() {
    let one = Responsibility {
        account: String::from("Team meetings"),
        description: String::from("Weekly team meeting"),
        distribution: Distribution::Discrete { dates: vec![day(2022, 12, 25), day(2023, 1, 1)] },
        effort: Effort::Absolute(1_000_000),
    };
    let same = Responsibility {
        account: String::from("Team meetings"),
        description: String::from("Weekly team meeting"),
        distribution: Distribution::Discrete { dates: vec![day(2022, 12, 25), day(2023, 1, 1)] },
        effort: Effort::Absolute(1_000_000),
    };
    let other = Responsibility {
        account: String::from("Team meetings"),
        description: String::from("Weekly team meeting"),
        distribution: Distribution::Discrete { dates: vec![day(2022, 12, 25), day(2023, 1, 1)] },
        effort: Effort::Relative(1_000_000),
    };
    assert_eq!(one, same);
    assert_ne!(one, other);
}
