use chrono::naive::NaiveDate;
use workday::date::Date;

#[test]
fn date_of_the_calendar_is_made() {
    let date = Date::from_ymd_opt(2023, 1, 31).unwrap();
    assert_eq!(date.year(), 2023);
    assert_eq!(date.month(), 1);
    assert_eq!(date.day(), 31);
    assert!(Date::from_ymd_opt(2024, 2, 29).is_some());
    assert!(Date::from_ymd_opt(2000, 2, 29).is_some());
    assert!(Date::from_ymd_opt(-4, 2, 29).is_some());
    assert!(Date::from_ymd_opt(0, 12, 31).is_some());
    assert!(Date::from_ymd_opt(i32::MAX, 1, 1).is_some());
    assert!(Date::from_ymd_opt(i32::MIN, 12, 31).is_some());
}

#[test]
fn date_outside_the_calendar_is_refused() {
    assert_eq!(Date::from_ymd_opt(2023, 2, 29), None);
    assert_eq!(Date::from_ymd_opt(1900, 2, 29), None);
    assert_eq!(Date::from_ymd_opt(2100, 2, 29), None);
    assert_eq!(Date::from_ymd_opt(-1, 2, 29), None);
    assert_eq!(Date::from_ymd_opt(2023, 2, 30), None);
    assert_eq!(Date::from_ymd_opt(2023, 4, 31), None);
    assert_eq!(Date::from_ymd_opt(2023, 6, 31), None);
    assert_eq!(Date::from_ymd_opt(2023, 9, 31), None);
    assert_eq!(Date::from_ymd_opt(2023, 11, 31), None);
    assert_eq!(Date::from_ymd_opt(2023, 1, 32), None);
    assert_eq!(Date::from_ymd_opt(2023, 0, 1), None);
    assert_eq!(Date::from_ymd_opt(2023, 13, 1), None);
    assert_eq!(Date::from_ymd_opt(2023, 1, 0), None);
    assert_eq!(Date::from_ymd_opt(2023, u32::MAX, u32::MAX), None);
}

#[test]
fn calendar_is_the_one_of_chrono() {
    for year in [-401, -400, -100, -4, -1, 0, 1, 4, 100, 400, 1900, 2000, 2022, 2023, 2024, 2100] {
        for month in 0..=13u32 {
            for day in 0..=32u32 {
                let ours = Date::from_ymd_opt(year, month, day);
                let theirs = NaiveDate::from_ymd_opt(year, month, day);
                assert_eq!(ours.is_some(), theirs.is_some(), "{}-{}-{}", year, month, day);
            }
        }
    }
}

#[test]
fn earlier_day_is_before_later_day() {
    let days = [
        Date::from_ymd_opt(-1, 12, 31).unwrap(),
        Date::from_ymd_opt(2022, 12, 25).unwrap(),
        Date::from_ymd_opt(2022, 12, 31).unwrap(),
        Date::from_ymd_opt(2023, 1, 1).unwrap(),
        Date::from_ymd_opt(2023, 1, 2).unwrap(),
        Date::from_ymd_opt(2023, 2, 1).unwrap(),
        Date::from_ymd_opt(2024, 1, 1).unwrap(),
    ];
    for (i, one) in days.iter().enumerate() {
        for (j, other) in days.iter().enumerate() {
            assert_eq!(one.is_before(other), i < j);
            assert_eq!(one.is_same(other), i == j);
            assert_eq!(one < other, i < j);
            assert_eq!(one == other, i == j);
        }
    }
}

#[test]
fn order_is_the_one_of_chrono() {
    let days = [(2022, 12, 25), (2023, 1, 1), (2023, 1, 31), (2023, 2, 1), (1999, 12, 31)];
    for (y, m, d) in days {
        for (z, n, e) in days {
            let ours = Date::from_ymd_opt(y, m, d).unwrap().is_before(&Date::from_ymd_opt(z, n, e).unwrap());
            let theirs = NaiveDate::from_ymd_opt(y, m, d).unwrap() < NaiveDate::from_ymd_opt(z, n, e).unwrap();
            assert_eq!(ours, theirs);
        }
    }
}
