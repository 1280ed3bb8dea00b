use retirement_simulator::units::{cbrt_floor, div_floor, scale, sqrt_floor};
use retirement_simulator::utils::{add_month, add_years, get_age, get_monthly_rate, Date};

fn day(year: i32, month: u32, day: u32) -> Date {
    Date::new(year, month, day).unwrap()
}

#[test]
fn scale_rounds_down_and_saturates() {
    assert_eq!(scale(10, 3, 4), 7);
    assert_eq!(scale(0, 5, 1), 0);
    assert_eq!(scale(200_000, 850_000, 1_000_000), 170_000);
    assert_eq!(scale(u64::MAX, 2, 1), u64::MAX);
    assert_eq!(scale(u64::MAX, u64::MAX, u64::MAX), u64::MAX);
}

#[test]
fn div_floor_rounds_towards_minus_infinity() {
    assert_eq!(div_floor(7, 2), 3);
    assert_eq!(div_floor(-7, 2), -4);
    assert_eq!(div_floor(-8, 2), -4);
    assert_eq!(div_floor(-1, 1_000_000), -1);
    assert_eq!(div_floor(0, 3), 0);
}

#[test]
fn roots_round_down() {
    assert_eq!(sqrt_floor(0), 0);
    assert_eq!(sqrt_floor(15), 3);
    assert_eq!(sqrt_floor(16), 4);
    assert_eq!(sqrt_floor(u128::MAX), u64::MAX);
    assert_eq!(cbrt_floor(0), 0);
    assert_eq!(cbrt_floor(26), 2);
    assert_eq!(cbrt_floor(27), 3);
    assert_eq!(cbrt_floor(u128::MAX), 6_981_463_658_331);
}

#[test]
fn monthly_rate_compounds_to_the_annual_rate() {
    assert_eq!(get_monthly_rate(0), 0);
    assert_eq!(get_monthly_rate(70_000), 565_414);
    assert_eq!(get_monthly_rate(60_000), 486_754);
    assert_eq!(get_monthly_rate(30_000), 246_626);
    assert_eq!(get_monthly_rate(-500_000), -5_612_569);
    assert_eq!(get_monthly_rate(i32::MAX), 89_529_872);
}

#[test]
fn twelve_months_never_grow_more_than_the_year() {
    for annual in [-999_999, -500_000, -1, 0, 1, 30_000, 70_000, 1_000_000, i32::MAX] {
        let monthly = 1.0 + get_monthly_rate(annual) as f64 / 100_000_000.0;
        let year = 1.0 + annual as f64 / 1_000_000.0;
        assert!(monthly.powi(12) <= year * (1.0 + 1e-12));
    }
    for annual in [-500_000, 30_000, 70_000, 1_000_000] {
        let monthly = 1.0 + get_monthly_rate(annual) as f64 / 100_000_000.0;
        let year = 1.0 + annual as f64 / 1_000_000.0;
        assert!(monthly.powi(12) > year * (1.0 - 1e-6));
    }
}

#[test]
fn a_larger_annual_rate_has_no_smaller_monthly_rate() {
    let mut last = get_monthly_rate(-1_000_000);
    let mut annual: i32 = -1_000_000;
    while annual < 3_000_000 {
        let rate = get_monthly_rate(annual);
        assert!(rate >= last);
        last = rate;
        annual += 9_973;
    }
}

#[test]
fn monthly_rate_of_a_total_loss() {
    assert_eq!(get_monthly_rate(-1_000_000), -100_000_000);
    assert_eq!(get_monthly_rate(i32::MIN), -100_000_000);
}

#[test]
fn dates_exist_or_do_not() {
    assert_eq!(Date::new(2024, 2, 29), Some(Date { year: 2024, month: 2, day: 29 }));
    assert_eq!(Date::new(2023, 2, 29), None);
    assert_eq!(Date::new(1900, 2, 29), None);
    assert_eq!(Date::new(2000, 2, 29), Some(Date { year: 2000, month: 2, day: 29 }));
    assert_eq!(Date::new(-4, 2, 29), Some(Date { year: -4, month: 2, day: 29 }));
    assert_eq!(Date::new(2023, 4, 31), None);
    assert_eq!(Date::new(2023, 13, 1), None);
    assert_eq!(Date::new(2023, 0, 1), None);
    assert_eq!(Date::new(2023, 1, 0), None);
    assert_eq!(Date::new(262_143, 1, 1), None);
    assert_eq!(Date::new(-262_144, 1, 1), None);
    assert!(Date::new(262_142, 12, 31).is_some());
    assert!(Date::new(-262_143, 1, 1).is_some());
}

#[test]
fn dates_are_ordered_by_year_month_day() {
    let a = day(2020, 5, 17);
    let b = day(2020, 6, 1);
    let c = day(2021, 1, 1);
    assert!(a.is_before(&b));
    assert!(b.is_before(&c));
    assert!(!b.is_before(&a));
    assert!(!a.is_before(&a));
    assert!(c.is_after(&a));
    assert!(!a.is_after(&a));
    assert!(a.is_on_or_after(&a));
    assert!(b.is_on_or_after(&a));
    assert!(!a.is_on_or_after(&b));
}

#[test]
fn age_counts_whole_years() {
    let born = day(1960, 6, 15);
    assert_eq!(get_age(&born, &day(2030, 6, 14)), 69);
    assert_eq!(get_age(&born, &day(2030, 6, 15)), 70);
    assert_eq!(get_age(&born, &day(2030, 7, 1)), 70);
    assert_eq!(get_age(&born, &day(1960, 6, 15)), 0);
    assert_eq!(get_age(&born, &day(1961, 6, 14)), 0);
}

#[test]
fn age_before_birth_is_zero() {
    let born = day(1960, 6, 15);
    assert_eq!(get_age(&born, &day(1950, 1, 1)), 0);
    assert_eq!(get_age(&born, &day(1960, 6, 14)), 0);
}

#[test]
fn years_are_added_as_365_days() {
    assert_eq!(add_years(&day(1960, 6, 15), 65), day(2025, 5, 30));
    assert_eq!(add_years(&day(1960, 6, 15), 67), day(2027, 5, 30));
    assert_eq!(add_years(&day(2000, 1, 1), 1), day(2000, 12, 31));
    assert_eq!(add_years(&day(2001, 1, 1), 1), day(2002, 1, 1));
    assert_eq!(add_years(&day(2001, 1, 1), 0), day(2001, 1, 1));
}

#[test]
fn years_that_leave_the_calendar_leave_the_date() {
    let date = day(2001, 3, 4);
    assert_eq!(add_years(&date, 300_000), date);
    assert_eq!(add_years(&date, 6_000_000), date);
    assert_eq!(add_years(&date, u32::MAX), date);
}

#[test]
fn a_month_is_added_with_the_day_clamped() {
    assert_eq!(add_month(&day(2023, 1, 15)), Some(day(2023, 2, 15)));
    assert_eq!(add_month(&day(2023, 1, 31)), Some(day(2023, 2, 28)));
    assert_eq!(add_month(&day(2024, 1, 31)), Some(day(2024, 2, 29)));
    assert_eq!(add_month(&day(2023, 3, 31)), Some(day(2023, 4, 30)));
    assert_eq!(add_month(&day(2023, 12, 31)), Some(day(2024, 1, 31)));
    assert_eq!(add_month(&day(-1, 12, 1)), Some(day(0, 1, 1)));
}

#[test]
fn no_month_follows_the_last_december() {
    assert_eq!(add_month(&day(262_142, 12, 1)), None);
    assert_eq!(add_month(&day(262_142, 11, 30)), Some(day(262_142, 12, 30)));
}
