use retirement_simulator::portfolio::{Allocation, Portfolio};
use retirement_simulator::tax::{ends_unbounded, get_taxes, gross_up, TaxLevel, UNBOUNDED};

fn portfolio(balance: u64) -> Portfolio {
    Portfolio {
        balance,
        pre_retirement_allocation: Allocation {
            us_equities: 600_000,
            international: 200_000,
            bonds: 200_000,
        },
        post_retirement_allocation: Allocation {
            us_equities: 400_000,
            international: 200_000,
            bonds: 400_000,
        },
        us_equity_expected_returns: 70_000,
        us_equity_standard_deviation: 150_000,
        international_equity_expected_returns: 60_000,
        international_equity_standard_deviation: 170_000,
        bonds_expected_returns: 30_000,
        bonds_standard_deviation: 50_000,
        expected_inflation: 25_000,
    }
}

fn schedule() -> Vec<TaxLevel> {
    vec![
        TaxLevel { income: 0, rate: 0 },
        TaxLevel { income: 1_160_000, rate: 100_000 },
        TaxLevel { income: 4_715_000, rate: 120_000 },
        TaxLevel { income: UNBOUNDED, rate: 220_000 },
    ]
}

#[test]
fn a_new_allocation_holds_nothing() {
    let a = Allocation::new();
    assert_eq!(a, Allocation { us_equities: 0, international: 0, bonds: 0 });
}

#[test]
fn deposit_adds() {
    let mut p = portfolio(1_000);
    p.deposit(250);
    assert_eq!(p.balance, 1_250);
    p.deposit(0);
    assert_eq!(p.balance, 1_250);
    assert_eq!(Portfolio { balance: 1_000, ..p }, portfolio(1_000));
}

#[test]
fn deposit_stops_at_the_largest_amount() {
    let mut p = portfolio(u64::MAX - 5);
    p.deposit(10);
    assert_eq!(p.balance, u64::MAX);
}

#[test]
fn withdraw_subtracts() {
    let mut p = portfolio(1_000);
    p.withdraw(400);
    assert_eq!(p.balance, 600);
    assert_eq!(Portfolio { balance: 1_000, ..p }, portfolio(1_000));
}

#[test]
fn withdraw_never_leaves_less_than_nothing() {
    let mut p = portfolio(1_000);
    p.withdraw(1_000);
    assert_eq!(p.balance, 0);
    let mut p = portfolio(1_000);
    p.withdraw(1_001);
    assert_eq!(p.balance, 0);
    let mut p = portfolio(1_000);
    p.withdraw(u64::MAX);
    assert_eq!(p.balance, 0);
    let mut p = portfolio(0);
    p.withdraw(1);
    assert_eq!(p.balance, 0);
}

#[test]
fn grow_applies_the_monthly_factors_by_share() {
    let mut p = portfolio(99_611_062);
    let blended = p.grow(70_000, 60_000, 30_000, true);
    assert_eq!(p.balance, 100_031_586);
    assert_eq!(blended, 52_000);
    assert_eq!(Portfolio { balance: 0, ..p }, portfolio(0));
}

#[test]
fn grow_takes_the_allocation_of_the_phase() {
    let mut before = portfolio(123_456_789);
    let blended = before.grow(-370_000, -120_000, 50_000, false);
    assert_eq!(before.balance, 120_497_885);
    assert_eq!(blended, -236_000);
    let mut after = portfolio(123_456_789);
    let blended = after.grow(-370_000, -120_000, 50_000, true);
    assert_eq!(blended, -152_000);
    assert!(after.balance > before.balance);
}

#[test]
fn grow_of_nothing_is_nothing() {
    let mut p = portfolio(0);
    let blended = p.grow(70_000, 60_000, 30_000, false);
    assert_eq!(p.balance, 0);
    assert_eq!(blended, 60_000);
}

#[test]
fn grow_without_return_changes_nothing() {
    let mut p = portfolio(987_654_321);
    let blended = p.grow(0, 0, 0, false);
    assert_eq!(p.balance, 987_654_321);
    assert_eq!(blended, 0);
    let mut p = portfolio(u64::MAX);
    p.grow(0, 0, 0, true);
    assert_eq!(p.balance, u64::MAX);
}

#[test]
fn grow_under_an_empty_allocation_leaves_nothing() {
    let mut p = portfolio(1_000_000);
    p.pre_retirement_allocation = Allocation::new();
    let blended = p.grow(70_000, 60_000, 30_000, false);
    assert_eq!(p.balance, 0);
    assert_eq!(blended, 0);
}

#[test]
fn blended_return_rounds_down() {
    let mut p = portfolio(1);
    p.pre_retirement_allocation =
        Allocation { us_equities: 333_333, international: 333_333, bonds: 333_334 };
    assert_eq!(p.grow(-1, 0, 0, false), -1);
    let mut p = portfolio(1);
    assert_eq!(p.grow(-123_457, 50_001, -7, false), -64_076);
}

#[test]
fn grow_stops_at_the_largest_amount() {
    let mut p = portfolio(u64::MAX);
    p.grow(1_000_000, 1_000_000, 1_000_000, false);
    assert_eq!(p.balance, u64::MAX);
}

#[test]
fn taxes_walk_the_brackets() {
    let levels = schedule();
    assert_eq!(get_taxes(0, 1_460_000, &levels), (0, 0));
    assert_eq!(get_taxes(100_000, 1_460_000, &levels), (0, 0));
    assert_eq!(get_taxes(121_666, 1_460_000, &levels), (0, 0));
    assert_eq!(get_taxes(121_667, 1_460_000, &levels), (0, 100_000));
    assert_eq!(get_taxes(218_332, 1_460_000, &levels), (9_666, 100_000));
    assert_eq!(get_taxes(218_333, 1_460_000, &levels), (9_666, 120_000));
    assert_eq!(get_taxes(500_000, 1_460_000, &levels), (43_466, 120_000));
    assert_eq!(get_taxes(570_000, 1_460_000, &levels), (51_866, 120_000));
    assert_eq!(get_taxes(10_000_000, 1_460_000, &levels), (2_122_340, 220_000));
}

#[test]
fn taxes_without_a_deduction() {
    let levels = schedule();
    assert_eq!(get_taxes(1_000, 0, &levels), (100, 100_000));
    assert_eq!(get_taxes(1_000, 11, &levels), (100, 100_000));
    assert_eq!(get_taxes(1_000, 12, &levels), (99, 100_000));
}

#[test]
fn a_schedule_is_complete_when_it_ends_without_a_ceiling() {
    assert!(ends_unbounded(&schedule()));
    assert!(ends_unbounded(&vec![TaxLevel { income: UNBOUNDED, rate: 0 }]));
    assert!(!ends_unbounded(&Vec::new()));
    assert!(!ends_unbounded(&vec![
        TaxLevel { income: 0, rate: 0 },
        TaxLevel { income: 1_200_000, rate: 100_000 },
    ]));
    assert!(!ends_unbounded(&vec![
        TaxLevel { income: UNBOUNDED, rate: 0 },
        TaxLevel { income: UNBOUNDED - 1, rate: 100_000 },
    ]));
}

#[test]
fn an_unbounded_bracket_reaches_every_income() {
    let levels = vec![TaxLevel { income: UNBOUNDED, rate: 500_000 }];
    assert_eq!(get_taxes(u64::MAX, 0, &levels), (u64::MAX / 2, 500_000));
    let levels = vec![
        TaxLevel { income: 1_200_000, rate: 100_000 },
        TaxLevel { income: UNBOUNDED, rate: 500_000 },
    ];
    assert_eq!(get_taxes(100_000, 0, &levels), (10_000, 100_000));
    assert_eq!(get_taxes(100_001, 0, &levels), (10_000, 500_000));
    assert_eq!(get_taxes(100_003, 0, &levels), (10_001, 500_000));
}

#[test]
fn taxes_stop_at_the_largest_amount() {
    let levels = vec![TaxLevel { income: UNBOUNDED, rate: u32::MAX }];
    assert_eq!(get_taxes(u64::MAX, 0, &levels), (u64::MAX, u32::MAX));
}

#[test]
fn taxes_never_fall_as_income_rises() {
    let levels = schedule();
    let mut last: u64 = 0;
    let mut income: u64 = 0;
    while income < 2_000_000 {
        let (tax, _) = get_taxes(income, 1_460_000, &levels);
        assert!(tax >= last);
        last = tax;
        income += 997;
    }
}

#[test]
fn the_blended_rate_stays_under_the_top_rate() {
    let levels = schedule();
    for income in [1u64, 121_667, 218_333, 500_000, 10_000_000, 1_000_000_000_000] {
        let (tax, rate) = get_taxes(income, 1_460_000, &levels);
        assert!(rate <= 220_000);
        assert!(tax as u128 * 1_000_000 <= income as u128 * 220_000);
    }
}

#[test]
fn gross_up_pays_the_tax_on_the_tax() {
    assert_eq!(gross_up(51_866, 120_000), 58_938);
    assert_eq!(gross_up(1_000, 0), 1_000);
    assert_eq!(gross_up(0, 999_999), 0);
    assert_eq!(gross_up(1, 999_999), 1_000_000);
    assert_eq!(gross_up(750, 250_000), 1_000);
    assert_eq!(gross_up(u64::MAX, 500_000), u64::MAX);
}
