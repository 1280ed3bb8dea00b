use retirement_simulator::error::SimulationError;
use retirement_simulator::input::{Expenses, Input, Retiree};
use retirement_simulator::portfolio::{Allocation, Portfolio};
use retirement_simulator::simulate::{
    get_social_security_monthly_income, interpolate, is_everyone_dead, run_simulation,
    run_simulation_from, MonthlySnapshot, Simulation, SimulationResults,
};
use retirement_simulator::tax::{TaxLevel, TaxRates, UNBOUNDED};
use retirement_simulator::utils::Date;

fn day(year: i32, month: u32, day: u32) -> Date {
    Date::new(year, month, day).unwrap()
}

fn person() -> Retiree {
    Retiree {
        name: String::from("Pat"),
        date_of_birth: day(1960, 6, 15),
        retirement_age: 65,
        life_expectancy: 90,
        salary_annual: 12_000_000,
        retirement_contribution_percent: 100_000,
        social_security_age: 67,
        pension_age: 65,
        pension_monthly_income: 50_000,
        other_monthly_retirement_income: 20_000,
        social_security_amount_early: 150_000,
        social_security_amount_full: 200_000,
        social_security_amount_delayed: 260_000,
    }
}

fn household() -> Input {
    Input {
        retirees: vec![person()],
        portfolio: Portfolio {
            balance: 100_000_000,
            pre_retirement_allocation: Allocation {
                us_equities: 600_000,
                international: 200_000,
                bonds: 200_000,
            },
            post_retirement_allocation: Allocation {
                us_equities: 400_000,
                international: 200_000,
                bonds: 400_000,
            },
            us_equity_expected_returns: 70_000,
            us_equity_standard_deviation: 150_000,
            international_equity_expected_returns: 60_000,
            international_equity_standard_deviation: 170_000,
            bonds_expected_returns: 30_000,
            bonds_standard_deviation: 50_000,
            expected_inflation: 25_000,
        },
        expenses: Expenses { monthly: 600_000 },
        tax_rates: TaxRates {
            standard_deduction: 1_460_000,
            tax_levels: vec![
                TaxLevel { income: 0, rate: 0 },
                TaxLevel { income: 1_160_000, rate: 100_000 },
                TaxLevel { income: 4_715_000, rate: 120_000 },
                TaxLevel { income: UNBOUNDED, rate: 220_000 },
            ],
        },
    }
}

#[test]
fn test_social_security() {
    let early = 1000;
    let full = 2000;
    let delayed = 4000;

    assert_eq!(get_social_security_monthly_income(60, early, full, delayed), 0);
    assert_eq!(get_social_security_monthly_income(62, early, full, delayed), early);
    assert_eq!(get_social_security_monthly_income(67, early, full, delayed), full);
    assert_eq!(get_social_security_monthly_income(70, early, full, delayed), delayed);
    assert_eq!(get_social_security_monthly_income(71, early, full, delayed), delayed);
    assert_eq!(get_social_security_monthly_income(63, early, full, delayed), 1200);
    assert_eq!(get_social_security_monthly_income(68, early, full, delayed), 2000 + 2000 / 3);
}

#[test]
fn social_security_just_below_the_early_age() {
    assert_eq!(get_social_security_monthly_income(61, 1000, 2000, 4000), 0);
    assert_eq!(get_social_security_monthly_income(0, 1000, 2000, 4000), 0);
    assert_eq!(get_social_security_monthly_income(u32::MAX, 1000, 2000, 4000), 4000);
}

#[test]
fn social_security_between_the_ages() {
    assert_eq!(get_social_security_monthly_income(64, 1000, 2000, 4000), 1400);
    assert_eq!(get_social_security_monthly_income(66, 1000, 2000, 4000), 1800);
    assert_eq!(get_social_security_monthly_income(69, 1000, 2000, 4000), 3333);
}

#[test]
fn social_security_with_falling_benefits() {
    assert_eq!(get_social_security_monthly_income(68, 3000, 2000, 1000), 1666);
    assert_eq!(get_social_security_monthly_income(64, 3000, 2000, 1000), 2600);
    assert_eq!(get_social_security_monthly_income(69, u64::MAX, u64::MAX, 0), u64::MAX / 3);
}

#[test]
fn interpolation_rounds_down() {
    assert_eq!(interpolate(0, 10, 1, 3), 3);
    assert_eq!(interpolate(10, 0, 1, 3), 6);
    assert_eq!(interpolate(5, 5, 2, 3), 5);
    assert_eq!(interpolate(0, u64::MAX, 4, 5), u64::MAX / 5 * 4);
}

#[test]
fn everyone_is_dead_when_all_ages_exceed_life_expectancy() {
    let mut input = household();
    assert!(!is_everyone_dead(&day(2051, 6, 14), &input));
    assert!(is_everyone_dead(&day(2051, 6, 15), &input));
    let mut younger = person();
    younger.date_of_birth = day(1970, 1, 1);
    input.retirees.push(younger);
    assert!(!is_everyone_dead(&day(2051, 6, 15), &input));
    assert!(!is_everyone_dead(&day(2060, 12, 31), &input));
    assert!(is_everyone_dead(&day(2061, 1, 1), &input));
}

#[test]
fn a_simulation_starts_with_what_the_household_gives() {
    let input = household();
    let simulation = Simulation::starting(&input, day(2030, 1, 10));
    assert_eq!(simulation.current_date_, day(2030, 1, 10));
    assert_eq!(simulation.portfolio_, input.portfolio);
    assert_eq!(simulation.expenses_, 600_000);
    assert_eq!(simulation.tax_rates_, input.tax_rates.tax_levels);
    assert_eq!(simulation.sum_of_returns_, 0);
    let results = &simulation.simulation_results_;
    assert_eq!(results.retirement_date, day(2025, 5, 30));
    assert_eq!(results.retirement_age, 65);
    assert_eq!(results.retirees.len(), 1);
    assert_eq!(results.retirees[0].name, "Pat");
    assert_eq!(results.retirees[0].social_security_date, day(2027, 5, 30));
    assert_eq!(results.retirees[0].date_of_birth, day(1960, 6, 15));
    assert_eq!(results.retirees[0].social_security_income, 200_000);
    assert_eq!(results.retirees[0].pension_date, day(2025, 5, 30));
    assert_eq!(results.monthly_snapshot.len(), 0);
    assert_eq!(results.average_return, 0);
}

#[test]
fn a_new_simulation_starts_on_a_day_of_the_calendar() {
    let input = household();
    let simulation = Simulation::new(&input);
    let date = simulation.current_date_;
    assert_eq!(Date::new(date.year, date.month, date.day), Some(date));
    assert!(date.year >= 2024);
    assert_eq!(simulation.simulation_results_.monthly_snapshot.len(), 0);
}

#[test]
fn a_retired_month() {
    let input = household();
    let mut simulation = Simulation::starting(&input, day(2030, 1, 10));
    let finished = simulation.run_simulation_one_month(70_000, 60_000, 30_000);
    assert_eq!(finished, Ok(false));
    assert_eq!(simulation.simulation_results_.monthly_snapshot.len(), 1);
    assert_eq!(
        simulation.simulation_results_.monthly_snapshot[0],
        MonthlySnapshot {
            date: day(2030, 1, 10),
            balance: 100_031_586,
            expenses: 600_000,
            income: 270_000,
            tax_rate: 120_000,
            taxes: 58_938,
            withdrawal_rate: 46_672,
            annualized_return: 52_000,
        }
    );
    assert_eq!(simulation.current_date_, day(2030, 2, 10));
    assert_eq!(simulation.portfolio_.balance, 100_031_586);
    assert_eq!(simulation.simulation_results_.average_return, 52_000);
    assert_eq!(simulation.sum_of_returns_, 52_000);

    assert_eq!(simulation.run_simulation_one_month(70_000, 60_000, 30_000), Ok(false));
    let second = simulation.simulation_results_.monthly_snapshot[1];
    assert_eq!(second.date, day(2030, 2, 10));
    assert_eq!(second.balance, 100_063_306);
    assert_eq!(second.withdrawal_rate, 46_657);
    assert_eq!(simulation.current_date_, day(2030, 3, 10));
}

#[test]
fn a_working_month() {
    let input = household();
    let mut simulation = Simulation::starting(&input, day(2020, 3, 31));
    assert_eq!(simulation.run_simulation_one_month(70_000, 60_000, 30_000), Ok(false));
    assert_eq!(
        simulation.simulation_results_.monthly_snapshot[0],
        MonthlySnapshot {
            date: day(2020, 3, 31),
            balance: 100_586_410,
            expenses: 0,
            income: 0,
            tax_rate: 0,
            taxes: 0,
            withdrawal_rate: 0,
            annualized_return: 60_000,
        }
    );
    assert_eq!(simulation.current_date_, day(2020, 4, 30));
    assert_eq!(simulation.run_simulation_one_month(-100_000, 0, 20_000), Ok(false));
    let second = simulation.simulation_results_.monthly_snapshot[1];
    assert_eq!(second.balance, 100_191_570);
    assert_eq!(second.annualized_return, -56_000);
    assert_eq!(simulation.simulation_results_.average_return, 2_000);
    assert_eq!(simulation.current_date_, day(2020, 5, 30));
}

#[test]
fn the_dead_are_not_simulated() {
    let input = household();
    let mut simulation = Simulation::starting(&input, day(2051, 6, 15));
    assert_eq!(simulation.run_simulation_one_month(70_000, 60_000, 30_000), Ok(true));
    assert_eq!(simulation.simulation_results_.monthly_snapshot.len(), 0);
    assert_eq!(simulation.current_date_, day(2051, 6, 15));
    assert_eq!(simulation.portfolio_.balance, 100_000_000);
    assert_eq!(simulation.run_year(70_000, 60_000, 30_000), Ok(true));
    assert_eq!(simulation.simulation_results_.monthly_snapshot.len(), 0);
}

#[test]
fn an_empty_portfolio_ends_the_simulation() {
    let mut input = household();
    input.portfolio.balance = 700_000;
    let mut simulation = Simulation::starting(&input, day(2030, 1, 10));
    assert_eq!(simulation.run_simulation_one_month(70_000, 60_000, 30_000), Ok(false));
    assert_eq!(simulation.run_simulation_one_month(70_000, 60_000, 30_000), Ok(true));
    assert_eq!(simulation.portfolio_.balance, 0);
    assert_eq!(simulation.simulation_results_.monthly_snapshot[1].balance, 0);
    assert_eq!(simulation.simulation_results_.monthly_snapshot.len(), 2);
}

#[test]
fn tax_is_withdrawn_before_the_expenses() {
    let mut input = household();
    input.portfolio.balance = 50_000;
    let mut simulation = Simulation::starting(&input, day(2030, 1, 10));
    assert_eq!(simulation.run_simulation_one_month(0, 0, 0), Ok(true));
    let month = simulation.simulation_results_.monthly_snapshot[0];
    assert_eq!(month.balance, 0);
    assert_eq!(month.taxes, 58_938);
    assert_eq!(month.withdrawal_rate, 93_345_120);
}

#[test]
fn nothing_is_drawn_from_nothing() {
    let mut input = household();
    input.portfolio.balance = 0;
    let mut simulation = Simulation::starting(&input, day(2030, 1, 10));
    assert_eq!(simulation.run_simulation_one_month(70_000, 60_000, 30_000), Ok(true));
    let month = simulation.simulation_results_.monthly_snapshot[0];
    assert_eq!(month.withdrawal_rate, 0);
    assert_eq!(month.balance, 0);
    assert_eq!(month.taxes, 58_938);
    assert_eq!(month.annualized_return, 52_000);
}

#[test]
fn the_record_of_nothing() {
    let results = SimulationResults::default();
    assert_eq!(results.retirement_date, day(1970, 1, 1));
    assert_eq!(results.retirement_age, 0);
    assert_eq!(results.retirees.len(), 0);
    assert_eq!(results.monthly_snapshot.len(), 0);
    assert_eq!(results.average_return, 0);
}

#[test]
fn a_surplus_is_deposited() {
    let mut input = household();
    input.expenses.monthly = 100_000;
    let mut simulation = Simulation::starting(&input, day(2030, 1, 10));
    assert_eq!(simulation.run_simulation_one_month(0, 0, 0), Ok(false));
    let month = simulation.simulation_results_.monthly_snapshot[0];
    // 2,400.00 taxable, 1,216.66 deducted: 966.66 at 10% and 216.68 at 12%, grossed up by 1/0.88
    assert_eq!(month.taxes, 13_938);
    assert_eq!(month.tax_rate, 120_000);
    assert_eq!(month.balance, 100_000_000 + 170_000 - 13_938);
    assert_eq!(month.withdrawal_rate, 1_672);
    assert_eq!(month.expenses, 100_000);
    assert_eq!(month.income, 270_000);
}

#[test]
fn a_schedule_that_does_not_reach_is_an_error() {
    let mut input = household();
    input.tax_rates.tax_levels.truncate(2);
    let mut simulation = Simulation::starting(&input, day(2030, 1, 10));
    assert_eq!(
        simulation.run_simulation_one_month(70_000, 60_000, 30_000),
        Err(SimulationError::TaxBracketMissing)
    );
    assert_eq!(simulation.simulation_results_.monthly_snapshot.len(), 0);
    assert_eq!(simulation.portfolio_.balance, 100_000_000);
    assert_eq!(simulation.current_date_, day(2030, 1, 10));
    assert_eq!(
        run_simulation_from(&input, day(2030, 1, 10)).err(),
        Some(SimulationError::TaxBracketMissing)
    );
}

#[test]
fn a_schedule_must_end_without_a_ceiling_even_where_it_reaches() {
    let mut input = household();
    // the month's income falls in the third bracket, but the schedule has no last one
    input.tax_rates.tax_levels.truncate(3);
    let mut simulation = Simulation::starting(&input, day(2030, 1, 10));
    assert_eq!(
        simulation.run_simulation_one_month(70_000, 60_000, 30_000),
        Err(SimulationError::TaxBracketMissing)
    );
    assert_eq!(simulation.simulation_results_.monthly_snapshot.len(), 0);
    input.tax_rates.tax_levels.clear();
    let mut simulation = Simulation::starting(&input, day(2030, 1, 10));
    assert_eq!(
        simulation.run_simulation_one_month(70_000, 60_000, 30_000),
        Err(SimulationError::TaxBracketMissing)
    );
}

#[test]
fn a_marginal_rate_of_the_whole_is_an_error() {
    let mut input = household();
    input.tax_rates.tax_levels[2].rate = 1_000_000;
    let mut simulation = Simulation::starting(&input, day(2030, 1, 10));
    assert_eq!(
        simulation.run_simulation_one_month(70_000, 60_000, 30_000),
        Err(SimulationError::TaxRateTooHigh)
    );
    assert_eq!(simulation.simulation_results_.monthly_snapshot.len(), 0);
    input.tax_rates.tax_levels[2].rate = 999_999;
    let mut simulation = Simulation::starting(&input, day(2030, 1, 10));
    assert_eq!(simulation.run_simulation_one_month(70_000, 60_000, 30_000), Ok(true));
}

#[test]
fn the_end_of_the_calendar_is_an_error() {
    let mut input = household();
    input.retirees[0].date_of_birth = day(262_100, 1, 1);
    let mut simulation = Simulation::starting(&input, day(262_142, 11, 5));
    assert_eq!(simulation.run_simulation_one_month(0, 0, 0), Ok(false));
    assert_eq!(simulation.current_date_, day(262_142, 12, 5));
    assert_eq!(simulation.run_simulation_one_month(0, 0, 0), Err(SimulationError::DateOverflow));
    assert_eq!(simulation.simulation_results_.monthly_snapshot.len(), 1);
    assert_eq!(simulation.current_date_, day(262_142, 12, 5));
    assert_eq!(
        run_simulation_from(&input, day(262_142, 11, 5)).err(),
        Some(SimulationError::DateOverflow)
    );
}

#[test]
fn income_starts_on_the_days_worked_out_at_the_start() {
    let mut input = household();
    input.retirees[0].pension_age = 70;
    input.retirees[0].social_security_age = 70;
    input.expenses.monthly = 0;
    let mut simulation = Simulation::starting(&input, day(2030, 5, 13));
    assert_eq!(simulation.simulation_results_.retirees[0].pension_date, day(2030, 5, 29));
    assert_eq!(simulation.simulation_results_.retirees[0].social_security_date, day(2030, 5, 29));
    assert_eq!(simulation.simulation_results_.retirees[0].social_security_income, 260_000);
    assert_eq!(simulation.run_simulation_one_month(0, 0, 0), Ok(false));
    assert_eq!(simulation.simulation_results_.monthly_snapshot[0].income, 20_000);
    simulation.current_date_ = day(2030, 5, 29);
    assert_eq!(simulation.run_simulation_one_month(0, 0, 0), Ok(false));
    // the pension starts on its day, social security the day after its day
    assert_eq!(simulation.simulation_results_.monthly_snapshot[1].income, 70_000);
    simulation.current_date_ = day(2030, 5, 30);
    assert_eq!(simulation.run_simulation_one_month(0, 0, 0), Ok(false));
    assert_eq!(simulation.simulation_results_.monthly_snapshot[2].income, 330_000);
}

#[test]
fn a_year_is_twelve_months() {
    let input = household();
    let mut simulation = Simulation::starting(&input, day(2030, 1, 10));
    assert_eq!(simulation.run_year(70_000, 60_000, 30_000), Ok(false));
    assert_eq!(simulation.simulation_results_.monthly_snapshot.len(), 12);
    assert_eq!(simulation.current_date_, day(2031, 1, 10));
    let mut monthly = Simulation::starting(&input, day(2030, 1, 10));
    for _ in 0..12 {
        assert_eq!(monthly.run_simulation_one_month(70_000, 60_000, 30_000), Ok(false));
    }
    assert_eq!(
        simulation.simulation_results_.monthly_snapshot,
        monthly.simulation_results_.monthly_snapshot
    );
    assert_eq!(
        simulation.simulation_results_.average_return,
        monthly.simulation_results_.average_return
    );
}

#[test]
fn a_year_stops_where_the_simulation_ends() {
    let mut input = household();
    input.portfolio.balance = 700_000;
    let mut simulation = Simulation::starting(&input, day(2030, 1, 10));
    assert_eq!(simulation.run_year(70_000, 60_000, 30_000), Ok(true));
    assert_eq!(simulation.simulation_results_.monthly_snapshot.len(), 2);
    let input = household();
    let mut simulation = Simulation::starting(&input, day(2051, 4, 20));
    assert_eq!(simulation.run_year(0, 0, 0), Ok(true));
    assert_eq!(simulation.simulation_results_.monthly_snapshot.len(), 2);
    assert_eq!(simulation.current_date_, day(2051, 6, 20));
}

#[test]
fn a_simulation_runs_until_everyone_is_dead() {
    let input = household();
    let results = run_simulation_from(&input, day(2030, 1, 10)).unwrap();
    assert_eq!(results.monthly_snapshot.len(), 258);
    let last = results.monthly_snapshot[257];
    assert_eq!(last.date, day(2051, 6, 10));
    assert_eq!(last.balance, 114_702_501);
    assert_eq!(last.withdrawal_rate, 40_723);
    assert_eq!(results.average_return, 52_000);
    assert_eq!(results.retirement_date, day(2025, 5, 30));
    assert_eq!(results.retirement_age, 65);
    assert_eq!(results.retirees[0].name, "Pat");
}

#[test]
fn a_simulation_runs_until_the_money_is_gone() {
    let mut input = household();
    input.portfolio.balance = 30_000_000;
    let results = run_simulation_from(&input, day(2030, 1, 10)).unwrap();
    assert_eq!(results.monthly_snapshot.len(), 94);
    assert_eq!(results.monthly_snapshot[93].balance, 0);
    assert_eq!(results.monthly_snapshot[93].date, day(2037, 10, 10));
    assert_eq!(results.monthly_snapshot[93].withdrawal_rate, 315_867_352);
    assert_eq!(results.monthly_snapshot[92].balance, 14_776);
}

#[test]
fn a_simulation_of_the_dead_has_no_months() {
    let input = household();
    let results = run_simulation_from(&input, day(2060, 1, 1)).unwrap();
    assert_eq!(results.monthly_snapshot.len(), 0);
    assert_eq!(results.average_return, 0);
}

#[test]
fn a_simulation_from_today() {
    let mut input = household();
    input.retirees[0].date_of_birth = day(1990, 1, 1);
    input.retirees[0].life_expectancy = 200;
    input.expenses.monthly = 0;
    let results = run_simulation(&input).unwrap();
    assert!(results.monthly_snapshot.len() > 12);
    let last = results.monthly_snapshot[results.monthly_snapshot.len() - 1];
    assert!(last.date.year >= 2190);
    assert!(last.balance > 0);
}

#[test]
fn an_idle_household_keeps_its_balance() {
    let mut input = household();
    input.expenses.monthly = 0;
    input.retirees[0].salary_annual = 0;
    input.retirees[0].pension_monthly_income = 0;
    input.retirees[0].other_monthly_retirement_income = 0;
    input.retirees[0].social_security_amount_early = 0;
    input.retirees[0].social_security_amount_full = 0;
    input.retirees[0].social_security_amount_delayed = 0;
    input.portfolio.us_equity_expected_returns = 0;
    input.portfolio.international_equity_expected_returns = 0;
    input.portfolio.bonds_expected_returns = 0;
    input.portfolio.balance = 123_456_789;
    let results = run_simulation_from(&input, day(2020, 3, 31)).unwrap();
    assert_eq!(results.monthly_snapshot.len(), 375);
    for month in results.monthly_snapshot.iter() {
        assert_eq!(month.balance, 123_456_789);
        assert_eq!(month.taxes, 0);
        assert_eq!(month.income, 0);
        assert_eq!(month.annualized_return, 0);
    }
    assert!(is_everyone_dead(&day(2051, 6, 30), &input));
    assert_eq!(results.monthly_snapshot[374].date, day(2051, 5, 28));
}

#[test]
fn an_invalid_household_is_found_out() {
    let mut input = household();
    assert!(input.is_valid());
    input.retirees[0].date_of_birth = Date { year: 1960, month: 2, day: 30 };
    assert!(!input.is_valid());
    input.retirees.clear();
    assert!(!input.is_valid());
}

#[test]
fn errors_have_messages() {
    assert_eq!(SimulationError::TaxBracketMissing.message(), "Tax rate too high!");
    assert_eq!(SimulationError::TaxRateTooHigh.message(), "Marginal tax rate of 100% or more");
    assert_eq!(SimulationError::DateOverflow.message(), "Date out of range");
    assert_eq!(SimulationError::NothingSimulated.message(), "Nobody left to simulate");
}
