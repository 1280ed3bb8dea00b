//! What one month does to a household's money: the income, the withdrawals,
//! the tax and the growth of the month that starts on a given day, stated
//! over plain numbers: the household's data and the days that were worked
//! out for it when the simulation started.
use vstd::prelude::*;
use crate::error::SimulationError;
use crate::input::{Input, Retiree};
use crate::portfolio::{blended_return, grown_balance, AnnualReturns};
use crate::simulate::{MonthlySnapshot, RetireeInfo};
use crate::tax::{grossed_up, is_complete, taxes};
use crate::units::{cap, lemma_quotient_within, RATE_UNIT};
use crate::utils::{age_on, next_month, years_after, Date};

verus! {

/// Below this age social security pays nothing.
pub const EARLY_AGE: u32 = 62;

/// The age of the full benefit.
pub const FULL_AGE: u32 = 67;

/// From this age on social security pays the delayed benefit.
pub const DELAYED_AGE: u32 = 70;

/// The share of social security income that is taxed, in parts per million.
pub const SOCIAL_SECURITY_TAXABLE: u64 = 850_000;

/// What a simulation knows of its household: the household's data, the day
/// it retires, and what was worked out for each person at the start.
pub struct Household {
    pub input: Input,
    pub retirement_date: Date,
    pub people: Seq<RetireeInfo>,
}

/// The part of a simulation that changes from month to month.
pub struct Progress {
    pub date: Date,
    pub balance: u64,
    pub months: Seq<MonthlySnapshot>,
    pub sum_of_returns: int,
}

/// The monthly social security income of someone who claims at `age`: nothing
/// before `EARLY_AGE`, the delayed benefit from `DELAYED_AGE` on, and between
/// the three ages the straight line through the three benefits, rounded down.
pub open spec fn social_security_benefit(age: int, early: int, full: int, delayed: int) -> int {
    if age >= DELAYED_AGE {
        delayed
    } else if age < EARLY_AGE {
        0
    } else if age >= FULL_AGE {
        full + (delayed - full) * (age - FULL_AGE) / (DELAYED_AGE - FULL_AGE)
    } else {
        early + (full - early) * (age - EARLY_AGE) / (FULL_AGE - EARLY_AGE)
    }
}

/// The day a person's social security starts.
pub open spec fn claim_date(retiree: Retiree) -> Date {
    years_after(retiree.date_of_birth, retiree.social_security_age)
}

/// The day a person's pension starts.
pub open spec fn pension_date(retiree: Retiree) -> Date {
    years_after(retiree.date_of_birth, retiree.pension_age)
}

/// A person's monthly social security income once claimed.
pub open spec fn benefit_of(retiree: Retiree) -> int {
    social_security_benefit(
        retiree.social_security_age as int,
        retiree.social_security_amount_early as int,
        retiree.social_security_amount_full as int,
        retiree.social_security_amount_delayed as int,
    )
}

/// What a person pays into the portfolio in a month of work: a twelfth of the
/// contributed share of the salary.
pub open spec fn monthly_contribution(retiree: Retiree) -> int {
    cap(retiree.salary_annual * retiree.retirement_contribution_percent / (RATE_UNIT as int)) / 12
}

/// The day the household retires: the first person's retirement.
pub open spec fn retirement_date(retirees: Seq<Retiree>) -> Date {
    years_after(retirees[0].date_of_birth, retirees[0].retirement_age)
}

/// Everyone's age on `date` is above their life expectancy.
pub open spec fn everyone_dead(date: Date, retirees: Seq<Retiree>) -> bool {
    forall|i: int|
        0 <= i < retirees.len() ==> age_on((#[trigger] retirees[i]).date_of_birth, date)
            > retirees[i].life_expectancy
}

/// The monthly contributions of the first `n` people.
pub open spec fn contributions(retirees: Seq<Retiree>, n: int) -> int
    decreases n,
{
    if n <= 0 {
        0
    } else {
        contributions(retirees, n - 1) + monthly_contribution(retirees[n - 1])
    }
}

/// The social security income on `date` of the first `n` people: the income
/// of each whose claim date has passed.
pub open spec fn social_security(people: Seq<RetireeInfo>, date: Date, n: int) -> int
    decreases n,
{
    if n <= 0 {
        0
    } else {
        social_security(people, date, n - 1) + (if people[n - 1].social_security_date.precedes(
            date,
        ) {
            people[n - 1].social_security_income as int
        } else {
            0
        })
    }
}

/// The pension income on `date` of the first `n` people: the pension of each
/// whose pension date has come.
pub open spec fn pensions(retirees: Seq<Retiree>, people: Seq<RetireeInfo>, date: Date, n: int)
    -> int
    decreases n,
{
    if n <= 0 {
        0
    } else {
        pensions(retirees, people, date, n - 1) + (if !date.precedes(people[n - 1].pension_date) {
            retirees[n - 1].pension_monthly_income as int
        } else {
            0
        })
    }
}

/// The other retirement income of the first `n` people.
pub open spec fn other_income(retirees: Seq<Retiree>, n: int) -> int
    decreases n,
{
    if n <= 0 {
        0
    } else {
        other_income(retirees, n - 1) + retirees[n - 1].other_monthly_retirement_income
    }
}

/// The mean of `count` returns that add up to `sum`, rounded down; zero of none.
pub open spec fn average(sum: int, count: int) -> int {
    if count <= 0 {
        0
    } else {
        sum / count
    }
}

/// The household has retired by `date`.
pub open spec fn is_retired(h: Household, date: Date) -> bool {
    !date.precedes(h.retirement_date)
}

/// The social security income of the month that starts on `date`.
pub open spec fn social_security_income(h: Household, date: Date) -> int {
    cap(social_security(h.people, date, h.people.len() as int))
}

/// The pension income of the month.
pub open spec fn pension_income(h: Household, date: Date) -> int {
    cap(pensions(h.input.retirees@, h.people, date, h.input.retirees@.len() as int))
}

/// The other retirement income of the month: none before retirement.
pub open spec fn other_retirement_income(h: Household, date: Date) -> int {
    if is_retired(h, date) {
        cap(other_income(h.input.retirees@, h.input.retirees@.len() as int))
    } else {
        0
    }
}

/// All income of the month.
pub open spec fn month_income(h: Household, date: Date) -> int {
    cap(
        social_security_income(h, date) + pension_income(h, date)
            + other_retirement_income(h, date),
    )
}

/// The taxable income of the month: the taxable share of social security, and
/// all of the rest.
pub open spec fn month_taxable(h: Household, date: Date) -> int {
    cap(
        social_security_income(h, date) * SOCIAL_SECURITY_TAXABLE / (RATE_UNIT as int)
            + pension_income(h, date) + other_retirement_income(h, date),
    )
}

/// What has to be withdrawn to meet the expenses: nothing before retirement.
pub open spec fn month_withdrawals(h: Household, date: Date) -> int {
    if is_retired(h, date) && month_income(h, date) < h.input.expenses.monthly {
        h.input.expenses.monthly - month_income(h, date)
    } else {
        0
    }
}

/// The tax on the month's withdrawals and taxable income, before the
/// gross-up, and the marginal rate.
pub open spec fn month_tax(h: Household, date: Date) -> Option<(u64, u32)> {
    taxes(
        cap(month_withdrawals(h, date) + month_taxable(h, date)),
        h.input.tax_rates.standard_deduction as int,
        h.input.tax_rates.tax_levels@,
    )
}

/// Why the month that starts on `date` cannot be simulated, if it cannot:
/// the tax schedule does not end in a bracket without a ceiling; or the
/// month's marginal rate is the whole or more; or no month follows.
pub open spec fn month_error(h: Household, date: Date) -> Option<SimulationError> {
    if !is_complete(h.input.tax_rates.tax_levels@) {
        Some(SimulationError::TaxBracketMissing)
    } else if month_tax(h, date).unwrap().1 >= RATE_UNIT {
        Some(SimulationError::TaxRateTooHigh)
    } else if next_month(date) is None {
        Some(SimulationError::DateOverflow)
    } else {
        None
    }
}

/// The balance after the month's contributions: none once retired.
pub open spec fn balance_after_contributions(h: Household, p: Progress) -> int {
    if p.date.precedes(h.retirement_date) {
        cap(p.balance + contributions(h.input.retirees@, h.input.retirees@.len() as int))
    } else {
        p.balance as int
    }
}

/// The snapshot of the month that starts at `p` under the given annual
/// returns (for a month that `month_error` finds no fault with).
pub open spec fn month_snapshot(h: Household, p: Progress, yields: AnnualReturns)
    -> MonthlySnapshot {
    let date = p.date;
    let retired = is_retired(h, date);
    let income = month_income(h, date);
    let withdrawals = month_withdrawals(h, date);
    let (tax, rate) = month_tax(h, date).unwrap();
    let charged = grossed_up(tax as int, rate as int);
    let funded = balance_after_contributions(h, p);
    let with_surplus = if income > h.input.expenses.monthly {
        cap(funded + income - h.input.expenses.monthly)
    } else {
        funded
    };
    let after_tax = cap(with_surplus - charged);
    let after_withdrawals = cap(after_tax - withdrawals);
    let allocation = h.input.portfolio.allocation_for(retired);
    MonthlySnapshot {
        date,
        balance: grown_balance(
            after_withdrawals,
            allocation,
            yields.us_equity as int,
            yields.international as int,
            yields.bonds as int,
        ) as u64,
        expenses: if retired {
            h.input.expenses.monthly
        } else {
            0
        },
        income: income as u64,
        tax_rate: rate,
        taxes: charged as u64,
        withdrawal_rate: if funded > 0 {
            cap((withdrawals + charged) * 12 * RATE_UNIT / funded) as u64
        } else {
            0
        },
        annualized_return: blended_return(
            allocation,
            yields.us_equity as int,
            yields.international as int,
            yields.bonds as int,
        ) as i64,
    }
}

/// Where a simulation stands after the month that starts at `p`.
pub open spec fn after_month(h: Household, p: Progress, yields: AnnualReturns) -> Progress {
    let snapshot = month_snapshot(h, p, yields);
    Progress {
        date: next_month(p.date).unwrap(),
        balance: snapshot.balance,
        months: p.months.push(snapshot),
        sum_of_returns: p.sum_of_returns + snapshot.annualized_return,
    }
}

/// Where a simulation of the household stands when it starts on `start`.
pub open spec fn start_progress(input: Input, start: Date) -> Progress {
    Progress {
        date: start,
        balance: input.portfolio.balance,
        months: Seq::empty(),
        sum_of_returns: 0,
    }
}

/// What is worked out for a person when a simulation starts: the days their
/// social security and their pension start, and their social security income.
pub open spec fn info_of(retiree: Retiree) -> RetireeInfo {
    RetireeInfo {
        name: retiree.name,
        social_security_date: claim_date(retiree),
        date_of_birth: retiree.date_of_birth,
        social_security_income: benefit_of(retiree) as u64,
        pension_date: pension_date(retiree),
    }
}

/// What a simulation of the household knows of it when it starts.
pub open spec fn household_of(input: Input) -> Household {
    Household {
        input,
        retirement_date: retirement_date(input.retirees@),
        people: Seq::new(input.retirees@.len(), |i: int| info_of(input.retirees@[i])),
    }
}

/// A point on the line from `from` to `to`, rounded down, lies between the two.
pub proof fn lemma_line_in_range(from: int, to: int, step: int, steps: int)
    requires
        0 <= step <= steps,
        0 < steps,
    ensures
        from <= to ==> from <= from + (to - from) * step / steps <= to,
        to <= from ==> to <= from + (to - from) * step / steps <= from,
{
    let d = to - from;
    if d >= 0 {
        assert(0 <= d * step <= d * steps) by (nonlinear_arith)
            requires
                0 <= d,
                0 <= step <= steps,
        ;
        lemma_quotient_within(d * step, steps, d);
        vstd::arithmetic::div_mod::lemma_div_pos_is_pos(d * step, steps);
    } else {
        assert((-d) * steps == -(d * steps)) by (nonlinear_arith);
        assert(d * steps <= d * step <= 0) by (nonlinear_arith)
            requires
                d < 0,
                0 <= step <= steps,
        ;
        lemma_quotient_within(d * step, steps, -d);
        vstd::arithmetic::div_mod::lemma_div_is_ordered(d * step, 0, steps);
    }
}

} // verus!
