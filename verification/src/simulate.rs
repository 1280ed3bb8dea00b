//! The simulation of one retirement: a household's money carried month by
//! month from a starting day until everyone has outlived their life
//! expectancy or the portfolio is empty.
use vstd::prelude::*;
use crate::course::{lemma_after_month_date, outcome, stretch, uniform};
use crate::error::SimulationError;
use crate::input::{Input, Retiree};
use crate::month::{
    after_month, average, contributions, everyone_dead, household_of, info_of,
    lemma_line_in_range, month_error, other_income, pension_income, pensions, social_security,
    social_security_benefit, social_security_income, start_progress, Household, Progress,
    DELAYED_AGE, EARLY_AGE, FULL_AGE, SOCIAL_SECURITY_TAXABLE,
};
use crate::portfolio::{AnnualReturns, Portfolio, RETURN_LIMIT};
use crate::tax::{ends_unbounded, get_taxes, gross_up, TaxLevel};
use crate::units::{cap, div_floor, lemma_quotient_within, scale, MONTHS_PER_YEAR, RATE_UNIT};
use crate::utils::{add_month, add_years, age_on, get_age, today, Date};

verus! {

/// What one simulated month came to.
#[derive(Clone, Copy, Debug, PartialEq, Eq, Structural)]
pub struct MonthlySnapshot {
    pub date: Date,
    pub balance: u64,
    pub expenses: u64,
    pub income: u64,
    pub tax_rate: u32,
    pub taxes: u64,
    pub withdrawal_rate: u64,
    pub annualized_return: i64,
}

/// What is worked out once for each person when a simulation starts.
#[derive(Clone, Debug)]
pub struct RetireeInfo {
    pub name: String,
    pub social_security_date: Date,
    pub date_of_birth: Date,
    pub social_security_income: u64,
    pub pension_date: Date,
}

/// The record of a simulation: what was worked out at its start, one
/// snapshot for each month, and the mean of the months' blended returns.
#[derive(Clone, Debug)]
pub struct SimulationResults {
    pub retirement_date: Date,
    pub retirement_age: u32,
    pub retirees: Vec<RetireeInfo>,
    pub monthly_snapshot: Vec<MonthlySnapshot>,
    pub average_return: i64,
}

impl Default for SimulationResults {
    /// The record of nothing, dated to the first day of 1970.
    fn default() -> (r: Self)
        ensures
            r.retirement_date == (Date { year: 1970, month: 1, day: 1 }),
            r.retirement_age == 0,
            r.retirees@.len() == 0,
            r.monthly_snapshot@.len() == 0,
            r.average_return == 0,
    {
        SimulationResults {
            retirement_date: Date { year: 1970, month: 1, day: 1 },
            retirement_age: 0,
            retirees: Vec::new(),
            monthly_snapshot: Vec::new(),
            average_return: 0,
        }
    }
}

/// `results` is the record of a simulation of the household that has come to `p`.
pub open spec fn records(results: SimulationResults, h: Household, p: Progress) -> bool {
    &&& results.retirement_date == h.retirement_date
    &&& results.retirement_age == h.input.retirees@[0].retirement_age
    &&& results.retirees@ == h.people
    &&& results.monthly_snapshot@ == p.months
    &&& results.average_return == average(p.sum_of_returns, p.months.len() as int)
}

/// The expected annual returns of the household's portfolio.
pub open spec fn expected_returns(input: Input) -> AnnualReturns {
    AnnualReturns {
        us_equity: input.portfolio.us_equity_expected_returns,
        international: input.portfolio.international_equity_expected_returns,
        bonds: input.portfolio.bonds_expected_returns,
    }
}

/// `r` is what a simulation of the household from `start` under `source`
/// comes to: the record of its outcome, or its error.
pub open spec fn simulated(
    input: Input,
    start: Date,
    source: spec_fn(nat) -> AnnualReturns,
    r: Result<SimulationResults, SimulationError>,
) -> bool {
    match outcome(household_of(input), start_progress(input, start), source) {
        Ok(p) => r is Ok && records(r.unwrap(), household_of(input), p),
        Err(e) => r == Err::<SimulationResults, SimulationError>(e),
    }
}

/// The monthly social security income of someone who claims at `retirement_age`.
pub fn get_social_security_monthly_income(
    retirement_age: u32,
    benefit_early: u64,
    benefit_full: u64,
    benefit_delayed: u64,
) -> (r: u64)
    ensures
        r == social_security_benefit(
            retirement_age as int,
            benefit_early as int,
            benefit_full as int,
            benefit_delayed as int,
        ),
{
    if retirement_age >= DELAYED_AGE {
        benefit_delayed
    } else if retirement_age < EARLY_AGE {
        0
    } else if retirement_age >= FULL_AGE {
        interpolate(
            benefit_full,
            benefit_delayed,
            retirement_age - FULL_AGE,
            DELAYED_AGE - FULL_AGE,
        )
    } else {
        interpolate(
            benefit_early,
            benefit_full,
            retirement_age - EARLY_AGE,
            FULL_AGE - EARLY_AGE,
        )
    }
}

/// The point `step` of `steps` along the line from `from` to `to`, rounded down.
pub fn interpolate(from: u64, to: u64, step: u32, steps: u32) -> (r: u64)
    requires
        step <= steps,
        0 < steps,
    ensures
        r == from + (to - from) * step / (steps as int),
{
    let rise: i128 = to as i128 - from as i128;
    assert(-0xffff_ffff_ffff_ffff * 0xffff_ffff <= rise * step <= 0xffff_ffff_ffff_ffff
        * 0xffff_ffff) by (nonlinear_arith)
        requires
            -0xffff_ffff_ffff_ffff <= rise <= 0xffff_ffff_ffff_ffff,
            0 <= step <= 0xffff_ffff,
    ;
    let part: i128 = div_floor(rise * step as i128, steps as u64);
    proof {
        lemma_line_in_range(from as int, to as int, step as int, steps as int);
    }
    (from as i128 + part) as u64
}

/// Whether everyone's age on `current_date` is above their life expectancy.
pub fn is_everyone_dead(current_date: &Date, input: &Input) -> (r: bool)
    requires
        input.valid(),
        current_date.valid(),
    ensures
        r == everyone_dead(*current_date, input.retirees@),
{
    let mut i: usize = 0;
    while i < input.retirees.len()
        invariant
            0 <= i <= input.retirees@.len(),
            input.valid(),
            current_date.valid(),
            forall|j: int|
                0 <= j < i ==> age_on((#[trigger] input.retirees@[j]).date_of_birth, *current_date)
                    > input.retirees@[j].life_expectancy,
        decreases input.retirees@.len() - i,
    {
        let retiree: &Retiree = &input.retirees[i];
        if get_age(&retiree.date_of_birth, current_date) <= retiree.life_expectancy {
            return false;
        }
        i = i + 1;
    }
    true
}

/// A simulation under way.
pub struct Simulation<'a> {
    pub simulation_results_: SimulationResults,
    pub input_: &'a Input,
    pub current_date_: Date,
    pub portfolio_: Portfolio,
    pub expenses_: u64,
    pub tax_rates_: Vec<TaxLevel>,
    pub sum_of_returns_: i128,
}

impl<'a> Simulation<'a> {
    /// What the simulation knows of its household.
    pub open spec fn household(&self) -> Household {
        Household {
            input: *self.input_,
            retirement_date: self.simulation_results_.retirement_date,
            people: self.simulation_results_.retirees@,
        }
    }

    /// Where the simulation stands.
    pub open spec fn progress(&self) -> Progress {
        Progress {
            date: self.current_date_,
            balance: self.portfolio_.balance,
            months: self.simulation_results_.monthly_snapshot@,
            sum_of_returns: self.sum_of_returns_ as int,
        }
    }

    /// The simulation is one of its household: it knows of every person,
    /// what it holds of the portfolio, the expenses and the tax schedule is
    /// what the household's data give, and its record is the record of its
    /// progress.
    pub open spec fn wf(&self) -> bool {
        &&& self.input_.valid()
        &&& self.current_date_.valid()
        &&& self.simulation_results_.retirees@.len() == self.input_.retirees@.len()
        &&& records(self.simulation_results_, self.household(), self.progress())
        &&& self.portfolio_ == (Portfolio {
            balance: self.portfolio_.balance,
            ..self.input_.portfolio
        })
        &&& self.expenses_ == self.input_.expenses.monthly
        &&& self.tax_rates_@ == self.input_.tax_rates.tax_levels@
        &&& -(RETURN_LIMIT * self.simulation_results_.monthly_snapshot@.len())
            <= self.sum_of_returns_ <= RETURN_LIMIT
            * self.simulation_results_.monthly_snapshot@.len()
    }

    /// A simulation of the household that starts today.
    pub fn new(input: &'a Input) -> (r: Self)
        requires
            input.valid(),
        ensures
            r.wf(),
            r.input_ == input,
            r.household() == household_of(*input),
            r.current_date_.valid(),
            r.progress() == start_progress(*input, r.current_date_),
    {
        Simulation::starting(input, today())
    }

    /// A simulation of the household that starts on `start`.
    pub fn starting(input: &'a Input, start: Date) -> (r: Self)
        requires
            input.valid(),
            start.valid(),
        ensures
            r.wf(),
            r.input_ == input,
            r.household() == household_of(*input),
            r.progress() == start_progress(*input, start),
    {
        let retirement_date: Date = add_years(
            &input.retirees[0].date_of_birth,
            input.retirees[0].retirement_age,
        );
        let mut retirees: Vec<RetireeInfo> = Vec::new();
        let mut i: usize = 0;
        while i < input.retirees.len()
            invariant
                0 <= i <= input.retirees@.len(),
                input.valid(),
                retirees@.len() == i,
                forall|j: int|
                    0 <= j < i ==> (#[trigger] retirees@[j]) == info_of(input.retirees@[j]),
            decreases input.retirees@.len() - i,
        {
            let retiree: &Retiree = &input.retirees[i];
            let info: RetireeInfo = RetireeInfo {
                name: retiree.name.clone(),
                social_security_date: add_years(
                    &retiree.date_of_birth,
                    retiree.social_security_age,
                ),
                date_of_birth: retiree.date_of_birth,
                social_security_income: get_social_security_monthly_income(
                    retiree.social_security_age,
                    retiree.social_security_amount_early,
                    retiree.social_security_amount_full,
                    retiree.social_security_amount_delayed,
                ),
                pension_date: add_years(&retiree.date_of_birth, retiree.pension_age),
            };
            retirees.push(info);
            i = i + 1;
        }
        let mut tax_rates: Vec<TaxLevel> = Vec::new();
        let mut k: usize = 0;
        while k < input.tax_rates.tax_levels.len()
            invariant
                0 <= k <= input.tax_rates.tax_levels@.len(),
                tax_rates@ == input.tax_rates.tax_levels@.take(k as int),
            decreases input.tax_rates.tax_levels@.len() - k,
        {
            tax_rates.push(input.tax_rates.tax_levels[k]);
            k = k + 1;
        }
        assert(tax_rates@ == input.tax_rates.tax_levels@);
        assert(retirees@ == household_of(*input).people);
        Simulation {
            simulation_results_: SimulationResults {
                retirement_date,
                retirement_age: input.retirees[0].retirement_age,
                retirees,
                monthly_snapshot: Vec::new(),
                average_return: 0,
            },
            input_: input,
            current_date_: start,
            portfolio_: input.portfolio,
            expenses_: input.expenses.monthly,
            tax_rates_: tax_rates,
            sum_of_returns_: 0,
        }
    }

    /// Pays a month of everyone's contributions into `portfolio`.
    fn contribute(&self, portfolio: &mut Portfolio)
        ensures
            final(portfolio).balance == cap(
                old(portfolio).balance + contributions(
                    self.input_.retirees@,
                    self.input_.retirees@.len() as int,
                ),
            ),
            *final(portfolio) == (Portfolio {
                balance: final(portfolio).balance,
                ..*old(portfolio)
            }),
    {
        let input: &Input = self.input_;
        let ghost before: Portfolio = *portfolio;
        let mut i: usize = 0;
        while i < input.retirees.len()
            invariant
                0 <= i <= input.retirees@.len(),
                0 <= contributions(input.retirees@, i as int),
                portfolio.balance == cap(before.balance + contributions(input.retirees@, i as int)),
                *portfolio == (Portfolio { balance: portfolio.balance, ..before }),
            decreases input.retirees@.len() - i,
        {
            let retiree: &Retiree = &input.retirees[i];
            let contribution: u64 = scale(
                retiree.salary_annual,
                retiree.retirement_contribution_percent as u64,
                RATE_UNIT,
            );
            portfolio.deposit(contribution / MONTHS_PER_YEAR);
            i = i + 1;
        }
    }

    /// The social security income of the current month.
    fn social_security_total(&self) -> (r: u64)
        requires
            self.wf(),
        ensures
            r == social_security_income(self.household(), self.current_date_),
    {
        let mut total: u64 = 0;
        let mut i: usize = 0;
        while i < self.simulation_results_.retirees.len()
            invariant
                0 <= i <= self.simulation_results_.retirees@.len(),
                0 <= social_security(
                    self.simulation_results_.retirees@,
                    self.current_date_,
                    i as int,
                ),
                total == cap(
                    social_security(
                        self.simulation_results_.retirees@,
                        self.current_date_,
                        i as int,
                    ),
                ),
            decreases self.simulation_results_.retirees@.len() - i,
        {
            let info: &RetireeInfo = &self.simulation_results_.retirees[i];
            if self.current_date_.is_after(&info.social_security_date) {
                total = total.saturating_add(info.social_security_income);
            }
            i = i + 1;
        }
        total
    }

    /// The pension income of the current month.
    fn pension_total(&self) -> (r: u64)
        requires
            self.wf(),
        ensures
            r == pension_income(self.household(), self.current_date_),
    {
        let input: &Input = self.input_;
        let people: &Vec<RetireeInfo> = &self.simulation_results_.retirees;
        let mut total: u64 = 0;
        let mut i: usize = 0;
        while i < input.retirees.len()
            invariant
                people@.len() == input.retirees@.len(),
                0 <= i <= input.retirees@.len(),
                0 <= pensions(input.retirees@, people@, self.current_date_, i as int),
                total == cap(pensions(input.retirees@, people@, self.current_date_, i as int)),
            decreases input.retirees@.len() - i,
        {
            if self.current_date_.is_on_or_after(&people[i].pension_date) {
                total = total.saturating_add(input.retirees[i].pension_monthly_income);
            }
            i = i + 1;
        }
        total
    }

    /// Everyone's other retirement income, as a retired household has it each month.
    fn other_total(&self) -> (r: u64)
        ensures
            r == cap(other_income(self.input_.retirees@, self.input_.retirees@.len() as int)),
    {
        let input: &Input = self.input_;
        let mut total: u64 = 0;
        let mut i: usize = 0;
        while i < input.retirees.len()
            invariant
                0 <= i <= input.retirees@.len(),
                0 <= other_income(input.retirees@, i as int),
                total == cap(other_income(input.retirees@, i as int)),
            decreases input.retirees@.len() - i,
        {
            total = total.saturating_add(input.retirees[i].other_monthly_retirement_income);
            i = i + 1;
        }
        total
    }

    /// Simulates the current month under the given annual returns and moves
    /// on to the next. Returns whether the simulation is over: everyone was
    /// dead before the month began, in which case nothing changes, or the
    /// balance is zero at the month's end. On an error nothing changes.
    pub fn run_simulation_one_month(
        &mut self,
        us_equity_expected_returns: i32,
        international_equity_expected_returns: i32,
        bonds_expected_returns: i32,
    ) -> (r: Result<bool, SimulationError>)
        requires
            old(self).wf(),
        ensures
            final(self).wf(),
            final(self).household() == old(self).household(),
            match r {
                Ok(finished) => if everyone_dead(
                    old(self).current_date_,
                    old(self).input_.retirees@,
                ) {
                    finished && *final(self) == *old(self)
                } else {
                    &&& month_error(old(self).household(), old(self).current_date_) is None
                    &&& final(self).progress() == after_month(
                        old(self).household(),
                        old(self).progress(),
                        AnnualReturns {
                            us_equity: us_equity_expected_returns,
                            international: international_equity_expected_returns,
                            bonds: bonds_expected_returns,
                        },
                    )
                    &&& finished == (final(self).portfolio_.balance == 0)
                },
                Err(e) => {
                    &&& !everyone_dead(old(self).current_date_, old(self).input_.retirees@)
                    &&& month_error(old(self).household(), old(self).current_date_) == Some(e)
                    &&& *final(self) == *old(self)
                },
            },
    {
        let input: &Input = self.input_;
        if is_everyone_dead(&self.current_date_, input) {
            return Ok(true);
        }
        let date: Date = self.current_date_;
        let retired: bool = date.is_on_or_after(&self.simulation_results_.retirement_date);

        let mut portfolio: Portfolio = self.portfolio_;
        if !retired {
            self.contribute(&mut portfolio);
        }
        let funded: u64 = portfolio.balance;

        let social_security: u64 = self.social_security_total();
        let pension: u64 = self.pension_total();
        let other: u64 = if retired {
            self.other_total()
        } else {
            0
        };
        let income: u64 = social_security.saturating_add(pension).saturating_add(other);
        let taxable_income: u64 = scale(
            social_security,
            SOCIAL_SECURITY_TAXABLE,
            RATE_UNIT,
        ).saturating_add(pension).saturating_add(other);

        let withdrawals: u64 = if retired && income < self.expenses_ {
            self.expenses_ - income
        } else {
            0
        };

        if !ends_unbounded(&self.tax_rates_) {
            return Err(SimulationError::TaxBracketMissing);
        }
        let (tax, tax_rate): (u64, u32) = get_taxes(
            withdrawals.saturating_add(taxable_income),
            input.tax_rates.standard_deduction,
            &self.tax_rates_,
        );
        if tax_rate as u64 >= RATE_UNIT {
            return Err(SimulationError::TaxRateTooHigh);
        }
        let taxes: u64 = gross_up(tax, tax_rate);

        let next_date: Date = match add_month(&date) {
            Some(found) => found,
            None => {
                return Err(SimulationError::DateOverflow);
            },
        };

        let withdrawal_rate: u64 = if funded > 0 {
            let drawn: u128 = (withdrawals as u128 + taxes as u128) * 12_000_000;
            assert(drawn == (withdrawals + taxes) * 12 * RATE_UNIT);
            let rate: u128 = drawn / (funded as u128);
            if rate > u64::MAX as u128 {
                u64::MAX
            } else {
                rate as u64
            }
        } else {
            0
        };

        if income > self.expenses_ {
            portfolio.deposit(income - self.expenses_);
        }
        portfolio.withdraw(taxes);
        portfolio.withdraw(withdrawals);

        let annualized_return: i64 = portfolio.grow(
            us_equity_expected_returns,
            international_equity_expected_returns,
            bonds_expected_returns,
            retired,
        );
        let months_before: usize = self.simulation_results_.monthly_snapshot.len();
        assert(RETURN_LIMIT * (months_before + 1) == RETURN_LIMIT * months_before + RETURN_LIMIT)
            by (nonlinear_arith);
        assert(RETURN_LIMIT * months_before <= 0x2000_0000_0000 * 0xffff_ffff_ffff_ffff)
            by (nonlinear_arith)
            requires
                0 <= months_before <= 0xffff_ffff_ffff_ffff,
        ;
        let sum_of_returns: i128 = self.sum_of_returns_ + annualized_return as i128;

        let snapshot: MonthlySnapshot = MonthlySnapshot {
            date,
            balance: portfolio.balance,
            expenses: if retired {
                self.expenses_
            } else {
                0
            },
            income,
            taxes,
            tax_rate,
            withdrawal_rate,
            annualized_return,
        };
        self.simulation_results_.monthly_snapshot.push(snapshot);
        let months: usize = self.simulation_results_.monthly_snapshot.len();
        proof {
            lemma_quotient_within(sum_of_returns as int, months as int, RETURN_LIMIT as int);
        }
        self.simulation_results_.average_return = div_floor(sum_of_returns, months as u64) as i64;
        self.sum_of_returns_ = sum_of_returns;
        self.portfolio_ = portfolio;
        self.current_date_ = next_date;

        Ok(self.portfolio_.balance == 0)
    }

    /// Simulates up to twelve months under the same annual returns, stopping
    /// early where the simulation is over or a month cannot be simulated.
    /// Returns whether the simulation is over.
    #[verifier::loop_isolation(false)]
    pub fn run_year(
        &mut self,
        us_equity_expected_returns: i32,
        international_equity_expected_returns: i32,
        bonds_expected_returns: i32,
    ) -> (r: Result<bool, SimulationError>)
        requires
            old(self).wf(),
        ensures
            final(self).wf(),
            final(self).household() == old(self).household(),
            final(self).progress() == stretch(
                old(self).household(),
                old(self).progress(),
                AnnualReturns {
                    us_equity: us_equity_expected_returns,
                    international: international_equity_expected_returns,
                    bonds: bonds_expected_returns,
                },
                12,
            ).progress,
            r == stretch(
                old(self).household(),
                old(self).progress(),
                AnnualReturns {
                    us_equity: us_equity_expected_returns,
                    international: international_equity_expected_returns,
                    bonds: bonds_expected_returns,
                },
                12,
            ).result,
    {
        let ghost yields = AnnualReturns {
            us_equity: us_equity_expected_returns,
            international: international_equity_expected_returns,
            bonds: bonds_expected_returns,
        };
        let ghost h: Household = self.household();
        let ghost whole = stretch(h, self.progress(), yields, 12);
        let mut month: u64 = 0;
        while month < MONTHS_PER_YEAR
            invariant
                0 <= month <= 12,
                self.wf(),
                self.household() == h,
                whole == stretch(h, self.progress(), yields, (12 - month) as nat),
            decreases 12 - month,
        {
            match self.run_simulation_one_month(
                us_equity_expected_returns,
                international_equity_expected_returns,
                bonds_expected_returns,
            ) {
                Ok(finished) => {
                    if finished {
                        return Ok(true);
                    }
                },
                Err(e) => {
                    return Err(e);
                },
            }
            month = month + 1;
        }
        Ok(false)
    }
}

/// Simulates the household from `start` under its portfolio's expected
/// returns, until everyone is dead or the balance is zero.
#[verifier::loop_isolation(false)]
pub fn run_simulation_from(input: &Input, start: Date) -> (r: Result<
    SimulationResults,
    SimulationError,
>)
    requires
        input.valid(),
        start.valid(),
    ensures
        simulated(*input, start, uniform(expected_returns(*input)), r),
{
    let mut simulation: Simulation = Simulation::starting(input, start);
    let ghost source = uniform(expected_returns(*input));
    let ghost h = household_of(*input);
    let ghost begin = start_progress(*input, start);
    let mut finished: bool = false;
    while !finished
        invariant
            simulation.wf(),
            simulation.household() == h,
            begin.date.valid(),
            !finished ==> outcome(h, begin, source) == outcome(h, simulation.progress(), source),
            finished ==> outcome(h, begin, source) == Ok::<Progress, SimulationError>(
                simulation.progress(),
            ),
        decreases
            simulation.current_date_.months_left() + (if finished {
                0nat
            } else {
                1nat
            }),
    {
        proof {
            if !everyone_dead(simulation.current_date_, input.retirees@) && month_error(
                h,
                simulation.current_date_,
            ) is None {
                lemma_after_month_date(h, simulation.progress(), expected_returns(*input));
            }
        }
        match simulation.run_simulation_one_month(
            input.portfolio.us_equity_expected_returns,
            input.portfolio.international_equity_expected_returns,
            input.portfolio.bonds_expected_returns,
        ) {
            Ok(done) => {
                finished = done;
            },
            Err(e) => {
                return Err(e);
            },
        }
    }
    Ok(simulation.simulation_results_)
}

/// Simulates the household from today under its portfolio's expected returns.
pub fn run_simulation(input: &Input) -> (r: Result<SimulationResults, SimulationError>)
    requires
        input.valid(),
    ensures
        exists|start: Date|
            start.valid() && #[trigger] simulated(
                *input,
                start,
                uniform(expected_returns(*input)),
                r,
            ),
{
    let start: Date = today();
    run_simulation_from(input, start)
}

} // verus!
