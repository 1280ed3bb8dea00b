//! The household that neither spends nor earns, under returns of nothing:
//! its balance never changes.
use vstd::prelude::*;
use crate::course::{lemma_after_month_date, outcome};
use crate::month::{
    after_month, contributions, everyone_dead, is_retired, month_error, month_income,
    month_snapshot, month_tax, month_taxable, month_withdrawals, monthly_contribution,
    other_income, pensions, social_security, Household, Progress,
};
use crate::portfolio::{blended_return, growth_weight, grown_balance, Allocation, AnnualReturns};
use crate::tax::{after_deduction, covers, grossed_up, walk_from};
use crate::units::{
    floor_cbrt, floor_sqrt, is_floor_cbrt, is_floor_sqrt, lemma_floor_cbrt_unique,
    lemma_floor_sqrt_unique, GROWTH_UNIT, SHARE_TIMES_GROWTH,
};
use crate::utils::{monthly_factor, Date};

verus! {

/// Annual returns of nothing at all.
pub open spec fn no_growth() -> AnnualReturns {
    AnnualReturns { us_equity: 0, international: 0, bonds: 0 }
}

/// The household spends nothing and takes nothing in: no expenses, no
/// contributions, no social security, pension or other income; and each of
/// its two allocations spreads the whole balance.
pub open spec fn is_idle(h: Household) -> bool {
    &&& h.input.expenses.monthly == 0
    &&& h.input.portfolio.pre_retirement_allocation.is_whole()
    &&& h.input.portfolio.post_retirement_allocation.is_whole()
    &&& forall|i: int|
        0 <= i < h.input.retirees@.len() ==> {
            &&& monthly_contribution(#[trigger] h.input.retirees@[i]) == 0
            &&& h.input.retirees@[i].pension_monthly_income == 0
            &&& h.input.retirees@[i].other_monthly_retirement_income == 0
        }
    &&& forall|i: int|
        0 <= i < h.people.len() ==> (#[trigger] h.people[i]).social_security_income == 0
}

/// A year without return is twelve months without growth.
pub proof fn lemma_monthly_factor_of_zero()
    ensures
        monthly_factor(0) == GROWTH_UNIT,
{
    assert(is_floor_sqrt(10_000_000_000_000_000, 100_000_000));
    lemma_floor_sqrt_unique(
        10_000_000_000_000_000,
        100_000_000,
        floor_sqrt(10_000_000_000_000_000),
    );
    assert(is_floor_cbrt(1_000_000_000_000_000_000_000_000, 100_000_000));
    lemma_floor_cbrt_unique(
        1_000_000_000_000_000_000_000_000,
        100_000_000,
        floor_cbrt(1_000_000_000_000_000_000_000_000),
    );
}

/// Under returns of nothing a balance spread whole stays as it is, and the
/// blended return is nothing.
pub proof fn lemma_no_growth(balance: int, allocation: Allocation)
    requires
        0 <= balance <= u64::MAX,
        allocation.is_whole(),
    ensures
        grown_balance(balance, allocation, 0, 0, 0) == balance,
        blended_return(allocation, 0, 0, 0) == 0,
{
    lemma_monthly_factor_of_zero();
    let weight = growth_weight(allocation, 0, 0, 0);
    assert(weight == SHARE_TIMES_GROWTH) by (nonlinear_arith)
        requires
            weight == allocation.us_equities * 100_000_000 + allocation.international * 100_000_000
                + allocation.bonds * 100_000_000,
            allocation.us_equities + allocation.international + allocation.bonds == 1_000_000,
            SHARE_TIMES_GROWTH == 100_000_000_000_000,
    ;
    assert(balance * weight == (SHARE_TIMES_GROWTH as int) * balance) by (nonlinear_arith)
        requires
            weight == SHARE_TIMES_GROWTH,
    ;
    vstd::arithmetic::div_mod::lemma_div_multiples_vanish(balance, SHARE_TIMES_GROWTH as int);
}

/// An idle household has no contributions and no income in any month.
pub proof fn lemma_idle_sums(h: Household, date: Date, n: int)
    requires
        is_idle(h),
    ensures
        n <= h.input.retirees@.len() ==> {
            &&& contributions(h.input.retirees@, n) == 0
            &&& pensions(h.input.retirees@, h.people, date, n) == 0
            &&& other_income(h.input.retirees@, n) == 0
        },
        n <= h.people.len() ==> social_security(h.people, date, n) == 0,
    decreases n,
{
    if n > 0 {
        lemma_idle_sums(h, date, n - 1);
        if n <= h.input.retirees@.len() {
            assert(monthly_contribution(h.input.retirees@[n - 1]) == 0);
        }
        if n <= h.people.len() {
            assert(h.people[n - 1].social_security_income == 0);
        }
    }
}

/// A month of an idle household under returns of nothing leaves the balance
/// as it was, with no income, no expenses and no tax.
pub proof fn lemma_idle_month(h: Household, p: Progress)
    requires
        is_idle(h),
        month_error(h, p.date) is None,
    ensures
        after_month(h, p, no_growth()).balance == p.balance,
        month_snapshot(h, p, no_growth()).balance == p.balance,
        month_snapshot(h, p, no_growth()).income == 0,
        month_snapshot(h, p, no_growth()).expenses == 0,
        month_snapshot(h, p, no_growth()).taxes == 0,
        month_snapshot(h, p, no_growth()).annualized_return == 0,
{
    let date = p.date;
    lemma_idle_sums(h, date, h.input.retirees@.len() as int);
    lemma_idle_sums(h, date, h.people.len() as int);
    assert(month_income(h, date) == 0);
    assert(month_taxable(h, date) == 0);
    assert(month_withdrawals(h, date) == 0);
    let levels = h.input.tax_rates.tax_levels@;
    assert(after_deduction(0, h.input.tax_rates.standard_deduction as int) == 0);
    assert(walk_from(levels, 0, 0) is Some);
    assert(levels.len() > 0);
    assert(covers(levels[0], 0));
    let (tax, rate) = month_tax(h, date).unwrap();
    assert(tax == 0);
    assert(grossed_up(0, rate as int) == 0);
    lemma_no_growth(p.balance as int, h.input.portfolio.allocation_for(is_retired(h, date)));
}

/// An idle household under returns of nothing keeps its balance month after
/// month: a simulation that starts with money never ends for want of it. It
/// ends when everyone is dead, with the balance it began with in every
/// snapshot that it added, or it fails on a month that cannot be simulated.
pub proof fn lemma_idle_run(h: Household, p: Progress, source: spec_fn(nat) -> AnnualReturns)
    requires
        is_idle(h),
        p.date.valid(),
        p.balance > 0,
        forall|k: nat| (#[trigger] source(k)) == no_growth(),
    ensures
        outcome(h, p, source) matches Ok(q) ==> {
            &&& everyone_dead(q.date, h.input.retirees@)
            &&& q.balance == p.balance
            &&& q.months.len() >= p.months.len()
            &&& q.months.take(p.months.len() as int) == p.months
            &&& forall|i: int|
                p.months.len() <= i < q.months.len() ==> (#[trigger] q.months[i]).balance
                    == p.balance
        },
    decreases p.date.months_left(),
{
    if !everyone_dead(p.date, h.input.retirees@) && month_error(h, p.date) is None {
        let q = after_month(h, p, no_growth());
        assert(source(p.months.len()) == no_growth());
        lemma_idle_month(h, p);
        lemma_after_month_date(h, p, no_growth());
        lemma_idle_run(h, q, source);
        match outcome(h, q, source) {
            Ok(end) => {
                assert(end.months.take(p.months.len() as int) == end.months.take(
                    q.months.len() as int,
                ).take(p.months.len() as int));
                assert(end.months[p.months.len() as int] == end.months.take(
                    q.months.len() as int,
                )[p.months.len() as int]);
            },
            Err(e) => {},
        }
    } else if everyone_dead(p.date, h.input.retirees@) {
        assert(p.months.take(p.months.len() as int) == p.months);
    }
}

} // verus!
