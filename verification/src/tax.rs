//! The progressive tax schedule: the tax on a monthly amount, the marginal
//! rate it falls under, and the gross-up that pays the tax on the tax.
use vstd::prelude::*;
use crate::sorting::{rank_le, sort_stably, stably_sorted, Ranked};
use crate::units::{cap, scale, MONTHS_PER_YEAR, RATE_UNIT};

verus! {

/// The ceiling of a bracket that has none.
pub const UNBOUNDED: u64 = 0xffff_ffff_ffff_ffff;

/// One bracket: the annual income up to which it reaches, and its marginal
/// rate in parts per million.
#[derive(Clone, Copy, Debug, PartialEq, Eq, Structural)]
pub struct TaxLevel {
    pub income: u64,
    pub rate: u32,
}

/// The annual standard deduction and the brackets, lowest first.
#[derive(Clone, Debug)]
pub struct TaxRates {
    pub standard_deduction: u64,
    pub tax_levels: Vec<TaxLevel>,
}

/// What is left of a monthly income after a twelfth of the annual deduction.
pub open spec fn after_deduction(monthly_income: int, standard_deduction: int) -> int {
    if monthly_income > standard_deduction / 12 {
        monthly_income - standard_deduction / 12
    } else {
        0
    }
}

/// The bracket reaches far enough for a monthly amount: it has no ceiling, or
/// twelve times the amount fit under it.
pub open spec fn covers(level: TaxLevel, monthly: int) -> bool {
    level.income == UNBOUNDED || monthly * 12 <= level.income
}

/// The tax of a bracket that the income runs through: a twelfth of its
/// ceiling, at its rate.
pub open spec fn full_bracket_tax(level: TaxLevel) -> int {
    level.income as int / 12 * level.rate / (RATE_UNIT as int)
}

/// The walk over the brackets from the `i`-th on with `monthly` still to be
/// taxed: the tax and the marginal rate, or nothing where no bracket reaches
/// far enough.
pub open spec fn walk_from(levels: Seq<TaxLevel>, i: int, monthly: int) -> Option<(int, u32)>
    decreases levels.len() - i,
{
    if i < 0 || i >= levels.len() {
        None
    } else if covers(levels[i], monthly) {
        Some((monthly * levels[i].rate / (RATE_UNIT as int), levels[i].rate))
    } else {
        match walk_from(levels, i + 1, monthly - levels[i].income as int / 12) {
            Some((tax, rate)) => Some((full_bracket_tax(levels[i]) + tax, rate)),
            None => None,
        }
    }
}

/// The monthly tax on a monthly income and the marginal rate it falls under,
/// the tax cut off at `u64::MAX`; nothing where the schedule has no bracket
/// for that income.
pub open spec fn taxes(monthly_income: int, standard_deduction: int, levels: Seq<TaxLevel>)
    -> Option<(u64, u32)> {
    match walk_from(levels, 0, after_deduction(monthly_income, standard_deduction)) {
        Some((tax, rate)) => Some((cap(tax) as u64, rate)),
        None => None,
    }
}

/// The tax that, withdrawn together with the tax on itself, leaves `tax`
/// paid: `tax / (1 - rate)`, rounded down and cut off at `u64::MAX`.
pub open spec fn grossed_up(tax: int, rate: int) -> int {
    cap(tax * RATE_UNIT / (RATE_UNIT - rate))
}

impl Ranked for TaxLevel {
    /// Brackets are ordered by their ceilings.
    open spec fn rank(&self) -> (int, int) {
        (self.income as int, 0)
    }

    fn ranks_above(&self, other: &Self) -> (r: bool) {
        self.income > other.income
    }
}

/// The brackets that a list of thresholds stands for. A threshold gives the
/// income at which a rate begins. Before the first of them comes a bracket
/// of no tax up to no income; then each rate reaches up to one unit below
/// the next entry's income, and the last rate has no ceiling.
pub open spec fn inferred_levels(thresholds: Seq<TaxLevel>) -> Seq<TaxLevel> {
    Seq::new(
        thresholds.len() + 1,
        |i: int|
            if i == 0 {
                TaxLevel { income: 0, rate: 0 }
            } else {
                TaxLevel {
                    income: if i < thresholds.len() {
                        cap(thresholds[i].income - 1) as u64
                    } else {
                        UNBOUNDED
                    },
                    rate: thresholds[i - 1].rate,
                }
            },
    )
}

impl TaxRates {
    /// The schedule for the given deduction and thresholds: the brackets
    /// that the thresholds stand for, in the order of their ceilings.
    pub fn from_thresholds(standard_deduction: u64, thresholds: &Vec<TaxLevel>) -> (r: Self)
        requires
            thresholds@.len() < usize::MAX,
        ensures
            r.standard_deduction == standard_deduction,
            r.tax_levels@ == stably_sorted(inferred_levels(thresholds@)),
            r.is_ascending(),
            thresholds@.len() > 0 ==> r.is_complete(),
    {
        let mut tax_levels: Vec<TaxLevel> = Vec::new();
        tax_levels.push(TaxLevel { income: 0, rate: 0 });
        let mut i: usize = 0;
        while i < thresholds.len()
            invariant
                0 <= i <= thresholds@.len() < usize::MAX,
                tax_levels@ == inferred_levels(thresholds@).take(i + 1),
            decreases thresholds@.len() - i,
        {
            let income: u64 = if i + 1 < thresholds.len() {
                thresholds[i + 1].income.saturating_sub(1)
            } else {
                UNBOUNDED
            };
            tax_levels.push(TaxLevel { income, rate: thresholds[i].rate });
            i = i + 1;
            assert(tax_levels@ == inferred_levels(thresholds@).take(i + 1));
        }
        let ghost inferred: Seq<TaxLevel> = tax_levels@;
        assert(inferred == inferred_levels(thresholds@));
        sort_stably(&mut tax_levels);
        let r = TaxRates { standard_deduction, tax_levels };
        proof {
            broadcast use vstd::seq_lib::group_to_multiset_ensures;

            let sorted = r.tax_levels@;
            assert forall|a: int, b: int| 0 <= a < b < sorted.len() implies sorted[a].income
                <= sorted[b].income by {
                assert(rank_le(sorted[a].rank(), sorted[b].rank()));
            }
            if thresholds@.len() > 0 {
                let top = inferred[thresholds@.len() as int];
                assert(top.income == UNBOUNDED);
                assert(inferred.contains(top));
                assert(sorted.to_multiset().count(top) > 0);
                assert(sorted.contains(top));
                let k = choose|k: int| 0 <= k < sorted.len() && sorted[k] == top;
                if k < sorted.len() - 1 {
                    assert(rank_le(sorted[k].rank(), sorted[sorted.len() - 1].rank()));
                }
            }
        }
        r
    }

    /// The schedule ends in a bracket without a ceiling, so that every income falls in a bracket.
    pub open spec fn is_complete(&self) -> bool {
        is_complete(self.tax_levels@)
    }

    /// The ceilings rise from each bracket to the next.
    pub open spec fn is_ascending(&self) -> bool {
        forall|i: int, j: int|
            0 <= i < j < self.tax_levels@.len() ==> self.tax_levels@[i].income
                <= self.tax_levels@[j].income
    }
}

/// The brackets end in one without a ceiling, so that every income falls in a bracket.
pub open spec fn is_complete(levels: Seq<TaxLevel>) -> bool {
    levels.len() > 0 && levels.last().income == UNBOUNDED
}

/// The rates never fall from one bracket to the next.
pub open spec fn is_progressive(levels: Seq<TaxLevel>) -> bool {
    forall|i: int, j: int| 0 <= i < j < levels.len() ==> levels[i].rate <= levels[j].rate
}

/// A walk never yields a negative tax.
pub proof fn lemma_walk_nonnegative(levels: Seq<TaxLevel>, i: int, monthly: int)
    requires
        0 <= monthly,
    ensures
        walk_from(levels, i, monthly) matches Some((tax, rate)) ==> 0 <= tax,
    decreases levels.len() - i,
{
    if 0 <= i < levels.len() {
        let level = levels[i];
        if covers(level, monthly) {
            lemma_share_bounds(monthly, level.rate as int);
        } else {
            lemma_share_bounds(level.income as int / 12, level.rate as int);
            lemma_walk_nonnegative(levels, i + 1, monthly - level.income as int / 12);
        }
    }
}

/// A share of a non-negative amount is non-negative, and grows with the amount.
pub proof fn lemma_share_bounds(amount: int, rate: int)
    requires
        0 <= amount,
        0 <= rate,
    ensures
        0 <= amount * rate / (RATE_UNIT as int),
        amount * rate / (RATE_UNIT as int) * RATE_UNIT <= amount * rate,
{
    assert(0 <= amount * rate) by (nonlinear_arith)
        requires
            0 <= amount,
            0 <= rate,
    ;
}

/// A larger amount has at least as large a share.
pub proof fn lemma_share_monotonic(smaller: int, larger: int, rate: int)
    requires
        0 <= smaller <= larger,
        0 <= rate,
    ensures
        smaller * rate / (RATE_UNIT as int) <= larger * rate / (RATE_UNIT as int),
{
    assert(smaller * rate <= larger * rate) by (nonlinear_arith)
        requires
            smaller <= larger,
            0 <= rate,
    ;
}

/// The tax never falls as the amount to be taxed rises, and a schedule that
/// has a bracket for an amount has one for every smaller amount.
pub proof fn lemma_walk_monotonic(levels: Seq<TaxLevel>, i: int, smaller: int, larger: int)
    requires
        0 <= smaller <= larger,
        walk_from(levels, i, larger) is Some,
    ensures
        walk_from(levels, i, smaller) is Some,
        walk_from(levels, i, smaller).unwrap().0 <= walk_from(levels, i, larger).unwrap().0,
    decreases levels.len() - i,
{
    let level = levels[i];
    let step = level.income as int / 12;
    if covers(level, larger) {
        lemma_share_monotonic(smaller, larger, level.rate as int);
    } else if covers(level, smaller) {
        // the smaller amount ends here, the larger one pays this bracket in full and goes on
        lemma_share_monotonic(smaller, step, level.rate as int);
        lemma_walk_nonnegative(levels, i + 1, larger - step);
    } else {
        lemma_walk_monotonic(levels, i + 1, smaller - step, larger - step);
    }
}

/// A schedule whose last bracket has no ceiling has a bracket for every amount.
pub proof fn lemma_complete_walk(levels: Seq<TaxLevel>, i: int, monthly: int)
    requires
        0 <= i < levels.len(),
        levels.last().income == UNBOUNDED,
    ensures
        walk_from(levels, i, monthly) is Some,
    decreases levels.len() - i,
{
    if !covers(levels[i], monthly) {
        lemma_complete_walk(levels, i + 1, monthly - levels[i].income as int / 12);
    }
}

/// Under rates that never fall from bracket to bracket, the tax is at most the
/// taxed amount at the last bracket's rate, and the marginal rate is at most
/// that rate.
pub proof fn lemma_walk_within_top_rate(levels: Seq<TaxLevel>, i: int, monthly: int)
    requires
        0 <= monthly,
        is_progressive(levels),
        walk_from(levels, i, monthly) is Some,
    ensures
        walk_from(levels, i, monthly).unwrap().0 * RATE_UNIT <= monthly * levels.last().rate,
        walk_from(levels, i, monthly).unwrap().1 <= levels.last().rate,
    decreases levels.len() - i,
{
    let level = levels[i];
    let top = levels.last().rate as int;
    let rate = level.rate as int;
    assert(rate <= top);
    if covers(level, monthly) {
        lemma_share_bounds(monthly, rate);
        assert(monthly * rate <= monthly * top) by (nonlinear_arith)
            requires
                0 <= monthly,
                rate <= top,
        ;
    } else {
        let step = level.income as int / 12;
        let rest = monthly - step;
        lemma_walk_within_top_rate(levels, i + 1, rest);
        lemma_share_bounds(step, rate);
        let tail = walk_from(levels, i + 1, rest).unwrap().0;
        assert((full_bracket_tax(level) + tail) * RATE_UNIT <= monthly * top) by (nonlinear_arith)
            requires
                full_bracket_tax(level) * RATE_UNIT <= step * rate,
                tail * RATE_UNIT <= rest * top,
                rate <= top,
                0 <= step,
                monthly == step + rest,
        ;
    }
}

/// A schedule that ends without a ceiling has a tax for every income.
pub proof fn lemma_complete_schedule_taxes_all(
    monthly_income: int,
    standard_deduction: int,
    levels: Seq<TaxLevel>,
)
    requires
        levels.len() > 0,
        levels.last().income == UNBOUNDED,
    ensures
        taxes(monthly_income, standard_deduction, levels) is Some,
{
    lemma_complete_walk(levels, 0, after_deduction(monthly_income, standard_deduction));
}

/// The tax on a monthly income never falls as the income rises; and where the
/// schedule has a bracket for an income it has one for every smaller income.
pub proof fn lemma_taxes_monotonic(
    smaller: int,
    larger: int,
    standard_deduction: int,
    levels: Seq<TaxLevel>,
)
    requires
        0 <= smaller <= larger,
        0 <= standard_deduction,
        taxes(larger, standard_deduction, levels) is Some,
    ensures
        taxes(smaller, standard_deduction, levels) is Some,
        taxes(smaller, standard_deduction, levels).unwrap().0 <= taxes(
            larger,
            standard_deduction,
            levels,
        ).unwrap().0,
{
    let low = after_deduction(smaller, standard_deduction);
    let high = after_deduction(larger, standard_deduction);
    lemma_walk_monotonic(levels, 0, low, high);
    lemma_walk_nonnegative(levels, 0, low);
}

/// Under a schedule that ends without a ceiling, every income has its tax;
/// and if its rates never fall from bracket to bracket, the tax is at most the
/// income at the top bracket's rate: the blended rate never exceeds the top
/// marginal rate.
pub proof fn lemma_taxes_within_top_rate(
    monthly_income: int,
    standard_deduction: int,
    levels: Seq<TaxLevel>,
)
    requires
        0 <= monthly_income,
        0 <= standard_deduction,
        levels.len() > 0,
        levels.last().income == UNBOUNDED,
        is_progressive(levels),
    ensures
        taxes(monthly_income, standard_deduction, levels) is Some,
        taxes(monthly_income, standard_deduction, levels).unwrap().0 * RATE_UNIT <= monthly_income
            * levels.last().rate,
        taxes(monthly_income, standard_deduction, levels).unwrap().1 <= levels.last().rate,
{
    let taxed = after_deduction(monthly_income, standard_deduction);
    lemma_complete_walk(levels, 0, taxed);
    lemma_walk_within_top_rate(levels, 0, taxed);
    lemma_walk_nonnegative(levels, 0, taxed);
    let top = levels.last().rate as int;
    assert(taxed * top <= monthly_income * top) by (nonlinear_arith)
        requires
            taxed <= monthly_income,
            0 <= top,
    ;
}

/// Whether the brackets end in one without a ceiling.
pub fn ends_unbounded(tax_rates: &Vec<TaxLevel>) -> (r: bool)
    ensures
        r == is_complete(tax_rates@),
{
    tax_rates.len() > 0 && tax_rates[tax_rates.len() - 1].income == UNBOUNDED
}

/// The monthly tax on `monthly_income` under the given annual deduction and
/// brackets, and the marginal rate. The brackets must end in one without a
/// ceiling: then every income falls in a bracket.
pub fn get_taxes(monthly_income: u64, standard_deduction: u64, tax_rates: &Vec<TaxLevel>) -> (r: (
    u64,
    u32,
))
    requires
        is_complete(tax_rates@),
    ensures
        taxes(monthly_income as int, standard_deduction as int, tax_rates@) == Some(r),
{
    let monthly_deduction: u64 = standard_deduction / MONTHS_PER_YEAR;
    let mut remaining: u64 = if monthly_income > monthly_deduction {
        monthly_income - monthly_deduction
    } else {
        0
    };
    let mut total_tax: u64 = 0;
    let ghost start: int = remaining as int;
    let ghost exact: int = 0;
    let mut i: usize = 0;
    loop
        invariant
            is_complete(tax_rates@),
            0 <= i < tax_rates.len(),
            0 <= exact,
            total_tax == cap(exact),
            start == after_deduction(monthly_income as int, standard_deduction as int),
            walk_from(tax_rates@, 0, start) == (match walk_from(
                tax_rates@,
                i as int,
                remaining as int,
            ) {
                Some((tax, rate)) => Some((exact + tax, rate)),
                None => None,
            }),
        decreases tax_rates.len() - i,
    {
        let level: TaxLevel = tax_rates[i];
        let monthly_ceiling: u64 = level.income / MONTHS_PER_YEAR;
        if level.income == UNBOUNDED || remaining <= monthly_ceiling {
            let last: u64 = scale(remaining, level.rate as u64, RATE_UNIT);
            proof {
                lemma_share_bounds(remaining as int, level.rate as int);
            }
            return (total_tax.saturating_add(last), level.rate);
        }
        let full: u64 = scale(monthly_ceiling, level.rate as u64, RATE_UNIT);
        proof {
            lemma_share_bounds(monthly_ceiling as int, level.rate as int);
            exact = exact + full_bracket_tax(level);
        }
        total_tax = total_tax.saturating_add(full);
        remaining = remaining - monthly_ceiling;
        i = i + 1;
    }
}

/// The tax to charge so that `tax` is left after the tax on the withdrawal
/// that pays it, at a marginal rate below 100%.
pub fn gross_up(tax: u64, rate: u32) -> (r: u64)
    requires
        rate < RATE_UNIT,
    ensures
        r == grossed_up(tax as int, rate as int),
{
    scale(tax, RATE_UNIT, RATE_UNIT - rate as u64)
}

} // verus!
