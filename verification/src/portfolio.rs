//! The portfolio: a balance, how it is spread over three asset classes, and
//! how a month of returns changes it.
use vstd::prelude::*;
use crate::units::{
    cap, div_floor, lemma_quotient_within, GROWTH_UNIT, RATE_UNIT, SHARE_TIMES_GROWTH,
};
use crate::utils::{get_monthly_rate, monthly_factor, MAX_MONTHLY_FACTOR};

verus! {

/// No blended annual return lies further from zero than this.
pub const RETURN_LIMIT: i64 = 0x2000_0000_0000;

/// The annual returns of the three asset classes, in parts per million.
#[derive(Clone, Copy, Debug, PartialEq, Eq, Structural)]
pub struct AnnualReturns {
    pub us_equity: i32,
    pub international: i32,
    pub bonds: i32,
}

/// The shares of a portfolio held in each asset class, in parts per million.
#[derive(Clone, Copy, Debug, PartialEq, Eq, Structural)]
pub struct Allocation {
    pub us_equities: u32,
    pub international: u32,
    pub bonds: u32,
}

impl Allocation {
    /// The three shares make up the whole.
    pub open spec fn is_whole(&self) -> bool {
        self.us_equities + self.international + self.bonds == RATE_UNIT
    }

    /// An allocation that holds nothing.
    pub fn new() -> (r: Self)
        ensures
            r == (Allocation { us_equities: 0, international: 0, bonds: 0 }),
    {
        Allocation { us_equities: 0, international: 0, bonds: 0 }
    }
}

/// A balance with its allocation before and after retirement, and
/// the expected annual return and standard deviation of each asset class in
/// parts per million.
#[derive(Clone, Copy, Debug, PartialEq, Eq, Structural)]
pub struct Portfolio {
    pub balance: u64,
    pub pre_retirement_allocation: Allocation,
    pub post_retirement_allocation: Allocation,
    pub us_equity_expected_returns: i32,
    pub us_equity_standard_deviation: u32,
    pub international_equity_expected_returns: i32,
    pub international_equity_standard_deviation: u32,
    pub bonds_expected_returns: i32,
    pub bonds_standard_deviation: u32,
    pub expected_inflation: i32,
}

/// The factor, at the scale of `SHARE_TIMES_GROWTH`, by which a month of the
/// given annual returns multiplies a balance held in the given shares.
pub open spec fn growth_weight(allocation: Allocation, us: int, international: int, bonds: int)
    -> int {
    allocation.us_equities * monthly_factor(us) + allocation.international * monthly_factor(
        international,
    ) + allocation.bonds * monthly_factor(bonds)
}

/// The balance after a month of growth: each share grown by its own monthly
/// factor, the sum rounded down once and cut off at `u64::MAX`.
pub open spec fn grown_balance(
    balance: int,
    allocation: Allocation,
    us: int,
    international: int,
    bonds: int,
) -> int {
    cap(balance * growth_weight(allocation, us, international, bonds) / (SHARE_TIMES_GROWTH as int))
}

/// The three annual returns weighted by the shares, rounded down.
pub open spec fn blended_return(allocation: Allocation, us: int, international: int, bonds: int)
    -> int {
    (us * allocation.us_equities + international * allocation.international + bonds
        * allocation.bonds) / (RATE_UNIT as int)
}

impl Portfolio {
    /// The allocation in force before (`false`) or after (`true`) retirement.
    pub open spec fn allocation_for(&self, post_retirement: bool) -> Allocation {
        if post_retirement {
            self.post_retirement_allocation
        } else {
            self.pre_retirement_allocation
        }
    }

    /// Adds `amount` to the balance, which stops at `u64::MAX`.
    pub fn deposit(&mut self, amount: u64)
        ensures
            final(self).balance == cap(old(self).balance + amount),
            *final(self) == (Portfolio { balance: final(self).balance, ..*old(self) }),
    {
        self.balance = self.balance.saturating_add(amount);
    }

    /// Takes `amount` from the balance, which stops at zero.
    pub fn withdraw(&mut self, amount: u64)
        ensures
            final(self).balance == (if amount >= old(self).balance {
                0
            } else {
                old(self).balance - amount
            }),
            final(self).balance == cap(old(self).balance - amount),
            *final(self) == (Portfolio { balance: final(self).balance, ..*old(self) }),
    {
        self.balance = self.balance.saturating_sub(amount);
    }

    /// Grows the balance by one month of the given annual returns, under the
    /// allocation of the given phase, and returns the blended annual return.
    pub fn grow(
        &mut self,
        us_equity_expected_returns: i32,
        international_equity_expected_returns: i32,
        bonds_expected_returns: i32,
        use_post_retirement: bool,
    ) -> (r: i64)
        ensures
            final(self).balance == grown_balance(
                old(self).balance as int,
                old(self).allocation_for(use_post_retirement),
                us_equity_expected_returns as int,
                international_equity_expected_returns as int,
                bonds_expected_returns as int,
            ),
            *final(self) == (Portfolio { balance: final(self).balance, ..*old(self) }),
            r == blended_return(
                old(self).allocation_for(use_post_retirement),
                us_equity_expected_returns as int,
                international_equity_expected_returns as int,
                bonds_expected_returns as int,
            ),
            -RETURN_LIMIT <= r <= RETURN_LIMIT,
    {
        let allocation: Allocation = if use_post_retirement {
            self.post_retirement_allocation
        } else {
            self.pre_retirement_allocation
        };
        let us_factor: u64 = (get_monthly_rate(us_equity_expected_returns)
            + GROWTH_UNIT as i64) as u64;
        let international_factor: u64 = (get_monthly_rate(international_equity_expected_returns)
            + GROWTH_UNIT as i64) as u64;
        let bonds_factor: u64 = (get_monthly_rate(bonds_expected_returns)
            + GROWTH_UNIT as i64) as u64;

        assert(allocation.us_equities * us_factor <= 0xffff_ffff * MAX_MONTHLY_FACTOR)
            by (nonlinear_arith)
            requires
                allocation.us_equities <= 0xffff_ffff,
                us_factor <= MAX_MONTHLY_FACTOR,
        ;
        assert(allocation.international * international_factor <= 0xffff_ffff * MAX_MONTHLY_FACTOR)
            by (nonlinear_arith)
            requires
                allocation.international <= 0xffff_ffff,
                international_factor <= MAX_MONTHLY_FACTOR,
        ;
        assert(allocation.bonds * bonds_factor <= 0xffff_ffff * MAX_MONTHLY_FACTOR)
            by (nonlinear_arith)
            requires
                allocation.bonds <= 0xffff_ffff,
                bonds_factor <= MAX_MONTHLY_FACTOR,
        ;
        let weight: u64 = allocation.us_equities as u64 * us_factor
            + allocation.international as u64 * international_factor
            + allocation.bonds as u64 * bonds_factor;
        assert(self.balance * weight <= u64::MAX * u64::MAX) by (nonlinear_arith)
            requires
                self.balance <= u64::MAX,
                weight <= u64::MAX,
        ;
        let grown: u128 = (self.balance as u128 * weight as u128) / (SHARE_TIMES_GROWTH as u128);
        self.balance = if grown > u64::MAX as u128 {
            u64::MAX
        } else {
            grown as u64
        };

        assert(-0x8000_0000 * 0xffff_ffff <= us_equity_expected_returns * allocation.us_equities
            <= 0x8000_0000 * 0xffff_ffff) by (nonlinear_arith)
            requires
                -0x8000_0000 <= us_equity_expected_returns <= 0x8000_0000,
                0 <= allocation.us_equities <= 0xffff_ffff,
        ;
        assert(-0x8000_0000 * 0xffff_ffff <= international_equity_expected_returns
            * allocation.international <= 0x8000_0000 * 0xffff_ffff) by (nonlinear_arith)
            requires
                -0x8000_0000 <= international_equity_expected_returns <= 0x8000_0000,
                0 <= allocation.international <= 0xffff_ffff,
        ;
        assert(-0x8000_0000 * 0xffff_ffff <= bonds_expected_returns * allocation.bonds
            <= 0x8000_0000 * 0xffff_ffff) by (nonlinear_arith)
            requires
                -0x8000_0000 <= bonds_expected_returns <= 0x8000_0000,
                0 <= allocation.bonds <= 0xffff_ffff,
        ;
        let weighted: i128 = us_equity_expected_returns as i128 * allocation.us_equities as i128
            + international_equity_expected_returns as i128 * allocation.international as i128
            + bonds_expected_returns as i128 * allocation.bonds as i128;
        let blended: i128 = div_floor(weighted, RATE_UNIT);
        proof {
            lemma_quotient_within(weighted as int, RATE_UNIT as int, RETURN_LIMIT as int);
        }
        blended as i64
    }
}

} // verus!
