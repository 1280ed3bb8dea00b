//! The household a simulation runs for: the people, what they spend, the
//! portfolio they start with and the tax schedule they pay under. Amounts are
//! whole units of money (cents, say); percentages are parts per million.
use vstd::prelude::*;
use crate::portfolio::Portfolio;
use crate::tax::TaxRates;
use crate::utils::Date;

verus! {

/// One person of the household.
#[derive(Clone, Debug)]
pub struct Retiree {
    pub name: String,
    pub date_of_birth: Date,
    pub retirement_age: u32,
    pub life_expectancy: u32,
    pub salary_annual: u64,
    pub retirement_contribution_percent: u32,
    pub social_security_age: u32,
    pub pension_age: u32,
    pub pension_monthly_income: u64,
    pub other_monthly_retirement_income: u64,
    pub social_security_amount_early: u64,
    pub social_security_amount_full: u64,
    pub social_security_amount_delayed: u64,
}

/// What the household spends each month once retired.
#[derive(Clone, Copy, Debug, PartialEq, Eq, Structural)]
pub struct Expenses {
    pub monthly: u64,
}

/// Everything a simulation is told about the household.
#[derive(Clone, Debug)]
pub struct Input {
    pub retirees: Vec<Retiree>,
    pub portfolio: Portfolio,
    pub expenses: Expenses,
    pub tax_rates: TaxRates,
}

impl Input {
    /// There is at least one person, and every date of birth is a day of the calendar.
    pub open spec fn valid(&self) -> bool {
        &&& self.retirees@.len() > 0
        &&& forall|i: int|
            0 <= i < self.retirees@.len() ==> (#[trigger] self.retirees@[i]).date_of_birth.valid()
    }

    /// Whether `valid` holds.
    pub fn is_valid(&self) -> (r: bool)
        ensures
            r == self.valid(),
    {
        if self.retirees.len() == 0 {
            return false;
        }
        let mut i: usize = 0;
        while i < self.retirees.len()
            invariant
                0 <= i <= self.retirees@.len(),
                forall|j: int| 0 <= j < i ==> (#[trigger] self.retirees@[j]).date_of_birth.valid(),
            decreases self.retirees@.len() - i,
        {
            let birth: Date = self.retirees[i].date_of_birth;
            if Date::new(birth.year, birth.month, birth.day).is_none() {
                return false;
            }
            i = i + 1;
        }
        true
    }
}

} // verus!
