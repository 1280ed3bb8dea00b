//! A retirement simulator: a household's money carried month by month from a
//! starting day until everyone has outlived their life expectancy or the
//! portfolio is empty, under one sequence of investment returns; and scans
//! that run the simulation under many sequences and rank what they come to.
//!
//! All arithmetic is exact. Money is counted in whole units (cents, say),
//! rates in parts per million, and every rounding is a rounding down that the
//! contracts state. Amounts stop at `u64::MAX` instead of overflowing.
//!
//! - [`units`]: the scales, and the integer arithmetic everything rests on.
//! - [`utils`]: calendar dates (the arithmetic is chrono's) and the monthly
//!   growth factor.
//! - [`portfolio`]: the balance, its allocation, deposits, withdrawals, growth.
//! - [`tax`]: the bracket schedule, the tax on a monthly income, the gross-up.
//! - [`input`]: the household's data.
//! - [`month`]: what one month does, as a function of the household and the day.
//! - [`course`]: how months follow each other to the end of a simulation.
//! - [`simulate`]: the simulation itself.
//! - [`idle`]: a household without income, expenses or returns keeps its balance.
//! - [`sorting`]: the stable sort behind the ranking.
//! - [`scan`]: what a scan collects, and the ranking from worst to best.
//! - [`historical_scan`]: one scenario for each recorded year, replayed in a circle.
//! - [`monte_carlo`]: a thousand scenarios under returns drawn year by year.
//! - [`report`]: text tables.
//! - [`error`]: how a simulation can fail.
pub mod units;
pub mod utils;
pub mod error;
pub mod sorting;
pub mod portfolio;
pub mod tax;
pub mod input;
pub mod month;
pub mod course;
pub mod simulate;
pub mod idle;
pub mod scan;
pub mod historical_scan;
pub mod monte_carlo;
pub mod report;

pub use input::{Expenses, Input, Retiree};
pub use tax::{TaxLevel, TaxRates};
