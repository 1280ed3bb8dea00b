//! Calendar dates and the conversion from annual to monthly growth.
//!
//! Calendar arithmetic is chrono's: the functions here hand it plain
//! year/month/day values and take plain values back.
use vstd::prelude::*;
use crate::units::{
    cbrt_floor, floor_cbrt, floor_sqrt, lemma_floor_cbrt_bound, lemma_floor_cbrt_exists,
    lemma_floor_cbrt_monotonic, lemma_floor_sqrt_bound, lemma_floor_sqrt_exists,
    lemma_floor_sqrt_monotonic, sqrt_floor, GROWTH_UNIT, RATE_TO_GROWTH_SQUARED, RATE_UNIT,
};

verus! {

/// The earliest year a date can lie in.
pub const MIN_YEAR: i32 = -262_143;

/// The latest year a date can lie in.
pub const MAX_YEAR: i32 = 262_142;

/// No monthly growth factor is larger than this.
pub const MAX_MONTHLY_FACTOR: u64 = 200_000_000;

/// A day of the proleptic Gregorian calendar.
#[derive(Clone, Copy, Debug, PartialEq, Eq, Structural)]
pub struct Date {
    pub year: i32,
    pub month: u32,
    pub day: u32,
}

/// Whether `year` has a 29th of February.
pub open spec fn is_leap_year(year: int) -> bool {
    year % 4 == 0 && (year % 100 != 0 || year % 400 == 0)
}

/// The number of days of `month` in `year`.
pub open spec fn days_in_month(year: int, month: int) -> int {
    if month == 2 {
        if is_leap_year(year) {
            29
        } else {
            28
        }
    } else if month == 4 || month == 6 || month == 9 || month == 11 {
        30
    } else {
        31
    }
}

impl Date {
    /// The date exists in the calendar and lies in the years that can be represented.
    pub open spec fn valid(&self) -> bool {
        &&& MIN_YEAR <= self.year <= MAX_YEAR
        &&& 1 <= self.month <= 12
        &&& 1 <= self.day <= days_in_month(self.year as int, self.month as int)
    }

    /// `self` is an earlier day than `other`.
    pub open spec fn precedes(&self, other: Date) -> bool {
        self.year < other.year || (self.year == other.year && (self.month < other.month || (
        self.month == other.month && self.day < other.day)))
    }

    /// How many whole months can still be added before the calendar runs out.
    pub open spec fn months_left(&self) -> nat {
        if self.valid() {
            ((MAX_YEAR - self.year) * 12 + (12 - self.month)) as nat
        } else {
            0
        }
    }

    /// The date of the given year, month and day, if there is such a day.
    pub fn new(year: i32, month: u32, day: u32) -> (r: Option<Date>)
        ensures
            r == (if (Date { year, month, day }).valid() {
                Some(Date { year, month, day })
            } else {
                None
            }),
    {
        if year < MIN_YEAR || year > MAX_YEAR || month < 1 || month > 12 || day < 1 {
            return None;
        }
        // 262_400 is a multiple of 400, so the shift keeps every remainder.
        let shifted: u32 = (year + 262_400) as u32;
        let leap: bool = shifted % 4 == 0 && (shifted % 100 != 0 || shifted % 400 == 0);
        assert(leap == is_leap_year(year as int));
        let last: u32 = if month == 2 {
            if leap {
                29
            } else {
                28
            }
        } else if month == 4 || month == 6 || month == 9 || month == 11 {
            30
        } else {
            31
        };
        if day > last {
            None
        } else {
            Some(Date { year, month, day })
        }
    }

    /// Whether `self` is an earlier day than `other`.
    pub fn is_before(&self, other: &Date) -> (r: bool)
        ensures
            r == self.precedes(*other),
    {
        self.year < other.year || (self.year == other.year && (self.month < other.month || (
        self.month == other.month && self.day < other.day)))
    }

    /// Whether `self` is a later day than `other`.
    pub fn is_after(&self, other: &Date) -> (r: bool)
        ensures
            r == other.precedes(*self),
    {
        other.is_before(self)
    }

    /// Whether `self` is `other` or a later day.
    pub fn is_on_or_after(&self, other: &Date) -> (r: bool)
        ensures
            r == !self.precedes(*other),
    {
        !self.is_before(other)
    }
}

/// The whole years from `base` to `date`: the difference of the years, less one
/// where `date` falls earlier in its year than `base` does; none where `date`
/// lies more than that before `base`.
pub open spec fn years_since(date: Date, base: Date) -> Option<u32> {
    let earlier_in_year = date.month < base.month || (date.month == base.month && date.day
        < base.day);
    let years = date.year - base.year - (if earlier_in_year {
        1int
    } else {
        0int
    });
    if years >= 0 {
        Some(years as u32)
    } else {
        None
    }
}

/// The month after `date`, on the same day of the month or on the month's last
/// day where it has no such day; none past the last year of the calendar.
pub open spec fn next_month(date: Date) -> Option<Date> {
    let year = if date.month == 12 {
        date.year + 1
    } else {
        date.year as int
    };
    let month = if date.month == 12 {
        1
    } else {
        date.month + 1
    };
    let last = days_in_month(year, month);
    let day = if date.day > last {
        last
    } else {
        date.day as int
    };
    if year > MAX_YEAR {
        None
    } else {
        Some(Date { year: year as i32, month: month as u32, day: day as u32 })
    }
}

/// The date that chrono finds the given number of days after the given day;
/// none where chrono cannot represent the span or the date.
pub uninterp spec fn date_plus_days(date: Date, days: int) -> Option<Date>;

/// The age in whole years on `current_date` of someone born on `date_of_birth`;
/// zero before the birth.
pub open spec fn age_on(date_of_birth: Date, current_date: Date) -> u32 {
    match years_since(current_date, date_of_birth) {
        Some(v) => v,
        None => 0,
    }
}

/// The day `years` times 365 days after `date`; `date` itself where that day
/// cannot be represented.
pub open spec fn years_after(date: Date, years: u32) -> Date {
    match date_plus_days(date, years * 365) {
        Some(v) => v,
        None => date,
    }
}

/// The factor by which a month grows what a year grows by `annual_rate` parts
/// per million, at the scale of `GROWTH_UNIT`: the twelfth root of the annual
/// factor, taken as a square root, a square root and a cube root, each
/// rounded down. An annual loss of the whole or more leaves nothing.
pub open spec fn monthly_factor(annual_rate: int) -> int {
    let half_year = floor_sqrt(annual_factor(annual_rate) * RATE_TO_GROWTH_SQUARED);
    let quarter = floor_sqrt(half_year * GROWTH_UNIT);
    floor_cbrt(quarter * GROWTH_UNIT * GROWTH_UNIT)
}

/// The annual factor, in parts per million, of an annual rate in parts per
/// million: nothing is left of a loss of the whole or more.
pub open spec fn annual_factor(annual_rate: int) -> int {
    if annual_rate <= -RATE_UNIT {
        0
    } else {
        RATE_UNIT + annual_rate
    }
}

/// `x` multiplied twelve times by itself.
pub open spec fn twelfth_power(x: int) -> int {
    let cube = x * x * x;
    let sixth = cube * cube;
    sixth * sixth
}

/// Twelve months at the monthly factor never grow more than the year does:
/// the rounding is always against growth.
pub proof fn lemma_monthly_factor_compounds_below(annual_rate: int)
    ensures
        0 <= monthly_factor(annual_rate),
        twelfth_power(monthly_factor(annual_rate)) * RATE_UNIT <= annual_factor(annual_rate)
            * twelfth_power(GROWTH_UNIT as int),
{
    let af = annual_factor(annual_rate);
    let g: int = GROWTH_UNIT as int;
    let u: int = RATE_UNIT as int;
    let a = af * RATE_TO_GROWTH_SQUARED;
    lemma_floor_sqrt_exists(a);
    let h = floor_sqrt(a);
    assert(0 <= h * g) by (nonlinear_arith)
        requires
            0 <= h,
            0 <= g,
    ;
    lemma_floor_sqrt_exists(h * g);
    let q = floor_sqrt(h * g);
    assert(0 <= q * g * g) by (nonlinear_arith)
        requires
            0 <= q,
            0 <= g,
    ;
    lemma_floor_cbrt_exists(q * g * g);
    let m = floor_cbrt(q * g * g);
    let cube = m * m * m;
    let sixth = cube * cube;
    assert(0 <= cube) by (nonlinear_arith)
        requires
            cube == m * m * m,
            0 <= m,
    ;
    // cube <= q g^2, so sixth <= q^2 g^4 <= h g^5
    assert(sixth <= h * (g * g * g * g * g)) by (nonlinear_arith)
        requires
            sixth == cube * cube,
            0 <= cube <= q * g * g,
            0 <= q,
            q * q <= h * g,
            0 <= g,
    ;
    assert(0 <= sixth) by (nonlinear_arith)
        requires
            sixth == cube * cube,
    ;
    // twelfth <= h^2 g^10 <= a g^10
    let g5 = g * g * g * g * g;
    assert(0 <= g5) by (nonlinear_arith)
        requires
            g5 == g * g * g * g * g,
            0 <= g,
    ;
    assert(sixth * sixth <= a * (g5 * g5)) by (nonlinear_arith)
        requires
            0 <= sixth <= h * g5,
            0 <= h,
            h * h <= a,
            0 <= g5,
    ;
    // a u == af g^2
    assert(a * u == af * (g * g));
    assert(a * (g5 * g5) * u == af * twelfth_power(g)) by (nonlinear_arith)
        requires
            a * u == af * (g * g),
            g5 == g * g * g * g * g,
            twelfth_power(g) == ((g * g * g) * (g * g * g)) * ((g * g * g) * (g * g * g)),
    ;
    assert(sixth * sixth * u <= a * (g5 * g5) * u) by (nonlinear_arith)
        requires
            sixth * sixth <= a * (g5 * g5),
            0 <= u,
    ;
}

/// A larger annual rate never has a smaller monthly factor.
pub proof fn lemma_monthly_factor_monotonic(smaller: int, larger: int)
    requires
        smaller <= larger,
    ensures
        monthly_factor(smaller) <= monthly_factor(larger),
{
    let g: int = GROWTH_UNIT as int;
    let a1 = annual_factor(smaller) * RATE_TO_GROWTH_SQUARED;
    let a2 = annual_factor(larger) * RATE_TO_GROWTH_SQUARED;
    lemma_floor_sqrt_monotonic(a1, a2);
    lemma_floor_sqrt_exists(a1);
    let h1 = floor_sqrt(a1);
    let h2 = floor_sqrt(a2);
    assert(0 <= h1 * g <= h2 * g) by (nonlinear_arith)
        requires
            0 <= h1 <= h2,
            0 <= g,
    ;
    lemma_floor_sqrt_monotonic(h1 * g, h2 * g);
    lemma_floor_sqrt_exists(h1 * g);
    let q1 = floor_sqrt(h1 * g);
    let q2 = floor_sqrt(h2 * g);
    assert(0 <= q1 * g * g <= q2 * g * g) by (nonlinear_arith)
        requires
            0 <= q1 <= q2,
            0 <= g,
    ;
    lemma_floor_cbrt_monotonic(q1 * g * g, q2 * g * g);
}

/// chrono's `NaiveDate::years_since`, from `base` to `date`. The contract
/// restates that function: the difference of the years, less one where month
/// and day of `date` come before those of `base`, and `None` where the result
/// would be negative.
#[verifier::external_body]
fn naive_years_since(date: Date, base: Date) -> (r: Option<u32>)
    requires
        date.valid(),
        base.valid(),
    ensures
        r == years_since(date, base),
{
    let d = chrono::NaiveDate::from_ymd_opt(date.year, date.month, date.day)?;
    let b = chrono::NaiveDate::from_ymd_opt(base.year, base.month, base.day)?;
    d.years_since(b)
}

/// chrono's `NaiveDate::checked_add_signed` with a `TimeDelta` of `days` whole
/// days. The contract gives the result its name and claims that a date which
/// chrono hands out is a day of the calendar.
#[verifier::external_body]
fn naive_add_days(date: Date, days: i64) -> (r: Option<Date>)
    requires
        date.valid(),
    ensures
        r == date_plus_days(date, days as int),
        r matches Some(d) ==> d.valid(),
{
    let d = chrono::NaiveDate::from_ymd_opt(date.year, date.month, date.day)?;
    let e = d.checked_add_signed(chrono::TimeDelta::try_days(days)?)?;
    Some(
        Date {
            year: chrono::Datelike::year(&e),
            month: chrono::Datelike::month(&e),
            day: chrono::Datelike::day(&e),
        },
    )
}

/// chrono's `NaiveDate::checked_add_months` with one month. The contract
/// restates chrono's rule: the next month, the day clamped to that month's
/// last day, `None` past the last year.
#[verifier::external_body]
fn naive_add_month(date: Date) -> (r: Option<Date>)
    requires
        date.valid(),
    ensures
        r == next_month(date),
{
    let d = chrono::NaiveDate::from_ymd_opt(date.year, date.month, date.day)?;
    let e = d.checked_add_months(chrono::Months::new(1))?;
    Some(
        Date {
            year: chrono::Datelike::year(&e),
            month: chrono::Datelike::month(&e),
            day: chrono::Datelike::day(&e),
        },
    )
}

/// chrono's `Utc::now`, cut down to its calendar day. The contract claims
/// only that the day is a day of the calendar.
#[verifier::external_body]
pub(crate) fn today() -> (r: Date)
    ensures
        r.valid(),
{
    let d = chrono::Utc::now().date_naive();
    Date {
        year: chrono::Datelike::year(&d),
        month: chrono::Datelike::month(&d),
        day: chrono::Datelike::day(&d),
    }
}

/// The month after a day of the calendar is a day of the calendar, and one
/// month closer to the calendar's end.
pub proof fn lemma_next_month_valid(date: Date)
    requires
        date.valid(),
    ensures
        next_month(date) matches Some(d) ==> d.valid() && d.months_left() + 1
            == date.months_left(),
        next_month(date) is None <==> (date.year == MAX_YEAR && date.month == 12),
{
}

/// The month after `date`, as `next_month` states it.
pub fn add_month(date: &Date) -> (r: Option<Date>)
    requires
        date.valid(),
    ensures
        r == next_month(*date),
        r matches Some(d) ==> d.valid() && d.months_left() + 1 == date.months_left(),
{
    proof {
        lemma_next_month_valid(*date);
    }
    naive_add_month(*date)
}

/// The monthly rate, at the scale of `GROWTH_UNIT`, that compounds over
/// twelve months to the given annual rate in parts per million.
pub fn get_monthly_rate(annual_rate: i32) -> (r: i64)
    ensures
        r == monthly_factor(annual_rate as int) - GROWTH_UNIT,
        -(GROWTH_UNIT as int) <= r <= MAX_MONTHLY_FACTOR - GROWTH_UNIT,
{
    let annual_factor: u64 = if annual_rate as i64 <= -(RATE_UNIT as i64) {
        0
    } else {
        (RATE_UNIT as i64 + annual_rate as i64) as u64
    };
    let half_year: u64 = sqrt_floor(annual_factor as u128 * RATE_TO_GROWTH_SQUARED as u128);
    proof {
        lemma_floor_sqrt_bound(
            annual_factor * RATE_TO_GROWTH_SQUARED,
            half_year as int,
            4_639_999_999,
        );
    }
    let quarter: u64 = sqrt_floor(half_year as u128 * GROWTH_UNIT as u128);
    proof {
        lemma_floor_sqrt_bound(half_year * GROWTH_UNIT, quarter as int, 689_999_999);
    }
    assert(quarter * GROWTH_UNIT * GROWTH_UNIT == quarter * 10_000_000_000_000_000int)
        by (nonlinear_arith);
    let month: u64 = cbrt_floor(quarter as u128 * 10_000_000_000_000_000u128);
    proof {
        lemma_floor_cbrt_bound(
            quarter * GROWTH_UNIT * GROWTH_UNIT,
            month as int,
            199_999_999,
        );
    }
    month as i64 - GROWTH_UNIT as i64
}

/// The age in whole years on `current_date` of someone born on `date_of_birth`.
pub fn get_age(date_of_birth: &Date, current_date: &Date) -> (r: u32)
    requires
        date_of_birth.valid(),
        current_date.valid(),
    ensures
        r == age_on(*date_of_birth, *current_date),
{
    match naive_years_since(*current_date, *date_of_birth) {
        Some(v) => v,
        None => 0,
    }
}

/// The day `years` times 365 days after `date`, or `date` where there is no such day.
pub fn add_years(date: &Date, years: u32) -> (r: Date)
    requires
        date.valid(),
    ensures
        r == years_after(*date, years),
        r.valid(),
{
    let days_to_add: i64 = years as i64 * 365;
    match naive_add_days(*date, days_to_add) {
        Some(v) => v,
        None => *date,
    }
}

} // verus!
