//! Fixed-point units and the exact integer arithmetic the simulator is built on.
//!
//! Money is counted in whole units (cents, say). A rate (a percentage, an
//! allocation share, an annual return) is held in parts per million of the
//! whole, so that `RATE_UNIT` stands for 100%. A monthly growth factor is held
//! at the finer scale `GROWTH_UNIT`, which stands for a factor of exactly one.
use vstd::prelude::*;
use vstd::arithmetic::div_mod::{
    lemma_div_is_ordered, lemma_div_multiples_vanish, lemma_fundamental_div_mod,
    lemma_fundamental_div_mod_converse,
};

verus! {

/// The rate that stands for 100%: rates are counted in parts per million.
pub const RATE_UNIT: u64 = 1_000_000;

/// The growth factor that stands for "unchanged".
pub const GROWTH_UNIT: u64 = 100_000_000;

/// `GROWTH_UNIT * GROWTH_UNIT / RATE_UNIT`: lifts a rate to the square of the growth scale.
pub const RATE_TO_GROWTH_SQUARED: u64 = 10_000_000_000;

/// `RATE_UNIT * GROWTH_UNIT`: the divisor that undoes an allocation share times a growth factor.
pub const SHARE_TIMES_GROWTH: u64 = 100_000_000_000_000;

/// Months in a year.
pub const MONTHS_PER_YEAR: u64 = 12;

/// An amount of money cut off at the largest amount a `u64` can hold, and at zero.
pub open spec fn cap(x: int) -> int {
    if x < 0 {
        0
    } else if x > u64::MAX {
        u64::MAX as int
    } else {
        x
    }
}

/// `r` is the square root of `n`, rounded down.
pub open spec fn is_floor_sqrt(n: int, r: int) -> bool {
    0 <= r && r * r <= n < (r + 1) * (r + 1)
}

/// `r` is the cube root of `n`, rounded down.
pub open spec fn is_floor_cbrt(n: int, r: int) -> bool {
    0 <= r && r * r * r <= n < (r + 1) * (r + 1) * (r + 1)
}

/// The square root of `n`, rounded down (for `n >= 0`).
pub open spec fn floor_sqrt(n: int) -> int {
    choose|r: int| is_floor_sqrt(n, r)
}

/// The cube root of `n`, rounded down (for `n >= 0`).
pub open spec fn floor_cbrt(n: int) -> int {
    choose|r: int| is_floor_cbrt(n, r)
}

/// At most one number is the rounded-down square root of `n`.
pub proof fn lemma_floor_sqrt_unique(n: int, a: int, b: int)
    requires
        is_floor_sqrt(n, a),
        is_floor_sqrt(n, b),
    ensures
        a == b,
{
    if a < b {
        assert((a + 1) * (a + 1) <= b * b) by (nonlinear_arith)
            requires
                0 <= a,
                a + 1 <= b,
        ;
    } else if b < a {
        assert((b + 1) * (b + 1) <= a * a) by (nonlinear_arith)
            requires
                0 <= b,
                b + 1 <= a,
        ;
    }
}

/// At most one number is the rounded-down cube root of `n`.
pub proof fn lemma_floor_cbrt_unique(n: int, a: int, b: int)
    requires
        is_floor_cbrt(n, a),
        is_floor_cbrt(n, b),
    ensures
        a == b,
{
    if a < b {
        assert((a + 1) * (a + 1) * (a + 1) <= b * b * b) by (nonlinear_arith)
            requires
                0 <= a,
                a + 1 <= b,
        ;
    } else if b < a {
        assert((b + 1) * (b + 1) * (b + 1) <= a * a * a) by (nonlinear_arith)
            requires
                0 <= b,
                b + 1 <= a,
        ;
    }
}

/// Every number from zero on has a rounded-down square root.
pub proof fn lemma_floor_sqrt_exists(n: int)
    requires
        0 <= n,
    ensures
        is_floor_sqrt(n, floor_sqrt(n)),
    decreases n,
{
    if n == 0 {
        assert(is_floor_sqrt(0, 0));
    } else {
        lemma_floor_sqrt_exists(n - 1);
        let r = floor_sqrt(n - 1);
        if (r + 1) * (r + 1) <= n {
            assert((r + 2) * (r + 2) > (r + 1) * (r + 1)) by (nonlinear_arith)
                requires
                    0 <= r,
            ;
            assert(is_floor_sqrt(n, r + 1));
        } else {
            assert(is_floor_sqrt(n, r));
        }
    }
}

/// Every number from zero on has a rounded-down cube root.
pub proof fn lemma_floor_cbrt_exists(n: int)
    requires
        0 <= n,
    ensures
        is_floor_cbrt(n, floor_cbrt(n)),
    decreases n,
{
    if n == 0 {
        assert(is_floor_cbrt(0, 0));
    } else {
        lemma_floor_cbrt_exists(n - 1);
        let r = floor_cbrt(n - 1);
        if (r + 1) * (r + 1) * (r + 1) <= n {
            assert((r + 2) * (r + 2) * (r + 2) > (r + 1) * (r + 1) * (r + 1)) by (nonlinear_arith)
                requires
                    0 <= r,
            ;
            assert(is_floor_cbrt(n, r + 1));
        } else {
            assert(is_floor_cbrt(n, r));
        }
    }
}

/// The rounded-down square root never falls as the number rises.
pub proof fn lemma_floor_sqrt_monotonic(smaller: int, larger: int)
    requires
        0 <= smaller <= larger,
    ensures
        floor_sqrt(smaller) <= floor_sqrt(larger),
{
    lemma_floor_sqrt_exists(smaller);
    lemma_floor_sqrt_exists(larger);
    lemma_floor_sqrt_bound(smaller, floor_sqrt(smaller), floor_sqrt(larger));
}

/// The rounded-down cube root never falls as the number rises.
pub proof fn lemma_floor_cbrt_monotonic(smaller: int, larger: int)
    requires
        0 <= smaller <= larger,
    ensures
        floor_cbrt(smaller) <= floor_cbrt(larger),
{
    lemma_floor_cbrt_exists(smaller);
    lemma_floor_cbrt_exists(larger);
    lemma_floor_cbrt_bound(smaller, floor_cbrt(smaller), floor_cbrt(larger));
}

/// A rounded-down square root never exceeds the root of a square that bounds `n`.
pub proof fn lemma_floor_sqrt_bound(n: int, r: int, k: int)
    requires
        is_floor_sqrt(n, r),
        0 <= k,
        n < (k + 1) * (k + 1),
    ensures
        r <= k,
{
    if r > k {
        assert((k + 1) * (k + 1) <= r * r) by (nonlinear_arith)
            requires
                0 <= k,
                k + 1 <= r,
        ;
    }
}

/// A rounded-down cube root never exceeds the root of a cube that bounds `n`.
pub proof fn lemma_floor_cbrt_bound(n: int, r: int, k: int)
    requires
        is_floor_cbrt(n, r),
        0 <= k,
        n < (k + 1) * (k + 1) * (k + 1),
    ensures
        r <= k,
{
    if r > k {
        assert((k + 1) * (k + 1) * (k + 1) <= r * r * r) by (nonlinear_arith)
            requires
                0 <= k,
                k + 1 <= r,
        ;
    }
}

/// A dividend between `low * d` and `high * d` has a quotient between `low` and `high`.
pub proof fn lemma_quotient_between(x: int, d: int, low: int, high: int)
    requires
        0 < d,
        low * d <= x <= high * d,
    ensures
        low <= x / d <= high,
{
    assert(d * high == high * d) by (nonlinear_arith);
    assert(d * low == low * d) by (nonlinear_arith);
    lemma_div_is_ordered(x, d * high, d);
    lemma_div_multiples_vanish(high, d);
    lemma_div_is_ordered(d * low, x, d);
    lemma_div_multiples_vanish(low, d);
}

/// A dividend between `-limit * d` and `limit * d` has a quotient between
/// `-limit` and `limit`.
pub proof fn lemma_quotient_within(x: int, d: int, limit: int)
    requires
        0 < d,
        -(limit * d) <= x <= limit * d,
    ensures
        -limit <= x / d <= limit,
{
    assert((-limit) * d == -(limit * d)) by (nonlinear_arith);
    lemma_quotient_between(x, d, -limit, limit);
}

/// Counting on by one modulo `n` starts again at zero after `n - 1`.
pub proof fn lemma_mod_successor(a: int, n: int)
    requires
        0 < n,
    ensures
        (a + 1) % n == (if a % n + 1 == n {
            0
        } else {
            a % n + 1
        }),
        0 <= a % n < n,
{
    lemma_fundamental_div_mod(a, n);
    let q = a / n;
    let r = a % n;
    assert(n * q == q * n) by (nonlinear_arith);
    if r + 1 == n {
        assert(a + 1 == (q + 1) * n + 0) by (nonlinear_arith)
            requires
                a == q * n + r,
                r + 1 == n,
        ;
        lemma_fundamental_div_mod_converse(a + 1, n, q + 1, 0);
    } else {
        lemma_fundamental_div_mod_converse(a + 1, n, q, r + 1);
    }
}

/// `amount * num / den`, rounded down and cut off at `u64::MAX`.
pub fn scale(amount: u64, num: u64, den: u64) -> (r: u64)
    requires
        den > 0,
    ensures
        r == cap(amount * num / (den as int)),
{
    assert(amount * num <= u64::MAX * u64::MAX) by (nonlinear_arith)
        requires
            amount <= u64::MAX,
            num <= u64::MAX,
    ;
    let product: u128 = (amount as u128) * (num as u128);
    let quotient: u128 = product / (den as u128);
    if quotient > u64::MAX as u128 {
        u64::MAX
    } else {
        quotient as u64
    }
}

/// `n / d`, rounded down (towards minus infinity).
pub fn div_floor(n: i128, d: u64) -> (r: i128)
    requires
        d > 0,
        n > i128::MIN,
    ensures
        r == (n as int) / (d as int),
{
    if n >= 0 {
        let q: u128 = (n as u128) / (d as u128);
        q as i128
    } else {
        let m: u128 = (-n) as u128;
        let q: u128 = (m + (d as u128 - 1)) / (d as u128);
        proof {
            let up: int = m + d - 1;
            let dd: int = d as int;
            let qq: int = q as int;
            assert(qq == up / dd);
            lemma_fundamental_div_mod(up, dd);
            assert(0 <= up % dd < dd);
            assert(up == dd * qq + up % dd);
            assert(qq <= m) by (nonlinear_arith)
                requires
                    up == dd * qq + up % dd,
                    0 <= up % dd,
                    up == m + dd - 1,
                    dd >= 1,
                    m >= 1,
            ;
            assert(n as int == (-qq) * dd + (dd - 1 - up % dd)) by (nonlinear_arith)
                requires
                    up == dd * qq + up % dd,
                    up == m + dd - 1,
                    n as int == -(m as int),
            ;
            lemma_fundamental_div_mod_converse(n as int, dd, -qq, dd - 1 - up % dd);
        }
        -(q as i128)
    }
}

/// The square root of `n`, rounded down.
pub fn sqrt_floor(n: u128) -> (r: u64)
    ensures
        is_floor_sqrt(n as int, r as int),
        r == floor_sqrt(n as int),
{
    let mut lo: u128 = 0;
    let mut hi: u128 = 0x1_0000_0000_0000_0000;
    assert(hi * hi == 0x1_0000_0000_0000_0000_0000_0000_0000_0000int) by (nonlinear_arith)
        requires
            hi == 0x1_0000_0000_0000_0000u128,
    ;
    while hi - lo > 1
        invariant
            lo < hi <= 0x1_0000_0000_0000_0000,
            lo * lo <= n < hi * hi,
        decreases hi - lo,
    {
        let mid: u128 = lo + (hi - lo) / 2;
        assert(mid * mid <= 0xffff_ffff_ffff_ffff * 0xffff_ffff_ffff_ffff) by (nonlinear_arith)
            requires
                mid <= 0xffff_ffff_ffff_ffff,
        ;
        if mid * mid <= n {
            lo = mid;
        } else {
            hi = mid;
        }
    }
    proof {
        assert(hi == lo + 1);
        assert(is_floor_sqrt(n as int, lo as int));
        lemma_floor_sqrt_unique(n as int, lo as int, floor_sqrt(n as int));
    }
    lo as u64
}

/// The cube root of `n`, rounded down.
pub fn cbrt_floor(n: u128) -> (r: u64)
    ensures
        is_floor_cbrt(n as int, r as int),
        r == floor_cbrt(n as int),
{
    let mut lo: u128 = 0;
    let mut hi: u128 = 6_981_463_658_332;
    assert(hi * hi * hi > u128::MAX) by (nonlinear_arith)
        requires
            hi == 6_981_463_658_332u128,
    ;
    while hi - lo > 1
        invariant
            lo < hi <= 6_981_463_658_332,
            lo * lo * lo <= n < hi * hi * hi,
        decreases hi - lo,
    {
        let mid: u128 = lo + (hi - lo) / 2;
        assert(mid * mid <= 6_981_463_658_331 * 6_981_463_658_331
            && mid * mid * mid <= 6_981_463_658_331 * 6_981_463_658_331 * 6_981_463_658_331)
            by (nonlinear_arith)
            requires
                mid <= 6_981_463_658_331,
        ;
        if mid * mid * mid <= n {
            lo = mid;
        } else {
            hi = mid;
        }
    }
    proof {
        assert(hi == lo + 1);
        assert(is_floor_cbrt(n as int, lo as int));
        lemma_floor_cbrt_unique(n as int, lo as int, floor_cbrt(n as int));
    }
    lo as u64
}

} // verus!
