//! Exact integer arithmetic used by the statistics: truncating division (the
//! semantics of casting a quotient to a machine integer), quotients kept as
//! numerator/denominator pairs, the floor of the square root of such a
//! quotient, and the two-decimal ceiling used by the duration renderer.
use vstd::prelude::*;

verus! {

/// An exact quotient `num / den`. A zero denominator marks a value that
/// would not be a finite number (a division by zero further up); renderers
/// must show it as a placeholder.
#[derive(Clone, Copy, PartialEq, Eq, Structural, Debug)]
pub struct Ratio {
    pub num: i64,
    pub den: i64,
}

/// The square root of an exact quotient: the value `sqrt(num / den)`.
/// A zero denominator again marks a non-finite value.
#[derive(Clone, Copy, PartialEq, Eq, Structural, Debug)]
pub struct RootRatio {
    pub num: i128,
    pub den: i128,
}

/// Division rounding toward zero, as machine division does.
pub open spec fn spec_div_trunc(a: int, b: int) -> int {
    if b == 0 {
        0
    } else if a >= 0 && b > 0 {
        a / b
    } else if a < 0 && b > 0 {
        -((-a) / b)
    } else if a >= 0 {
        -(a / (-b))
    } else {
        (-a) / (-b)
    }
}

/// Truncating division on machine integers.
pub fn div_trunc(a: i64, b: i64) -> (r: i64)
    requires
        b != 0,
        a > i64::MIN,
        b > i64::MIN,
    ensures
        r == spec_div_trunc(a as int, b as int),
{
    let an: u64 = if a >= 0 {
        a as u64
    } else {
        (-a) as u64
    };
    let bn: u64 = if b >= 0 {
        b as u64
    } else {
        (-b) as u64
    };
    let q: u64 = an / bn;
    if (a >= 0) == (b >= 0) {
        q as i64
    } else {
        -(q as i64)
    }
}

/// Floor of the square root of a natural number below `i128::MAX`.
pub fn isqrt_u128(q: u128) -> (r: u128)
    requires
        q <= i128::MAX as u128,
    ensures
        r * r <= q < (r + 1) * (r + 1),
{
    if q == 0 {
        return 0;
    }
    let mut lo: u128 = 0;
    let mut hi: u128 = 0xFFFF_FFFF_FFFF_FFFF;
    assert(hi * hi > q) by (nonlinear_arith)
        requires
            hi == 0xFFFF_FFFF_FFFF_FFFFu128,
            q <= i128::MAX as u128,
    ;
    while lo + 1 < hi
        invariant
            lo < hi <= 0xFFFF_FFFF_FFFF_FFFF,
            lo * lo <= q,
            hi * hi > q,
        decreases hi - lo,
    {
        let mid: u128 = lo + (hi - lo) / 2;
        assert(mid * mid <= 0xFFFF_FFFF_FFFF_FFFE * 0xFFFF_FFFF_FFFF_FFFE) by (nonlinear_arith)
            requires
                mid <= 0xFFFF_FFFF_FFFF_FFFEu128,
        ;
        if mid * mid <= q {
            lo = mid;
        } else {
            hi = mid;
        }
    }
    lo
}

/// Floor of `sqrt(num / den)` for a finite, non-negative quotient.
/// This is the whole-minute value the renderer shows for a standard
/// deviation.
pub fn root_floor(num: i128, den: i128) -> (r: i128)
    requires
        den > 0,
        num >= 0,
    ensures
        r >= 0,
        r * r * den <= num,
        num < (r + 1) * (r + 1) * den,
{
    let q: u128 = (num as u128) / (den as u128);
    proof {
        vstd::arithmetic::div_mod::lemma_fundamental_div_mod(num as int, den as int);
        assert((num as u128) / (den as u128) == (num as int) / (den as int));
    }
    let r: u128 = isqrt_u128(q);
    proof {
        let n = num as int;
        let d = den as int;
        let qi = n / d;
        assert(qi * d <= n && n < (qi + 1) * d) by (nonlinear_arith)
            requires
                d > 0,
                n >= 0,
                qi == n / d,
        {
            vstd::arithmetic::div_mod::lemma_fundamental_div_mod(n, d);
        }
        let ri = r as int;
        assert(ri * ri * d <= qi * d && (qi + 1) * d <= (ri + 1) * (ri + 1) * d)
            by (nonlinear_arith)
            requires
                d > 0,
                ri * ri <= qi,
                qi < (ri + 1) * (ri + 1),
        ;
        assert(ri <= qi < 0x8000_0000_0000_0000_0000_0000_0000_0000u128) by (nonlinear_arith)
            requires
                ri >= 0,
                qi >= 0,
                ri * ri <= qi,
                qi <= i128::MAX as u128,
        ;
    }
    r as i128
}

/// Hundredths of a unit after rounding `p / q` up at two decimal places
/// (ceiling, not nearest).
pub open spec fn spec_ceil_cents(p: int, q: int) -> int {
    (100 * p + q - 1) / q
}

/// `p / q` rounded up at two decimal places, returned in hundredths.
pub fn ceil_cents(p: i64, q: i64) -> (r: i64)
    requires
        0 < q <= 1_000_000_000,
        0 <= p <= 90_000_000_000_000_000,
    ensures
        r == spec_ceil_cents(p as int, q as int),
        r >= 0,
{
    let n: u64 = 100 * (p as u64) + (q - 1) as u64;
    let r: u64 = n / (q as u64);
    proof {
        vstd::arithmetic::div_mod::lemma_div_is_ordered(0, n as int, q as int);
    }
    r as i64
}

} // verus!
