//! The duration rendering scheme: a minute count is decomposed into weeks,
//! days, hours and minutes, and every populated unit contributes a clause
//! showing the whole-unit count, the remainder in the next smaller unit, and
//! a single-unit equivalent rounded *up* at two decimal places. A zero
//! duration renders as the placeholder `-`, never as an empty string; a
//! value that is not a finite positive minute count (a quotient with a zero
//! denominator, or a quotient that truncates to zero) also renders as the
//! placeholder.
//!
//! The analysis measures everything in whole minutes, so the cascade's
//! seconds clause (shown only for a partial minute) can never fire and is
//! not represented.
use vstd::prelude::*;

use crate::numbers::{ceil_cents, div_trunc, spec_ceil_cents, spec_div_trunc, Ratio, RootRatio};
use crate::numbers::root_floor;

verus! {

/// Largest minute count the renderer accepts; far above any sum the
/// aggregator can produce, and small enough that the two-decimal ceiling
/// stays inside machine integers.
pub const MAX_RENDER_MINUTES: i64 = 60_000_000_000_000_000;

pub open spec fn spec_digit(d: int) -> char {
    if d == 0 {
        '0'
    } else if d == 1 {
        '1'
    } else if d == 2 {
        '2'
    } else if d == 3 {
        '3'
    } else if d == 4 {
        '4'
    } else if d == 5 {
        '5'
    } else if d == 6 {
        '6'
    } else if d == 7 {
        '7'
    } else if d == 8 {
        '8'
    } else {
        '9'
    }
}

/// Decimal numeral of a natural number.
pub open spec fn spec_dec(n: nat) -> Seq<char>
    decreases n,
{
    if n < 10 {
        seq![spec_digit(n as int)]
    } else {
        spec_dec(n / 10).push(spec_digit((n % 10) as int))
    }
}

/// A count of hundredths written with two decimal places: `150` is `1.50`.
pub open spec fn spec_cents(c: nat) -> Seq<char> {
    spec_dec(c / 100).push('.').push(spec_digit(((c % 100) / 10) as int)).push(
        spec_digit((c % 10) as int),
    )
}

fn digit_str(d: u64) -> (r: &'static str)
    requires
        d < 10,
    ensures
        r@ == seq![spec_digit(d as int)],
{
    proof {
        reveal_strlit("0");
        reveal_strlit("1");
        reveal_strlit("2");
        reveal_strlit("3");
        reveal_strlit("4");
        reveal_strlit("5");
        reveal_strlit("6");
        reveal_strlit("7");
        reveal_strlit("8");
        reveal_strlit("9");
    }
    if d == 0 {
        "0"
    } else if d == 1 {
        "1"
    } else if d == 2 {
        "2"
    } else if d == 3 {
        "3"
    } else if d == 4 {
        "4"
    } else if d == 5 {
        "5"
    } else if d == 6 {
        "6"
    } else if d == 7 {
        "7"
    } else if d == 8 {
        "8"
    } else {
        "9"
    }
}

/// Decimal numeral of a machine integer.
pub fn dec_string(n: u64) -> (r: String)
    ensures
        r@ == spec_dec(n as nat),
    decreases n,
{
    if n < 10 {
        digit_str(n).to_owned()
    } else {
        let mut s = dec_string(n / 10);
        s.append(digit_str(n % 10));
        proof {
            assert(s@ =~= spec_dec((n / 10) as nat).push(spec_digit((n % 10) as int)));
        }
        s
    }
}

/// Two-decimal numeral of a count of hundredths.
pub fn cents_string(c: u64) -> (r: String)
    ensures
        r@ == spec_cents(c as nat),
{
    proof {
        reveal_strlit(".");
    }
    let mut s = dec_string(c / 100);
    s.append(".");
    s.append(digit_str((c % 100) / 10));
    s.append(digit_str(c % 10));
    proof {
        assert(s@ =~= spec_cents(c as nat));
    }
    s
}

/// One cascade clause: `3w2d (3.29w)` is
/// `clause(3, "w", 2, "d", 329)`.
pub open spec fn spec_clause(
    count: nat,
    unit: Seq<char>,
    rem: nat,
    rem_unit: Seq<char>,
    cents: nat,
) -> Seq<char> {
    spec_dec(count) + unit + spec_dec(rem) + rem_unit + " ("@ + spec_cents(cents) + unit + ")"@
}

fn clause(count: u64, unit: &str, rem: u64, rem_unit: &str, cents: u64) -> (r: String)
    ensures
        r@ == spec_clause(count as nat, unit@, rem as nat, rem_unit@, cents as nat),
{
    let mut s = dec_string(count);
    s.append(unit);
    let rs = dec_string(rem);
    s.append(rs.as_str());
    s.append(rem_unit);
    s.append(" (");
    let cs = cents_string(cents);
    s.append(cs.as_str());
    s.append(unit);
    s.append(")");
    proof {
        assert(s@ =~= spec_clause(count as nat, unit@, rem as nat, rem_unit@, cents as nat));
    }
    s
}

/// Clauses joined by ` = `.
pub open spec fn spec_join(parts: Seq<Seq<char>>) -> Seq<char>
    decreases parts.len(),
{
    if parts.len() == 0 {
        Seq::empty()
    } else if parts.len() == 1 {
        parts[0]
    } else {
        spec_join(parts.drop_last()) + " = "@ + parts.last()
    }
}

/// The clause list of a positive minute count: weeks, days, hours from the
/// largest populated unit downward, then the minutes clause.
pub open spec fn spec_minute_parts(m: int) -> Seq<Seq<char>> {
    let w = m / 10080;
    let d = m / 1440;
    let h = m / 60;
    let p0 = Seq::<Seq<char>>::empty();
    let p1 = if w > 0 {
        p0.push(spec_clause(w as nat, "w"@, (d % 7) as nat, "d"@, spec_ceil_cents(d, 7) as nat))
    } else {
        p0
    };
    let p2 = if d > 0 {
        p1.push(spec_clause(d as nat, "d"@, (h % 24) as nat, "h"@, spec_ceil_cents(h, 24) as nat))
    } else {
        p1
    };
    let p3 = if h > 0 {
        p2.push(spec_clause(h as nat, "h"@, (m % 60) as nat, "m"@, spec_ceil_cents(m, 60) as nat))
    } else {
        p2
    };
    p3.push(spec_dec(m as nat) + "m"@)
}

/// What the renderer produces for a whole minute count: the placeholder for
/// zero, an empty string for a negative count (no unit is populated), and
/// the joined cascade otherwise.
pub open spec fn spec_format_minutes(m: int) -> Seq<char> {
    if m == 0 {
        "-"@
    } else if m < 0 {
        Seq::empty()
    } else {
        spec_join(spec_minute_parts(m))
    }
}

/// Render a whole minute count.
pub fn format_minutes(m: i64) -> (r: String)
    requires
        m <= MAX_RENDER_MINUTES,
    ensures
        r@ == spec_format_minutes(m as int),
{
    if m == 0 {
        return "-".to_owned();
    }
    if m < 0 {
        return String::new();
    }
    let mu = m as u64;
    let w = mu / 10080;
    let d = mu / 1440;
    let h = mu / 60;
    let mut parts: Vec<String> = Vec::new();
    if w > 0 {
        parts.push(clause(w, "w", d % 7, "d", ceil_cents(d as i64, 7) as u64));
    }
    if d > 0 {
        parts.push(clause(d, "d", h % 24, "h", ceil_cents(h as i64, 24) as u64));
    }
    if h > 0 {
        parts.push(clause(h, "h", mu % 60, "m", ceil_cents(m, 60) as u64));
    }
    let mut last = dec_string(mu);
    last.append("m");
    parts.push(last);
    proof {
        assert(parts@.map_values(|p: String| p@) =~= spec_minute_parts(m as int));
    }
    let mut s = String::new();
    let mut i: usize = 0;
    let n = parts.len();
    let ghost views = parts@.map_values(|p: String| p@);
    proof {
        assert(views.subrange(0, 0) =~= Seq::<Seq<char>>::empty());
        assert(views.subrange(0, views.len() as int) =~= views);
    }
    while i < n
        invariant
            0 <= i <= n,
            n == parts@.len(),
            views == parts@.map_values(|p: String| p@),
            s@ == spec_join(views.subrange(0, i as int)),
        decreases n - i,
    {
        proof {
            assert(views.subrange(0, i as int + 1).drop_last() =~= views.subrange(0, i as int));
            assert(views.subrange(0, i as int + 1).last() == views[i as int]);
        }
        if i > 0 {
            s.append(" = ");
        }
        s.append(parts[i].as_str());
        i = i + 1;
    }
    s
}

/// The whole minutes an exact quotient stands for: zero (the placeholder)
/// when the quotient is non-finite, its truncation otherwise.
pub open spec fn spec_ratio_minutes(r: Ratio) -> int {
    if r.den == 0 {
        0
    } else {
        spec_div_trunc(r.num as int, r.den as int)
    }
}

/// Render an exact quotient of minutes: non-finite values and values that
/// truncate to zero both show the placeholder.
pub fn format_ratio(r: Ratio) -> (s: String)
    requires
        -MAX_RENDER_MINUTES <= r.num <= MAX_RENDER_MINUTES,
        r.num > i64::MIN,
        r.den > i64::MIN,
    ensures
        s@ == spec_format_minutes(spec_ratio_minutes(r)),
{
    if r.den == 0 {
        return format_minutes(0);
    }
    let m = div_trunc(r.num, r.den);
    proof {
        let a = r.num as int;
        let b = r.den as int;
        if a >= 0 && b > 0 {
            vstd::arithmetic::div_mod::lemma_div_is_ordered_by_denominator(a, 1, b);
        } else if a < 0 && b > 0 {
            vstd::arithmetic::div_mod::lemma_div_is_ordered_by_denominator(-a, 1, b);
        } else if a >= 0 {
            vstd::arithmetic::div_mod::lemma_div_is_ordered_by_denominator(a, 1, -b);
        } else {
            vstd::arithmetic::div_mod::lemma_div_is_ordered_by_denominator(-a, 1, -b);
        }
    }
    format_minutes(m)
}

/// Floor of the square root of a natural number, as a mathematical
/// definition.
pub open spec fn spec_isqrt(n: nat) -> nat
    decreases n,
{
    if n == 0 {
        0
    } else {
        let r = spec_isqrt((n - 1) as nat);
        if (r + 1) * (r + 1) <= n {
            r + 1
        } else {
            r
        }
    }
}

pub proof fn lemma_spec_isqrt(n: nat)
    ensures
        spec_isqrt(n) * spec_isqrt(n) <= n < (spec_isqrt(n) + 1) * (spec_isqrt(n) + 1),
    decreases n,
{
    if n > 0 {
        lemma_spec_isqrt((n - 1) as nat);
        let r = spec_isqrt((n - 1) as nat);
        if (r + 1) * (r + 1) <= n {
            assert(spec_isqrt(n) == r + 1);
            assert(n - 1 < (r + 1) * (r + 1));
            assert((r + 2) * (r + 2) > (r + 1) * (r + 1)) by (nonlinear_arith)
                requires
                    r >= 0,
            ;
            assert(n < (spec_isqrt(n) + 1) * (spec_isqrt(n) + 1));
        } else {
            assert(spec_isqrt(n) == r);
        }
    } else {
        assert(spec_isqrt(n) == 0);
        assert(n < (spec_isqrt(n) + 1) * (spec_isqrt(n) + 1)) by (nonlinear_arith)
            requires
                n == 0,
                spec_isqrt(n) == 0,
        ;
    }
}

proof fn lemma_root_unique(a: int, b: int, num: int, den: int)
    by (nonlinear_arith)
    requires
        den > 0,
        a >= 0,
        b >= 0,
        a * a * den <= num < (a + 1) * (a + 1) * den,
        b * b * den <= num < (b + 1) * (b + 1) * den,
    ensures
        a == b,
{
}

/// The whole minutes a root quotient stands for: the floor of
/// `sqrt(num / den)`, or zero (the placeholder) when non-finite.
pub open spec fn spec_root_minutes(r: RootRatio) -> int {
    if r.den <= 0 || r.num < 0 {
        0
    } else {
        spec_isqrt((r.num / r.den) as nat) as int
    }
}

/// Render a standard deviation held as `sqrt(num / den)`. The quotient may
/// be at most the square of the largest renderable minute count; the
/// aggregator's deviations always are (see the deviation bound lemma).
pub fn format_root(r: RootRatio) -> (s: String)
    requires
        r.den > 0 && r.num >= 0 ==> r.num / r.den
            <= 3_600_000_000_000_000_000_000_000_000_000_000,
    ensures
        s@ == spec_format_minutes(spec_root_minutes(r)),
{
    if r.den <= 0 || r.num < 0 {
        return format_minutes(0);
    }
    let v = root_floor(r.num, r.den);
    proof {
        let n = r.num as int;
        let d = r.den as int;
        let q = n / d;
        vstd::arithmetic::div_mod::lemma_div_pos_is_pos(n, d);
        lemma_spec_isqrt(q as nat);
        let isq = spec_isqrt(q as nat) as int;
        assert(isq * isq * d <= n && n < (isq + 1) * (isq + 1) * d) by (nonlinear_arith)
            requires
                d > 0,
                n >= 0,
                q == n / d,
                isq >= 0,
                isq * isq <= q < (isq + 1) * (isq + 1),
        {
            vstd::arithmetic::div_mod::lemma_fundamental_div_mod(n, d);
        }
        lemma_root_unique(v as int, isq, n, d);
        // the root of a renderable quotient is a renderable minute count
        vstd::arithmetic::div_mod::lemma_div_is_ordered((v as int) * (v as int) * d, n, d);
        vstd::arithmetic::div_mod::lemma_div_by_multiple((v as int) * (v as int), d);
        assert((v as int) * (v as int) <= q);
        assert(v <= MAX_RENDER_MINUTES) by (nonlinear_arith)
            requires
                v >= 0,
                (v as int) * (v as int) <= 3_600_000_000_000_000_000_000_000_000_000_000,
        ;
    }
    format_minutes(v as i64)
}

} // verus!
