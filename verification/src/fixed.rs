//! Fixed-point scalar arithmetic.
//!
//! Every scalar quantity of the renderer (coordinates, directions, colors,
//! ray parameters) is an `i64` holding the underlying real value times
//! `SCALE`.  All operations round toward negative infinity, and every
//! executable function states its result exactly over the mathematical
//! integers.

use vstd::prelude::*;
use vstd::arithmetic::div_mod::lemma_fundamental_div_mod;
use vstd::arithmetic::div_mod::lemma_fundamental_div_mod_converse;

verus! {

/// Number of raw units per 1.0 of real value.
pub const SCALE: i64 = 65536;

/// The scaled product of two scalars: `(a * b) / SCALE`, rounded down.
pub open spec fn fx_mul_spec(a: int, b: int) -> int {
    (a * b) / (SCALE as int)
}

/// The scaled quotient of two scalars: `(a * SCALE) / b`, rounded down
/// for a positive divisor and mirrored for a negative one.
pub open spec fn fx_div_spec(a: int, b: int) -> int {
    if b > 0 {
        (a * SCALE as int) / b
    } else {
        -((a * SCALE as int) / (-b))
    }
}

/// Scaling a raw product back down by `SCALE`, rounded toward zero:
/// unlike the floor, this rounding commutes with negation, so
/// identities such as the cross product's anti-commutativity hold
/// exactly.
pub open spec fn scale_down_spec(n: int) -> int {
    if n >= 0 {
        n / (SCALE as int)
    } else {
        -((-n) / (SCALE as int))
    }
}

/// Negating the argument of the symmetric scaling negates the result.
pub proof fn lemma_scale_down_odd(n: int)
    ensures
        scale_down_spec(-n) == -scale_down_spec(n),
{
    if n == 0 {
        vstd::arithmetic::div_mod::lemma_div_of0(SCALE as int);
    }
}

/// The symmetric scaling of a value within `m` lies within `m / SCALE`.
pub proof fn lemma_scale_down_bound(n: int, m: int)
    requires
        -m <= n <= m,
        m >= 0,
    ensures
        -(m / SCALE as int) <= scale_down_spec(n) <= m / SCALE as int,
{
    let s = SCALE as int;
    if n >= 0 {
        vstd::arithmetic::div_mod::lemma_div_is_ordered(n, m, s);
        vstd::arithmetic::div_mod::lemma_div_pos_is_pos(n, s);
    } else {
        vstd::arithmetic::div_mod::lemma_div_is_ordered(-n, m, s);
        vstd::arithmetic::div_mod::lemma_div_pos_is_pos(-n, s);
    }
}

/// `r` is the integer square root of `n`.
pub open spec fn is_isqrt(n: int, r: int) -> bool {
    0 <= r && r * r <= n && n < (r + 1) * (r + 1)
}

/// The integer square root of `n` (meaningful for `n >= 0`).
pub open spec fn isqrt(n: int) -> int {
    choose|r: int| is_isqrt(n, r)
}

/// Any two integer square roots of the same value coincide.
pub proof fn lemma_isqrt_unique(n: int, r1: int, r2: int)
    requires
        is_isqrt(n, r1),
        is_isqrt(n, r2),
    ensures
        r1 == r2,
{
    if r1 < r2 {
        assert((r1 + 1) * (r1 + 1) <= r2 * r2) by (nonlinear_arith)
            requires 0 <= r1, 0 <= r2, r1 + 1 <= r2;
    }
    if r2 < r1 {
        assert((r2 + 1) * (r2 + 1) <= r1 * r1) by (nonlinear_arith)
            requires 0 <= r1, 0 <= r2, r2 + 1 <= r1;
    }
}

/// Every nonnegative integer has an integer square root.
pub proof fn lemma_isqrt_exists(n: int)
    requires
        n >= 0,
    ensures
        is_isqrt(n, isqrt(n)),
    decreases n,
{
    if n == 0 {
        assert(is_isqrt(0, 0));
    } else {
        lemma_isqrt_exists(n - 1);
        let r = isqrt(n - 1);
        if n < (r + 1) * (r + 1) {
            assert(is_isqrt(n, r));
        } else {
            assert(n == (r + 1) * (r + 1));
            assert((r + 1) * (r + 1) < (r + 2) * (r + 2)) by (nonlinear_arith)
                requires 0 <= r;
            assert(is_isqrt(n, r + 1));
        }
    }
}

/// A fixed-point quotient whose numerator lies within the positive
/// denominator lies within one whole unit.
pub proof fn lemma_fx_div_unit_bound(a: int, b: int)
    requires
        b > 0,
        -b <= a <= b,
    ensures
        -(SCALE as int) <= fx_div_spec(a, b) <= SCALE as int,
{
    let s = SCALE as int;
    assert(-(b * s) <= a * s <= b * s) by (nonlinear_arith)
        requires -b <= a <= b, s > 0, b > 0;
    vstd::arithmetic::div_mod::lemma_div_is_ordered(a * s, b * s, b);
    vstd::arithmetic::div_mod::lemma_div_is_ordered(-(b * s), a * s, b);
    vstd::arithmetic::div_mod::lemma_div_multiples_vanish(s, b);
    vstd::arithmetic::div_mod::lemma_div_multiples_vanish(-s, b);
    assert(b * s == s * b == -(b * -s));
}

/// Dividing by a scalar of at least one whole unit cannot grow the
/// magnitude by more than the floor's final unit.
pub proof fn lemma_fx_div_shrink(a: int, d: int)
    requires
        d >= SCALE as int,
    ensures
        ({
            let m = if a >= 0 { a } else { -a };
            -m - 1 <= fx_div_spec(a, d) <= m
        }),
{
    let s = SCALE as int;
    let m = if a >= 0 { a } else { -a };
    assert(-(m * s) <= a * s <= m * s) by (nonlinear_arith)
        requires s > 0, m == if a >= 0 { a } else { -a };
    vstd::arithmetic::div_mod::lemma_div_is_ordered(a * s, m * s, d);
    vstd::arithmetic::div_mod::lemma_div_is_ordered(-(m * s), a * s, d);
    vstd::arithmetic::div_mod::lemma_div_is_ordered_by_denominator(m * s, s, d);
    vstd::arithmetic::div_mod::lemma_div_multiples_vanish(m, s);
    assert(m * s == s * m);
    assert((m * s) / d <= m);
    vstd::arithmetic::div_mod::lemma_fundamental_div_mod(m * s, d);
    vstd::arithmetic::div_mod::lemma_fundamental_div_mod(-(m * s), d);
    assert((-(m * s)) / d >= -((m * s) / d) - 1) by (nonlinear_arith)
        requires
            m * s == d * ((m * s) / d) + (m * s) % d,
            0 <= (m * s) % d < d,
            (-(m * s)) == d * ((-(m * s)) / d) + (-(m * s)) % d,
            0 <= (-(m * s)) % d < d,
            d > 0,
    ;
}

/// Dividing by `w` whole units and scaling back by `w` lands within
/// `w` raw units below the original value.
pub proof fn lemma_div_scaled_product(a: int, w: int)
    requires
        w >= 1,
    ensures
        a - w < w * fx_div_spec(a, w * SCALE as int) <= a,
{
    let s = SCALE as int;
    let d = w * s;
    assert(d >= s) by (nonlinear_arith) requires d == w * s, w >= 1, s == 65536;
    let q = (a * s) / d;
    vstd::arithmetic::div_mod::lemma_fundamental_div_mod(a * s, d);
    assert(a - w < w * q <= a) by (nonlinear_arith)
        requires
            a * s == d * q + (a * s) % d,
            0 <= (a * s) % d < d,
            d == w * s,
            w >= 1,
            s == 65536,
    ;
}

/// Floor division of a bounded 128-bit value by a positive divisor.
pub fn floor_div_i128(n: i128, d: i128) -> (q: i128)
    requires
        0 < d <= 0x1_0000_0000_0000_0000,
        -0x4000_0000_0000_0000_0000_0000_0000_0000 <= n
            <= 0x4000_0000_0000_0000_0000_0000_0000_0000,
    ensures
        q == n as int / d as int,
{
    if n >= 0 {
        let nn: u128 = n as u128;
        let dd: u128 = d as u128;
        let qq: u128 = nn / dd;
        proof {
            assert(nn as int / dd as int <= nn as int) by (nonlinear_arith)
                requires dd as int >= 1, nn as int >= 0;
        }
        qq as i128
    } else {
        let m: u128 = (-n) as u128;
        let dd: u128 = d as u128;
        let qq: u128 = (m + dd - 1) / dd;
        proof {
            let mi = m as int;
            let di = dd as int;
            let qi = qq as int;
            lemma_fundamental_div_mod(mi + di - 1, di);
            let r1 = (mi + di - 1) % di;
            assert(mi + di - 1 == di * qi + r1);
            assert(qi <= mi) by (nonlinear_arith)
                requires di >= 1, mi >= 1, qi == (mi + di - 1) / di,
            {
                lemma_fundamental_div_mod(mi + di - 1, di);
            }
            assert(n as int == (-qi) * di + (di - 1 - r1)) by (nonlinear_arith)
                requires mi + di - 1 == di * qi + r1, n as int == -mi;
            lemma_fundamental_div_mod_converse(n as int, di, -qi, di - 1 - r1);
        }
        -(qq as i128)
    }
}

/// The scaled product of two fixed-point scalars.
pub fn fx_mul(a: i64, b: i64) -> (r: i64)
    requires
        i64::MIN <= fx_mul_spec(a as int, b as int) <= i64::MAX,
    ensures
        r == fx_mul_spec(a as int, b as int),
{
    proof {
        assert((a as int) * (b as int) <= 0x4000_0000_0000_0000_0000_0000_0000_0000
            && (a as int) * (b as int) >= -0x4000_0000_0000_0000_0000_0000_0000_0000)
            by (nonlinear_arith)
            requires
                -0x8000_0000_0000_0000 <= a as int <= 0x8000_0000_0000_0000,
                -0x8000_0000_0000_0000 <= b as int <= 0x8000_0000_0000_0000;
    }
    let p: i128 = (a as i128) * (b as i128);
    let q = floor_div_i128(p, 65536);
    q as i64
}

/// The scaled quotient of two fixed-point scalars.
pub fn fx_div(a: i64, b: i64) -> (r: i64)
    requires
        b != 0,
        i64::MIN <= fx_div_spec(a as int, b as int) <= i64::MAX,
    ensures
        r == fx_div_spec(a as int, b as int),
{
    let p: i128 = (a as i128) * 65536;
    if b > 0 {
        let q = floor_div_i128(p, b as i128);
        q as i64
    } else {
        let q = floor_div_i128(p, -(b as i128));
        (-q) as i64
    }
}

/// The integer square root of a 128-bit value, by bisection.
pub fn isqrt_u128(n: u128) -> (r: u64)
    ensures
        is_isqrt(n as int, r as int),
        r == isqrt(n as int),
{
    let mut lo: u128 = 0;
    let mut hi: u128 = 0x1_0000_0000_0000_0000;
    proof {
        assert((n as int) < (hi as int) * (hi as int)) by (nonlinear_arith)
            requires hi as int == 0x1_0000_0000_0000_0000, n as int <= u128::MAX;
    }
    while lo + 1 < hi
        invariant
            lo < hi <= 0x1_0000_0000_0000_0000,
            (lo as int) * (lo as int) <= n as int,
            (n as int) < (hi as int) * (hi as int),
        decreases hi - lo,
    {
        let mid: u128 = lo + (hi - lo) / 2;
        proof {
            assert(mid * mid <= u128::MAX) by (nonlinear_arith)
                requires mid <= 0xffff_ffff_ffff_ffff;
        }
        if mid * mid <= n {
            lo = mid;
        } else {
            hi = mid;
        }
    }
    proof {
        assert(is_isqrt(n as int, lo as int));
        lemma_isqrt_exists(n as int);
        lemma_isqrt_unique(n as int, lo as int, isqrt(n as int));
    }
    lo as u64
}

/// The square root of a nonnegative fixed-point scalar, in fixed point:
/// `isqrt(a * SCALE)`, since the root of a value scaled by `SCALE^2` is
/// the root of the value scaled by `SCALE`.
pub fn fx_sqrt(a: i64) -> (r: i64)
    requires
        a >= 0,
    ensures
        r == isqrt(a * SCALE as int),
        is_isqrt(a * SCALE as int, r as int),
{
    let n: u128 = (a as u128) * 65536;
    let r = isqrt_u128(n);
    proof {
        assert((r as int) * (r as int) <= n as int);
        assert(r as int <= 0x1_0000_0000_0000) by (nonlinear_arith)
            requires
                (r as int) * (r as int) <= 0x8000_0000_0000_0000 * 0x1_0000int,
                r as int >= 0;
    }
    r as i64
}

} // verus!
