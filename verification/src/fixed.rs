//! Fixed-point scalar arithmetic.
//!
//! Every scalar quantity in this crate (coordinates, colors, ray parameters,
//! angles) is an `i64` counting 1/65536ths of a unit.  Products and quotients
//! are rounded toward zero; the spec functions here pin that rounding exactly,
//! so every geometric computation in the crate has an exact integer meaning.

use vstd::prelude::*;

verus! {

/// Number of fractional steps per unit.
pub const ONE: i64 = 65536;

/// Bound on the coordinates of scene geometry and of ray origins/directions.
pub const W_MAX: i64 = 0x2000_0000;

/// Sentinel for an unbounded ray-parameter search.
pub const T_INF: i64 = 0x1000_0000_0000;

pub open spec fn sabs(x: int) -> int {
    if x >= 0 {
        x
    } else {
        -x
    }
}

/// Division truncated toward zero: the rounding used by every scalar helper.
pub open spec fn tdiv(n: int, d: int) -> int {
    if (n >= 0) == (d >= 0) {
        sabs(n) / sabs(d)
    } else {
        -(sabs(n) / sabs(d))
    }
}

/// Product of two fixed-point scalars.
pub open spec fn fmul(a: int, b: int) -> int {
    tdiv(a * b, ONE as int)
}

/// Quotient of two fixed-point scalars.
pub open spec fn fdiv(a: int, b: int) -> int {
    tdiv(a * (ONE as int), b)
}

pub proof fn lemma_abs_mul(a: int, b: int)
    ensures
        sabs(a * b) == sabs(a) * sabs(b),
        (a * b >= 0) == ((a >= 0) == (b >= 0) || a == 0 || b == 0),
{
    let pa = sabs(a);
    let pb = sabs(b);
    if a >= 0 && b >= 0 {
        assert(a * b >= 0 && a * b == pa * pb) by (nonlinear_arith)
            requires
                a >= 0 && b >= 0 && pa == a && pb == b,
        ;
        assert(a * b > 0 || a == 0 || b == 0) by (nonlinear_arith)
            requires
                a >= 0 && b >= 0,
        ;
    } else if a >= 0 && b < 0 {
        assert(a * b <= 0 && -(a * b) == pa * pb && (a != 0 ==> a * b < 0)) by (nonlinear_arith)
            requires
                a >= 0 && b < 0 && pa == a && pb == -b,
        ;
    } else if a < 0 && b >= 0 {
        assert(a * b <= 0 && -(a * b) == pa * pb && (b != 0 ==> a * b < 0)) by (nonlinear_arith)
            requires
                a < 0 && b >= 0 && pa == -a && pb == b,
        ;
    } else {
        assert(a * b > 0 && a * b == pa * pb) by (nonlinear_arith)
            requires
                a < 0 && b < 0 && pa == -a && pb == -b,
        ;
    }
}

/// A product of bounded factors is bounded by the product of the bounds.
pub proof fn lemma_mul_bounds(a: int, b: int, ma: int, mb: int)
    requires
        sabs(a) <= ma,
        sabs(b) <= mb,
    ensures
        sabs(a * b) <= ma * mb,
        sabs(a * b) == sabs(a) * sabs(b),
        (a * b >= 0) == ((a >= 0) == (b >= 0) || a == 0 || b == 0),
{
    lemma_abs_mul(a, b);
    assert(sabs(a) * sabs(b) <= ma * mb) by (nonlinear_arith)
        requires
            0 <= sabs(a) <= ma && 0 <= sabs(b) <= mb,
    ;
}

/// Euclidean division of nonnegative integers is monotone in the dividend.
pub proof fn lemma_div_monotone(a: int, b: int, d: int)
    requires
        0 <= a <= b,
        d > 0,
    ensures
        a / d <= b / d,
{
    assert(a / d <= b / d) by (nonlinear_arith)
        requires
            0 <= a <= b && d > 0,
    ;
}

/// A magnitude bound on the dividend divides through a positive divisor.
pub proof fn lemma_tdiv_le(n: int, d: int, m: int)
    requires
        d > 0,
        sabs(n) <= m,
    ensures
        sabs(tdiv(n, d)) <= m / d,
{
    lemma_div_monotone(sabs(n), m, d);
}

/// Truncating division by a positive divisor is monotone in the numerator.
pub proof fn lemma_tdiv_monotone(n1: int, n2: int, d: int)
    requires
        n1 <= n2,
        d > 0,
    ensures
        tdiv(n1, d) <= tdiv(n2, d),
{
    if n1 >= 0 {
        lemma_div_monotone(n1, n2, d);
    } else if n2 < 0 {
        lemma_div_monotone(-n2, -n1, d);
    } else {
        assert(sabs(n1) / d >= 0 && sabs(n2) / d >= 0) by (nonlinear_arith)
            requires
                sabs(n1) >= 0 && sabs(n2) >= 0 && d > 0,
        ;
    }
}

/// Truncating division cannot grow the magnitude when the divisor is at least one.
pub proof fn lemma_tdiv_bound(n: int, d: int)
    requires
        d != 0,
    ensures
        sabs(tdiv(n, d)) <= sabs(n),
{
    assert(sabs(n) / sabs(d) <= sabs(n)) by (nonlinear_arith)
        requires
            sabs(d) >= 1 && sabs(n) >= 0,
    ;
}

fn abs_mag(a: i128) -> (r: u128)
    requires
        a != i128::MIN,
    ensures
        r as int == sabs(a as int),
{
    if a < 0 {
        (-a) as u128
    } else {
        a as u128
    }
}

/// Truncating i128 division on explicit magnitudes.
pub fn div_i128(n: i128, d: i128) -> (r: i128)
    requires
        d != 0,
        n != i128::MIN,
        d != i128::MIN,
    ensures
        r as int == tdiv(n as int, d as int),
        sabs(r as int) <= sabs(n as int),
{
    let nn: u128 = abs_mag(n);
    let nd: u128 = abs_mag(d);
    let q: u128 = nn / nd;
    proof {
        assert(q <= nn) by (nonlinear_arith)
            requires
                nd >= 1 && q == nn as int / nd as int && nn >= 0,
        ;
    }
    if (n < 0) == (d < 0) {
        q as i128
    } else {
        -(q as i128)
    }
}

/// Fixed-point product, rounded toward zero.
pub fn fx_mul(a: i64, b: i64) -> (r: i64)
    requires
        sabs(a as int) * sabs(b as int) <= 0x7fff_ffff_ffff_ffff * 0x1_0000,
    ensures
        r as int == fmul(a as int, b as int),
{
    proof {
        lemma_abs_mul(a as int, b as int);
    }
    let neg: bool = (a < 0) != (b < 0);
    let na: u128 = if a < 0 {
        (-(a as i128)) as u128
    } else {
        a as u128
    };
    let nb: u128 = if b < 0 {
        (-(b as i128)) as u128
    } else {
        b as u128
    };
    proof {
        assert(na as int * nb as int <= 0x7fff_ffff_ffff_ffff * 0x1_0000) by (nonlinear_arith)
            requires
                na as int * nb as int == sabs(a as int) * sabs(b as int),
                sabs(a as int) * sabs(b as int) <= 0x7fff_ffff_ffff_ffff * 0x1_0000,
        ;
    }
    let q: u128 = (na * nb) / 65536;
    proof {
        lemma_div_monotone(
            na as int * nb as int,
            0x7fff_ffff_ffff_ffffint * 0x1_0000int,
            0x1_0000int,
        );
    }
    proof {
        let ab = (a as int) * (b as int);
        assert(na as int * nb as int == sabs(a as int) * sabs(b as int));
        assert(sabs(ab) == na as int * nb as int);
        assert(q as int == sabs(ab) / 65536);
        if neg {
            if a == 0 || b == 0 {
                assert(ab == 0) by (nonlinear_arith)
                    requires
                        ab == (a as int) * (b as int) && (a as int == 0 || b as int == 0),
                ;
                assert(q == 0);
            } else {
                assert(ab < 0);
            }
        } else {
            assert(ab >= 0);
        }
    }
    if neg {
        (-(q as i128)) as i64
    } else {
        q as i64
    }
}

/// Fixed-point quotient, rounded toward zero.
pub fn fx_div(a: i64, b: i64) -> (r: i64)
    requires
        b != 0,
        sabs(a as int) <= 0x3fff_ffff_ffff,
    ensures
        r as int == fdiv(a as int, b as int),
        sabs(r as int) <= 0x4000_0000_0000_0000,
{
    let n: i128 = (a as i128) * 65536;
    let q: i128 = div_i128(n, b as i128);
    proof {
        assert(sabs(q as int) <= sabs(a as int) * 65536) by {
            lemma_abs_mul(a as int, 65536);
        }
    }
    q as i64
}

pub open spec fn is_sqrt_floor(n: int, r: int) -> bool {
    &&& 0 <= r
    &&& r * r <= n
    &&& n < (r + 1) * (r + 1)
}

/// The integer square root, named through its defining property.
pub open spec fn sqf(n: int) -> int {
    choose|r: int| is_sqrt_floor(n, r)
}

pub proof fn lemma_sqrt_floor_unique(n: int, a: int, b: int)
    requires
        is_sqrt_floor(n, a),
        is_sqrt_floor(n, b),
    ensures
        a == b,
{
    if a < b {
        assert((a + 1) * (a + 1) <= b * b) by (nonlinear_arith)
            requires
                0 <= a && a < b,
        ;
    }
    if b < a {
        assert((b + 1) * (b + 1) <= a * a) by (nonlinear_arith)
            requires
                0 <= b && b < a,
        ;
    }
}

pub proof fn lemma_sqf_is(n: int, r: int)
    requires
        is_sqrt_floor(n, r),
    ensures
        sqf(n) == r,
{
    assert(is_sqrt_floor(n, sqf(n)));
    lemma_sqrt_floor_unique(n, sqf(n), r);
}

/// Integer square root by bisection.
pub fn isqrt_u128(n: u128) -> (r: u128)
    ensures
        is_sqrt_floor(n as int, r as int),
        r < 0x1_0000_0000_0000_0000,
{
    if n == 0 {
        return 0;
    }
    let mut lo: u128 = 0;
    let mut hi: u128 = 0x1_0000_0000_0000_0000;
    proof {
        assert((hi as int) * (hi as int) > u128::MAX as int) by (nonlinear_arith)
            requires
                hi == 0x1_0000_0000_0000_0000u128,
        ;
    }
    while lo + 1 < hi
        invariant
            lo < hi <= 0x1_0000_0000_0000_0000,
            (lo as int) * (lo as int) <= n as int,
            (n as int) < (hi as int) * (hi as int),
        decreases hi - lo,
    {
        let mid: u128 = lo + (hi - lo) / 2;
        proof {
            assert((mid as int) * (mid as int) < 0x1_0000_0000_0000_0000_0000_0000_0000_0000)
                by (nonlinear_arith)
                requires
                    mid < 0x1_0000_0000_0000_0000u128,
            ;
        }
        if mid * mid <= n {
            lo = mid;
        } else {
            hi = mid;
        }
    }
    lo
}

/// Fixed-point square root of a nonnegative scalar.
pub fn fx_sqrt(x: i64) -> (r: i64)
    requires
        x >= 0,
    ensures
        r >= 0,
        is_sqrt_floor(x as int * 65536, r as int),
        r as int == sqf(x as int * 65536),
{
    let n: u128 = (x as u128) * 65536;
    let s: u128 = isqrt_u128(n);
    proof {
        lemma_sqf_is(n as int, s as int);
        assert((s as int) * (s as int) <= n as int);
        assert(s < 0x1_0000_0000_0000_0000);
        assert(s as int <= 0x7fff_ffff_ffff_ffff) by {
            if s as int > 0x7fff_ffff_ffff_ffff {
                assert((s as int) * (s as int) > n as int) by (nonlinear_arith)
                    requires
                        s as int > 0x7fff_ffff_ffff_ffff && n as int <= 0x7fff_ffff_ffff_ffff * 0x1_0000,
                ;
            }
        }
    }
    s as i64
}

/// Euclidean division: the floor of `x / d` for a positive divisor.
pub fn ediv(x: i64, d: i64) -> (q: i64)
    requires
        d > 0,
        sabs(x as int) <= 0x4000_0000_0000_0000,
    ensures
        q as int == (x as int) / (d as int),
{
    if x >= 0 {
        let qq: u64 = (x as u64) / (d as u64);
        proof {
            assert(qq <= x as u64) by (nonlinear_arith)
                requires
                    qq as int == (x as u64) as int / (d as u64) as int && d as u64 >= 1 && (x
                        as u64) >= 0,
            ;
        }
        qq as i64
    } else {
        let m: u64 = (-x) as u64;
        let qq: u64 = m / (d as u64);
        let rr: u64 = m % (d as u64);
        proof {
            assert(qq <= m) by (nonlinear_arith)
                requires
                    qq as int == m as int / (d as u64) as int && d as u64 >= 1 && m >= 0,
            ;
            vstd::arithmetic::div_mod::lemma_fundamental_div_mod(m as int, d as int);
            assert(m as int == (d as int) * (qq as int) + rr as int);
            if rr == 0 {
                assert(x as int == (d as int) * (-(qq as int)) + 0) by (nonlinear_arith)
                    requires
                        m as int == (d as int) * (qq as int) && x as int == -(m as int),
                ;
                vstd::arithmetic::div_mod::lemma_fundamental_div_mod_converse(
                    x as int,
                    d as int,
                    -(qq as int),
                    0,
                );
            } else {
                assert(x as int == (d as int) * (-(qq as int) - 1) + (d as int - rr as int))
                    by (nonlinear_arith)
                    requires
                        m as int == (d as int) * (qq as int) + rr as int && x as int == -(m
                            as int),
                ;
                assert(0 <= (d as int - rr as int) && (d as int - rr as int) < d as int) by {
                    vstd::arithmetic::div_mod::lemma_mod_bound(m as int, d as int);
                }
                vstd::arithmetic::div_mod::lemma_fundamental_div_mod_converse(
                    x as int,
                    d as int,
                    -(qq as int) - 1,
                    d as int - rr as int,
                );
            }
        }
        if rr == 0 {
            -(qq as i64)
        } else {
            -(qq as i64) - 1
        }
    }
}

/// Euclidean remainder: always in `[0, d)` for a positive divisor.
pub fn emod(x: i64, d: i64) -> (r: i64)
    requires
        d > 0,
        sabs(x as int) <= 0x4000_0000_0000_0000,
        d <= 0x1000_0000_0000,
    ensures
        r as int == (x as int) % (d as int),
        0 <= r < d,
{
    let q: i64 = ediv(x, d);
    proof {
        vstd::arithmetic::div_mod::lemma_fundamental_div_mod(x as int, d as int);
        vstd::arithmetic::div_mod::lemma_mod_bound(x as int, d as int);
    }
    x - q * d
}

pub fn min_i(a: i64, b: i64) -> (r: i64)
    ensures
        r == if a <= b { a } else { b },
{
    if a <= b {
        a
    } else {
        b
    }
}

pub fn max_i(a: i64, b: i64) -> (r: i64)
    ensures
        r == if a >= b { a } else { b },
{
    if a >= b {
        a
    } else {
        b
    }
}

pub fn abs_i(a: i64) -> (r: i64)
    requires
        a != i64::MIN,
    ensures
        r as int == sabs(a as int),
{
    if a < 0 {
        -a
    } else {
        a
    }
}

/// Clamp a scalar into `[lo, hi]`.
pub fn clamp(value: i64, lo: i64, hi: i64) -> (r: i64)
    requires
        lo <= hi,
    ensures
        r == if value < lo {
            lo
        } else if value > hi {
            hi
        } else {
            value
        },
{
    if value < lo {
        lo
    } else if value > hi {
        hi
    } else {
        value
    }
}

} // verus!
