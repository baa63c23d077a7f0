//! Fixed-point approximations of the transcendental functions the renderer
//! needs: sine and cosine (checker and noise textures, axis rotation), the
//! tangent of a half angle (camera field of view), a natural logarithm
//! (free-flight sampling in participating media) and the two inverse
//! functions used for sphere surface coordinates.
//!
//! Sine and cosine carry exact mirrors of their defining formula; the other
//! helpers promise the ranges their callers rely on.

use crate::fixed::{clamp, ediv, fdiv, fmul, fx_div, fx_mul, lemma_tdiv_le, max_i, sabs, tdiv};
use vstd::prelude::*;

verus! {

/// Fixed-point pi.
pub const PI: i64 = 205887;

/// Fixed-point pi/2.
pub const HALF_PI: i64 = 102943;

/// Fixed-point 2*pi, kept as exactly twice `PI` so angle folding is exact.
pub const TWO_PI: i64 = 411774;

/// Fixed-point ln 2.
pub const LN_TWO: i64 = 45426;

pub open spec fn clamp_unit(q: int) -> int {
    if q > 65536 {
        65536
    } else if q < -65536 {
        -65536
    } else {
        q
    }
}

/// One arch of the sine wave on `[0, pi]`, by Bhaskara's rational approximation.
pub open spec fn hump_s(a: int) -> int {
    let p = fmul(a, 205887 - a);
    let den = 5 * fmul(205887, 205887) - 4 * p;
    let denc = if den < 1 {
        1int
    } else {
        den
    };
    clamp_unit(fdiv(16 * p, denc))
}

pub open spec fn sin_s(x: int) -> int {
    let m = x % 411774;
    if m <= 205887 {
        hump_s(m)
    } else {
        -hump_s(m - 205887)
    }
}

pub open spec fn cos_s(x: int) -> int {
    sin_s(x + 102943)
}

fn hump(a: i64) -> (r: i64)
    requires
        0 <= a <= 205887,
    ensures
        r as int == hump_s(a as int),
        0 <= r <= 65536,
{
    proof {
        crate::fixed::lemma_mul_bounds(a as int, 205887 - a as int, 205887, 205887);
        lemma_tdiv_le(a as int * (205887 - a as int), 0x1_0000, 205887int * 205887int);
    }
    let p: i64 = fx_mul(a, 205887 - a);
    proof {
        assert(p >= 0) by {
            assert(a as int * (205887 - a as int) >= 0) by (nonlinear_arith)
                requires
                    0 <= a as int <= 205887,
            ;
        }
    }
    let den: i64 = 5 * fx_mul(205887, 205887) - 4 * p;
    let denc: i64 = if den < 1 {
        1
    } else {
        den
    };
    let q: i64 = fx_div(16 * p, denc);
    proof {
        assert(q >= 0);
    }
    clamp(q, -65536, 65536)
}

/// Sine of a fixed-point angle in radians.
pub fn sin_fx(x: i64) -> (r: i64)
    requires
        sabs(x as int) <= 0x3000_0000_0000_0000,
    ensures
        r as int == sin_s(x as int),
        -65536 <= r <= 65536,
{
    let m: i64 = crate::fixed::emod(x, 411774);
    if m <= 205887 {
        hump(m)
    } else {
        -hump(m - 205887)
    }
}

/// Cosine of a fixed-point angle in radians.
pub fn cos_fx(x: i64) -> (r: i64)
    requires
        sabs(x as int) <= 0x2000_0000_0000_0000,
    ensures
        r as int == cos_s(x as int),
        -65536 <= r <= 65536,
{
    sin_fx(x + 102943)
}

/// Degrees to radians, both fixed point.
pub fn degrees_to_radians(degrees: i64) -> (r: i64)
    requires
        sabs(degrees as int) <= 0x1000_0000_0000,
    ensures
        r as int == tdiv(fmul(degrees as int, 205887), 180),
{
    proof {
        crate::fixed::lemma_mul_bounds(degrees as int, 205887, 0x1000_0000_0000, 205887);
        lemma_tdiv_le(degrees as int * 205887, 0x1_0000, 0x1000_0000_0000int * 205887int);
    }
    let t: i64 = fx_mul(degrees, 205887);
    let q: i128 = crate::fixed::div_i128(t as i128, 180);
    q as i64
}

/// The mirror of `tan_half_deg`: sine over cosine of half the angle, the
/// sine floored at zero and the cosine kept one step above zero.
pub open spec fn tan_half_s(vfov: int) -> int {
    let rh = fmul(vfov, 205887) / 360;
    let sc = if sin_s(rh) >= 0 {
        sin_s(rh)
    } else {
        0int
    };
    let cc = if cos_s(rh) >= 1 {
        cos_s(rh)
    } else {
        1int
    };
    fdiv(sc, cc)
}

/// The tangent of half the given angle in degrees; the cosine in the
/// denominator is kept at least one step above zero.
pub fn tan_half_deg(vfov: i64) -> (r: i64)
    requires
        0 < vfov < 180 * 65536,
    ensures
        r as int == tan_half_s(vfov as int),
        r >= 0,
        r as int <= 0x4000_0000_0000_0000,
{
    proof {
        crate::fixed::lemma_mul_bounds(vfov as int, 205887, 180int * 65536int, 205887);
        lemma_tdiv_le(vfov as int * 205887, 0x1_0000, 180int * 65536int * 205887int);
        assert(vfov as int * 205887 >= 0) by (nonlinear_arith)
            requires
                vfov as int > 0,
        ;
    }
    let t: i64 = fx_mul(vfov, 205887);
    let rh: i64 = ediv(t, 360);
    proof {
        assert(0 <= t as int / 360 <= t as int) by (nonlinear_arith)
            requires
                t >= 0,
        ;
    }
    let s: i64 = sin_fx(rh);
    let c: i64 = cos_fx(rh);
    let cc: i64 = max_i(c, 1);
    let sc: i64 = max_i(s, 0);
    fx_div(sc, cc)
}

/// Doubling a fraction up into `[1/2, 1)`, counting the doublings; the
/// count is capped so the recursion is total.
pub open spec fn ln_norm_s(m: int, k: int) -> (int, int)
    decreases 65536 - m,
{
    if m < 1 || m >= 32768 {
        (m, k)
    } else if k >= 16 {
        (32768int, k)
    } else {
        ln_norm_s(2 * m, k + 1)
    }
}

/// The mirror of `ln_fx`: normalize into `[1/2, 1)`, expand the series of
/// `ln(1 - t)` to four terms, and subtract the counted factors of `ln 2`.
pub open spec fn ln_s(u: int) -> int {
    if u <= 0 {
        -1572864int
    } else if u >= 65536 {
        0int
    } else {
        let nk = ln_norm_s(u, 0);
        let t = 65536 - nk.0;
        let series = t + fmul(t, t) / 2 + fmul(fmul(t, t), t) / 3 + fmul(
            fmul(fmul(t, t), t),
            t,
        ) / 4;
        clamp_s(-(series + nk.1 * 45426), -1572864, 0)
    }
}

/// Natural logarithm of a fraction in `[0, 1]`, capped below; nonpositive by
/// construction.
pub fn ln_fx(u: i64) -> (r: i64)
    ensures
        r as int == ln_s(u as int),
        -1572864 <= r <= 0,
{
    if u <= 0 {
        return -1572864;
    }
    if u >= 65536 {
        return 0;
    }
    let mut m: i64 = u;
    let mut k: i64 = 0;
    while m < 32768
        invariant
            1 <= m <= 65535,
            0 <= k <= 16,
            ln_norm_s(u as int, 0) == ln_norm_s(m as int, k as int),
        decreases 65536 - m,
    {
        if k >= 16 {
            m = 32768;
        } else {
            m = 2 * m;
            k = k + 1;
        }
    }
    let t: i64 = 65536 - m;
    proof {
        crate::fixed::lemma_mul_bounds(t as int, t as int, 65536, 65536);
    }
    let t2: i64 = fx_mul(t, t);
    proof {
        lemma_fmul_small(t as int, t as int);
        crate::fixed::lemma_mul_bounds(t2 as int, t as int, 65536, 65536);
    }
    let t3: i64 = fx_mul(t2, t);
    proof {
        lemma_fmul_small(t2 as int, t as int);
        crate::fixed::lemma_mul_bounds(t3 as int, t as int, 65536, 65536);
    }
    let t4: i64 = fx_mul(t3, t);
    proof {
        lemma_fmul_small(t3 as int, t as int);
        assert(0 <= t2 as int / 2 <= t2 as int) by (nonlinear_arith)
            requires
                t2 >= 0,
        ;
        assert(0 <= t3 as int / 3 <= t3 as int) by (nonlinear_arith)
            requires
                t3 >= 0,
        ;
        assert(0 <= t4 as int / 4 <= t4 as int) by (nonlinear_arith)
            requires
                t4 >= 0,
        ;
    }
    let series: i64 = t + ediv(t2, 2) + ediv(t3, 3) + ediv(t4, 4);
    let total: i64 = series + k * 45426;
    let neg: i64 = -total;
    clamp(neg, -1572864, 0)
}

proof fn lemma_fmul_small(a: int, b: int)
    requires
        0 <= a <= 65536,
        0 <= b <= 65536,
    ensures
        0 <= fmul(a, b) <= 65536,
        fmul(a, b) <= a,
{
    crate::fixed::lemma_mul_bounds(a, b, a, 65536);
    assert(a * 65536 / 65536 == a) by (nonlinear_arith)
        requires
            a >= 0,
    ;
    crate::fixed::lemma_div_monotone(sabs(a * b), a * 65536, 65536);
    assert(a * b >= 0) by (nonlinear_arith)
        requires
            a >= 0 && b >= 0,
    ;
}

pub open spec fn clamp_s(v: int, lo: int, hi: int) -> int {
    if v < lo {
        lo
    } else if v > hi {
        hi
    } else {
        v
    }
}

pub open spec fn atan_unit_s(q: int) -> int {
    clamp_s(fmul(q, 51472) + fmul(fmul(q, 17892), 65536 - q), 0, 102943)
}

/// The spec mirror of `atan2_over_2pi`: the angle shifted by half a turn,
/// `(atan2(y, x) + pi) / (2 pi)`, so the positive x-axis maps to one half.
pub open spec fn atan2_frac_s(y: int, x: int) -> int {
    let ax = sabs(x);
    let ay = sabs(y);
    let base = if ax >= ay {
        atan_unit_s(clamp_s(fdiv(ay, if ax >= 1 { ax } else { 1int }), 0, 65536))
    } else {
        102943 - atan_unit_s(clamp_s(fdiv(ax, if ay >= 1 { ay } else { 1int }), 0, 65536))
    };
    let phi = if x >= 0 && y >= 0 {
        205887 + base
    } else if x < 0 && y >= 0 {
        411774 - base
    } else if x < 0 {
        base
    } else {
        205887 - base
    };
    clamp_s(fdiv(clamp_s(phi, 0, 411774), 411774), 0, 65536)
}

/// The spec mirror of `acos_over_pi`.
pub open spec fn acos_frac_s(w: int) -> int {
    let w2 = fmul(w, w);
    let w3 = fmul(w2, w);
    let w5 = fmul(w3, w2);
    let a3 = tdiv(w3, 6);
    let a5 = tdiv(3 * w5, 40);
    let ac = 102943 - (w + a3 + a5);
    clamp_s(fdiv(clamp_s(ac, 0, 205887), 205887), 0, 65536)
}

/// Arctangent on `[0, 1]`, by a quadratic correction to the linear term.
fn atan_unit(q: i64) -> (r: i64)
    requires
        0 <= q <= 65536,
    ensures
        r as int == atan_unit_s(q as int),
        0 <= r <= 102943,
{
    proof {
        crate::fixed::lemma_mul_bounds(q as int, 51472, 65536, 51472);
        crate::fixed::lemma_mul_bounds(q as int, 17892, 65536, 17892);
    }
    let lin: i64 = fx_mul(q, 51472);
    let c: i64 = fx_mul(q, 17892);
    proof {
        lemma_tdiv_le(q as int * 17892, 0x1_0000, 65536int * 17892int);
        crate::fixed::lemma_mul_bounds(c as int, 65536 - q as int, 17892, 65536);
    }
    let corr: i64 = fx_mul(c, 65536 - q);
    clamp(lin + corr, 0, 102943)
}

/// The half-turn-shifted azimuth `(atan2(y, x) + pi) / (2 pi)`, as the
/// sphere parametrization uses it: always in `[0, 1]`, with one half on the
/// positive x-axis.
pub fn atan2_over_2pi(y: i64, x: i64) -> (r: i64)
    requires
        sabs(y as int) <= 4 * 65536,
        sabs(x as int) <= 4 * 65536,
    ensures
        r as int == atan2_frac_s(y as int, x as int),
        0 <= r <= 65536,
{
    let ax: i64 = crate::fixed::abs_i(x);
    let ay: i64 = crate::fixed::abs_i(y);
    let base: i64 = if ax >= ay {
        let q: i64 = fx_div(ay, max_i(ax, 1));
        atan_unit(clamp(q, 0, 65536))
    } else {
        let q: i64 = fx_div(ax, max_i(ay, 1));
        102943 - atan_unit(clamp(q, 0, 65536))
    };
    let phi: i64 = if x >= 0 && y >= 0 {
        205887 + base
    } else if x < 0 && y >= 0 {
        411774 - base
    } else if x < 0 {
        base
    } else {
        205887 - base
    };
    let frac: i64 = fx_div(clamp(phi, 0, 411774), 411774);
    clamp(frac, 0, 65536)
}

/// The polar angle of a unit-scale coordinate, as a fraction of a half turn:
/// always in `[0, 1]`.
pub fn acos_over_pi(w: i64) -> (r: i64)
    requires
        sabs(w as int) <= 65536,
    ensures
        r as int == acos_frac_s(w as int),
        0 <= r <= 65536,
{
    proof {
        crate::fixed::lemma_mul_bounds(w as int, w as int, 65536, 65536);
        lemma_tdiv_le(w as int * w as int, 0x1_0000, 65536int * 65536int);
    }
    let w2: i64 = fx_mul(w, w);
    proof {
        crate::fixed::lemma_mul_bounds(w2 as int, w as int, 65536, 65536);
        lemma_tdiv_le(w2 as int * w as int, 0x1_0000, 65536int * 65536int);
    }
    let w3: i64 = fx_mul(w2, w);
    proof {
        crate::fixed::lemma_mul_bounds(w3 as int, w2 as int, 65536, 65536);
        lemma_tdiv_le(w3 as int * w2 as int, 0x1_0000, 65536int * 65536int);
    }
    let w5: i64 = fx_mul(w3, w2);
    let a3: i128 = crate::fixed::div_i128(w3 as i128, 6);
    let a5: i128 = crate::fixed::div_i128(3 * (w5 as i128), 40);
    let asin_apx: i64 = w + (a3 as i64) + (a5 as i64);
    let ac: i64 = 102943 - asin_apx;
    let frac: i64 = fx_div(clamp(ac, 0, 205887), 205887);
    clamp(frac, 0, 65536)
}

} // verus!
