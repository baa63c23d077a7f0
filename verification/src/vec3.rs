//! Three-component vectors over fixed-point scalars.

use crate::fixed::{
    div_i128, fdiv, fmul, fx_div, fx_mul, is_sqrt_floor, isqrt_u128, lemma_abs_mul,
    lemma_mul_bounds, lemma_sqf_is, sabs, sqf, tdiv, ONE, W_MAX,
};
use crate::rng::random_fraction;
use vstd::prelude::*;

verus! {

#[derive(Clone, Copy, Debug, PartialEq, Eq, Structural)]
pub struct Vec3 {
    pub x: i64,
    pub y: i64,
    pub z: i64,
}

/// One of the three coordinate axes.
#[derive(Clone, Copy, Debug, PartialEq, Eq, Structural)]
pub enum Axis {
    X,
    Y,
    Z,
}

/// A location in space.
pub type Point3 = Vec3;

/// A linear-space color; each channel counts 1/65536ths of full intensity.
pub type Color = Vec3;

pub open spec fn dot_s(a: Vec3, b: Vec3) -> int {
    tdiv(a.x * b.x + a.y * b.y + a.z * b.z, ONE as int)
}

pub open spec fn sq_sum_s(v: Vec3) -> int {
    v.x * v.x + v.y * v.y + v.z * v.z
}

/// The cross product, with each term rounded like the executable code.
pub open spec fn cross_s(a: Vec3, b: Vec3) -> Vec3 {
    Vec3 {
        x: (fmul(a.y as int, b.z as int) - fmul(a.z as int, b.y as int)) as i64,
        y: (fmul(a.z as int, b.x as int) - fmul(a.x as int, b.z as int)) as i64,
        z: (fmul(a.x as int, b.y as int) - fmul(a.y as int, b.x as int)) as i64,
    }
}

impl Vec3 {
    /// Every component has magnitude at most `m`.
    pub open spec fn bounded(self, m: int) -> bool {
        &&& sabs(self.x as int) <= m
        &&& sabs(self.y as int) <= m
        &&& sabs(self.z as int) <= m
    }

    /// The bound that scene geometry and rays are kept within.
    pub open spec fn in_world(self) -> bool {
        self.bounded(W_MAX as int)
    }

    pub fn new_with_values(e0: i64, e1: i64, e2: i64) -> (r: Vec3)
        ensures
            r.x == e0 && r.y == e1 && r.z == e2,
    {
        Vec3 { x: e0, y: e1, z: e2 }
    }

    pub fn new_single(e: i64) -> (r: Vec3)
        ensures
            r.x == e && r.y == e && r.z == e,
    {
        Vec3 { x: e, y: e, z: e }
    }

    pub fn zero() -> (r: Vec3)
        ensures
            r.x == 0 && r.y == 0 && r.z == 0,
    {
        Vec3 { x: 0, y: 0, z: 0 }
    }

    pub fn x(&self) -> (r: i64)
        ensures
            r == self.x,
    {
        self.x
    }

    pub fn y(&self) -> (r: i64)
        ensures
            r == self.y,
    {
        self.y
    }

    pub fn z(&self) -> (r: i64)
        ensures
            r == self.z,
    {
        self.z
    }

    pub fn axis(&self, i: usize) -> (r: i64)
        requires
            i < 3,
        ensures
            r == if i == 0 {
                self.x
            } else if i == 1 {
                self.y
            } else {
                self.z
            },
    {
        if i == 0 {
            self.x
        } else if i == 1 {
            self.y
        } else {
            self.z
        }
    }

    pub fn add(self, o: Vec3) -> (r: Vec3)
        requires
            self.bounded(0x3fff_ffff_ffff_ffff),
            o.bounded(0x3fff_ffff_ffff_ffff),
        ensures
            r.x == self.x + o.x && r.y == self.y + o.y && r.z == self.z + o.z,
    {
        Vec3 { x: self.x + o.x, y: self.y + o.y, z: self.z + o.z }
    }

    pub fn sub(self, o: Vec3) -> (r: Vec3)
        requires
            self.bounded(0x3fff_ffff_ffff_ffff),
            o.bounded(0x3fff_ffff_ffff_ffff),
        ensures
            r.x == self.x - o.x && r.y == self.y - o.y && r.z == self.z - o.z,
    {
        Vec3 { x: self.x - o.x, y: self.y - o.y, z: self.z - o.z }
    }

    pub fn neg(self) -> (r: Vec3)
        requires
            self.bounded(0x7fff_ffff_ffff_fffe),
        ensures
            r.x == -self.x && r.y == -self.y && r.z == -self.z,
    {
        Vec3 { x: -self.x, y: -self.y, z: -self.z }
    }

    /// Multiply every component by the fixed-point scalar `k`.
    pub fn scale(self, k: i64) -> (r: Vec3)
        requires
            sabs(self.x as int) * sabs(k as int) <= 0x7fff_ffff_ffff_ffff * 0x1_0000,
            sabs(self.y as int) * sabs(k as int) <= 0x7fff_ffff_ffff_ffff * 0x1_0000,
            sabs(self.z as int) * sabs(k as int) <= 0x7fff_ffff_ffff_ffff * 0x1_0000,
        ensures
            r.x as int == fmul(self.x as int, k as int),
            r.y as int == fmul(self.y as int, k as int),
            r.z as int == fmul(self.z as int, k as int),
    {
        Vec3 { x: fx_mul(self.x, k), y: fx_mul(self.y, k), z: fx_mul(self.z, k) }
    }

    /// Component-wise product, as used for color attenuation.
    pub fn comp_mul(self, o: Vec3) -> (r: Vec3)
        requires
            sabs(self.x as int) * sabs(o.x as int) <= 0x7fff_ffff_ffff_ffff * 0x1_0000,
            sabs(self.y as int) * sabs(o.y as int) <= 0x7fff_ffff_ffff_ffff * 0x1_0000,
            sabs(self.z as int) * sabs(o.z as int) <= 0x7fff_ffff_ffff_ffff * 0x1_0000,
        ensures
            r.x as int == fmul(self.x as int, o.x as int),
            r.y as int == fmul(self.y as int, o.y as int),
            r.z as int == fmul(self.z as int, o.z as int),
    {
        Vec3 { x: fx_mul(self.x, o.x), y: fx_mul(self.y, o.y), z: fx_mul(self.z, o.z) }
    }

    /// Divide every component by the fixed-point scalar `k`.
    pub fn div_s(self, k: i64) -> (r: Vec3)
        requires
            k != 0,
            self.bounded(0x3fff_ffff_ffff),
        ensures
            r.x as int == fdiv(self.x as int, k as int),
            r.y as int == fdiv(self.y as int, k as int),
            r.z as int == fdiv(self.z as int, k as int),
    {
        Vec3 { x: fx_div(self.x, k), y: fx_div(self.y, k), z: fx_div(self.z, k) }
    }

    /// The raw sum of squared components, at twice the fixed-point scale.
    pub fn sq_sum(&self) -> (r: i128)
        requires
            self.bounded(0x4000_0000_0000),
        ensures
            r as int == sq_sum_s(*self),
            r >= 0,
    {
        proof {
            lemma_mul_bounds(self.x as int, self.x as int, 0x4000_0000_0000, 0x4000_0000_0000);
            lemma_mul_bounds(self.y as int, self.y as int, 0x4000_0000_0000, 0x4000_0000_0000);
            lemma_mul_bounds(self.z as int, self.z as int, 0x4000_0000_0000, 0x4000_0000_0000);
            lemma_abs_mul(self.x as int, self.x as int);
            lemma_abs_mul(self.y as int, self.y as int);
            lemma_abs_mul(self.z as int, self.z as int);
        }
        (self.x as i128) * (self.x as i128) + (self.y as i128) * (self.y as i128) + (self.z
            as i128) * (self.z as i128)
    }

    pub fn length_squared(&self) -> (r: i64)
        requires
            self.bounded(0x4000_0000),
        ensures
            r as int == tdiv(sq_sum_s(*self), ONE as int),
            r >= 0,
    {
        proof {
            lemma_mul_bounds(self.x as int, self.x as int, 0x4000_0000, 0x4000_0000);
            lemma_mul_bounds(self.y as int, self.y as int, 0x4000_0000, 0x4000_0000);
            lemma_mul_bounds(self.z as int, self.z as int, 0x4000_0000, 0x4000_0000);
        }
        let s: i128 = self.sq_sum();
        let q: i128 = div_i128(s, 65536);
        proof {
            assert(sabs(s as int) / 65536 >= 0) by (nonlinear_arith)
                requires
                    sabs(s as int) >= 0,
            ;
        }
        q as i64
    }

    /// The fixed-point length: the integer square root of the raw square sum.
    pub fn length(&self) -> (r: i64)
        requires
            self.bounded(0x4000_0000),
        ensures
            is_sqrt_floor(sq_sum_s(*self), r as int),
            r as int == sqf(sq_sum_s(*self)),
            r >= 0,
    {
        proof {
            lemma_mul_bounds(self.x as int, self.x as int, 0x4000_0000, 0x4000_0000);
            lemma_mul_bounds(self.y as int, self.y as int, 0x4000_0000, 0x4000_0000);
            lemma_mul_bounds(self.z as int, self.z as int, 0x4000_0000, 0x4000_0000);
            lemma_abs_mul(self.x as int, self.x as int);
            lemma_abs_mul(self.y as int, self.y as int);
            lemma_abs_mul(self.z as int, self.z as int);
        }
        let s: i128 = self.sq_sum();
        let r: u128 = isqrt_u128(s as u128);
        proof {
            lemma_sqf_is(s as int, r as int);
            assert(r as int <= 0x7fff_ffff_ffff_ffff) by {
                if r as int > 0x7fff_ffff_ffff_ffff {
                    assert((r as int) * (r as int) > (s as u128) as int) by (nonlinear_arith)
                        requires
                            r as int > 0x7fff_ffff_ffff_ffff,
                            (s as u128) as int <= 3 * 0x4000_0000 * 0x4000_0000,
                    ;
                }
            }
        }
        r as i64
    }

    pub fn dot(&self, other: &Vec3) -> (r: i64)
        requires
            self.bounded(0x4000_0000),
            other.bounded(0x4000_0000),
        ensures
            r as int == dot_s(*self, *other),
    {
        proof {
            lemma_mul_bounds(self.x as int, other.x as int, 0x4000_0000, 0x4000_0000);
            lemma_mul_bounds(self.y as int, other.y as int, 0x4000_0000, 0x4000_0000);
            lemma_mul_bounds(self.z as int, other.z as int, 0x4000_0000, 0x4000_0000);
        }
        let s: i128 = (self.x as i128) * (other.x as i128) + (self.y as i128) * (other.y as i128)
            + (self.z as i128) * (other.z as i128);
        let q: i128 = div_i128(s, 65536);
        q as i64
    }

    pub fn cross(&self, other: &Vec3) -> (r: Vec3)
        requires
            self.bounded(0x4000_0000),
            other.bounded(0x4000_0000),
        ensures
            r.x as int == fmul(self.y as int, other.z as int) - fmul(self.z as int, other.y as int),
            r.y as int == fmul(self.z as int, other.x as int) - fmul(self.x as int, other.z as int),
            r.z as int == fmul(self.x as int, other.y as int) - fmul(self.y as int, other.x as int),
            r == cross_s(*self, *other),
    {
        proof {
            lemma_mul_bounds(self.y as int, other.z as int, 0x4000_0000, 0x4000_0000);
            lemma_mul_bounds(self.z as int, other.y as int, 0x4000_0000, 0x4000_0000);
            lemma_mul_bounds(self.z as int, other.x as int, 0x4000_0000, 0x4000_0000);
            lemma_mul_bounds(self.x as int, other.z as int, 0x4000_0000, 0x4000_0000);
            lemma_mul_bounds(self.x as int, other.y as int, 0x4000_0000, 0x4000_0000);
            lemma_mul_bounds(self.y as int, other.x as int, 0x4000_0000, 0x4000_0000);
        }
        Vec3 {
            x: fx_mul(self.y, other.z) - fx_mul(self.z, other.y),
            y: fx_mul(self.z, other.x) - fx_mul(self.x, other.z),
            z: fx_mul(self.x, other.y) - fx_mul(self.y, other.x),
        }
    }

    /// Scale to unit length; each component is divided by the fixed-point length.
    pub fn unit_vector(&self) -> (r: Vec3)
        requires
            self.bounded(0x4000_0000),
            sq_sum_s(*self) > 0,
        ensures
            ({
                let l = sqf(sq_sum_s(*self));
                &&& r.x as int == fdiv(self.x as int, l)
                &&& r.y as int == fdiv(self.y as int, l)
                &&& r.z as int == fdiv(self.z as int, l)
            }),
            r == unit_s(*self),
            r.bounded(ONE as int),
    {
        let l: i64 = self.length();
        proof {
            lemma_abs_mul(self.x as int, self.x as int);
            lemma_abs_mul(self.y as int, self.y as int);
            lemma_abs_mul(self.z as int, self.z as int);
            assert(is_sqrt_floor(sq_sum_s(*self), l as int));
            assert(l >= 1) by {
                if l as int == 0 {
                    assert(sq_sum_s(*self) < (0 + 1) * (0 + 1)) by (nonlinear_arith)
                        requires
                            is_sqrt_floor(sq_sum_s(*self), 0) && 0 * 0 <= sq_sum_s(*self)
                                && sq_sum_s(*self) < (0 + 1) * (0 + 1),
                    ;
                }
            }
            lemma_unit_bound(self.x as int, l as int, sq_sum_s(*self));
            lemma_unit_bound(self.y as int, l as int, sq_sum_s(*self));
            lemma_unit_bound(self.z as int, l as int, sq_sum_s(*self));
        }
        Vec3 { x: fx_div(self.x, l), y: fx_div(self.y, l), z: fx_div(self.z, l) }
    }

    /// True exactly when the vector is indistinguishable from zero at this scale.
    pub fn near_zero(&self) -> (r: bool)
        ensures
            r == (self.x == 0 && self.y == 0 && self.z == 0),
    {
        self.x == 0 && self.y == 0 && self.z == 0
    }

    /// A vector with every component drawn uniformly from `[0, 1)`.
    pub fn random() -> (r: Vec3)
        ensures
            r.bounded(ONE as int),
            0 <= r.x < ONE && 0 <= r.y < ONE && 0 <= r.z < ONE,
    {
        Vec3 { x: random_fraction(), y: random_fraction(), z: random_fraction() }
    }

    /// A vector with every component drawn from `[min, max]`.
    pub fn random_range(min: i64, max: i64) -> (r: Vec3)
        requires
            min <= max,
            sabs(min as int) <= 0x4000_0000_0000,
            sabs(max as int) <= 0x4000_0000_0000,
        ensures
            min <= r.x <= max && min <= r.y <= max && min <= r.z <= max,
    {
        let a = Self::random_component(min, max);
        let b = Self::random_component(min, max);
        let c = Self::random_component(min, max);
        Vec3 { x: a, y: b, z: c }
    }

    fn random_component(min: i64, max: i64) -> (r: i64)
        requires
            min <= max,
            sabs(min as int) <= 0x4000_0000_0000,
            sabs(max as int) <= 0x4000_0000_0000,
        ensures
            min <= r <= max,
    {
        let f: i64 = random_fraction();
        let span: i64 = max - min;
        proof {
            lemma_mul_bounds(span as int, f as int, 0x8000_0000_0000, 0x1_0000);
            lemma_abs_mul(span as int, f as int);
            assert(span as int * f as int <= span as int * 0x1_0000) by (nonlinear_arith)
                requires
                    0 <= span as int && 0 <= f as int <= 0x1_0000,
            ;
            crate::fixed::lemma_div_monotone(span as int * f as int, span as int * 0x1_0000, 0x1_0000);
            assert((span as int * 0x1_0000) / 0x1_0000 == span as int) by (nonlinear_arith);
        }
        let d: i64 = fx_mul(span, f);
        min + d
    }

    /// A uniformly random point strictly inside the unit sphere.
    pub fn random_in_unit_sphere() -> (r: Vec3)
        ensures
            tdiv(sq_sum_s(r), ONE as int) < ONE as int,
            r.bounded(ONE as int),
    {
        let mut tries: usize = 0;
        while tries < 64
            invariant
                true,
            decreases 64 - tries,
        {
            let p = Self::random_range(-65536, 65536);
            if p.length_squared() < 65536 {
                return p;
            }
            tries = tries + 1;
        }
        Vec3 { x: 0, y: 0, z: 0 }
    }

    /// A random vector of unit length.
    pub fn random_unit_vector() -> (r: Vec3)
        ensures
            r.bounded(ONE as int),
    {
        let mut tries: usize = 0;
        while tries < 64
            invariant
                true,
            decreases 64 - tries,
        {
            let p = Self::random_range(-65536, 65536);
            let lsq = p.length_squared();
            if 0 < lsq && lsq < 65536 {
                return p.unit_vector();
            }
            tries = tries + 1;
        }
        Vec3 { x: 65536, y: 0, z: 0 }
    }

    /// A uniformly random point strictly inside the unit disk in the xy-plane.
    pub fn random_in_unit_disk() -> (r: Vec3)
        ensures
            tdiv(sq_sum_s(r), ONE as int) < ONE as int,
            r.bounded(ONE as int),
            r.z == 0,
    {
        let mut tries: usize = 0;
        while tries < 64
            invariant
                true,
            decreases 64 - tries,
        {
            let a = Self::random_component(-65536, 65536);
            let b = Self::random_component(-65536, 65536);
            let p = Vec3 { x: a, y: b, z: 0 };
            if p.length_squared() < 65536 {
                return p;
            }
            tries = tries + 1;
        }
        Vec3 { x: 0, y: 0, z: 0 }
    }

    /// Reflect about the unit normal `n`.
    pub fn reflect(&self, n: &Vec3) -> (r: Vec3)
        requires
            self.bounded(16 * ONE as int),
            n.bounded(16 * ONE as int),
        ensures
            ({
                let d = dot_s(*self, *n);
                &&& r.x as int == self.x - fmul(2 * d, n.x as int)
                &&& r.y as int == self.y - fmul(2 * d, n.y as int)
                &&& r.z as int == self.z - fmul(2 * d, n.z as int)
            }),
            r == reflect_s(*self, *n),
            r.bounded(0x40_0000_0000_0000),
            self.bounded(ONE as int) && n.bounded(ONE as int) ==> r.bounded(8 * ONE as int),
    {
        let d: i64 = self.dot(n);
        proof {
            lemma_dot_bound(*self, *n, 16 * ONE as int);
            if self.bounded(ONE as int) && n.bounded(ONE as int) {
                lemma_dot_bound(*self, *n, ONE as int);
                lemma_mul_bounds(2 * d as int, n.x as int, 6int * 65536int, 65536);
                lemma_mul_bounds(2 * d as int, n.y as int, 6int * 65536int, 65536);
                lemma_mul_bounds(2 * d as int, n.z as int, 6int * 65536int, 65536);
                crate::fixed::lemma_tdiv_le(2 * d as int * n.x as int, 0x1_0000, 6int * 65536int * 65536int);
                crate::fixed::lemma_tdiv_le(2 * d as int * n.y as int, 0x1_0000, 6int * 65536int * 65536int);
                crate::fixed::lemma_tdiv_le(2 * d as int * n.z as int, 0x1_0000, 6int * 65536int * 65536int);
            }
            lemma_mul_bounds(2 * d as int, n.x as int, 0x2_0000_0000_0000, 0x10_0000);
            lemma_mul_bounds(2 * d as int, n.y as int, 0x2_0000_0000_0000, 0x10_0000);
            lemma_mul_bounds(2 * d as int, n.z as int, 0x2_0000_0000_0000, 0x10_0000);
            crate::fixed::lemma_tdiv_le(2 * d as int * n.x as int, 0x1_0000, 0x2_0000_0000_0000int * 0x10_0000int);
            crate::fixed::lemma_tdiv_le(2 * d as int * n.y as int, 0x1_0000, 0x2_0000_0000_0000int * 0x10_0000int);
            crate::fixed::lemma_tdiv_le(2 * d as int * n.z as int, 0x1_0000, 0x2_0000_0000_0000int * 0x10_0000int);
        }
        Vec3 {
            x: self.x - fx_mul(2 * d, n.x),
            y: self.y - fx_mul(2 * d, n.y),
            z: self.z - fx_mul(2 * d, n.z),
        }
    }
}

pub open spec fn neg_s(v: Vec3) -> Vec3 {
    Vec3 { x: (-v.x) as i64, y: (-v.y) as i64, z: (-v.z) as i64 }
}

/// The reflection of `v` about the normal `n`.
pub open spec fn reflect_s(v: Vec3, n: Vec3) -> Vec3 {
    let d = dot_s(v, n);
    Vec3 {
        x: (v.x - fmul(2 * d, n.x as int)) as i64,
        y: (v.y - fmul(2 * d, n.y as int)) as i64,
        z: (v.z - fmul(2 * d, n.z as int)) as i64,
    }
}

/// The unit-length rescaling of `v`.
pub open spec fn unit_s(v: Vec3) -> Vec3 {
    let l = sqf(sq_sum_s(v));
    Vec3 { x: fdiv(v.x as int, l) as i64, y: fdiv(v.y as int, l) as i64, z: fdiv(v.z as int, l) as i64 }
}

/// The refraction of `uv` at a surface with unit normal `n` and index ratio
/// `eta`, following Snell's law with the perpendicular/parallel split.
pub open spec fn refract_s(uv: Vec3, n: Vec3, eta: int) -> Vec3 {
    let c0 = dot_s(neg_s(uv), n);
    let cos = if c0 <= 65536 {
        c0
    } else {
        65536int
    };
    let px = fmul(eta, uv.x + fmul(cos, n.x as int));
    let py = fmul(eta, uv.y + fmul(cos, n.y as int));
    let pz = fmul(eta, uv.z + fmul(cos, n.z as int));
    let len2 = tdiv(px * px + py * py + pz * pz, 65536);
    let par = sqf(sabs(65536 - len2) * 65536);
    Vec3 {
        x: (px - fmul(par, n.x as int)) as i64,
        y: (py - fmul(par, n.y as int)) as i64,
        z: (pz - fmul(par, n.z as int)) as i64,
    }
}

impl Vec3 {
    /// Refract about the unit normal `n` with refraction ratio `eta`.
    pub fn refract(&self, n: &Vec3, eta: i64) -> (r: Vec3)
        requires
            self.bounded(2 * ONE as int),
            n.bounded(2 * ONE as int),
            0 < eta <= 16 * ONE,
        ensures
            r == refract_s(*self, *n, eta as int),
            r.bounded(0x1_0000_0000),
    {
        let nu = self.neg();
        let c0: i64 = nu.dot(n);
        proof {
            lemma_dot_bound(nu, *n, 2 * ONE as int);
        }
        let cos: i64 = crate::fixed::min_i(c0, 65536);
        proof {
            lemma_mul_bounds(cos as int, n.x as int, 786432, 131072);
            lemma_mul_bounds(cos as int, n.y as int, 786432, 131072);
            lemma_mul_bounds(cos as int, n.z as int, 786432, 131072);
            crate::fixed::lemma_tdiv_le(cos as int * n.x as int, 0x1_0000, 786432int * 131072int);
            crate::fixed::lemma_tdiv_le(cos as int * n.y as int, 0x1_0000, 786432int * 131072int);
            crate::fixed::lemma_tdiv_le(cos as int * n.z as int, 0x1_0000, 786432int * 131072int);
        }
        let ix: i64 = self.x + fx_mul(cos, n.x);
        let iy: i64 = self.y + fx_mul(cos, n.y);
        let iz: i64 = self.z + fx_mul(cos, n.z);
        proof {
            lemma_mul_bounds(eta as int, ix as int, 0x10_0000, 0x20_0000);
            lemma_mul_bounds(eta as int, iy as int, 0x10_0000, 0x20_0000);
            lemma_mul_bounds(eta as int, iz as int, 0x10_0000, 0x20_0000);
            crate::fixed::lemma_tdiv_le(eta as int * ix as int, 0x1_0000, 0x10_0000int * 0x20_0000int);
            crate::fixed::lemma_tdiv_le(eta as int * iy as int, 0x1_0000, 0x10_0000int * 0x20_0000int);
            crate::fixed::lemma_tdiv_le(eta as int * iz as int, 0x1_0000, 0x10_0000int * 0x20_0000int);
        }
        let perp = Vec3 { x: fx_mul(eta, ix), y: fx_mul(eta, iy), z: fx_mul(eta, iz) };
        let len2: i64 = perp.length_squared();
        proof {
            lemma_mul_bounds(perp.x as int, perp.x as int, 0x2000_0000, 0x2000_0000);
            lemma_mul_bounds(perp.y as int, perp.y as int, 0x2000_0000, 0x2000_0000);
            lemma_mul_bounds(perp.z as int, perp.z as int, 0x2000_0000, 0x2000_0000);
            crate::fixed::lemma_tdiv_le(
                sq_sum_s(perp),
                0x1_0000,
                3int * 0x2000_0000int * 0x2000_0000int,
            );
        }
        let k: i64 = crate::fixed::abs_i(65536 - len2);
        let par: i64 = crate::fixed::fx_sqrt(k);
        proof {
            assert(par as int * par as int <= k as int * 65536);
            assert(par as int <= 0x4000_0000) by {
                if par as int > 0x4000_0000 {
                    assert(par as int * par as int > 0x4000_0000int * 0x4000_0000int)
                        by (nonlinear_arith)
                        requires
                            par as int > 0x4000_0000,
                    ;
                }
            }
            lemma_mul_bounds(par as int, n.x as int, 0x4000_0000, 131072);
            lemma_mul_bounds(par as int, n.y as int, 0x4000_0000, 131072);
            lemma_mul_bounds(par as int, n.z as int, 0x4000_0000, 131072);
            crate::fixed::lemma_tdiv_le(par as int * n.x as int, 0x1_0000, 0x4000_0000int * 131072int);
            crate::fixed::lemma_tdiv_le(par as int * n.y as int, 0x1_0000, 0x4000_0000int * 131072int);
            crate::fixed::lemma_tdiv_le(par as int * n.z as int, 0x1_0000, 0x4000_0000int * 131072int);
        }
        Vec3 {
            x: perp.x - fx_mul(par, n.x),
            y: perp.y - fx_mul(par, n.y),
            z: perp.z - fx_mul(par, n.z),
        }
    }
}

impl Default for Vec3 {
    /// The zero vector.
    fn default() -> (r: Vec3)
        ensures
            r.x == 0 && r.y == 0 && r.z == 0,
    {
        Vec3 { x: 0, y: 0, z: 0 }
    }
}

/// A vector with any nonzero component has positive squared length.
pub proof fn lemma_nonzero_sq_sum(v: Vec3)
    requires
        v.x != 0 || v.y != 0 || v.z != 0,
    ensures
        sq_sum_s(v) > 0,
{
    lemma_abs_mul(v.x as int, v.x as int);
    lemma_abs_mul(v.y as int, v.y as int);
    lemma_abs_mul(v.z as int, v.z as int);
    if v.x != 0 {
        assert(sabs(v.x as int) * sabs(v.x as int) > 0) by (nonlinear_arith)
            requires
                sabs(v.x as int) >= 1,
        ;
    } else if v.y != 0 {
        assert(sabs(v.y as int) * sabs(v.y as int) > 0) by (nonlinear_arith)
            requires
                sabs(v.y as int) >= 1,
        ;
    } else {
        assert(sabs(v.z as int) * sabs(v.z as int) > 0) by (nonlinear_arith)
            requires
                sabs(v.z as int) >= 1,
        ;
    }
}

/// The dot product of vectors bounded by `m` is bounded by three squares of `m`.
pub proof fn lemma_dot_bound(a: Vec3, b: Vec3, m: int)
    requires
        a.bounded(m),
        b.bounded(m),
        0 <= m,
    ensures
        sabs(dot_s(a, b)) <= 3 * (m * m),
        sabs(dot_s(a, b)) <= 3 * (m * m) / 65536,
{
    lemma_mul_bounds(a.x as int, b.x as int, m, m);
    lemma_mul_bounds(a.y as int, b.y as int, m, m);
    lemma_mul_bounds(a.z as int, b.z as int, m, m);
    crate::fixed::lemma_tdiv_bound(
        a.x as int * b.x as int + a.y as int * b.y as int + a.z as int * b.z as int,
        ONE as int,
    );
    crate::fixed::lemma_tdiv_le(
        a.x as int * b.x as int + a.y as int * b.y as int + a.z as int * b.z as int,
        ONE as int,
        3 * (m * m),
    );
}

/// When the squared length bounds a component, division by the length cannot
/// produce more than one unit.
proof fn lemma_unit_bound(x: int, l: int, n: int)
    requires
        l >= 1,
        is_sqrt_floor(n, l),
        x * x <= n,
    ensures
        sabs(fdiv(x, l)) <= ONE as int,
        sabs(x) <= l,
{
    lemma_abs_mul(x, x);
    assert(sabs(x) <= l) by {
        if sabs(x) > l {
            assert(x * x >= (l + 1) * (l + 1)) by (nonlinear_arith)
                requires
                    sabs(x) >= l + 1 && l >= 0 && x * x == sabs(x) * sabs(x),
            ;
        }
    }
    assert(sabs(x) * 0x1_0000 <= l * 0x1_0000) by (nonlinear_arith)
        requires
            sabs(x) <= l,
    ;
    assert((l * 0x1_0000) / l == 0x1_0000) by (nonlinear_arith)
        requires
            l >= 1,
    ;
    crate::fixed::lemma_div_monotone(sabs(x) * 0x1_0000, l * 0x1_0000, l);
    lemma_abs_mul(x, 0x1_0000);
}

} // verus!
