//! Gradient noise: a table of random unit-scale gradients and three
//! independent permutations of the lattice indices, combined by
//! Hermite-smoothed trilinear interpolation.

use crate::fixed::{abs_i, clamp, ediv, emod, fmul, fx_mul, sabs, ONE};
use crate::rng::random_index;
use crate::vec3::{Point3, Vec3};
use vstd::prelude::*;

verus! {

pub const POINT_COUNT: i32 = 256;

pub struct Perlin {
    pub rand_vec: Vec<Vec3>,
    pub perm_x: Vec<i32>,
    pub perm_y: Vec<i32>,
    pub perm_z: Vec<i32>,
}

/// A permutation table: 256 pairwise-distinct lattice indices.
pub open spec fn is_perm(v: Seq<i32>) -> bool {
    &&& v.len() == 256
    &&& forall|i: int| 0 <= i < 256 ==> 0 <= #[trigger] v[i] < 256
    &&& forall|i: int, j: int| 0 <= i < j < 256 ==> v[i] != v[j]
}


/// One corner's contribution to the noise sum: the gradient picked through
/// the three permutations, dotted with the offset to the sample point and
/// weighted by the smoothed trilinear factors.
pub open spec fn corner_term(pl: Perlin, p: Point3, di: int, dj: int, dk: int) -> int {
    let qx = (p.x as int) / 65536;
    let qy = (p.y as int) / 65536;
    let qz = (p.z as int) / 65536;
    let ux = (p.x as int) % 65536;
    let uy = (p.y as int) % 65536;
    let uz = (p.z as int) % 65536;
    let uu = hermite_s(ux);
    let vv = hermite_s(uy);
    let ww = hermite_s(uz);
    let ii = (qx + di) % 256;
    let jj = (qy + dj) % 256;
    let kk = (qz + dk) % 256;
    let gi = ((pl.perm_x@[ii] ^ pl.perm_y@[jj]) ^ pl.perm_z@[kk]) as int;
    let g = pl.rand_vec@[gi];
    let offset = Vec3 {
        x: (ux - di * 65536) as i64,
        y: (uy - dj * 65536) as i64,
        z: (uz - dk * 65536) as i64,
    };
    let wx = if di == 0 {
        65536 - uu
    } else {
        uu
    };
    let wy = if dj == 0 {
        65536 - vv
    } else {
        vv
    };
    let wz = if dk == 0 {
        65536 - ww
    } else {
        ww
    };
    fmul(fmul(fmul(wx, wy), wz), crate::vec3::dot_s(g, offset))
}

/// The first `n` corner contributions, corners numbered with `di` as the
/// highest bit.
pub open spec fn corner_prefix(pl: Perlin, p: Point3, n: int) -> int
    decreases n,
{
    if n <= 0 {
        0
    } else {
        corner_prefix(pl, p, n - 1) + corner_term(
            pl,
            p,
            (n - 1) / 4,
            ((n - 1) / 2) % 2,
            (n - 1) % 2,
        )
    }
}

/// The noise value: all eight corners.
pub open spec fn noise_s(pl: Perlin, p: Point3) -> int {
    corner_prefix(pl, p, 8)
}

/// The sample point for octave `i`: coordinates doubled `i` times.
pub open spec fn octave_point(p: Point3, i: int) -> Point3
    decreases i,
{
    if i <= 0 {
        p
    } else {
        let q = octave_point(p, i - 1);
        Point3 { x: (2 * q.x) as i64, y: (2 * q.y) as i64, z: (2 * q.z) as i64 }
    }
}

/// The weight for octave `i`: one unit halved `i` times.
pub open spec fn octave_weight(i: int) -> int
    decreases i,
{
    if i <= 0 {
        65536int
    } else {
        octave_weight(i - 1) / 2
    }
}

/// The signed sum of the first `n` octaves.
pub open spec fn turb_acc(pl: Perlin, p: Point3, n: int) -> int
    decreases n,
{
    if n <= 0 {
        0
    } else {
        turb_acc(pl, p, n - 1) + fmul(octave_weight(n - 1), noise_s(pl, octave_point(p, n - 1)))
    }
}

/// Turbulence: the magnitude of the octave sum.
pub open spec fn turb_s(pl: Perlin, p: Point3, depth: int) -> int {
    sabs(turb_acc(pl, p, depth))
}

impl Perlin {
    pub open spec fn wf(self) -> bool {
        &&& self.rand_vec@.len() == 256
        &&& forall|i: int| 0 <= i < 256 ==> (#[trigger] self.rand_vec@[i]).bounded(ONE as int)
        &&& is_perm(self.perm_x@)
        &&& is_perm(self.perm_y@)
        &&& is_perm(self.perm_z@)
    }

    /// Gradient noise at a point: exactly the eight-corner Hermite-weighted
    /// gradient sum, and bounded.
    #[verifier::loop_isolation(false)]
    #[verifier::rlimit(100)]
    pub fn noise(&self, point: &Point3) -> (r: i64)
        requires
            self.wf(),
            point.bounded(0x2000_0000_0000),
        ensures
            r as int == noise_s(*self, *point),
            sabs(r as int) <= 32 * ONE as int,
    {
        let qx: i64 = ediv(point.x, 65536);
        let ux: i64 = emod(point.x, 65536);
        let qy: i64 = ediv(point.y, 65536);
        let uy: i64 = emod(point.y, 65536);
        let qz: i64 = ediv(point.z, 65536);
        let uz: i64 = emod(point.z, 65536);

        let i0: usize = lattice_index(qx);
        let i1: usize = lattice_index(qx + 1);
        let j0: usize = lattice_index(qy);
        let j1: usize = lattice_index(qy + 1);
        let k0: usize = lattice_index(qz);
        let k1: usize = lattice_index(qz + 1);

        let uu: i64 = hermite(ux);
        let vv: i64 = hermite(uy);
        let ww: i64 = hermite(uz);

        let mut acc: i64 = 0;
        let mut c: usize = 0;
        while c < 8
            invariant
                0 <= c <= 8,
                acc as int == corner_prefix(*self, *point, c as int),
                sabs(acc as int) <= c * 196608,
            decreases 8 - c,
        {
            let di: usize = c / 4;
            let dj: usize = (c / 2) % 2;
            let dk: usize = c % 2;
            let ii: usize = if di == 0 {
                i0
            } else {
                i1
            };
            let jj: usize = if dj == 0 {
                j0
            } else {
                j1
            };
            let kk: usize = if dk == 0 {
                k0
            } else {
                k1
            };
            let index: usize = xor3(self.perm_x[ii], self.perm_y[jj], self.perm_z[kk]);
            let g: Vec3 = self.rand_vec[index];
            let fi: i64 = if di == 0 {
                0
            } else {
                65536
            };
            let fj: i64 = if dj == 0 {
                0
            } else {
                65536
            };
            let fk: i64 = if dk == 0 {
                0
            } else {
                65536
            };
            let offset = Vec3 { x: ux - fi, y: uy - fj, z: uz - fk };
            let d: i64 = g.dot(&offset);
            proof {
                crate::vec3::lemma_dot_bound(g, offset, ONE as int);
            }
            let wx: i64 = if di == 0 {
                65536 - uu
            } else {
                uu
            };
            let wy: i64 = if dj == 0 {
                65536 - vv
            } else {
                vv
            };
            let wz: i64 = if dk == 0 {
                65536 - ww
            } else {
                ww
            };
            proof {
                lemma_unit_prod(wx as int, wy as int);
            }
            let w1: i64 = fx_mul(wx, wy);
            proof {
                lemma_unit_prod(w1 as int, wz as int);
            }
            let w2: i64 = fx_mul(w1, wz);
            proof {
                crate::fixed::lemma_mul_bounds(w2 as int, d as int, 65536, 196608);
                crate::fixed::lemma_tdiv_le(
                    w2 as int * d as int,
                    0x1_0000,
                    65536int * 196608int,
                );
            }
            let term: i64 = fx_mul(w2, d);
            proof {
                assert(term as int == corner_term(*self, *point, di as int, dj as int, dk as int));
                assert(corner_prefix(*self, *point, c as int + 1) == corner_prefix(
                    *self,
                    *point,
                    c as int,
                ) + corner_term(*self, *point, c as int / 4, (c as int / 2) % 2, c as int % 2));
            }
            acc = acc + term;
            c = c + 1;
        }
        acc
    }

    /// Multi-octave turbulence: the magnitude of the halving-weight octave
    /// sum, hence never negative.
    #[verifier::loop_isolation(false)]
    pub fn turb(&self, p: &Point3, depth: i32) -> (r: i64)
        requires
            self.wf(),
            p.bounded(0x2_0000_0000),
            0 <= depth <= 12,
        ensures
            r as int == turb_s(*self, *p, depth as int),
            0 <= r,
            r as int <= 64 * 12 * ONE as int,
    {
        let mut acc: i64 = 0;
        let mut q: Vec3 = *p;
        let mut weight: i64 = 65536;
        let mut i: i32 = 0;
        proof {
            vstd::arithmetic::power2::lemma2_to64();
            vstd::arithmetic::power2::lemma2_to64_rest();
        }
        while i < depth
            invariant
                self.wf(),
                0 <= i <= depth <= 12,
                0 <= weight <= ONE,
                weight as int == octave_weight(i as int),
                q == octave_point(*p, i as int),
                acc as int == turb_acc(*self, *p, i as int),
                q.bounded(vstd::arithmetic::power2::pow2((33 + i) as nat) as int),
                sabs(acc as int) <= i * 32 * ONE as int,
            decreases depth - i,
        {
            proof {
                vstd::arithmetic::power2::lemma2_to64();
                vstd::arithmetic::power2::lemma2_to64_rest();
                vstd::arithmetic::power2::lemma_pow2_adds((33 + i) as nat, 1);
                vstd::arithmetic::power2::lemma_pow2_strictly_increases((33 + i) as nat, 45);
            }
            let n: i64 = self.noise(&q);
            proof {
                crate::fixed::lemma_mul_bounds(weight as int, n as int, 65536, 32 * ONE as int);
                crate::fixed::lemma_tdiv_le(
                    weight as int * n as int,
                    0x1_0000,
                    65536int * 32int * 65536int,
                );
            }
            acc = acc + fx_mul(weight, n);
            weight = ediv(weight, 2);
            proof {
                assert(0 <= weight as int / 2 <= weight as int) by (nonlinear_arith)
                    requires
                        weight >= 0,
                ;
            }
            q = Vec3 { x: 2 * q.x, y: 2 * q.y, z: 2 * q.z };
            i = i + 1;
        }
        abs_i(acc)
    }
}

/// Hermite smoothing `u*u*(3 - 2*u)`, clamped into the unit interval so the
/// eight corner weights stay convex.
pub open spec fn hermite_s(u: int) -> int {
    crate::trig::clamp_s(fmul(fmul(u, u), 3 * 65536 - 2 * u), 0, 65536)
}

fn hermite(u: i64) -> (r: i64)
    requires
        0 <= u < 65536,
    ensures
        r as int == hermite_s(u as int),
        0 <= r <= 65536,
{
    proof {
        crate::fixed::lemma_mul_bounds(u as int, u as int, 65536, 65536);
        crate::fixed::lemma_tdiv_le(u as int * u as int, 0x1_0000, 65536int * 65536int);
    }
    let u2: i64 = fx_mul(u, u);
    proof {
        assert(u as int * u as int >= 0) by (nonlinear_arith)
            requires
                u >= 0,
        ;
        crate::fixed::lemma_mul_bounds(u2 as int, 3 * 65536 - 2 * u as int, 65536, 196608);
        crate::fixed::lemma_tdiv_le(
            u2 as int * (3 * 65536 - 2 * u as int),
            0x1_0000,
            65536int * 196608int,
        );
    }
    let h: i64 = fx_mul(u2, 3 * 65536 - 2 * u);
    clamp(h, 0, 65536)
}

/// A product of two unit-interval factors stays in the unit interval.
proof fn lemma_unit_prod(a: int, b: int)
    requires
        0 <= a <= 65536,
        0 <= b <= 65536,
    ensures
        0 <= fmul(a, b) <= 65536,
        sabs(a * b) == sabs(a) * sabs(b),
        sabs(a * b) <= 65536 * 65536,
{
    crate::fixed::lemma_mul_bounds(a, b, 65536, 65536);
    crate::fixed::lemma_tdiv_le(a * b, 0x1_0000, 65536int * 65536int);
    assert(a * b >= 0) by (nonlinear_arith)
        requires
            a >= 0 && b >= 0,
    ;
}

/// Fold a lattice coordinate into `[0, 256)`.
fn lattice_index(q: i64) -> (r: usize)
    requires
        sabs(q as int) <= 0x4000_0000_0000,
    ensures
        r < 256,
        r as int == (q as int) % 256,
{
    let m: i64 = emod(q, 256);
    m as usize
}

/// The exclusive-or of three bytes is a byte.
fn xor3(a: i32, b: i32, c: i32) -> (r: usize)
    requires
        0 <= a < 256,
        0 <= b < 256,
        0 <= c < 256,
    ensures
        r < 256,
        r as int == ((a ^ b) ^ c) as int,
{
    let x: i32 = a ^ b;
    proof {
        assert(0 <= (a ^ b) && (a ^ b) < 256) by (bit_vector)
            requires
                0 <= a < 256 && 0 <= b < 256,
        ;
    }
    let y: i32 = x ^ c;
    proof {
        assert(0 <= (x ^ c) && (x ^ c) < 256) by (bit_vector)
            requires
                0 <= x < 256 && 0 <= c < 256,
        ;
    }
    y as usize
}

/// A fresh random permutation of the 256 lattice indices, by repeated swaps.
pub fn perlin_generate_perm() -> (r: Vec<i32>)
    ensures
        is_perm(r@),
{
    let mut perm: Vec<i32> = Vec::new();
    let mut i: i32 = 0;
    while i < 256
        invariant
            0 <= i <= 256,
            perm@.len() == i,
            forall|k: int| 0 <= k < i ==> #[trigger] perm@[k] == k,
        decreases 256 - i,
    {
        perm.push(i);
        i = i + 1;
    }
    proof {
        assert(is_perm(perm@));
    }
    let mut n: usize = 255;
    while n >= 1
        invariant
            n <= 255,
            is_perm(perm@),
        decreases n,
    {
        let target: usize = random_index(0, n);
        let a: i32 = perm[n];
        let b: i32 = perm[target];
        perm[n] = b;
        perm[target] = a;
        n = n - 1;
    }
    perm
}

} // verus!
