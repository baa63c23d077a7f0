//! Axis-aligned bounding boxes and the slab intersection test.
//!
//! The slab test never divides: each comparison against a slab plane is a
//! cross-multiplied rational comparison, so the test decides the exact
//! mathematical predicate `hit_s`.

use crate::fixed::{sabs, T_INF, W_MAX};
use crate::ray::Ray;
use crate::vec3::Point3;
use vstd::prelude::*;

verus! {

#[derive(Clone, Copy, Debug, PartialEq, Eq, Structural)]
pub struct Aabb {
    pub minimum: Point3,
    pub maximum: Point3,
}

pub open spec fn imin(a: i64, b: i64) -> i64 {
    if a <= b {
        a
    } else {
        b
    }
}

pub open spec fn imax(a: i64, b: i64) -> i64 {
    if a >= b {
        a
    } else {
        b
    }
}

/// Whether the ray interval `[tmin, tmax]` (in fixed-point units) meets the
/// slab `[bmin, bmax]` along one axis.  A ray parallel to the slab passes
/// exactly when its origin lies inside the slab.
pub open spec fn slab_pass(bmin: int, bmax: int, o: int, d: int, tmin: int, tmax: int) -> bool {
    if d == 0 {
        bmin <= o <= bmax && tmin < tmax
    } else {
        let ad = sabs(d);
        let m0 = if d > 0 {
            bmin - o
        } else {
            o - bmax
        };
        let m1 = if d > 0 {
            bmax - o
        } else {
            o - bmin
        };
        &&& tmin < tmax
        &&& tmax * ad > m0 * 0x1_0000
        &&& m1 * 0x1_0000 > tmin * ad
        &&& m1 > m0
    }
}

impl Aabb {
    pub open spec fn min_s(self) -> Point3 {
        self.minimum
    }

    pub open spec fn max_s(self) -> Point3 {
        self.maximum
    }

    /// Sorted on every axis, and within the world bound.
    pub open spec fn wf(self) -> bool {
        &&& self.minimum.bounded(0x4000_0000)
        &&& self.maximum.bounded(0x4000_0000)
        &&& self.minimum.x <= self.maximum.x
        &&& self.minimum.y <= self.maximum.y
        &&& self.minimum.z <= self.maximum.z
    }

    /// The exact meaning of the slab test: every axis passes.
    pub open spec fn hit_s(self, r: Ray, tmin: int, tmax: int) -> bool {
        &&& slab_pass(
            self.minimum.x as int,
            self.maximum.x as int,
            r.orig.x as int,
            r.dir.x as int,
            tmin,
            tmax,
        )
        &&& slab_pass(
            self.minimum.y as int,
            self.maximum.y as int,
            r.orig.y as int,
            r.dir.y as int,
            tmin,
            tmax,
        )
        &&& slab_pass(
            self.minimum.z as int,
            self.maximum.z as int,
            r.orig.z as int,
            r.dir.z as int,
            tmin,
            tmax,
        )
    }

    pub fn new(min: Point3, max: Point3) -> (r: Aabb)
        ensures
            r.minimum == min && r.maximum == max,
            r.min_s() == min && r.max_s() == max,
    {
        Aabb { minimum: min, maximum: max }
    }

    pub fn min(&self) -> (r: Point3)
        ensures
            r == self.minimum,
    {
        self.minimum
    }

    pub fn max(&self) -> (r: Point3)
        ensures
            r == self.maximum,
    {
        self.maximum
    }

    /// The slab test, deciding `hit_s` exactly.
    pub fn hit(&self, r: &Ray, time_min: i64, time_max: i64) -> (res: bool)
        requires
            self.minimum.bounded(0x4000_0000),
            self.maximum.bounded(0x4000_0000),
            r.orig.bounded(0x4000_0000),
            r.dir.bounded(0x4000_0000),
            sabs(time_min as int) <= T_INF as int,
            sabs(time_max as int) <= T_INF as int,
        ensures
            res == self.hit_s(*r, time_min as int, time_max as int),
    {
        let ax = slab_axis(self.minimum.x, self.maximum.x, r.orig.x, r.dir.x, time_min, time_max);
        if !ax {
            return false;
        }
        let ay = slab_axis(self.minimum.y, self.maximum.y, r.orig.y, r.dir.y, time_min, time_max);
        if !ay {
            return false;
        }
        slab_axis(self.minimum.z, self.maximum.z, r.orig.z, r.dir.z, time_min, time_max)
    }

    /// The smallest box containing both arguments: component-wise minima and maxima.
    pub fn surrounding_box(box0: &Aabb, box1: &Aabb) -> (r: Aabb)
        ensures
            r.minimum.x == imin(box0.minimum.x, box1.minimum.x),
            r.minimum.y == imin(box0.minimum.y, box1.minimum.y),
            r.minimum.z == imin(box0.minimum.z, box1.minimum.z),
            r.maximum.x == imax(box0.maximum.x, box1.maximum.x),
            r.maximum.y == imax(box0.maximum.y, box1.maximum.y),
            r.maximum.z == imax(box0.maximum.z, box1.maximum.z),
            r == box0.surround_s(*box1),
            box0.wf() && box1.wf() ==> r.wf(),
    {
        let small = Point3 {
            x: crate::fixed::min_i(box0.minimum.x, box1.minimum.x),
            y: crate::fixed::min_i(box0.minimum.y, box1.minimum.y),
            z: crate::fixed::min_i(box0.minimum.z, box1.minimum.z),
        };
        let big = Point3 {
            x: crate::fixed::max_i(box0.maximum.x, box1.maximum.x),
            y: crate::fixed::max_i(box0.maximum.y, box1.maximum.y),
            z: crate::fixed::max_i(box0.maximum.z, box1.maximum.z),
        };
        Aabb { minimum: small, maximum: big }
    }

    pub open spec fn surround_s(self, o: Aabb) -> Aabb {
        Aabb {
            minimum: Point3 {
                x: imin(self.minimum.x, o.minimum.x),
                y: imin(self.minimum.y, o.minimum.y),
                z: imin(self.minimum.z, o.minimum.z),
            },
            maximum: Point3 {
                x: imax(self.maximum.x, o.maximum.x),
                y: imax(self.maximum.y, o.maximum.y),
                z: imax(self.maximum.z, o.maximum.z),
            },
        }
    }

    /// Whether `self` encloses `o` on every axis.
    pub open spec fn contains_box(self, o: Aabb) -> bool {
        &&& self.minimum.x <= o.minimum.x
        &&& self.minimum.y <= o.minimum.y
        &&& self.minimum.z <= o.minimum.z
        &&& self.maximum.x >= o.maximum.x
        &&& self.maximum.y >= o.maximum.y
        &&& self.maximum.z >= o.maximum.z
    }
}

fn slab_axis(bmin: i64, bmax: i64, o: i64, d: i64, tmin: i64, tmax: i64) -> (res: bool)
    requires
        sabs(bmin as int) <= 0x4000_0000,
        sabs(bmax as int) <= 0x4000_0000,
        sabs(o as int) <= 0x4000_0000,
        sabs(d as int) <= 0x4000_0000,
        sabs(tmin as int) <= T_INF as int,
        sabs(tmax as int) <= T_INF as int,
    ensures
        res == slab_pass(bmin as int, bmax as int, o as int, d as int, tmin as int, tmax as int),
{
    if d == 0 {
        bmin <= o && o <= bmax && tmin < tmax
    } else {
        let ad: i128 = if d < 0 {
            -(d as i128)
        } else {
            d as i128
        };
        let m0: i128 = if d > 0 {
            (bmin as i128) - (o as i128)
        } else {
            (o as i128) - (bmax as i128)
        };
        let m1: i128 = if d > 0 {
            (bmax as i128) - (o as i128)
        } else {
            (o as i128) - (bmin as i128)
        };
        proof {
            crate::fixed::lemma_mul_bounds(tmax as int, ad as int, T_INF as int, 0x4000_0000);
            crate::fixed::lemma_mul_bounds(tmin as int, ad as int, T_INF as int, 0x4000_0000);
            crate::fixed::lemma_mul_bounds(m0 as int, 0x1_0000, 0x8000_0000, 0x1_0000);
            crate::fixed::lemma_mul_bounds(m1 as int, 0x1_0000, 0x8000_0000, 0x1_0000);
        }
        tmin < tmax && (tmax as i128) * ad > m0 * 65536 && m1 * 65536 > (tmin as i128) * ad && m1
            > m0
    }
}

/// A box whose bounds are strictly unsorted on some axis intersects nothing.
pub proof fn lemma_unsorted_never_hits(b: Aabb, r: Ray, tmin: int, tmax: int)
    requires
        b.max_s().x < b.min_s().x || b.max_s().y < b.min_s().y || b.max_s().z < b.min_s().z,
    ensures
        !b.hit_s(r, tmin, tmax),
{
}

/// Building a box from two corner points is symmetric once the corners are
/// re-sorted component-wise, so the slab test cannot tell the orders apart.
pub proof fn lemma_sorted_corners_symmetric(p: Point3, q: Point3, r: Ray, tmin: int, tmax: int)
    ensures
        ({
            let b0 = Aabb {
                minimum: Point3 { x: imin(p.x, q.x), y: imin(p.y, q.y), z: imin(p.z, q.z) },
                maximum: Point3 { x: imax(p.x, q.x), y: imax(p.y, q.y), z: imax(p.z, q.z) },
            };
            let b1 = Aabb {
                minimum: Point3 { x: imin(q.x, p.x), y: imin(q.y, p.y), z: imin(q.z, p.z) },
                maximum: Point3 { x: imax(q.x, p.x), y: imax(q.y, p.y), z: imax(q.z, p.z) },
            };
            b0 == b1 && b0.hit_s(r, tmin, tmax) == b1.hit_s(r, tmin, tmax)
        }),
{
}

/// A ray parallel to an axis and strictly outside the box's extent on that
/// axis never hits, whatever the other axes hold.
pub proof fn lemma_parallel_outside_misses(b: Aabb, r: Ray, tmin: int, tmax: int)
    requires
        (r.dir.x == 0 && (r.orig.x < b.min_s().x || r.orig.x > b.max_s().x)) || (r.dir.y == 0 && (
        r.orig.y < b.min_s().y || r.orig.y > b.max_s().y)) || (r.dir.z == 0 && (r.orig.z
            < b.min_s().z || r.orig.z > b.max_s().z)),
    ensures
        !b.hit_s(r, tmin, tmax),
{
}

/// The union of two boxes contains both, even when an extent is degenerate.
pub proof fn lemma_surrounding_contains(a: Aabb, b: Aabb)
    ensures
        a.surround_s(b).contains_box(a),
        a.surround_s(b).contains_box(b),
        a.wf() && b.wf() ==> a.surround_s(b).wf(),
{
}

/// Component-wise union is commutative.
pub proof fn lemma_surround_comm(a: Aabb, b: Aabb)
    ensures
        a.surround_s(b) == b.surround_s(a),
{
}

/// Component-wise union is associative.
pub proof fn lemma_surround_assoc(a: Aabb, b: Aabb, c: Aabb)
    ensures
        a.surround_s(b).surround_s(c) == a.surround_s(b.surround_s(c)),
{
}

/// Growing the box or widening the parameter interval preserves a slab pass.
pub proof fn lemma_hit_monotone(b: Aabb, big: Aabb, r: Ray, tmin: int, tmax: int)
    requires
        big.contains_box(b),
        b.hit_s(r, tmin, tmax),
        b.wf(),
    ensures
        big.hit_s(r, tmin, tmax),
{
    lemma_slab_monotone(
        b.min_s().x as int,
        b.max_s().x as int,
        big.min_s().x as int,
        big.max_s().x as int,
        r.orig.x as int,
        r.dir.x as int,
        tmin,
        tmax,
    );
    lemma_slab_monotone(
        b.min_s().y as int,
        b.max_s().y as int,
        big.min_s().y as int,
        big.max_s().y as int,
        r.orig.y as int,
        r.dir.y as int,
        tmin,
        tmax,
    );
    lemma_slab_monotone(
        b.min_s().z as int,
        b.max_s().z as int,
        big.min_s().z as int,
        big.max_s().z as int,
        r.orig.z as int,
        r.dir.z as int,
        tmin,
        tmax,
    );
}

proof fn lemma_slab_monotone(
    bmin: int,
    bmax: int,
    gmin: int,
    gmax: int,
    o: int,
    d: int,
    tmin: int,
    tmax: int,
)
    requires
        gmin <= bmin <= bmax <= gmax,
        slab_pass(bmin, bmax, o, d, tmin, tmax),
    ensures
        slab_pass(gmin, gmax, o, d, tmin, tmax),
{
    if d != 0 {
        let ad = sabs(d);
        if d > 0 {
            assert((bmin - o) * 0x1_0000 >= (gmin - o) * 0x1_0000) by (nonlinear_arith)
                requires
                    gmin <= bmin,
            ;
            assert((bmax - o) * 0x1_0000 <= (gmax - o) * 0x1_0000) by (nonlinear_arith)
                requires
                    bmax <= gmax,
            ;
        } else {
            assert((o - bmax) * 0x1_0000 >= (o - gmax) * 0x1_0000) by (nonlinear_arith)
                requires
                    bmax <= gmax,
            ;
            assert((o - bmin) * 0x1_0000 <= (o - gmin) * 0x1_0000) by (nonlinear_arith)
                requires
                    gmin <= bmin,
            ;
        }
    }
}

} // verus!
