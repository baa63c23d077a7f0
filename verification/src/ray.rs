//! Rays: an origin, a direction and a shutter-time sample.

use crate::fixed::{fmul, lemma_mul_bounds, lemma_tdiv_le, sabs, T_INF, W_MAX};
use crate::vec3::{Point3, Vec3};
use vstd::prelude::*;

verus! {

#[derive(Clone, Copy, Debug, PartialEq, Eq, Structural)]
pub struct Ray {
    pub orig: Point3,
    pub dir: Vec3,
    pub time: i64,
}

/// The point reached after travelling `t` along the ray.
pub open spec fn at_s(r: Ray, t: int) -> Vec3 {
    Vec3 {
        x: (r.orig.x + fmul(t, r.dir.x as int)) as i64,
        y: (r.orig.y + fmul(t, r.dir.y as int)) as i64,
        z: (r.orig.z + fmul(t, r.dir.z as int)) as i64,
    }
}

impl Ray {
    /// Origin and direction lie within the world bound, the time within one unit interval.
    pub open spec fn wf(self) -> bool {
        &&& self.orig.in_world()
        &&& self.dir.in_world()
        &&& sabs(self.time as int) <= T_INF as int
    }

    pub fn new(orig: Point3, dir: Vec3) -> (r: Ray)
        ensures
            r.orig == orig && r.dir == dir && r.time == 0,
    {
        Ray { orig, dir, time: 0 }
    }

    pub fn new_with_time(orig: Point3, dir: Vec3, time: i64) -> (r: Ray)
        ensures
            r.orig == orig && r.dir == dir && r.time == time,
    {
        Ray { orig, dir, time }
    }

    pub fn origin(&self) -> (r: Point3)
        ensures
            r == self.orig,
    {
        self.orig
    }

    pub fn direction(&self) -> (r: Vec3)
        ensures
            r == self.dir,
    {
        self.dir
    }

    pub fn time(&self) -> (r: i64)
        ensures
            r == self.time,
    {
        self.time
    }

    /// The point at parameter `t`, with each component rounded toward zero.
    pub fn at(&self, t: i64) -> (r: Point3)
        requires
            self.orig.bounded(0x4000_0000),
            self.dir.bounded(0x4000_0000),
            sabs(t as int) <= T_INF as int,
        ensures
            r == at_s(*self, t as int),
            r.bounded(0x4000_0000_0000_0000),
    {
        proof {
            lemma_mul_bounds(t as int, self.dir.x as int, T_INF as int, 0x4000_0000);
            lemma_mul_bounds(t as int, self.dir.y as int, T_INF as int, 0x4000_0000);
            lemma_mul_bounds(t as int, self.dir.z as int, T_INF as int, 0x4000_0000);
            lemma_tdiv_le(t as int * self.dir.x as int, 0x1_0000, 0x1000_0000_0000int * 0x4000_0000int);
            lemma_tdiv_le(t as int * self.dir.y as int, 0x1_0000, 0x1000_0000_0000int * 0x4000_0000int);
            lemma_tdiv_le(t as int * self.dir.z as int, 0x1_0000, 0x1000_0000_0000int * 0x4000_0000int);
        }
        let d = self.dir.scale(t);
        Point3 { x: self.orig.x + d.x, y: self.orig.y + d.y, z: self.orig.z + d.z }
    }
}

} // verus!
