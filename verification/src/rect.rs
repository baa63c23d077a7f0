//! Axis-aligned rectangles on the three coordinate planes.  Each solves for
//! the plane crossing, rejects parameters or coordinates out of range, and
//! reports normalized in-rectangle coordinates.

use crate::fixed::{clamp, fdiv, fmul, fx_div, fx_mul, lemma_mul_bounds, lemma_tdiv_le, sabs, T_INF};
use crate::hittable::HitRecord;
use crate::material::Material;
use crate::ray::{at_s, Ray};
use crate::trig::clamp_s;
use crate::vec3::{dot_s, neg_s, Point3, Vec3};
use std::sync::Arc;
use vstd::prelude::*;

verus! {

pub struct XYRect {
    pub material: Arc<Material>,
    pub x0: i64,
    pub x1: i64,
    pub y0: i64,
    pub y1: i64,
    pub k: i64,
}

pub struct XZRect {
    pub material: Arc<Material>,
    pub x0: i64,
    pub x1: i64,
    pub z0: i64,
    pub z1: i64,
    pub k: i64,
}

pub struct YZRect {
    pub material: Arc<Material>,
    pub y0: i64,
    pub y1: i64,
    pub z0: i64,
    pub z1: i64,
    pub k: i64,
}

/// What every rectangle's hit requires of the ray and interval.
pub open spec fn rect_ray_ok(r: Ray, t_min: i64, t_max: i64) -> bool {
    &&& r.orig.bounded(0x4000_0000)
    &&& r.dir.bounded(0x4000_0000)
    &&& sabs(t_min as int) <= T_INF as int
    &&& sabs(t_max as int) <= T_INF as int
}

/// One shared plane-crossing model: the plane sits at `k` on the axis with
/// direction component `da` and origin component `oa`; `(b, c)` are the two
/// in-plane coordinates of the crossing point, bounded by the rectangle.
pub open spec fn plane_hit_t(k: int, oa: int, da: int, tmin: int, tmax: int) -> Option<int> {
    if da == 0 {
        None
    } else {
        let t = fdiv(k - oa, da);
        if !(tmin <= t <= tmax) {
            None
        } else {
            Some(t)
        }
    }
}

pub open spec fn frac_in(lo: int, hi: int, v: int) -> int {
    clamp_s(fdiv(v - lo, hi - lo), 0, 65536)
}

pub open spec fn xy_rect_hit_s(rc: XYRect, r: Ray, tmin: int, tmax: int) -> Option<HitRecord> {
    match plane_hit_t(rc.k as int, r.orig.z as int, r.dir.z as int, tmin, tmax) {
        None => None,
        Some(t) => {
            let x = r.orig.x + fmul(t, r.dir.x as int);
            let y = r.orig.y + fmul(t, r.dir.y as int);
            if x < rc.x0 || x > rc.x1 || y < rc.y0 || y > rc.y1 {
                None
            } else {
                let on = Vec3 { x: 0, y: 0, z: 65536 };
                let ff = dot_s(r.dir, on) < 0;
                Some(
                    HitRecord {
                        p: at_s(r, t),
                        normal: if ff {
                            on
                        } else {
                            neg_s(on)
                        },
                        material: rc.material,
                        t: t as i64,
                        u: frac_in(rc.x0 as int, rc.x1 as int, x) as i64,
                        v: frac_in(rc.y0 as int, rc.y1 as int, y) as i64,
                        front_face: ff,
                    },
                )
            }
        },
    }
}

pub open spec fn xz_rect_hit_s(rc: XZRect, r: Ray, tmin: int, tmax: int) -> Option<HitRecord> {
    match plane_hit_t(rc.k as int, r.orig.y as int, r.dir.y as int, tmin, tmax) {
        None => None,
        Some(t) => {
            let x = r.orig.x + fmul(t, r.dir.x as int);
            let z = r.orig.z + fmul(t, r.dir.z as int);
            if x < rc.x0 || x > rc.x1 || z < rc.z0 || z > rc.z1 {
                None
            } else {
                let on = Vec3 { x: 0, y: 65536, z: 0 };
                let ff = dot_s(r.dir, on) < 0;
                Some(
                    HitRecord {
                        p: at_s(r, t),
                        normal: if ff {
                            on
                        } else {
                            neg_s(on)
                        },
                        material: rc.material,
                        t: t as i64,
                        u: frac_in(rc.x0 as int, rc.x1 as int, x) as i64,
                        v: frac_in(rc.z0 as int, rc.z1 as int, z) as i64,
                        front_face: ff,
                    },
                )
            }
        },
    }
}

pub open spec fn yz_rect_hit_s(rc: YZRect, r: Ray, tmin: int, tmax: int) -> Option<HitRecord> {
    match plane_hit_t(rc.k as int, r.orig.x as int, r.dir.x as int, tmin, tmax) {
        None => None,
        Some(t) => {
            let y = r.orig.y + fmul(t, r.dir.y as int);
            let z = r.orig.z + fmul(t, r.dir.z as int);
            if y < rc.y0 || y > rc.y1 || z < rc.z0 || z > rc.z1 {
                None
            } else {
                let on = Vec3 { x: 65536, y: 0, z: 0 };
                let ff = dot_s(r.dir, on) < 0;
                Some(
                    HitRecord {
                        p: at_s(r, t),
                        normal: if ff {
                            on
                        } else {
                            neg_s(on)
                        },
                        material: rc.material,
                        t: t as i64,
                        u: frac_in(rc.y0 as int, rc.y1 as int, y) as i64,
                        v: frac_in(rc.z0 as int, rc.z1 as int, z) as i64,
                        front_face: ff,
                    },
                )
            }
        },
    }
}

/// The in-plane coordinate of the crossing, with overflow headroom proved.
fn cross_coord(o: i64, d: i64, t: i64) -> (r: i64)
    requires
        sabs(o as int) <= 0x4000_0000,
        sabs(d as int) <= 0x4000_0000,
        sabs(t as int) <= T_INF as int,
    ensures
        r as int == o + fmul(t as int, d as int),
        sabs(r as int) <= 0x8000_0000_0000_0000 - 1,
{
    proof {
        lemma_mul_bounds(t as int, d as int, T_INF as int, 0x4000_0000);
        lemma_tdiv_le(t as int * d as int, 0x1_0000, 0x1000_0000_0000int * 0x4000_0000int);
    }
    o + fx_mul(t, d)
}

fn unit_frac(lo: i64, hi: i64, v: i64) -> (r: i64)
    requires
        lo < hi,
        sabs(lo as int) <= 0x1000_0000,
        sabs(hi as int) <= 0x1000_0000,
        lo <= v <= hi,
    ensures
        r as int == frac_in(lo as int, hi as int, v as int),
        0 <= r <= 65536,
{
    clamp(fx_div(v - lo, hi - lo), 0, 65536)
}

impl XYRect {
    pub open spec fn wf(self) -> bool {
        &&& self.x0 < self.x1
        &&& self.y0 < self.y1
        &&& self.x0 >= -0x1000_0000 && self.x1 <= 0x1000_0000
        &&& self.y0 >= -0x1000_0000 && self.y1 <= 0x1000_0000
        &&& sabs(self.k as int) <= 0x1000_0000
        &&& (*self.material).wf()
    }

    pub fn new(x0: i64, x1: i64, y0: i64, y1: i64, k: i64, mat: Arc<Material>) -> (r: XYRect)
        ensures
            r.x0 == x0 && r.x1 == x1 && r.y0 == y0 && r.y1 == y1 && r.k == k && r.material == mat,
    {
        XYRect { material: mat, x0, x1, y0, y1, k }
    }

    pub fn hit(&self, r: &Ray, t_min: i64, t_max: i64) -> (res: Option<HitRecord>)
        requires
            self.wf(),
            rect_ray_ok(*r, t_min, t_max),
        ensures
            res == xy_rect_hit_s(*self, *r, t_min as int, t_max as int),
            res is Some ==> t_min <= res->0.t <= t_max && res->0.normal.bounded(65536) && 0
                <= res->0.u <= 65536 && 0 <= res->0.v <= 65536 && res->0.p.bounded(
                0x4000_0000_0000_0000,
            ) && res->0.material == self.material,
    {
        if r.dir.z == 0 {
            return None;
        }
        let t: i64 = fx_div(self.k - r.orig.z, r.dir.z);
        if t < t_min || t > t_max {
            return None;
        }
        let x: i64 = cross_coord(r.orig.x, r.dir.x, t);
        let y: i64 = cross_coord(r.orig.y, r.dir.y, t);
        if x < self.x0 || x > self.x1 || y < self.y0 || y > self.y1 {
            return None;
        }
        let on = Vec3 { x: 0, y: 0, z: 65536 };
        let d: i64 = r.direction().dot(&on);
        let ff: bool = d < 0;
        Some(
            HitRecord {
                p: r.at(t),
                normal: if ff {
                    on
                } else {
                    on.neg()
                },
                material: crate::material::share_material(&self.material),
                t,
                u: unit_frac(self.x0, self.x1, x),
                v: unit_frac(self.y0, self.y1, y),
                front_face: ff,
            },
        )
    }

    pub fn bounding_box(&self, _time0: i64, _time1: i64) -> (res: Option<crate::aabb::Aabb>)
        requires
            self.wf(),
        ensures
            res is Some,
            res->0.wf(),
            res->0.minimum == (Point3 { x: self.x0, y: self.y0, z: (self.k - 7) as i64 }),
            res->0.maximum == (Point3 { x: self.x1, y: self.y1, z: (self.k + 7) as i64 }),
    {
        Some(
            crate::aabb::Aabb::new(
                Point3 { x: self.x0, y: self.y0, z: self.k - 7 },
                Point3 { x: self.x1, y: self.y1, z: self.k + 7 },
            ),
        )
    }
}

impl XZRect {
    pub open spec fn wf(self) -> bool {
        &&& self.x0 < self.x1
        &&& self.z0 < self.z1
        &&& self.x0 >= -0x1000_0000 && self.x1 <= 0x1000_0000
        &&& self.z0 >= -0x1000_0000 && self.z1 <= 0x1000_0000
        &&& sabs(self.k as int) <= 0x1000_0000
        &&& (*self.material).wf()
    }

    pub fn new(x0: i64, x1: i64, z0: i64, z1: i64, k: i64, mat: Arc<Material>) -> (r: XZRect)
        ensures
            r.x0 == x0 && r.x1 == x1 && r.z0 == z0 && r.z1 == z1 && r.k == k && r.material == mat,
    {
        XZRect { material: mat, x0, x1, z0, z1, k }
    }

    pub fn hit(&self, r: &Ray, t_min: i64, t_max: i64) -> (res: Option<HitRecord>)
        requires
            self.wf(),
            rect_ray_ok(*r, t_min, t_max),
        ensures
            res == xz_rect_hit_s(*self, *r, t_min as int, t_max as int),
            res is Some ==> t_min <= res->0.t <= t_max && res->0.normal.bounded(65536) && 0
                <= res->0.u <= 65536 && 0 <= res->0.v <= 65536 && res->0.p.bounded(
                0x4000_0000_0000_0000,
            ) && res->0.material == self.material,
    {
        if r.dir.y == 0 {
            return None;
        }
        let t: i64 = fx_div(self.k - r.orig.y, r.dir.y);
        if t < t_min || t > t_max {
            return None;
        }
        let x: i64 = cross_coord(r.orig.x, r.dir.x, t);
        let z: i64 = cross_coord(r.orig.z, r.dir.z, t);
        if x < self.x0 || x > self.x1 || z < self.z0 || z > self.z1 {
            return None;
        }
        let on = Vec3 { x: 0, y: 65536, z: 0 };
        let d: i64 = r.direction().dot(&on);
        let ff: bool = d < 0;
        Some(
            HitRecord {
                p: r.at(t),
                normal: if ff {
                    on
                } else {
                    on.neg()
                },
                material: crate::material::share_material(&self.material),
                t,
                u: unit_frac(self.x0, self.x1, x),
                v: unit_frac(self.z0, self.z1, z),
                front_face: ff,
            },
        )
    }

    pub fn bounding_box(&self, _time0: i64, _time1: i64) -> (res: Option<crate::aabb::Aabb>)
        requires
            self.wf(),
        ensures
            res is Some,
            res->0.wf(),
            res->0.minimum == (Point3 { x: self.x0, y: (self.k - 7) as i64, z: self.z0 }),
            res->0.maximum == (Point3 { x: self.x1, y: (self.k + 7) as i64, z: self.z1 }),
    {
        Some(
            crate::aabb::Aabb::new(
                Point3 { x: self.x0, y: self.k - 7, z: self.z0 },
                Point3 { x: self.x1, y: self.k + 7, z: self.z1 },
            ),
        )
    }
}

impl YZRect {
    pub open spec fn wf(self) -> bool {
        &&& self.y0 < self.y1
        &&& self.z0 < self.z1
        &&& self.y0 >= -0x1000_0000 && self.y1 <= 0x1000_0000
        &&& self.z0 >= -0x1000_0000 && self.z1 <= 0x1000_0000
        &&& sabs(self.k as int) <= 0x1000_0000
        &&& (*self.material).wf()
    }

    pub fn new(y0: i64, y1: i64, z0: i64, z1: i64, k: i64, mat: Arc<Material>) -> (r: YZRect)
        ensures
            r.y0 == y0 && r.y1 == y1 && r.z0 == z0 && r.z1 == z1 && r.k == k && r.material == mat,
    {
        YZRect { material: mat, y0, y1, z0, z1, k }
    }

    pub fn hit(&self, r: &Ray, t_min: i64, t_max: i64) -> (res: Option<HitRecord>)
        requires
            self.wf(),
            rect_ray_ok(*r, t_min, t_max),
        ensures
            res == yz_rect_hit_s(*self, *r, t_min as int, t_max as int),
            res is Some ==> t_min <= res->0.t <= t_max && res->0.normal.bounded(65536) && 0
                <= res->0.u <= 65536 && 0 <= res->0.v <= 65536 && res->0.p.bounded(
                0x4000_0000_0000_0000,
            ) && res->0.material == self.material,
    {
        if r.dir.x == 0 {
            return None;
        }
        let t: i64 = fx_div(self.k - r.orig.x, r.dir.x);
        if t < t_min || t > t_max {
            return None;
        }
        let y: i64 = cross_coord(r.orig.y, r.dir.y, t);
        let z: i64 = cross_coord(r.orig.z, r.dir.z, t);
        if y < self.y0 || y > self.y1 || z < self.z0 || z > self.z1 {
            return None;
        }
        let on = Vec3 { x: 65536, y: 0, z: 0 };
        let d: i64 = r.direction().dot(&on);
        let ff: bool = d < 0;
        Some(
            HitRecord {
                p: r.at(t),
                normal: if ff {
                    on
                } else {
                    on.neg()
                },
                material: crate::material::share_material(&self.material),
                t,
                u: unit_frac(self.y0, self.y1, y),
                v: unit_frac(self.z0, self.z1, z),
                front_face: ff,
            },
        )
    }

    pub fn bounding_box(&self, _time0: i64, _time1: i64) -> (res: Option<crate::aabb::Aabb>)
        requires
            self.wf(),
        ensures
            res is Some,
            res->0.wf(),
            res->0.minimum == (Point3 { x: (self.k - 7) as i64, y: self.y0, z: self.z0 }),
            res->0.maximum == (Point3 { x: (self.k + 7) as i64, y: self.y1, z: self.z1 }),
    {
        Some(
            crate::aabb::Aabb::new(
                Point3 { x: self.k - 7, y: self.y0, z: self.z0 },
                Point3 { x: self.k + 7, y: self.y1, z: self.z1 },
            ),
        )
    }
}

} // verus!
