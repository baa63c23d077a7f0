//! Spheres, still and moving: the quadratic intersection with exact root
//! selection, the front-face convention, and spherical surface coordinates.

use crate::fixed::{clamp, fdiv, fx_div, sabs, sqf, tdiv, T_INF, W_MAX};
use crate::hittable::HitRecord;
use crate::material::Material;
use crate::ray::{at_s, Ray};
use crate::trig::{acos_frac_s, acos_over_pi, atan2_frac_s, atan2_over_2pi};
use crate::vec3::{dot_s, neg_s, sq_sum_s, Point3, Vec3};
use std::sync::Arc;
use vstd::prelude::*;

verus! {

pub struct Sphere {
    pub center: Point3,
    pub radius: i64,
    pub material: Arc<Material>,
}

pub struct MovingSphere {
    pub center_start: Point3,
    pub center_end: Point3,
    pub time_start: i64,
    pub time_end: i64,
    pub radius: i64,
    pub material: Arc<Material>,
}

/// The three quadratic coefficients, at the raw (twice fixed-point) scale.
pub open spec fn quad_a(r: Ray) -> int {
    sq_sum_s(r.dir)
}

pub open spec fn quad_half_b(center: Point3, r: Ray) -> int {
    (r.orig.x - center.x) * r.dir.x + (r.orig.y - center.y) * r.dir.y + (r.orig.z - center.z)
        * r.dir.z
}

pub open spec fn quad_c(center: Point3, radius: i64, r: Ray) -> int {
    (r.orig.x - center.x) * (r.orig.x - center.x) + (r.orig.y - center.y) * (r.orig.y - center.y)
        + (r.orig.z - center.z) * (r.orig.z - center.z) - radius * radius
}

pub open spec fn quad_disc(center: Point3, radius: i64, r: Ray) -> int {
    quad_half_b(center, r) * quad_half_b(center, r) - quad_a(r) * quad_c(center, radius, r)
}

/// The nearer root of the quadratic, as a fixed-point ray parameter.
pub open spec fn root_near(center: Point3, radius: i64, r: Ray) -> int {
    tdiv((-quad_half_b(center, r) - sqf(quad_disc(center, radius, r))) * 65536, quad_a(r))
}

/// The farther root.
pub open spec fn root_far(center: Point3, radius: i64, r: Ray) -> int {
    tdiv((-quad_half_b(center, r) + sqf(quad_disc(center, radius, r))) * 65536, quad_a(r))
}

/// The outward unit normal at `p`, each component clamped into one unit to
/// absorb the final rounding step.
pub open spec fn outward_s(p: Point3, center: Point3, radius: i64) -> Vec3 {
    Vec3 {
        x: crate::trig::clamp_s(fdiv(p.x - center.x, radius as int), -65536, 65536) as i64,
        y: crate::trig::clamp_s(fdiv(p.y - center.y, radius as int), -65536, 65536) as i64,
        z: crate::trig::clamp_s(fdiv(p.z - center.z, radius as int), -65536, 65536) as i64,
    }
}

/// Surface coordinates from the outward normal.
pub open spec fn sphere_uv_s(n: Vec3) -> (int, int) {
    (atan2_frac_s(-(n.z as int), n.x as int), acos_frac_s(-(n.y as int)))
}

/// The full intersection model: the nearer admissible root wins, the hit
/// point lies on the ray, and the stored normal opposes the ray direction.
/// Hits whose points leave the numeric guard range are dropped.
pub open spec fn sphere_hit_s(
    center: Point3,
    radius: i64,
    material: Arc<Material>,
    r: Ray,
    t_min: int,
    t_max: int,
) -> Option<HitRecord> {
    if quad_a(r) == 0 {
        None
    } else if quad_disc(center, radius, r) < 0 {
        None
    } else {
        let t1 = root_near(center, radius, r);
        let t2 = root_far(center, radius, r);
        let t = if t_min <= t1 <= t_max {
            t1
        } else {
            t2
        };
        if !(t_min <= t <= t_max) {
            None
        } else {
            let p = at_s(r, t);
            if !p.bounded(0x200_0000_0000) {
                None
            } else {
                let on = outward_s(p, center, radius);
                let uv = sphere_uv_s(on);
                let ff = dot_s(r.dir, on) < 0;
                Some(
                    HitRecord {
                        p,
                        normal: if ff {
                            on
                        } else {
                            neg_s(on)
                        },
                        material,
                        t: t as i64,
                        u: uv.0 as i64,
                        v: uv.1 as i64,
                        front_face: ff,
                    },
                )
            }
        }
    }
}

/// What the quadratic solver needs of its inputs.
pub open spec fn sphere_in_ok(center: Point3, radius: i64, r: Ray, t_min: i64, t_max: i64) -> bool {
    &&& center.bounded(0x4000_0000)
    &&& 0 < radius <= W_MAX
    &&& r.orig.bounded(0x4000_0000)
    &&& r.dir.bounded(0x4000_0000)
    &&& sabs(t_min as int) <= T_INF as int
    &&& sabs(t_max as int) <= T_INF as int
}

/// Shared quadratic intersection for both sphere kinds.
#[verifier::rlimit(80)]
pub(crate) fn sphere_hit_at(
    center: Point3,
    radius: i64,
    material: &Arc<Material>,
    r: &Ray,
    t_min: i64,
    t_max: i64,
) -> (res: Option<HitRecord>)
    requires
        sphere_in_ok(center, radius, *r, t_min, t_max),
    ensures
        res == sphere_hit_s(center, radius, *material, *r, t_min as int, t_max as int),
        res is Some ==> t_min <= res->0.t <= t_max && res->0.normal.bounded(65536)
            && res->0.p.bounded(0x200_0000_0000) && 0 <= res->0.u <= 65536 && 0 <= res->0.v
            <= 65536 && res->0.material == *material,
{
    let ox: i128 = (r.orig.x as i128) - (center.x as i128);
    let oy: i128 = (r.orig.y as i128) - (center.y as i128);
    let oz: i128 = (r.orig.z as i128) - (center.z as i128);
    let dx: i128 = r.dir.x as i128;
    let dy: i128 = r.dir.y as i128;
    let dz: i128 = r.dir.z as i128;
    proof {
        lemma_quad_bounds(center, radius, *r);
        crate::fixed::lemma_mul_bounds(r.dir.x as int, r.dir.x as int, 0x4000_0000, 0x4000_0000);
        crate::fixed::lemma_mul_bounds(r.dir.y as int, r.dir.y as int, 0x4000_0000, 0x4000_0000);
        crate::fixed::lemma_mul_bounds(r.dir.z as int, r.dir.z as int, 0x4000_0000, 0x4000_0000);
        crate::fixed::lemma_mul_bounds(ox as int, r.dir.x as int, 0x8000_0000, 0x4000_0000);
        crate::fixed::lemma_mul_bounds(oy as int, r.dir.y as int, 0x8000_0000, 0x4000_0000);
        crate::fixed::lemma_mul_bounds(oz as int, r.dir.z as int, 0x8000_0000, 0x4000_0000);
        crate::fixed::lemma_mul_bounds(ox as int, ox as int, 0x8000_0000, 0x8000_0000);
        crate::fixed::lemma_mul_bounds(oy as int, oy as int, 0x8000_0000, 0x8000_0000);
        crate::fixed::lemma_mul_bounds(oz as int, oz as int, 0x8000_0000, 0x8000_0000);
        crate::fixed::lemma_mul_bounds(radius as int, radius as int, 0x2000_0000, 0x2000_0000);
    }
    let a: i128 = dx * dx + dy * dy + dz * dz;
    if a == 0 {
        return None;
    }
    let half_b: i128 = ox * dx + oy * dy + oz * dz;
    let cc: i128 = ox * ox + oy * oy + oz * oz - (radius as i128) * (radius as i128);
    let disc: i128 = half_b * half_b - a * cc;
    if disc < 0 {
        return None;
    }
    let sq_u: u128 = crate::fixed::isqrt_u128(disc as u128);
    let sq: i128 = sq_u as i128;
    proof {
        crate::fixed::lemma_sqf_is(disc as int, sq as int);
    }
    let t1: i128 = crate::fixed::div_i128((-half_b - sq) * 65536, a);
    let t2: i128 = crate::fixed::div_i128((-half_b + sq) * 65536, a);
    let tm_lo: i128 = t_min as i128;
    let tm_hi: i128 = t_max as i128;
    let t_wide: i128 = if tm_lo <= t1 && t1 <= tm_hi {
        t1
    } else {
        t2
    };
    if !(tm_lo <= t_wide && t_wide <= tm_hi) {
        return None;
    }
    let t: i64 = t_wide as i64;
    let p: Point3 = r.at(t);
    if !(crate::fixed::abs_i(p.x) <= 0x200_0000_0000 && crate::fixed::abs_i(p.y)
        <= 0x200_0000_0000 && crate::fixed::abs_i(p.z) <= 0x200_0000_0000) {
        return None;
    }
    let on = Vec3 {
        x: clamp(fx_div(p.x - center.x, radius), -65536, 65536),
        y: clamp(fx_div(p.y - center.y, radius), -65536, 65536),
        z: clamp(fx_div(p.z - center.z, radius), -65536, 65536),
    };
    let u: i64 = atan2_over_2pi(-on.z, on.x);
    let v: i64 = acos_over_pi(-on.y);
    let d: i64 = r.direction().dot(&on);
    let ff: bool = d < 0;
    let normal: Vec3 = if ff {
        on
    } else {
        on.neg()
    };
    Some(HitRecord { p, normal, material: crate::material::share_material(material), t, u, v, front_face: ff })
}

/// Magnitude bounds on the quadratic coefficients for admissible inputs.
proof fn lemma_quad_bounds(center: Point3, radius: i64, r: Ray)
    requires
        center.bounded(0x4000_0000),
        0 < radius <= W_MAX,
        r.orig.bounded(0x4000_0000),
        r.dir.bounded(0x4000_0000),
    ensures
        0 <= quad_a(r) <= 0x3000_0000_0000_0000,
        sabs(quad_half_b(center, r)) <= 0x6000_0000_0000_0000,
        sabs(quad_c(center, radius, r)) <= 0x1_0000_0000_0000_0000,
        sabs(quad_disc(center, radius, r)) <= 0x5400_0000_0000_0000_0000_0000_0000_0000,
        sabs(quad_half_b(center, r) * quad_half_b(center, r)) <= 0x2400_0000_0000_0000_0000_0000_0000_0000,
        sabs(quad_a(r) * quad_c(center, radius, r)) <= 0x3000_0000_0000_0000_0000_0000_0000_0000,
{
    let ox = r.orig.x - center.x;
    let oy = r.orig.y - center.y;
    let oz = r.orig.z - center.z;
    crate::fixed::lemma_mul_bounds(ox, r.dir.x as int, 0x8000_0000, 0x4000_0000);
    crate::fixed::lemma_mul_bounds(oy, r.dir.y as int, 0x8000_0000, 0x4000_0000);
    crate::fixed::lemma_mul_bounds(oz, r.dir.z as int, 0x8000_0000, 0x4000_0000);
    crate::fixed::lemma_mul_bounds(ox, ox, 0x8000_0000, 0x8000_0000);
    crate::fixed::lemma_mul_bounds(oy, oy, 0x8000_0000, 0x8000_0000);
    crate::fixed::lemma_mul_bounds(oz, oz, 0x8000_0000, 0x8000_0000);
    crate::fixed::lemma_mul_bounds(r.dir.x as int, r.dir.x as int, 0x4000_0000, 0x4000_0000);
    crate::fixed::lemma_mul_bounds(r.dir.y as int, r.dir.y as int, 0x4000_0000, 0x4000_0000);
    crate::fixed::lemma_mul_bounds(r.dir.z as int, r.dir.z as int, 0x4000_0000, 0x4000_0000);
    crate::fixed::lemma_mul_bounds(radius as int, radius as int, 0x2000_0000, 0x2000_0000);
    crate::fixed::lemma_mul_bounds(
        quad_half_b(center, r),
        quad_half_b(center, r),
        0x6000_0000_0000_0000,
        0x6000_0000_0000_0000,
    );
    crate::fixed::lemma_mul_bounds(
        quad_a(r),
        quad_c(center, radius, r),
        0x3000_0000_0000_0000,
        0x1_0000_0000_0000_0000,
    );
}

impl Sphere {
    pub open spec fn wf(self) -> bool {
        &&& self.center.bounded(0x1000_0000)
        &&& 0 < self.radius <= 0x1000_0000
        &&& (*self.material).wf()
    }

    pub fn new(center: Point3, radius: i64, material: Arc<Material>) -> (r: Sphere)
        ensures
            r.center == center && r.radius == radius && r.material == material,
    {
        Sphere { center, radius, material }
    }

    pub fn hit(&self, r: &Ray, t_min: i64, t_max: i64) -> (res: Option<HitRecord>)
        requires
            self.wf(),
            r.orig.bounded(0x4000_0000),
            r.dir.bounded(0x4000_0000),
            sabs(t_min as int) <= T_INF as int,
            sabs(t_max as int) <= T_INF as int,
        ensures
            res == sphere_hit_s(
                self.center,
                self.radius,
                self.material,
                *r,
                t_min as int,
                t_max as int,
            ),
            res is Some ==> t_min <= res->0.t <= t_max && res->0.normal.bounded(65536)
                && res->0.p.bounded(0x200_0000_0000) && 0 <= res->0.u <= 65536 && 0 <= res->0.v
                <= 65536 && res->0.material == self.material,
    {
        sphere_hit_at(self.center, self.radius, &self.material, r, t_min, t_max)
    }

    pub fn bounding_box(&self, _time0: i64, _time1: i64) -> (res: Option<crate::aabb::Aabb>)
        requires
            self.wf(),
        ensures
            res is Some,
            res->0.minimum == (Point3 {
                x: (self.center.x - self.radius) as i64,
                y: (self.center.y - self.radius) as i64,
                z: (self.center.z - self.radius) as i64,
            }),
            res->0.maximum == (Point3 {
                x: (self.center.x + self.radius) as i64,
                y: (self.center.y + self.radius) as i64,
                z: (self.center.z + self.radius) as i64,
            }),
            res->0.wf(),
    {
        Some(
            crate::aabb::Aabb::new(
                Point3 {
                    x: self.center.x - self.radius,
                    y: self.center.y - self.radius,
                    z: self.center.z - self.radius,
                },
                Point3 {
                    x: self.center.x + self.radius,
                    y: self.center.y + self.radius,
                    z: self.center.z + self.radius,
                },
            ),
        )
    }
}

/// Where the moving sphere's center sits at ray time `time`: linear motion
/// between the two keyframes, with the blend factor held near the keyframe
/// interval.
pub open spec fn moving_center_s(m: MovingSphere, time: i64) -> Point3 {
    let k = crate::trig::clamp_s(
        fdiv(time - m.time_start, m.time_end - m.time_start),
        -65536,
        131072,
    );
    Point3 {
        x: (m.center_start.x + crate::fixed::fmul(k, m.center_end.x - m.center_start.x)) as i64,
        y: (m.center_start.y + crate::fixed::fmul(k, m.center_end.y - m.center_start.y)) as i64,
        z: (m.center_start.z + crate::fixed::fmul(k, m.center_end.z - m.center_start.z)) as i64,
    }
}

impl MovingSphere {
    pub open spec fn wf(self) -> bool {
        &&& self.center_start.bounded(0x400_0000)
        &&& self.center_end.bounded(0x400_0000)
        &&& self.time_start < self.time_end
        &&& sabs(self.time_start as int) <= 0x1000_0000_0000
        &&& sabs(self.time_end as int) <= 0x1000_0000_0000
        &&& 0 < self.radius <= 0x400_0000
        &&& (*self.material).wf()
    }

    pub fn new(
        center_start: Point3,
        center_end: Point3,
        time_start: i64,
        time_end: i64,
        radius: i64,
        material: Arc<Material>,
    ) -> (r: MovingSphere)
        ensures
            r.center_start == center_start && r.center_end == center_end && r.time_start
                == time_start && r.time_end == time_end && r.radius == radius && r.material
                == material,
    {
        MovingSphere { center_start, center_end, time_start, time_end, radius, material }
    }

    /// The interpolated center for the given time.
    pub fn center(&self, time: i64) -> (res: Point3)
        requires
            self.wf(),
            sabs(time as int) <= T_INF as int,
        ensures
            res == moving_center_s(*self, time),
            res.bounded(0x1400_0000),
    {
        let span: i64 = self.time_end - self.time_start;
        let k0: i64 = fx_div(time - self.time_start, span);
        let k: i64 = clamp(k0, -65536, 131072);
        proof {
            crate::fixed::lemma_mul_bounds(
                k as int,
                self.center_end.x as int - self.center_start.x as int,
                131072,
                0x800_0000,
            );
            crate::fixed::lemma_mul_bounds(
                k as int,
                self.center_end.y as int - self.center_start.y as int,
                131072,
                0x800_0000,
            );
            crate::fixed::lemma_mul_bounds(
                k as int,
                self.center_end.z as int - self.center_start.z as int,
                131072,
                0x800_0000,
            );
            crate::fixed::lemma_tdiv_le(
                k as int * (self.center_end.x as int - self.center_start.x as int),
                0x1_0000,
                131072int * 0x800_0000int,
            );
            crate::fixed::lemma_tdiv_le(
                k as int * (self.center_end.y as int - self.center_start.y as int),
                0x1_0000,
                131072int * 0x800_0000int,
            );
            crate::fixed::lemma_tdiv_le(
                k as int * (self.center_end.z as int - self.center_start.z as int),
                0x1_0000,
                131072int * 0x800_0000int,
            );
        }
        Point3 {
            x: self.center_start.x + crate::fixed::fx_mul(k, self.center_end.x - self.center_start.x),
            y: self.center_start.y + crate::fixed::fx_mul(k, self.center_end.y - self.center_start.y),
            z: self.center_start.z + crate::fixed::fx_mul(k, self.center_end.z - self.center_start.z),
        }
    }

    pub fn hit(&self, r: &Ray, t_min: i64, t_max: i64) -> (res: Option<HitRecord>)
        requires
            self.wf(),
            r.orig.bounded(0x4000_0000),
            r.dir.bounded(0x4000_0000),
            sabs(r.time as int) <= T_INF as int,
            sabs(t_min as int) <= T_INF as int,
            sabs(t_max as int) <= T_INF as int,
        ensures
            res == sphere_hit_s(
                moving_center_s(*self, r.time),
                self.radius,
                self.material,
                *r,
                t_min as int,
                t_max as int,
            ),
            res is Some ==> t_min <= res->0.t <= t_max && res->0.normal.bounded(65536)
                && res->0.p.bounded(0x200_0000_0000) && 0 <= res->0.u <= 65536 && 0 <= res->0.v
                <= 65536 && res->0.material == self.material,
    {
        let c: Point3 = self.center(r.time());
        sphere_hit_at(c, self.radius, &self.material, r, t_min, t_max)
    }

    pub fn bounding_box(&self, time0: i64, time1: i64) -> (res: Option<crate::aabb::Aabb>)
        requires
            self.wf(),
            sabs(time0 as int) <= T_INF as int,
            sabs(time1 as int) <= T_INF as int,
        ensures
            res is Some,
            res->0.wf(),
            res->0 == (crate::aabb::Aabb {
                minimum: Point3 {
                    x: crate::aabb::imin(
                        (moving_center_s(*self, time0).x - self.radius) as i64,
                        (moving_center_s(*self, time1).x - self.radius) as i64,
                    ),
                    y: crate::aabb::imin(
                        (moving_center_s(*self, time0).y - self.radius) as i64,
                        (moving_center_s(*self, time1).y - self.radius) as i64,
                    ),
                    z: crate::aabb::imin(
                        (moving_center_s(*self, time0).z - self.radius) as i64,
                        (moving_center_s(*self, time1).z - self.radius) as i64,
                    ),
                },
                maximum: Point3 {
                    x: crate::aabb::imax(
                        (moving_center_s(*self, time0).x + self.radius) as i64,
                        (moving_center_s(*self, time1).x + self.radius) as i64,
                    ),
                    y: crate::aabb::imax(
                        (moving_center_s(*self, time0).y + self.radius) as i64,
                        (moving_center_s(*self, time1).y + self.radius) as i64,
                    ),
                    z: crate::aabb::imax(
                        (moving_center_s(*self, time0).z + self.radius) as i64,
                        (moving_center_s(*self, time1).z + self.radius) as i64,
                    ),
                },
            }),
    {
        let c0: Point3 = self.center(time0);
        let c1: Point3 = self.center(time1);
        let box0 = crate::aabb::Aabb::new(
            Point3 { x: c0.x - self.radius, y: c0.y - self.radius, z: c0.z - self.radius },
            Point3 { x: c0.x + self.radius, y: c0.y + self.radius, z: c0.z + self.radius },
        );
        let box1 = crate::aabb::Aabb::new(
            Point3 { x: c1.x - self.radius, y: c1.y - self.radius, z: c1.z - self.radius },
            Point3 { x: c1.x + self.radius, y: c1.y + self.radius, z: c1.z + self.radius },
        );
        Some(crate::aabb::Aabb::surrounding_box(&box0, &box1))
    }
}

/// Surface coordinates from an outward unit-scale normal.
pub fn get_sphere_uv(p: &Point3) -> (uv: (i64, i64))
    requires
        p.bounded(65536),
    ensures
        uv.0 as int == sphere_uv_s(*p).0,
        uv.1 as int == sphere_uv_s(*p).1,
        0 <= uv.0 <= 65536,
        0 <= uv.1 <= 65536,
{
    (atan2_over_2pi(-p.z, p.x), acos_over_pi(-p.y))
}

} // verus!
