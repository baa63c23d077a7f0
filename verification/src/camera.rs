//! The camera: an origin, a viewport frame built from the field of view and
//! focus distance, a lens radius for depth of field and a shutter interval
//! for motion blur.  Construction and ray generation are pinned to the spec
//! model below; the lens and shutter samples enter `get_ray` as existential
//! witnesses.

use crate::fixed::{clamp, ediv, fmul, fx_mul, sabs, ONE};
use crate::ray::Ray;
use crate::rng::random_fraction;
use crate::trig::{clamp_s, tan_half_deg, tan_half_s};
use crate::vec3::{cross_s, sq_sum_s, unit_s, Point3, Vec3};
use vstd::prelude::*;

verus! {

pub struct Camera {
    pub origin: Point3,
    pub lower_left_corner: Point3,
    pub horizontal: Vec3,
    pub vertical: Vec3,
    pub u: Vec3,
    pub v: Vec3,
    pub w: Vec3,
    pub lens_radius: i64,
    pub time_start: i64,
    pub time_end: i64,
}

/// Component-wise scaling by a fixed-point factor.
pub open spec fn scale3_s(v: Vec3, k: int) -> Vec3 {
    Vec3 {
        x: fmul(v.x as int, k) as i64,
        y: fmul(v.y as int, k) as i64,
        z: fmul(v.z as int, k) as i64,
    }
}

/// The unit view direction, from the target back to the eye.
pub open spec fn frame_w_s(look_from: Point3, look_at: Point3) -> Vec3 {
    unit_s(
        Vec3 {
            x: (look_from.x - look_at.x) as i64,
            y: (look_from.y - look_at.y) as i64,
            z: (look_from.z - look_at.z) as i64,
        },
    )
}

/// The viewport's right axis: the up-vector crossed with the view direction,
/// normalized, or the x axis when that cross product degenerates.
pub open spec fn frame_u_s(vup: Vec3, w: Vec3) -> Vec3 {
    let cu = cross_s(vup, w);
    if (cu.x == 0 && cu.y == 0 && cu.z == 0) || !cu.bounded(0x4000_0000) {
        Vec3 { x: 65536, y: 0, z: 0 }
    } else {
        unit_s(cu)
    }
}

/// The viewport's up axis, clamped into two units per component.
pub open spec fn frame_v_s(w: Vec3, u: Vec3) -> Vec3 {
    let v0 = cross_s(w, u);
    Vec3 {
        x: clamp_s(v0.x as int, -131072, 131072) as i64,
        y: clamp_s(v0.y as int, -131072, 131072) as i64,
        z: clamp_s(v0.z as int, -131072, 131072) as i64,
    }
}

/// Everything the constructor computes, as one function of its arguments.
pub open spec fn camera_s(
    look_from: Point3,
    look_at: Point3,
    vup: Vec3,
    vfov: i64,
    aspect_ratio: i64,
    aperture: i64,
    focus_dist: i64,
    time_start: i64,
    time_end: i64,
) -> Camera {
    let h = clamp_s(tan_half_s(vfov as int), 1, 1024int * 65536int);
    let viewport_height = 2 * h;
    let viewport_width = fmul(aspect_ratio as int, viewport_height);
    let w = frame_w_s(look_from, look_at);
    let u = frame_u_s(vup, w);
    let v = frame_v_s(w, u);
    let hspan = clamp_s(fmul(focus_dist as int, viewport_width), 0, 0x200_0000);
    let vspan = clamp_s(fmul(focus_dist as int, viewport_height), 0, 0x200_0000);
    let horizontal = scale3_s(u, hspan);
    let vertical = scale3_s(v, vspan);
    let wstep = scale3_s(w, clamp_s(focus_dist as int, 0, 0x200_0000));
    Camera {
        origin: look_from,
        lower_left_corner: Point3 {
            x: (look_from.x - horizontal.x as int / 2 - vertical.x as int / 2 - wstep.x) as i64,
            y: (look_from.y - horizontal.y as int / 2 - vertical.y as int / 2 - wstep.y) as i64,
            z: (look_from.z - horizontal.z as int / 2 - vertical.z as int / 2 - wstep.z) as i64,
        },
        horizontal,
        vertical,
        u,
        v,
        w,
        lens_radius: (aperture as int / 2) as i64,
        time_start,
        time_end,
    }
}

/// The ray the camera emits for viewport coordinates `(s, t)`, given the
/// lens sample `rd` and the shutter fraction `f`: the origin is offset along
/// the frame by the lens sample, and origin plus direction lands exactly on
/// `lower_left_corner + s*horizontal + t*vertical`.
pub open spec fn camera_ray_s(cam: Camera, s: i64, t: i64, rd: Vec3, f: i64) -> Ray {
    let lx = fmul(cam.lens_radius as int, rd.x as int);
    let ly = fmul(cam.lens_radius as int, rd.y as int);
    let ou = scale3_s(cam.u, clamp_s(lx, -0x100_0000, 0x100_0000));
    let ov = scale3_s(cam.v, clamp_s(ly, -0x100_0000, 0x100_0000));
    let offset = Vec3 {
        x: (ou.x + ov.x) as i64,
        y: (ou.y + ov.y) as i64,
        z: (ou.z + ov.z) as i64,
    };
    let hs = scale3_s(cam.horizontal, s as int);
    let vt = scale3_s(cam.vertical, t as int);
    Ray {
        orig: Point3 {
            x: (cam.origin.x + offset.x) as i64,
            y: (cam.origin.y + offset.y) as i64,
            z: (cam.origin.z + offset.z) as i64,
        },
        dir: Vec3 {
            x: (cam.lower_left_corner.x + hs.x + vt.x - cam.origin.x - offset.x) as i64,
            y: (cam.lower_left_corner.y + hs.y + vt.y - cam.origin.y - offset.y) as i64,
            z: (cam.lower_left_corner.z + hs.z + vt.z - cam.origin.z - offset.z) as i64,
        },
        time: (cam.time_start + fmul(cam.time_end as int - cam.time_start, f as int)) as i64,
    }
}

impl Camera {
    pub open spec fn wf(self) -> bool {
        &&& self.origin.bounded(0x1000_0000)
        &&& self.lower_left_corner.bounded(0x1B00_0000)
        &&& self.horizontal.bounded(0x800_0000)
        &&& self.vertical.bounded(0x800_0000)
        &&& self.u.bounded(2 * ONE as int)
        &&& self.v.bounded(2 * ONE as int)
        &&& 0 <= self.lens_radius <= 16 * ONE
        &&& 0 <= self.time_start <= self.time_end
        &&& self.time_end <= 0x1000_0000
    }

    /// A still camera: the shutter interval collapses to time zero.
    pub fn new(
        look_from: Point3,
        look_at: Point3,
        vup: Vec3,
        vfov: i64,
        aspect_ratio: i64,
        aperture: i64,
        focus_dist: i64,
    ) -> (r: Camera)
        requires
            look_from.bounded(0x1000_0000),
            look_at.bounded(0x1000_0000),
            look_from != look_at,
            vup.bounded(16 * ONE as int),
            0 < vfov < 180 * 65536,
            0 < aspect_ratio <= 16 * ONE,
            0 <= aperture <= 16 * ONE,
            0 < focus_dist <= 0x100_0000,
        ensures
            r == camera_s(look_from, look_at, vup, vfov, aspect_ratio, aperture, focus_dist, 0, 0),
            r.wf(),
            r.origin == look_from,
            r.time_start == 0 && r.time_end == 0,
    {
        Camera::new_with_time(look_from, look_at, vup, vfov, aspect_ratio, aperture, focus_dist, 0, 0)
    }

    /// Build the viewport frame from the vertical field of view (fixed-point
    /// degrees), aspect ratio and focus distance; extreme viewports are
    /// clamped into representable range.
    #[verifier::rlimit(100)]
    pub fn new_with_time(
        look_from: Point3,
        look_at: Point3,
        vup: Vec3,
        vfov: i64,
        aspect_ratio: i64,
        aperture: i64,
        focus_dist: i64,
        time_start: i64,
        time_end: i64,
    ) -> (r: Camera)
        requires
            look_from.bounded(0x1000_0000),
            look_at.bounded(0x1000_0000),
            look_from != look_at,
            vup.bounded(16 * ONE as int),
            0 < vfov < 180 * 65536,
            0 < aspect_ratio <= 16 * ONE,
            0 <= aperture <= 16 * ONE,
            0 < focus_dist <= 0x100_0000,
            0 <= time_start <= time_end,
            time_end <= 0x1000_0000,
        ensures
            r == camera_s(
                look_from,
                look_at,
                vup,
                vfov,
                aspect_ratio,
                aperture,
                focus_dist,
                time_start,
                time_end,
            ),
            r.wf(),
            r.origin == look_from,
            r.time_start == time_start && r.time_end == time_end,
    {
        let h: i64 = clamp(tan_half_deg(vfov), 1, 1024 * 65536);
        let viewport_height: i64 = 2 * h;
        proof {
            crate::fixed::lemma_mul_bounds(aspect_ratio as int, viewport_height as int, 16int * 65536int, 2048int * 65536int);
            crate::fixed::lemma_tdiv_le(
                aspect_ratio as int * viewport_height as int,
                0x1_0000,
                16int * 65536int * 2048int * 65536int,
            );
        }
        let viewport_width: i64 = fx_mul(aspect_ratio, viewport_height);

        let frame = build_frame(look_from, look_at, vup);
        let w = frame.0;
        let u = frame.1;
        let v = frame.2;

        let origin = look_from;
        proof {
            crate::fixed::lemma_mul_bounds(focus_dist as int, viewport_width as int, 0x100_0000, 0x2000_0000_0000);
            crate::fixed::lemma_tdiv_le(
                focus_dist as int * viewport_width as int,
                0x1_0000,
                0x100_0000int * 0x2000_0000_0000int,
            );
            crate::fixed::lemma_mul_bounds(focus_dist as int, viewport_height as int, 0x100_0000, 2048int * 65536int);
            crate::fixed::lemma_tdiv_le(
                focus_dist as int * viewport_height as int,
                0x1_0000,
                0x100_0000int * 2048int * 65536int,
            );
        }
        let hspan: i64 = clamp(fx_mul(focus_dist, viewport_width), 0, 0x200_0000);
        let vspan: i64 = clamp(fx_mul(focus_dist, viewport_height), 0, 0x200_0000);
        let horizontal = scale_frame(&u, hspan);
        let vertical = scale_frame(&v, vspan);
        let wstep = scale_frame(&w, clamp(focus_dist, 0, 0x200_0000));
        let lower_left_corner = Point3 {
            x: origin.x - half(horizontal.x) - half(vertical.x) - wstep.x,
            y: origin.y - half(horizontal.y) - half(vertical.y) - wstep.y,
            z: origin.z - half(horizontal.z) - half(vertical.z) - wstep.z,
        };
        let lens_radius: i64 = ediv(aperture, 2);
        proof {
            assert(0 <= aperture as int / 2 <= aperture as int) by (nonlinear_arith)
                requires
                    aperture >= 0,
            ;
        }
        Camera {
            origin,
            lower_left_corner,
            horizontal,
            vertical,
            u,
            v,
            w,
            lens_radius,
            time_start,
            time_end,
        }
    }

    /// The ray through viewport coordinates `(s, t)`: exactly the camera-ray
    /// model at some lens sample in the unit disk and some shutter fraction.
    #[verifier::rlimit(100)]
    pub fn get_ray(&self, s: i64, t: i64) -> (r: Ray)
        requires
            self.wf(),
            0 <= s <= ONE,
            0 <= t <= ONE,
        ensures
            exists|rd: Vec3, f: i64|
                rd.bounded(ONE as int) && crate::fixed::tdiv(sq_sum_s(rd), ONE as int) < ONE as int
                    && rd.z == 0 && 0 <= f < 65536 && r == camera_ray_s(*self, s, t, rd, f),
            r.orig.bounded(0x4000_0000),
            r.dir.bounded(0x4000_0000),
            self.time_start <= r.time <= self.time_end,
    {
        let rd = Vec3::random_in_unit_disk();
        proof {
            crate::fixed::lemma_mul_bounds(self.lens_radius as int, rd.x as int, 0x10_0000, 0x1_0000);
            crate::fixed::lemma_mul_bounds(self.lens_radius as int, rd.y as int, 0x10_0000, 0x1_0000);
            crate::fixed::lemma_tdiv_le(
                self.lens_radius as int * rd.x as int,
                0x1_0000,
                0x10_0000int * 0x1_0000int,
            );
            crate::fixed::lemma_tdiv_le(
                self.lens_radius as int * rd.y as int,
                0x1_0000,
                0x10_0000int * 0x1_0000int,
            );
        }
        let lx: i64 = fx_mul(self.lens_radius, rd.x);
        let ly: i64 = fx_mul(self.lens_radius, rd.y);
        let ou = scale_frame(&self.u, clamp(lx, -0x100_0000, 0x100_0000));
        let ov = scale_frame(&self.v, clamp(ly, -0x100_0000, 0x100_0000));
        proof {
            assert(ou.bounded(0x200_0000));
            assert(ov.bounded(0x200_0000));
        }
        let offset = Vec3 { x: ou.x + ov.x, y: ou.y + ov.y, z: ou.z + ov.z };
        let hs = scale_span(&self.horizontal, s);
        let vt = scale_span(&self.vertical, t);
        let orig = Vec3 {
            x: self.origin.x + offset.x,
            y: self.origin.y + offset.y,
            z: self.origin.z + offset.z,
        };
        let dir = Vec3 {
            x: self.lower_left_corner.x + hs.x + vt.x - self.origin.x - offset.x,
            y: self.lower_left_corner.y + hs.y + vt.y - self.origin.y - offset.y,
            z: self.lower_left_corner.z + hs.z + vt.z - self.origin.z - offset.z,
        };
        let span: i64 = self.time_end - self.time_start;
        let f: i64 = random_fraction();
        proof {
            crate::fixed::lemma_mul_bounds(span as int, f as int, 0x1000_0000, 0x1_0000);
            crate::fixed::lemma_abs_mul(span as int, f as int);
            assert(span as int * f as int <= span as int * 0x1_0000) by (nonlinear_arith)
                requires
                    0 <= span as int && 0 <= f as int <= 0x1_0000,
            ;
            crate::fixed::lemma_div_monotone(span as int * f as int, span as int * 0x1_0000, 0x1_0000);
            assert((span as int * 0x1_0000) / 0x1_0000 == span as int) by (nonlinear_arith);
        }
        let time: i64 = self.time_start + fx_mul(span, f);
        let r = Ray { orig, dir, time };
        proof {
            assert(r == camera_ray_s(*self, s, t, rd, f));
        }
        r
    }
}

/// The orthonormal-by-construction frame `(w, u, v)` of the viewport.
fn build_frame(look_from: Point3, look_at: Point3, vup: Vec3) -> (frame: (Vec3, Vec3, Vec3))
    requires
        look_from.bounded(0x1000_0000),
        look_at.bounded(0x1000_0000),
        look_from != look_at,
        vup.bounded(16 * ONE as int),
    ensures
        frame.0 == frame_w_s(look_from, look_at),
        frame.1 == frame_u_s(vup, frame.0),
        frame.2 == frame_v_s(frame.0, frame.1),
        frame.0.bounded(ONE as int),
        frame.1.bounded(ONE as int),
        frame.2.bounded(2 * ONE as int),
{
    let span = Vec3 {
        x: look_from.x - look_at.x,
        y: look_from.y - look_at.y,
        z: look_from.z - look_at.z,
    };
    proof {
        crate::vec3::lemma_nonzero_sq_sum(span);
    }
    let w = span.unit_vector();
    let cu = vup.cross(&w);
    let u = if cu.near_zero() || !(-0x4000_0000 <= cu.x && cu.x <= 0x4000_0000 && -0x4000_0000
        <= cu.y && cu.y <= 0x4000_0000 && -0x4000_0000 <= cu.z && cu.z <= 0x4000_0000) {
        Vec3 { x: 65536, y: 0, z: 0 }
    } else {
        proof {
            crate::vec3::lemma_nonzero_sq_sum(cu);
        }
        cu.unit_vector()
    };
    let v0 = w.cross(&u);
    let v = Vec3 {
        x: clamp(v0.x, -131072, 131072),
        y: clamp(v0.y, -131072, 131072),
        z: clamp(v0.z, -131072, 131072),
    };
    (w, u, v)
}

/// Half of a span component: the floor of division by two.
fn half(x: i64) -> (r: i64)
    requires
        sabs(x as int) <= 0x4000_0000,
    ensures
        r as int == (x as int) / 2,
{
    ediv(x, 2)
}

/// Scale a unit-frame vector by a bounded fixed-point factor: the result is
/// within twice the factor's magnitude on every component.
fn scale_frame(u: &Vec3, k: i64) -> (r: Vec3)
    requires
        u.bounded(2 * ONE as int),
        sabs(k as int) <= 0x400_0000,
    ensures
        r == scale3_s(*u, k as int),
        r.bounded(2 * sabs(k as int)),
{
    proof {
        crate::fixed::lemma_mul_bounds(u.x as int, k as int, 131072, sabs(k as int));
        crate::fixed::lemma_mul_bounds(u.y as int, k as int, 131072, sabs(k as int));
        crate::fixed::lemma_mul_bounds(u.z as int, k as int, 131072, sabs(k as int));
        crate::fixed::lemma_tdiv_le(u.x as int * k as int, 0x1_0000, 131072 * sabs(k as int));
        crate::fixed::lemma_tdiv_le(u.y as int * k as int, 0x1_0000, 131072 * sabs(k as int));
        crate::fixed::lemma_tdiv_le(u.z as int * k as int, 0x1_0000, 131072 * sabs(k as int));
        assert((131072 * sabs(k as int)) / 65536 == 2 * sabs(k as int)) by (nonlinear_arith)
            requires
                sabs(k as int) >= 0,
        ;
    }
    Vec3 { x: fx_mul(u.x, k), y: fx_mul(u.y, k), z: fx_mul(u.z, k) }
}

/// Scale a viewport-span vector by a unit-interval coordinate.
fn scale_span(hv: &Vec3, s: i64) -> (r: Vec3)
    requires
        hv.bounded(0x800_0000),
        0 <= s <= ONE,
    ensures
        r == scale3_s(*hv, s as int),
        r.bounded(0x800_0000),
{
    proof {
        crate::fixed::lemma_mul_bounds(hv.x as int, s as int, 0x800_0000, 0x1_0000);
        crate::fixed::lemma_mul_bounds(hv.y as int, s as int, 0x800_0000, 0x1_0000);
        crate::fixed::lemma_mul_bounds(hv.z as int, s as int, 0x800_0000, 0x1_0000);
        crate::fixed::lemma_tdiv_le(hv.x as int * s as int, 0x1_0000, 0x800_0000int * 0x1_0000int);
        crate::fixed::lemma_tdiv_le(hv.y as int * s as int, 0x1_0000, 0x800_0000int * 0x1_0000int);
        crate::fixed::lemma_tdiv_le(hv.z as int * s as int, 0x1_0000, 0x800_0000int * 0x1_0000int);
    }
    Vec3 { x: fx_mul(hv.x, s), y: fx_mul(hv.y, s), z: fx_mul(hv.z, s) }
}

} // verus!
