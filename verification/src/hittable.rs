//! The scene tree: primitives, structural combinators (translation, y-axis
//! rotation, lists, constant-density media) and bounding-volume nodes, with
//! one closed intersection function over all of them.
//!
//! `hit_model` is the mathematical meaning of `hit` for scenes free of
//! participating media; a medium draws a random free-flight distance, so for
//! it `hit` promises bounds over every outcome instead.

use crate::aabb::Aabb;
use crate::fixed::{abs_i, clamp, fmul, fx_div, max_i, min_i, sabs, tdiv, ONE, T_INF};
use crate::material::Material;
use crate::ray::Ray;
use crate::rect::{xy_rect_hit_s, xz_rect_hit_s, yz_rect_hit_s, XYRect, XZRect, YZRect};
use crate::rng::random_fraction;
use crate::sphere::{moving_center_s, sphere_hit_s, MovingSphere, Sphere};
use crate::trig::clamp_s;
use crate::vec3::{dot_s, neg_s, Point3, Vec3};
use std::sync::Arc;
use vstd::prelude::*;

verus! {

broadcast use vstd::std_specs::vec::axiom_vec_index_decreases;

pub struct HitRecord {
    pub p: Point3,
    pub normal: Vec3,
    pub material: Arc<Material>,
    pub t: i64,
    pub u: i64,
    pub v: i64,
    pub front_face: bool,
}

impl HitRecord {
    /// Orient the stored normal against the incoming ray and record which
    /// side was struck.
    pub fn set_face_normal(&mut self, r: &Ray, outward_normal: &Vec3)
        requires
            outward_normal.bounded(0x4000_0000),
            r.dir.bounded(0x4000_0000),
        ensures
            final(self).front_face == (dot_s(r.dir, *outward_normal) < 0),
            final(self).normal == if dot_s(r.dir, *outward_normal) < 0 {
                *outward_normal
            } else {
                neg_s(*outward_normal)
            },
            final(self).p == old(self).p,
            final(self).t == old(self).t,
            final(self).u == old(self).u,
            final(self).v == old(self).v,
            final(self).material == old(self).material,
    {
        let d: i64 = r.direction().dot(outward_normal);
        self.front_face = d < 0;
        self.normal = if self.front_face {
            *outward_normal
        } else {
            outward_normal.neg()
        };
    }
}

/// The oriented normal can never point along the incoming ray.
pub proof fn lemma_front_face_convention(dir: Vec3, outward: Vec3)
    requires
        outward.bounded(0x7fff_ffff_ffff_fffe),
    ensures
        dot_s(
            dir,
            if dot_s(dir, outward) < 0 {
                outward
            } else {
                neg_s(outward)
            },
        ) <= 0,
{
    let d = dot_s(dir, outward);
    if d >= 0 {
        lemma_dot_neg(dir, outward);
    }
}

/// Negating one argument negates the rounded dot product.
pub proof fn lemma_dot_neg(a: Vec3, b: Vec3)
    requires
        b.bounded(0x7fff_ffff_ffff_fffe),
    ensures
        dot_s(a, neg_s(b)) == -dot_s(a, b),
{
    let n = a.x as int * b.x as int + a.y as int * b.y as int + a.z as int * b.z as int;
    let nn = a.x as int * (neg_s(b).x as int) + a.y as int * (neg_s(b).y as int) + a.z as int * (
    neg_s(b).z as int);
    assert(nn == -n) by (nonlinear_arith)
        requires
            nn == a.x as int * (-(b.x as int)) + a.y as int * (-(b.y as int)) + a.z as int * (-(b.z
                as int)) && n == a.x as int * b.x as int + a.y as int * b.y as int + a.z as int
                * b.z as int,
    ;
}

pub enum Hittable {
    Sphere(Sphere),
    MovingSphere(MovingSphere),
    XYRect(XYRect),
    XZRect(XZRect),
    YZRect(YZRect),
    B0x(B0x),
    ConstantMedium(ConstantMedium),
    Translate(Translate),
    RotateY(RotateY),
    BVHNode(BVHNode),
    List(HittableList),
}

pub struct HittableList {
    pub objects: Vec<Hittable>,
}

pub struct B0x {
    pub box_min: Point3,
    pub box_max: Point3,
    pub sides: HittableList,
}

pub struct ConstantMedium {
    pub boundary: Box<Hittable>,
    pub phase_func: Arc<Material>,
    pub neg_inv_density: i64,
}

pub struct Translate {
    pub hittable: Box<Hittable>,
    pub offset: Vec3,
}

pub struct RotateY {
    pub hittable: Box<Hittable>,
    pub sin_theta: i64,
    pub cos_theta: i64,
    pub bbox: Option<Aabb>,
}

pub struct BVHNode {
    pub left: Box<Hittable>,
    pub right: Box<Hittable>,
    pub bbox: Aabb,
}

impl Hittable {
    /// Structural well-formedness: every primitive's data within the world
    /// bounds, every material well-formed.
    pub open spec fn wf(self) -> bool
        decreases self,
    {
        match self {
            Hittable::Sphere(s) => s.wf(),
            Hittable::MovingSphere(m) => m.wf(),
            Hittable::XYRect(rc) => rc.wf(),
            Hittable::XZRect(rc) => rc.wf(),
            Hittable::YZRect(rc) => rc.wf(),
            Hittable::B0x(b) => seq_wf(b.sides.objects@) && b.box_min.bounded(0x1000_0000)
                && b.box_max.bounded(0x1000_0000) && b.box_min.x <= b.box_max.x && b.box_min.y
                <= b.box_max.y && b.box_min.z <= b.box_max.z,
            Hittable::ConstantMedium(c) => c.boundary.wf() && (*c.phase_func).wf()
                && -0x1_0000_0000_0000 <= c.neg_inv_density <= 0,
            Hittable::Translate(t) => t.hittable.wf() && t.offset.bounded(0x800_0000),
            Hittable::RotateY(ro) => ro.hittable.wf() && sabs(ro.sin_theta as int) <= ONE as int
                && sabs(ro.cos_theta as int) <= ONE as int && (ro.bbox is Some
                ==> ro.bbox->0.wf()),
            Hittable::BVHNode(n) => n.left.wf() && n.right.wf() && n.bbox.wf(),
            Hittable::List(l) => seq_wf(l.objects@),
        }
    }

    /// True when no participating medium sits anywhere in the tree, so the
    /// intersection is a pure function of the ray.
    pub open spec fn deterministic(self) -> bool
        decreases self,
    {
        match self {
            Hittable::Sphere(_) => true,
            Hittable::MovingSphere(_) => true,
            Hittable::XYRect(_) => true,
            Hittable::XZRect(_) => true,
            Hittable::YZRect(_) => true,
            Hittable::B0x(b) => seq_deterministic(b.sides.objects@),
            Hittable::ConstantMedium(_) => false,
            Hittable::Translate(t) => t.hittable.deterministic(),
            Hittable::RotateY(ro) => ro.hittable.deterministic(),
            Hittable::BVHNode(n) => n.left.deterministic() && n.right.deterministic(),
            Hittable::List(l) => seq_deterministic(l.objects@),
        }
    }
}

pub open spec fn seq_wf(s: Seq<Hittable>) -> bool
    decreases s,
{
    if s.len() == 0 {
        true
    } else {
        seq_wf(s.subrange(0, s.len() - 1)) && s[s.len() - 1].wf()
    }
}

pub open spec fn seq_deterministic(s: Seq<Hittable>) -> bool
    decreases s,
{
    if s.len() == 0 {
        true
    } else {
        seq_deterministic(s.subrange(0, s.len() - 1)) && s[s.len() - 1].deterministic()
    }
}

/// Every prefix of a well-formed sequence is well-formed, and every element.
pub proof fn lemma_seq_wf_index(s: Seq<Hittable>, i: int)
    requires
        seq_wf(s),
        0 <= i < s.len(),
    ensures
        s[i].wf(),
        seq_wf(s.subrange(0, i)),
        seq_wf(s.subrange(0, i + 1)),
    decreases s.len(),
{
    if i == s.len() - 1 {
        assert(s.subrange(0, i + 1) == s);
    } else {
        let front = s.subrange(0, s.len() - 1);
        assert(front[i] == s[i]);
        assert(front.subrange(0, i) == s.subrange(0, i));
        assert(front.subrange(0, i + 1) == s.subrange(0, i + 1));
        lemma_seq_wf_index(front, i);
    }
}

pub proof fn lemma_seq_det_index(s: Seq<Hittable>, i: int)
    requires
        seq_deterministic(s),
        0 <= i < s.len(),
    ensures
        s[i].deterministic(),
        seq_deterministic(s.subrange(0, i)),
        seq_deterministic(s.subrange(0, i + 1)),
    decreases s.len(),
{
    if i == s.len() - 1 {
        assert(s.subrange(0, i + 1) == s);
    } else {
        let front = s.subrange(0, s.len() - 1);
        assert(front[i] == s[i]);
        assert(front.subrange(0, i) == s.subrange(0, i));
        assert(front.subrange(0, i + 1) == s.subrange(0, i + 1));
        lemma_seq_det_index(front, i);
    }
}

/// The ray a translated child sees.
pub open spec fn moved_ray(offset: Vec3, r: Ray) -> Ray {
    Ray {
        orig: Point3 {
            x: (r.orig.x - offset.x) as i64,
            y: (r.orig.y - offset.y) as i64,
            z: (r.orig.z - offset.z) as i64,
        },
        dir: r.dir,
        time: r.time,
    }
}

/// What a translation makes of its child's intersection.
pub open spec fn translate_step(offset: Vec3, moved: Ray, child: Option<HitRecord>) -> Option<
    HitRecord,
> {
    match child {
        None => None,
        Some(rec0) => {
            if !rec0.p.bounded(0x4000_0000_0000) {
                None
            } else {
                Some(shift_rec(rec0, offset, moved))
            }
        },
    }
}

/// The intersection a translated child reports, given the child's record.
pub open spec fn shift_rec(rec0: HitRecord, offset: Vec3, moved: Ray) -> HitRecord {
    let shifted = Point3 {
        x: (rec0.p.x + offset.x) as i64,
        y: (rec0.p.y + offset.y) as i64,
        z: (rec0.p.z + offset.z) as i64,
    };
    let ff = dot_s(moved.dir, rec0.normal) < 0;
    HitRecord {
        p: shifted,
        normal: if ff {
            rec0.normal
        } else {
            neg_s(rec0.normal)
        },
        material: rec0.material,
        t: rec0.t,
        u: rec0.u,
        v: rec0.v,
        front_face: ff,
    }
}

/// The meaning of `hit` on media-free trees: a pure function of the scene,
/// the ray and the parameter interval.
pub open spec fn hit_model(h: Hittable, r: Ray, tmin: int, tmax: int) -> Option<HitRecord>
    decreases h,
{
    match h {
        Hittable::Sphere(s) => sphere_hit_s(s.center, s.radius, s.material, r, tmin, tmax),
        Hittable::MovingSphere(m) => sphere_hit_s(
            moving_center_s(m, r.time),
            m.radius,
            m.material,
            r,
            tmin,
            tmax,
        ),
        Hittable::XYRect(rc) => xy_rect_hit_s(rc, r, tmin, tmax),
        Hittable::XZRect(rc) => xz_rect_hit_s(rc, r, tmin, tmax),
        Hittable::YZRect(rc) => yz_rect_hit_s(rc, r, tmin, tmax),
        Hittable::B0x(b) => group_model(b.sides.objects@, r, tmin, tmax),
        Hittable::ConstantMedium(_) => None,
        Hittable::Translate(t) => {
            let moved = moved_ray(t.offset, r);
            if !moved.orig.bounded(0x4000_0000) {
                None
            } else {
                translate_step(t.offset, moved, hit_model(*t.hittable, moved, tmin, tmax))
            }
        },
        Hittable::RotateY(ro) => {
            let rox = fmul(ro.cos_theta as int, r.orig.x as int) - fmul(
                ro.sin_theta as int,
                r.orig.z as int,
            );
            let roz = fmul(ro.sin_theta as int, r.orig.x as int) + fmul(
                ro.cos_theta as int,
                r.orig.z as int,
            );
            let rdx = fmul(ro.cos_theta as int, r.dir.x as int) - fmul(
                ro.sin_theta as int,
                r.dir.z as int,
            );
            let rdz = fmul(ro.sin_theta as int, r.dir.x as int) + fmul(
                ro.cos_theta as int,
                r.dir.z as int,
            );
            let rotated = Ray {
                orig: Point3 { x: rox as i64, y: r.orig.y, z: roz as i64 },
                dir: Vec3 { x: rdx as i64, y: r.dir.y, z: rdz as i64 },
                time: r.time,
            };
            if !(rotated.orig.bounded(0x4000_0000) && rotated.dir.bounded(0x4000_0000)) {
                None
            } else {
                match hit_model(*ro.hittable, rotated, tmin, tmax) {
                    None => None,
                    Some(rec0) => {
                        if !rec0.p.bounded(0x4000_0000_0000) {
                            None
                        } else {
                            Some(turn_rec(rec0, ro.sin_theta as int, ro.cos_theta as int, rotated))
                        }
                    },
                }
            }
        },
        Hittable::BVHNode(n) => {
            if !n.bbox.hit_s(r, tmin, tmax) {
                None
            } else {
                match hit_model(*n.left, r, tmin, tmax) {
                    None => hit_model(*n.right, r, tmin, tmax),
                    Some(lr) => match hit_model(*n.right, r, tmin, lr.t as int) {
                        None => Some(lr),
                        Some(rr) => Some(rr),
                    },
                }
            }
        },
        Hittable::List(l) => group_model(l.objects@, r, tmin, tmax),
    }
}

/// The record a y-rotation reports, given the child's record in local frame.
pub open spec fn turn_rec(rec0: HitRecord, sin_t: int, cos_t: int, rotated: Ray) -> HitRecord {
    let px = fmul(cos_t, rec0.p.x as int) + fmul(sin_t, rec0.p.z as int);
    let pz = -fmul(sin_t, rec0.p.x as int) + fmul(cos_t, rec0.p.z as int);
    let nx = clamp_s(
        fmul(cos_t, rec0.normal.x as int) + fmul(sin_t, rec0.normal.z as int),
        -65536,
        65536,
    );
    let nz = clamp_s(
        -fmul(sin_t, rec0.normal.x as int) + fmul(cos_t, rec0.normal.z as int),
        -65536,
        65536,
    );
    let on = Vec3 { x: nx as i64, y: rec0.normal.y, z: nz as i64 };
    let ff = dot_s(rotated.dir, on) < 0;
    HitRecord {
        p: Point3 { x: px as i64, y: rec0.p.y, z: pz as i64 },
        normal: if ff {
            on
        } else {
            neg_s(on)
        },
        material: rec0.material,
        t: rec0.t,
        u: rec0.u,
        v: rec0.v,
        front_face: ff,
    }
}

/// Closest-hit over a sequence, scanned front to back with a shrinking upper
/// bound: exactly the loop `HittableList::hit` runs.
pub open spec fn group_model(objs: Seq<Hittable>, r: Ray, tmin: int, tmax: int) -> Option<
    HitRecord,
>
    decreases objs,
{
    if objs.len() == 0 {
        None
    } else {
        let front = group_model(objs.subrange(0, objs.len() - 1), r, tmin, tmax);
        let cap = match front {
            None => tmax,
            Some(f) => f.t as int,
        };
        match hit_model(objs[objs.len() - 1], r, tmin, cap) {
            None => front,
            Some(h) => Some(h),
        }
    }
}

/// What every intersection must satisfy of the interval and the record.
pub open spec fn hit_post(res: Option<HitRecord>, t_min: i64, t_max: i64) -> bool {
    res is Some ==> {
        &&& t_min <= res->0.t <= t_max
        &&& res->0.normal.bounded(ONE as int)
        &&& 0 <= res->0.u <= ONE
        &&& 0 <= res->0.v <= ONE
        &&& res->0.p.bounded(0x4000_0000_0000_0000)
        &&& (*res->0.material).wf()
    }
}

impl Hittable {
    /// The closest intersection in `[t_min, t_max]`, if any.  On media-free
    /// trees this is exactly `hit_model`; media additionally draw a random
    /// free-flight distance but still land inside the interval.
    #[verifier::loop_isolation(false)]
    #[verifier::rlimit(100)]
    pub fn hit(&self, r: &Ray, t_min: i64, t_max: i64) -> (res: Option<HitRecord>)
        requires
            self.wf(),
            r.orig.bounded(0x4000_0000),
            r.dir.bounded(0x4000_0000),
            sabs(r.time as int) <= T_INF as int,
            sabs(t_min as int) <= T_INF as int,
            sabs(t_max as int) <= T_INF as int,
        ensures
            hit_post(res, t_min, t_max),
            self.deterministic() ==> res == hit_model(*self, *r, t_min as int, t_max as int),
            self is ConstantMedium ==> medium_post(
                self->ConstantMedium_0,
                *r,
                t_min,
                t_max,
                res,
            ),
        decreases *self,
    {
        match self {
            Hittable::Sphere(s) => s.hit(r, t_min, t_max),
            Hittable::MovingSphere(m) => m.hit(r, t_min, t_max),
            Hittable::XYRect(rc) => rc.hit(r, t_min, t_max),
            Hittable::XZRect(rc) => rc.hit(r, t_min, t_max),
            Hittable::YZRect(rc) => rc.hit(r, t_min, t_max),
            Hittable::B0x(b) => hit_scan(&b.sides.objects, r, t_min, t_max),
            Hittable::List(l) => hit_scan(&l.objects, r, t_min, t_max),
            Hittable::Translate(t) => translate_hit(t, r, t_min, t_max),
            Hittable::RotateY(ro) => rotate_hit(ro, r, t_min, t_max),
            Hittable::BVHNode(n) => bvh_hit(n, r, t_min, t_max),
            Hittable::ConstantMedium(c) => medium_hit(c, r, t_min, t_max),
        }
    }
}

/// A translation moves the ray into the child's frame and the record back.
fn translate_hit(t: &Translate, r: &Ray, t_min: i64, t_max: i64) -> (res: Option<HitRecord>)
    requires
        Hittable::Translate(*t).wf(),
        r.orig.bounded(0x4000_0000),
        r.dir.bounded(0x4000_0000),
        sabs(r.time as int) <= T_INF as int,
        sabs(t_min as int) <= T_INF as int,
        sabs(t_max as int) <= T_INF as int,
    ensures
        hit_post(res, t_min, t_max),
        Hittable::Translate(*t).deterministic() ==> res == hit_model(
            Hittable::Translate(*t),
            *r,
            t_min as int,
            t_max as int,
        ),
    decreases *t,
{
    let moved_orig = Vec3 {
        x: r.orig.x - t.offset.x,
        y: r.orig.y - t.offset.y,
        z: r.orig.z - t.offset.z,
    };
    if !(abs_i(moved_orig.x) <= 0x4000_0000 && abs_i(moved_orig.y) <= 0x4000_0000 && abs_i(
        moved_orig.z,
    ) <= 0x4000_0000) {
        return None;
    }
    let moved = Ray { orig: moved_orig, dir: r.dir, time: r.time };
    match t.hittable.hit(&moved, t_min, t_max) {
        None => None,
        Some(rec0) => {
            if !(abs_i(rec0.p.x) <= 0x4000_0000_0000 && abs_i(rec0.p.y) <= 0x4000_0000_0000
                && abs_i(rec0.p.z) <= 0x4000_0000_0000) {
                return None;
            }
            let mut rec = rec0;
            rec.p = Vec3 {
                x: rec.p.x + t.offset.x,
                y: rec.p.y + t.offset.y,
                z: rec.p.z + t.offset.z,
            };
            let n0 = rec.normal;
            rec.set_face_normal(&moved, &n0);
            Some(rec)
        },
    }
}

/// A y-rotation turns the ray into the child's frame and the record back.
#[verifier::rlimit(100)]
fn rotate_hit(ro: &RotateY, r: &Ray, t_min: i64, t_max: i64) -> (res: Option<HitRecord>)
    requires
        Hittable::RotateY(*ro).wf(),
        r.orig.bounded(0x4000_0000),
        r.dir.bounded(0x4000_0000),
        sabs(r.time as int) <= T_INF as int,
        sabs(t_min as int) <= T_INF as int,
        sabs(t_max as int) <= T_INF as int,
    ensures
        hit_post(res, t_min, t_max),
        Hittable::RotateY(*ro).deterministic() ==> res == hit_model(
            Hittable::RotateY(*ro),
            *r,
            t_min as int,
            t_max as int,
        ),
    decreases *ro,
{
                proof {
                    lemma_rot_bounds(ro.sin_theta as int, ro.cos_theta as int, *r);
                }
                let rox: i64 = crate::fixed::fx_mul(ro.cos_theta, r.orig.x) - crate::fixed::fx_mul(
                    ro.sin_theta,
                    r.orig.z,
                );
                let roz: i64 = crate::fixed::fx_mul(ro.sin_theta, r.orig.x) + crate::fixed::fx_mul(
                    ro.cos_theta,
                    r.orig.z,
                );
                let rdx: i64 = crate::fixed::fx_mul(ro.cos_theta, r.dir.x) - crate::fixed::fx_mul(
                    ro.sin_theta,
                    r.dir.z,
                );
                let rdz: i64 = crate::fixed::fx_mul(ro.sin_theta, r.dir.x) + crate::fixed::fx_mul(
                    ro.cos_theta,
                    r.dir.z,
                );
                let r_orig = Vec3 { x: rox, y: r.orig.y, z: roz };
                let r_dir = Vec3 { x: rdx, y: r.dir.y, z: rdz };
                if !(abs_i(rox) <= 0x4000_0000 && abs_i(roz) <= 0x4000_0000 && abs_i(rdx)
                    <= 0x4000_0000 && abs_i(rdz) <= 0x4000_0000) {
                    return None;
                }
                let rotated = Ray { orig: r_orig, dir: r_dir, time: r.time };
                match ro.hittable.hit(&rotated, t_min, t_max) {
                    None => None,
                    Some(rec0) => {
                        if !(abs_i(rec0.p.x) <= 0x4000_0000_0000 && abs_i(rec0.p.y)
                            <= 0x4000_0000_0000 && abs_i(rec0.p.z) <= 0x4000_0000_0000) {
                            return None;
                        }
                        proof {
                            lemma_turn_bounds(ro.sin_theta as int, ro.cos_theta as int, rec0);
                        }
                        let px: i64 = crate::fixed::fx_mul(ro.cos_theta, rec0.p.x)
                            + crate::fixed::fx_mul(ro.sin_theta, rec0.p.z);
                        let pz: i64 = -crate::fixed::fx_mul(ro.sin_theta, rec0.p.x)
                            + crate::fixed::fx_mul(ro.cos_theta, rec0.p.z);
                        let nx: i64 = clamp(
                            crate::fixed::fx_mul(ro.cos_theta, rec0.normal.x)
                                + crate::fixed::fx_mul(ro.sin_theta, rec0.normal.z),
                            -65536,
                            65536,
                        );
                        let nz: i64 = clamp(
                            -crate::fixed::fx_mul(ro.sin_theta, rec0.normal.x)
                                + crate::fixed::fx_mul(ro.cos_theta, rec0.normal.z),
                            -65536,
                            65536,
                        );
                        let on = Vec3 { x: nx, y: rec0.normal.y, z: nz };
                        let py: i64 = rec0.p.y;
                        let mut rec = rec0;
                        rec.p = Vec3 { x: px, y: py, z: pz };
                        rec.set_face_normal(&rotated, &on);
                        Some(rec)
                    },
                }
}

/// A bounding-volume node rejects against its box, then asks both children,
/// tightening the interval to the left child's hit.
fn bvh_hit(n: &BVHNode, r: &Ray, t_min: i64, t_max: i64) -> (res: Option<HitRecord>)
    requires
        Hittable::BVHNode(*n).wf(),
        r.orig.bounded(0x4000_0000),
        r.dir.bounded(0x4000_0000),
        sabs(r.time as int) <= T_INF as int,
        sabs(t_min as int) <= T_INF as int,
        sabs(t_max as int) <= T_INF as int,
    ensures
        hit_post(res, t_min, t_max),
        Hittable::BVHNode(*n).deterministic() ==> res == hit_model(
            Hittable::BVHNode(*n),
            *r,
            t_min as int,
            t_max as int,
        ),
    decreases *n,
{
    if !n.bbox.hit(r, t_min, t_max) {
        return None;
    }
    match n.left.hit(r, t_min, t_max) {
        None => n.right.hit(r, t_min, t_max),
        Some(lr) => match n.right.hit(r, t_min, lr.t) {
            None => Some(lr),
            Some(rr) => Some(rr),
        },
    }
}

/// The scatter parameter for draw `u`: the clipped segment's start plus the
/// sampled free-flight distance converted back to ray parameter, held inside
/// the segment.
pub open spec fn medium_t_s(c: ConstantMedium, r: Ray, t1: int, t2: int, u: int) -> int {
    let len = crate::fixed::sqf(crate::vec3::sq_sum_s(r.dir));
    let lenc = if len >= 1 {
        len
    } else {
        1int
    };
    let fl = fmul(c.neg_inv_density as int, crate::trig::ln_s(u));
    t1 + crate::trig::clamp_s(tdiv(fl * 65536, lenc), 0, t2 - t1)
}

/// Some draw explains the scatter parameter.
pub open spec fn medium_scatter_witness(c: ConstantMedium, r: Ray, t1: int, t2: int, t: int) -> bool {
    exists|u: i64| 0 <= u < 65536 && t == medium_t_s(c, r, t1, t2, u as int)
}

/// What a medium's intersection promises, over every draw: the record's
/// fixed fields, and — when the boundary is media-free, so its crossings are
/// the model's — the clipping rules, the scatter parameter's shape, and
/// guaranteed scattering once even the largest possible flight distance fits
/// inside the segment.
pub open spec fn medium_post(
    c: ConstantMedium,
    r: Ray,
    t_min: i64,
    t_max: i64,
    res: Option<HitRecord>,
) -> bool {
    &&& (res is Some ==> res->0.material == c.phase_func && res->0.front_face && res->0.normal
        == (Vec3 { x: 65536, y: 0, z: 0 }) && res->0.u == 0 && res->0.v == 0 && res->0.p
        == crate::ray::at_s(r, res->0.t as int))
    &&& (c.boundary.deterministic() ==> medium_segment_post(c, r, t_min, t_max, res))
}

pub open spec fn medium_segment_post(
    c: ConstantMedium,
    r: Ray,
    t_min: i64,
    t_max: i64,
    res: Option<HitRecord>,
) -> bool {
    match hit_model(*c.boundary, r, -T_INF as int, T_INF as int) {
        None => res is None,
        Some(rec1) => {
            let after = if rec1.t >= T_INF - 7 {
                T_INF as int
            } else {
                rec1.t + 7
            };
            match hit_model(*c.boundary, r, after, T_INF as int) {
                None => res is None,
                Some(rec2) => {
                    let t1a = if rec1.t >= t_min {
                        rec1.t as int
                    } else {
                        t_min as int
                    };
                    let t1 = if t1a >= 0 {
                        t1a
                    } else {
                        0int
                    };
                    let t2 = if rec2.t <= t_max {
                        rec2.t as int
                    } else {
                        t_max as int
                    };
                    &&& (t1 >= t2 ==> res is None)
                    &&& (t1 < t2 ==> {
                        let len = crate::fixed::sqf(crate::vec3::sq_sum_s(r.dir));
                        let dist = fmul(t2 - t1, len);
                        &&& (res is Some ==> t1 <= res->0.t <= t2 && medium_scatter_witness(
                            c,
                            r,
                            t1,
                            t2,
                            res->0.t as int,
                        ))
                        &&& (fmul(c.neg_inv_density as int, -1572864) <= dist ==> res is Some)
                    })
                },
            }
        },
    }
}

/// A constant-density medium: clip the two boundary crossings to the search
/// interval, draw an exponential free-flight distance, and scatter inside the
/// segment or pass through.  The returned parameter always stays inside the
/// clipped segment, whatever was drawn.
#[verifier::rlimit(100)]
#[verifier::spinoff_prover]
fn medium_hit(c: &ConstantMedium, r: &Ray, t_min: i64, t_max: i64) -> (res: Option<HitRecord>)
    requires
        Hittable::ConstantMedium(*c).wf(),
        r.orig.bounded(0x4000_0000),
        r.dir.bounded(0x4000_0000),
        sabs(r.time as int) <= T_INF as int,
        sabs(t_min as int) <= T_INF as int,
        sabs(t_max as int) <= T_INF as int,
    ensures
        hit_post(res, t_min, t_max),
        res is Some ==> res->0.material == c.phase_func && res->0.front_face && res->0.normal
            == (Vec3 { x: 65536, y: 0, z: 0 }) && res->0.u == 0 && res->0.v == 0 && res->0.p
            == crate::ray::at_s(*r, res->0.t as int),
        c.boundary.deterministic() ==> medium_segment_post(*c, *r, t_min, t_max, res),
    decreases *c,
{
    let ghost nres: Option<HitRecord> = None;
    let first = c.boundary.hit(r, -T_INF, T_INF);
    match first {
        None => {
            proof {
                if c.boundary.deterministic() {
                    assert(medium_segment_post(*c, *r, t_min, t_max, nres));
                }
            }
            None
        },
        Some(rec1) => {
            let after: i64 = if rec1.t >= T_INF - 7 {
                T_INF
            } else {
                rec1.t + 7
            };
            match c.boundary.hit(r, after, T_INF) {
                None => {
                    proof {
                        if c.boundary.deterministic() {
                            assert(medium_segment_post(*c, *r, t_min, t_max, nres));
                        }
                    }
                    None
                },
                Some(rec2) => {
                    let t1: i64 = max_i(max_i(rec1.t, t_min), 0);
                    let t2: i64 = min_i(rec2.t, t_max);
                    if t1 >= t2 {
                        proof {
                            if c.boundary.deterministic() {
                                assert(medium_segment_post(*c, *r, t_min, t_max, nres));
                            }
                        }
                        return None;
                    }
                    let len: i64 = r.direction().length();
                    proof {
                        crate::fixed::lemma_mul_bounds(r.dir.x as int, r.dir.x as int, 0x4000_0000, 0x4000_0000);
                        crate::fixed::lemma_mul_bounds(r.dir.y as int, r.dir.y as int, 0x4000_0000, 0x4000_0000);
                        crate::fixed::lemma_mul_bounds(r.dir.z as int, r.dir.z as int, 0x4000_0000, 0x4000_0000);
                        assert(len as int <= 0x1_0000_0000) by {
                            if len as int > 0x1_0000_0000 {
                                assert((len as int) * (len as int) > 0x1_0000_0000int * 0x1_0000_0000int)
                                    by (nonlinear_arith)
                                    requires
                                        len as int > 0x1_0000_0000,
                                ;
                            }
                        }
                    }
                    let dist_inside: i64 = len_times(t2 - t1, len);
                    let draw: i64 = random_fraction();
                    let lnv: i64 = crate::trig::ln_fx(draw);
                    let hit_distance: i64 = flight(c.neg_inv_density, lnv);
                    proof {
                        assert(c.neg_inv_density as int * (lnv as int) <= c.neg_inv_density as int
                            * (-1572864)) by (nonlinear_arith)
                            requires
                                c.neg_inv_density <= 0 && lnv as int >= -1572864,
                        ;
                        crate::fixed::lemma_tdiv_monotone(
                            c.neg_inv_density as int * lnv as int,
                            c.neg_inv_density as int * (-1572864),
                            65536,
                        );
                    }
                    if hit_distance > dist_inside {
                        proof {
                            if c.boundary.deterministic() {
                                assert(medium_segment_post(*c, *r, t_min, t_max, nres));
                            }
                        }
                        return None;
                    }
                    let step: i64 = param_step(hit_distance, len, t2 - t1);
                    let t: i64 = t1 + step;
                    let p: Point3 = r.at(t);
                    proof {
                        assert(t as int == medium_t_s(*c, *r, t1 as int, t2 as int, draw as int));
                        assert(medium_scatter_witness(*c, *r, t1 as int, t2 as int, t as int));
                    }
                    Some(
                        HitRecord {
                            p,
                            normal: Vec3 { x: 65536, y: 0, z: 0 },
                            material: crate::material::share_material(&c.phase_func),
                            t,
                            u: 0,
                            v: 0,
                            front_face: true,
                        },
                    )
                },
            }
        },
    }
}

/// The closest-hit scan over a vector of objects, shrinking the upper bound
/// to each hit found so far.
#[verifier::loop_isolation(false)]
fn hit_scan(objects: &Vec<Hittable>, r: &Ray, t_min: i64, t_max: i64) -> (res: Option<HitRecord>)
    requires
        seq_wf(objects@),
        r.orig.bounded(0x4000_0000),
        r.dir.bounded(0x4000_0000),
        sabs(r.time as int) <= T_INF as int,
        sabs(t_min as int) <= T_INF as int,
        sabs(t_max as int) <= T_INF as int,
    ensures
        hit_post(res, t_min, t_max),
        seq_deterministic(objects@) ==> res == group_model(
            objects@,
            *r,
            t_min as int,
            t_max as int,
        ),
    decreases objects@,
{
    let ghost det = seq_deterministic(objects@);
    let mut best: Option<HitRecord> = None;
    let mut closest: i64 = t_max;
    let mut i: usize = 0;
    while i < objects.len()
        invariant
            0 <= i <= objects.len(),
            hit_post(best, t_min, t_max),
            closest == match best {
                None => t_max,
                Some(b) => b.t,
            },
            sabs(closest as int) <= T_INF as int,
            det ==> best == group_model(objects@.subrange(0, i as int), *r, t_min as int, t_max as int),
        decreases objects.len() - i,
    {
        proof {
            lemma_seq_wf_index(objects@, i as int);
            if det {
                lemma_seq_det_index(objects@, i as int);
            }
        }
        let res_i = objects[i].hit(r, t_min, closest);
        proof {
            let pre1 = objects@.subrange(0, i as int + 1);
            assert(pre1.subrange(0, pre1.len() - 1) == objects@.subrange(0, i as int));
            assert(pre1[pre1.len() - 1] == objects@[i as int]);
        }
        match res_i {
            Some(rec) => {
                closest = rec.t;
                best = Some(rec);
            },
            None => {
            },
        }
        i = i + 1;
    }
    proof {
        assert(objects@.subrange(0, objects@.len() as int) == objects@);
    }
    best
}

/// Path length inside the medium, from a parameter span and a ray speed.
fn len_times(dt: i64, len: i64) -> (r: i64)
    requires
        0 <= dt,
        sabs(dt as int) <= 2 * T_INF as int,
        0 <= len,
        len as int <= 0x1_0000_0000,
    ensures
        r as int == fmul(dt as int, len as int),
        r >= 0,
{
    proof {
        crate::fixed::lemma_mul_bounds(dt as int, len as int, 2 * T_INF as int, 0x1_0000_0000);
        crate::fixed::lemma_tdiv_le(
            dt as int * len as int,
            0x1_0000,
            2int * 0x1000_0000_0000int * 0x1_0000_0000int,
        );
        assert(dt as int * len as int >= 0) by (nonlinear_arith)
            requires
                dt >= 0 && len >= 0,
        ;
    }
    crate::fixed::fx_mul(dt, len)
}

/// The sampled free-flight distance: nonnegative for any draw.
fn flight(neg_inv_density: i64, lnv: i64) -> (r: i64)
    requires
        -0x1_0000_0000_0000 <= neg_inv_density <= 0,
        -1572864 <= lnv <= 0,
    ensures
        r as int == fmul(neg_inv_density as int, lnv as int),
        r >= 0,
{
    proof {
        crate::fixed::lemma_mul_bounds(neg_inv_density as int, lnv as int, 0x1_0000_0000_0000, 1572864);
        crate::fixed::lemma_tdiv_le(
            neg_inv_density as int * lnv as int,
            0x1_0000,
            0x1_0000_0000_0000int * 1572864int,
        );
        assert(neg_inv_density as int * lnv as int >= 0) by (nonlinear_arith)
            requires
                neg_inv_density <= 0 && lnv <= 0,
        ;
    }
    crate::fixed::fx_mul(neg_inv_density, lnv)
}

/// Convert a distance back to a parameter step, kept inside the span.
fn param_step(hit_distance: i64, len: i64, span: i64) -> (r: i64)
    requires
        hit_distance >= 0,
        len >= 0,
        span > 0,
    ensures
        r as int == crate::trig::clamp_s(
            tdiv(
                hit_distance as int * 65536,
                if len >= 1 {
                    len as int
                } else {
                    1int
                },
            ),
            0,
            span as int,
        ),
        0 <= r <= span,
{
    let d: i64 = max_i(len, 1);
    let q: i128 = crate::fixed::div_i128((hit_distance as i128) * 65536, d as i128);
    proof {
        assert((hit_distance as i128) * 65536 >= 0) by (nonlinear_arith)
            requires
                hit_distance >= 0,
        ;
        assert(tdiv((hit_distance as i128 * 65536) as int, d as int) >= 0);
    }
    let qq: i64 = if q > (span as i128) {
        span
    } else {
        q as i64
    };
    if qq < 0 {
        0
    } else {
        qq
    }
}

/// Rotating a ray's components stays within one doubling of the bound.
proof fn lemma_rot_bounds(sin_t: int, cos_t: int, r: Ray)
    requires
        sabs(sin_t) <= ONE as int,
        sabs(cos_t) <= ONE as int,
        r.orig.bounded(0x4000_0000),
        r.dir.bounded(0x4000_0000),
    ensures
        sabs(fmul(cos_t, r.orig.x as int)) <= 0x4000_0000,
        sabs(fmul(sin_t, r.orig.z as int)) <= 0x4000_0000,
        sabs(fmul(sin_t, r.orig.x as int)) <= 0x4000_0000,
        sabs(fmul(cos_t, r.orig.z as int)) <= 0x4000_0000,
        sabs(fmul(cos_t, r.dir.x as int)) <= 0x4000_0000,
        sabs(fmul(sin_t, r.dir.z as int)) <= 0x4000_0000,
        sabs(fmul(sin_t, r.dir.x as int)) <= 0x4000_0000,
        sabs(fmul(cos_t, r.dir.z as int)) <= 0x4000_0000,
        sabs(cos_t) * sabs(r.orig.x as int) <= 0x7fff_ffff_ffff_ffff * 0x1_0000,
        sabs(sin_t) * sabs(r.orig.z as int) <= 0x7fff_ffff_ffff_ffff * 0x1_0000,
        sabs(sin_t) * sabs(r.orig.x as int) <= 0x7fff_ffff_ffff_ffff * 0x1_0000,
        sabs(cos_t) * sabs(r.orig.z as int) <= 0x7fff_ffff_ffff_ffff * 0x1_0000,
        sabs(cos_t) * sabs(r.dir.x as int) <= 0x7fff_ffff_ffff_ffff * 0x1_0000,
        sabs(sin_t) * sabs(r.dir.z as int) <= 0x7fff_ffff_ffff_ffff * 0x1_0000,
        sabs(sin_t) * sabs(r.dir.x as int) <= 0x7fff_ffff_ffff_ffff * 0x1_0000,
        sabs(cos_t) * sabs(r.dir.z as int) <= 0x7fff_ffff_ffff_ffff * 0x1_0000,
{
    lemma_rot_one(cos_t, r.orig.x as int);
    lemma_rot_one(sin_t, r.orig.z as int);
    lemma_rot_one(sin_t, r.orig.x as int);
    lemma_rot_one(cos_t, r.orig.z as int);
    lemma_rot_one(cos_t, r.dir.x as int);
    lemma_rot_one(sin_t, r.dir.z as int);
    lemma_rot_one(sin_t, r.dir.x as int);
    lemma_rot_one(cos_t, r.dir.z as int);
}

proof fn lemma_rot_one(k: int, v: int)
    requires
        sabs(k) <= ONE as int,
        sabs(v) <= 0x4000_0000_0000,
    ensures
        sabs(fmul(k, v)) <= sabs(v),
        sabs(k) * sabs(v) <= 0x7fff_ffff_ffff_ffff * 0x1_0000,
{
    crate::fixed::lemma_mul_bounds(k, v, ONE as int, 0x4000_0000_0000);
    assert(sabs(k) * sabs(v) <= 65536 * sabs(v)) by (nonlinear_arith)
        requires
            0 <= sabs(k) <= 65536 && sabs(v) >= 0,
    ;
    assert(sabs(k * v) <= 65536 * sabs(v));
    crate::fixed::lemma_tdiv_le(k * v, 0x1_0000, 65536 * sabs(v));
    assert(65536 * sabs(v) / 65536 == sabs(v)) by (nonlinear_arith)
        requires
            sabs(v) >= 0,
    ;
}

/// Rotating a hit point and normal stays within bounds.
proof fn lemma_turn_bounds(sin_t: int, cos_t: int, rec0: HitRecord)
    requires
        sabs(sin_t) <= ONE as int,
        sabs(cos_t) <= ONE as int,
        rec0.p.bounded(0x4000_0000_0000),
        rec0.normal.bounded(ONE as int),
    ensures
        sabs(fmul(cos_t, rec0.p.x as int)) <= 0x4000_0000_0000,
        sabs(fmul(sin_t, rec0.p.z as int)) <= 0x4000_0000_0000,
        sabs(fmul(sin_t, rec0.p.x as int)) <= 0x4000_0000_0000,
        sabs(fmul(cos_t, rec0.p.z as int)) <= 0x4000_0000_0000,
        sabs(fmul(cos_t, rec0.normal.x as int)) <= ONE as int,
        sabs(fmul(sin_t, rec0.normal.z as int)) <= ONE as int,
        sabs(fmul(sin_t, rec0.normal.x as int)) <= ONE as int,
        sabs(fmul(cos_t, rec0.normal.z as int)) <= ONE as int,
        sabs(cos_t) * sabs(rec0.p.x as int) <= 0x7fff_ffff_ffff_ffff * 0x1_0000,
        sabs(sin_t) * sabs(rec0.p.z as int) <= 0x7fff_ffff_ffff_ffff * 0x1_0000,
        sabs(sin_t) * sabs(rec0.p.x as int) <= 0x7fff_ffff_ffff_ffff * 0x1_0000,
        sabs(cos_t) * sabs(rec0.p.z as int) <= 0x7fff_ffff_ffff_ffff * 0x1_0000,
        sabs(cos_t) * sabs(rec0.normal.x as int) <= 0x7fff_ffff_ffff_ffff * 0x1_0000,
        sabs(sin_t) * sabs(rec0.normal.z as int) <= 0x7fff_ffff_ffff_ffff * 0x1_0000,
        sabs(sin_t) * sabs(rec0.normal.x as int) <= 0x7fff_ffff_ffff_ffff * 0x1_0000,
        sabs(cos_t) * sabs(rec0.normal.z as int) <= 0x7fff_ffff_ffff_ffff * 0x1_0000,
{
    lemma_rot_one(cos_t, rec0.p.x as int);
    lemma_rot_one(sin_t, rec0.p.z as int);
    lemma_rot_one(sin_t, rec0.p.x as int);
    lemma_rot_one(cos_t, rec0.p.z as int);
    lemma_rot_one(cos_t, rec0.normal.x as int);
    lemma_rot_one(sin_t, rec0.normal.z as int);
    lemma_rot_one(sin_t, rec0.normal.x as int);
    lemma_rot_one(cos_t, rec0.normal.z as int);
}


/// The box a scene element reports, as a function of the element and the
/// two exposure times.
pub open spec fn bbox_model(h: Hittable, t0: i64, t1: i64) -> Option<Aabb>
    decreases h,
{
    match h {
        Hittable::Sphere(s) => Some(
            Aabb {
                minimum: Point3 {
                    x: (s.center.x - s.radius) as i64,
                    y: (s.center.y - s.radius) as i64,
                    z: (s.center.z - s.radius) as i64,
                },
                maximum: Point3 {
                    x: (s.center.x + s.radius) as i64,
                    y: (s.center.y + s.radius) as i64,
                    z: (s.center.z + s.radius) as i64,
                },
            },
        ),
        Hittable::MovingSphere(m) => Some(
            moving_box_s(m, t0, t1),
        ),
        Hittable::XYRect(rc) => Some(
            Aabb {
                minimum: Point3 { x: rc.x0, y: rc.y0, z: (rc.k - 7) as i64 },
                maximum: Point3 { x: rc.x1, y: rc.y1, z: (rc.k + 7) as i64 },
            },
        ),
        Hittable::XZRect(rc) => Some(
            Aabb {
                minimum: Point3 { x: rc.x0, y: (rc.k - 7) as i64, z: rc.z0 },
                maximum: Point3 { x: rc.x1, y: (rc.k + 7) as i64, z: rc.z1 },
            },
        ),
        Hittable::YZRect(rc) => Some(
            Aabb {
                minimum: Point3 { x: (rc.k - 7) as i64, y: rc.y0, z: rc.z0 },
                maximum: Point3 { x: (rc.k + 7) as i64, y: rc.y1, z: rc.z1 },
            },
        ),
        Hittable::B0x(b) => Some(Aabb { minimum: b.box_min, maximum: b.box_max }),
        Hittable::ConstantMedium(c) => bbox_model(*c.boundary, t0, t1),
        Hittable::Translate(t) => match bbox_model(*t.hittable, t0, t1) {
            None => None,
            Some(b) => {
                let shifted = Aabb {
                    minimum: Point3 {
                        x: (b.minimum.x + t.offset.x) as i64,
                        y: (b.minimum.y + t.offset.y) as i64,
                        z: (b.minimum.z + t.offset.z) as i64,
                    },
                    maximum: Point3 {
                        x: (b.maximum.x + t.offset.x) as i64,
                        y: (b.maximum.y + t.offset.y) as i64,
                        z: (b.maximum.z + t.offset.z) as i64,
                    },
                };
                if shifted.minimum.bounded(0x4000_0000) && shifted.maximum.bounded(0x4000_0000) {
                    Some(shifted)
                } else {
                    None
                }
            },
        },
        Hittable::RotateY(ro) => ro.bbox,
        Hittable::BVHNode(n) => Some(n.bbox),
        Hittable::List(l) => group_bbox(l.objects@, t0, t1),
    }
}

/// The keyframe-union box of a moving sphere.
pub open spec fn moving_box_s(m: MovingSphere, t0: i64, t1: i64) -> Aabb {
    let c0 = moving_center_s(m, t0);
    let c1 = moving_center_s(m, t1);
    let b0 = Aabb {
        minimum: Point3 {
            x: (c0.x - m.radius) as i64,
            y: (c0.y - m.radius) as i64,
            z: (c0.z - m.radius) as i64,
        },
        maximum: Point3 {
            x: (c0.x + m.radius) as i64,
            y: (c0.y + m.radius) as i64,
            z: (c0.z + m.radius) as i64,
        },
    };
    let b1 = Aabb {
        minimum: Point3 {
            x: (c1.x - m.radius) as i64,
            y: (c1.y - m.radius) as i64,
            z: (c1.z - m.radius) as i64,
        },
        maximum: Point3 {
            x: (c1.x + m.radius) as i64,
            y: (c1.y + m.radius) as i64,
            z: (c1.z + m.radius) as i64,
        },
    };
    b0.surround_s(b1)
}

/// Leaves of the hierarchy in traversal order; anything that is not a
/// hierarchy node counts as a leaf.
pub open spec fn flatten(h: Hittable) -> Seq<Hittable>
    decreases h,
{
    match h {
        Hittable::BVHNode(n) => flatten(*n.left) + flatten(*n.right),
        _ => seq![h],
    }
}

/// Fold of member boxes: absent as soon as a member is unbounded.
pub open spec fn group_bbox(objs: Seq<Hittable>, t0: i64, t1: i64) -> Option<Aabb>
    decreases objs,
{
    if objs.len() == 0 {
        None
    } else if objs.len() == 1 {
        bbox_model(objs[0], t0, t1)
    } else {
        let front = group_bbox(objs.subrange(0, objs.len() - 1), t0, t1);
        match bbox_model(objs[objs.len() - 1], t0, t1) {
            None => None,
            Some(b) => match front {
                None => None,
                Some(a) => Some(a.surround_s(b)),
            },
        }
    }
}

impl Hittable {
    /// The element's bounding box over the exposure interval, if bounded.
    #[verifier::loop_isolation(false)]
    #[verifier::rlimit(100)]
    pub fn bounding_box(&self, time0: i64, time1: i64) -> (res: Option<Aabb>)
        requires
            self.wf(),
            sabs(time0 as int) <= T_INF as int,
            sabs(time1 as int) <= T_INF as int,
        ensures
            res == bbox_model(*self, time0, time1),
            res is Some ==> res->0.wf(),
        decreases *self,
    {
        match self {
            Hittable::Sphere(s) => s.bounding_box(time0, time1),
            Hittable::MovingSphere(m) => m.bounding_box(time0, time1),
            Hittable::XYRect(rc) => rc.bounding_box(time0, time1),
            Hittable::XZRect(rc) => rc.bounding_box(time0, time1),
            Hittable::YZRect(rc) => rc.bounding_box(time0, time1),
            Hittable::B0x(b) => Some(Aabb::new(b.box_min, b.box_max)),
            Hittable::ConstantMedium(c) => c.boundary.bounding_box(time0, time1),
            Hittable::RotateY(ro) => ro.bbox,
            Hittable::BVHNode(n) => Some(n.bbox),
            Hittable::Translate(t) => {
                match t.hittable.bounding_box(time0, time1) {
                    None => None,
                    Some(b) => {
                        let mn = Vec3 {
                            x: b.minimum.x + t.offset.x,
                            y: b.minimum.y + t.offset.y,
                            z: b.minimum.z + t.offset.z,
                        };
                        let mx = Vec3 {
                            x: b.maximum.x + t.offset.x,
                            y: b.maximum.y + t.offset.y,
                            z: b.maximum.z + t.offset.z,
                        };
                        if abs_i(mn.x) <= 0x4000_0000 && abs_i(mn.y) <= 0x4000_0000 && abs_i(mn.z)
                            <= 0x4000_0000 && abs_i(mx.x) <= 0x4000_0000 && abs_i(mx.y)
                            <= 0x4000_0000 && abs_i(mx.z) <= 0x4000_0000 {
                            Some(Aabb::new(mn, mx))
                        } else {
                            None
                        }
                    },
                }
            },
            Hittable::List(l) => {
                let mut cur: Option<Aabb> = None;
                let mut i: usize = 0;
                while i < l.objects.len()
                    invariant
                        0 <= i <= l.objects.len(),
                        i > 0 ==> cur == group_bbox(l.objects@.subrange(0, i as int), time0, time1),
                        i == 0 ==> cur is None,
                        cur is Some ==> cur->0.wf(),
                    decreases l.objects.len() - i,
                {
                    proof {
                        lemma_seq_wf_index(l.objects@, i as int);
                    }
                    let b_i = l.objects[i].bounding_box(time0, time1);
                    proof {
                        let pre1 = l.objects@.subrange(0, i as int + 1);
                        assert(pre1.subrange(0, pre1.len() - 1) == l.objects@.subrange(0, i as int));
                        assert(pre1[pre1.len() - 1] == l.objects@[i as int]);
                    }
                    match b_i {
                        None => {
                            cur = None;
                        },
                        Some(b) => {
                            if i == 0 {
                                cur = Some(b);
                            } else {
                                match cur {
                                    None => {
                                        cur = None;
                                    },
                                    Some(a) => {
                                        cur = Some(Aabb::surrounding_box(&a, &b));
                                    },
                                }
                            }
                        },
                    }
                    i = i + 1;
                }
                proof {
                    assert(l.objects@.subrange(0, l.objects@.len() as int) == l.objects@);
                }
                if l.objects.len() == 0 {
                    return None;
                }
                cur
            },
        }
    }
}

/// Appending a well-formed element keeps a sequence well-formed.
pub proof fn lemma_seq_wf_push(s: Seq<Hittable>, x: Hittable)
    requires
        seq_wf(s),
        x.wf(),
    ensures
        seq_wf(s.push(x)),
{
    let sp = s.push(x);
    assert(sp.subrange(0, sp.len() - 1) == s);
    assert(sp[sp.len() - 1] == x);
}

/// All elements well-formed characterizes a well-formed sequence.
pub proof fn lemma_seq_wf_from_all(s: Seq<Hittable>)
    requires
        forall|i: int| 0 <= i < s.len() ==> (#[trigger] s[i]).wf(),
    ensures
        seq_wf(s),
    decreases s.len(),
{
    if s.len() > 0 {
        let front = s.subrange(0, s.len() - 1);
        assert(forall|i: int| 0 <= i < front.len() ==> (#[trigger] front[i]).wf()) by {
            assert(forall|i: int|
                0 <= i < front.len() ==> front[i] == s[i] && (#[trigger] s[i]).wf());
        }
        lemma_seq_wf_from_all(front);
    }
}

impl HittableList {
    pub fn new(objects: Vec<Hittable>) -> (r: HittableList)
        ensures
            r.objects == objects,
    {
        HittableList { objects }
    }

    /// A list holding one object.
    pub fn single(object: Hittable) -> (r: HittableList)
        ensures
            r.objects@.len() == 1,
            r.objects@[0] == object,
    {
        let mut v: Vec<Hittable> = Vec::new();
        v.push(object);
        HittableList { objects: v }
    }

    pub fn add(&mut self, object: Hittable)
        ensures
            final(self).objects@ == old(self).objects@.push(object),
    {
        self.objects.push(object);
    }
}


/// The six outward-facing faces of the prism `[p0, p1]`, in construction
/// order, all sharing one material.
pub open spec fn b0x_sides_s(p0: Point3, p1: Point3, material: Arc<Material>) -> Seq<Hittable> {
    seq![
        Hittable::XYRect(XYRect { material, x0: p0.x, x1: p1.x, y0: p0.y, y1: p1.y, k: p1.z }),
        Hittable::XYRect(XYRect { material, x0: p0.x, x1: p1.x, y0: p0.y, y1: p1.y, k: p0.z }),
        Hittable::XZRect(XZRect { material, x0: p0.x, x1: p1.x, z0: p0.z, z1: p1.z, k: p1.y }),
        Hittable::XZRect(XZRect { material, x0: p0.x, x1: p1.x, z0: p0.z, z1: p1.z, k: p0.y }),
        Hittable::YZRect(YZRect { material, y0: p0.y, y1: p1.y, z0: p0.z, z1: p1.z, k: p1.x }),
        Hittable::YZRect(YZRect { material, y0: p0.y, y1: p1.y, z0: p0.z, z1: p1.z, k: p0.x }),
    ]
}

impl B0x {
    /// Six outward-facing rectangles forming an axis-aligned box.
    pub fn new(p0: Point3, p1: Point3, material: Arc<Material>) -> (r: B0x)
        requires
            p0.x < p1.x && p0.y < p1.y && p0.z < p1.z,
            p0.bounded(0x1000_0000),
            p1.bounded(0x1000_0000),
            (*material).wf(),
        ensures
            r.box_min == p0,
            r.box_max == p1,
            r.sides.objects@ == b0x_sides_s(p0, p1, material),
            Hittable::B0x(r).wf(),
            Hittable::B0x(r).deterministic(),
    {
        let mut sides: Vec<Hittable> = Vec::new();
        let s0 = Hittable::XYRect(
            crate::rect::XYRect::new(
                p0.x,
                p1.x,
                p0.y,
                p1.y,
                p1.z,
                crate::material::share_material(&material),
            ),
        );
        let s1 = Hittable::XYRect(
            crate::rect::XYRect::new(
                p0.x,
                p1.x,
                p0.y,
                p1.y,
                p0.z,
                crate::material::share_material(&material),
            ),
        );
        let s2 = Hittable::XZRect(
            crate::rect::XZRect::new(
                p0.x,
                p1.x,
                p0.z,
                p1.z,
                p1.y,
                crate::material::share_material(&material),
            ),
        );
        let s3 = Hittable::XZRect(
            crate::rect::XZRect::new(
                p0.x,
                p1.x,
                p0.z,
                p1.z,
                p0.y,
                crate::material::share_material(&material),
            ),
        );
        let s4 = Hittable::YZRect(
            crate::rect::YZRect::new(
                p0.y,
                p1.y,
                p0.z,
                p1.z,
                p1.x,
                crate::material::share_material(&material),
            ),
        );
        let s5 = Hittable::YZRect(
            crate::rect::YZRect::new(p0.y, p1.y, p0.z, p1.z, p0.x, material),
        );
        proof {
            lemma_seq_wf_push(sides@, s0);
        }
        sides.push(s0);
        proof {
            lemma_seq_wf_push(sides@, s1);
        }
        sides.push(s1);
        proof {
            lemma_seq_wf_push(sides@, s2);
        }
        sides.push(s2);
        proof {
            lemma_seq_wf_push(sides@, s3);
        }
        sides.push(s3);
        proof {
            lemma_seq_wf_push(sides@, s4);
        }
        sides.push(s4);
        proof {
            lemma_seq_wf_push(sides@, s5);
        }
        sides.push(s5);
        proof {
            lemma_seq_det_all(sides@);
            assert(sides@ =~= b0x_sides_s(p0, p1, material));
        }
        B0x { box_min: p0, box_max: p1, sides: HittableList { objects: sides } }
    }
}

/// A sequence of media-free elements is media-free.
pub proof fn lemma_seq_det_all(s: Seq<Hittable>)
    requires
        forall|i: int| 0 <= i < s.len() ==> (#[trigger] s[i]).deterministic(),
    ensures
        seq_deterministic(s),
    decreases s.len(),
{
    if s.len() > 0 {
        let front = s.subrange(0, s.len() - 1);
        assert(forall|i: int|
            0 <= i < front.len() ==> front[i] == s[i] && (#[trigger] s[i]).deterministic());
        lemma_seq_det_all(front);
    }
}

impl ConstantMedium {
    /// A homogeneous medium of the given density, scattering isotropically
    /// with the given color.
    pub fn new(boundary: Box<Hittable>, density: i64, color: crate::vec3::Color) -> (r:
        ConstantMedium)
        requires
            boundary.wf(),
            density >= 1,
            crate::texture::color_ok(color),
        ensures
            r.boundary == boundary,
            Hittable::ConstantMedium(r).wf(),
    {
        let nid: i64 = fx_div(-65536, density);
        proof {
            crate::fixed::lemma_tdiv_le(-65536int * 65536, density as int, 65536int * 65536int);
            assert(tdiv(-65536int * 65536, density as int) <= 0) by {
                assert(sabs(-65536int * 65536) / sabs(density as int) >= 0) by (nonlinear_arith)
                    requires
                        sabs(-65536int * 65536) >= 0 && sabs(density as int) >= 1,
                ;
            }
        }
        ConstantMedium {
            boundary,
            phase_func: Arc::new(
                Material::Isotropic(crate::material::Isotropic::new(color)),
            ),
            neg_inv_density: nid,
        }
    }

    /// The same medium, colored by a texture.
    pub fn new_texture(boundary: Box<Hittable>, density: i64, texture: Box<
        crate::texture::Texture,
    >) -> (r: ConstantMedium)
        requires
            boundary.wf(),
            density >= 1,
            texture.wf(),
        ensures
            r.boundary == boundary,
            Hittable::ConstantMedium(r).wf(),
    {
        let nid: i64 = fx_div(-65536, density);
        proof {
            crate::fixed::lemma_tdiv_le(-65536int * 65536, density as int, 65536int * 65536int);
            assert(tdiv(-65536int * 65536, density as int) <= 0) by {
                assert(sabs(-65536int * 65536) / sabs(density as int) >= 0) by (nonlinear_arith)
                    requires
                        sabs(-65536int * 65536) >= 0 && sabs(density as int) >= 1,
                ;
            }
        }
        ConstantMedium {
            boundary,
            phase_func: Arc::new(
                Material::Isotropic(crate::material::Isotropic::new_texture(texture)),
            ),
            neg_inv_density: nid,
        }
    }
}

impl Translate {
    pub fn new(hittable: Box<Hittable>, displacement: Vec3) -> (r: Translate)
        ensures
            r.hittable == hittable,
            r.offset == displacement,
    {
        Translate { hittable, offset: displacement }
    }
}

impl RotateY {
    /// Rotate a child about the y axis by the given angle in degrees; the
    /// rotated bounding box encloses the eight rotated corners of the
    /// child's box.
    #[verifier::loop_isolation(false)]
    #[verifier::rlimit(100)]
    pub fn new(hittable: Box<Hittable>, angle: i64) -> (r: RotateY)
        requires
            hittable.wf(),
            sabs(angle as int) <= 360 * 65536,
        ensures
            r.hittable == hittable,
            r.sin_theta as int == crate::trig::sin_s(tdiv(fmul(angle as int, 205887), 180)),
            r.cos_theta as int == crate::trig::cos_s(tdiv(fmul(angle as int, 205887), 180)),
            sabs(r.sin_theta as int) <= ONE as int,
            sabs(r.cos_theta as int) <= ONE as int,
            (r.bbox is Some) == (bbox_model(*r.hittable, 0, 65536) is Some),
            r.bbox is Some ==> holds_corners(
                r.bbox->0,
                bbox_model(*r.hittable, 0, 65536)->0,
                r.sin_theta as int,
                r.cos_theta as int,
            ),
            Hittable::RotateY(r).wf(),
    {
        let radians: i64 = crate::trig::degrees_to_radians(angle);
        proof {
            crate::fixed::lemma_mul_bounds(angle as int, 205887, 360int * 65536int, 205887);
            crate::fixed::lemma_tdiv_le(
                fmul(angle as int, 205887),
                180,
                360int * 65536int * 205887int,
            );
            crate::fixed::lemma_tdiv_le(
                angle as int * 205887,
                0x1_0000,
                360int * 65536int * 205887int,
            );
        }
        let sin_theta: i64 = crate::trig::sin_fx(radians);
        let cos_theta: i64 = crate::trig::cos_fx(radians);
        let child_box = hittable.bounding_box(0, 65536);
        let bbox: Option<Aabb> = match child_box {
            None => None,
            Some(b) => rotated_box(&b, sin_theta, cos_theta),
        };
        RotateY { hittable, sin_theta, cos_theta, bbox }
    }
}

/// The enclosing box of the eight rotated corners of `b`, or nothing when a
/// corner leaves the representable range.
#[verifier::loop_isolation(false)]
#[verifier::rlimit(100)]
/// One corner of `b`, turned about the y axis and clamped into the
/// representable coordinate range; the corner is selected by the three bits.
pub open spec fn rot_corner_s(b: Aabb, sin_t: int, cos_t: int, i: int, j: int, k: int) -> (
    int,
    int,
    int,
) {
    let cx = if i == 0 {
        b.minimum.x as int
    } else {
        b.maximum.x as int
    };
    let cy = if j == 0 {
        b.minimum.y as int
    } else {
        b.maximum.y as int
    };
    let cz = if k == 0 {
        b.minimum.z as int
    } else {
        b.maximum.z as int
    };
    let nx = clamp_s(fmul(cos_t, cx) + fmul(sin_t, cz), -0x4000_0000, 0x4000_0000);
    let nz = clamp_s(-fmul(sin_t, cx) + fmul(cos_t, cz), -0x4000_0000, 0x4000_0000);
    (nx, cy, nz)
}

/// The box holds all eight turned corners of `b`.
pub open spec fn holds_corners(r: Aabb, b: Aabb, sin_t: int, cos_t: int) -> bool {
    forall|i: int, j: int, k: int|
        0 <= i < 2 && 0 <= j < 2 && 0 <= k < 2 ==> {
            let c = #[trigger] rot_corner_s(b, sin_t, cos_t, i, j, k);
            &&& r.minimum.x <= c.0 <= r.maximum.x
            &&& r.minimum.y <= c.1 <= r.maximum.y
            &&& r.minimum.z <= c.2 <= r.maximum.z
        }
}

/// The enclosing box of the eight turned corners of `b`.
#[verifier::loop_isolation(false)]
#[verifier::rlimit(100)]
fn rotated_box(b: &Aabb, sin_theta: i64, cos_theta: i64) -> (res: Option<Aabb>)
    requires
        b.wf(),
        sabs(sin_theta as int) <= ONE as int,
        sabs(cos_theta as int) <= ONE as int,
    ensures
        res is Some,
        res->0.wf(),
        holds_corners(res->0, *b, sin_theta as int, cos_theta as int),
{
    let mut mn = Vec3 { x: 0x4000_0000, y: 0x4000_0000, z: 0x4000_0000 };
    let mut mx = Vec3 { x: -0x4000_0000, y: -0x4000_0000, z: -0x4000_0000 };
    let mut c: usize = 0;
    while c < 8
        invariant
            0 <= c <= 8,
            mn.bounded(0x4000_0000),
            mx.bounded(0x4000_0000),
            c >= 1 ==> mn.x <= mx.x && mn.y <= mx.y && mn.z <= mx.z,
            forall|cc: int|
                0 <= cc < c ==> {
                    let p = #[trigger] rot_corner_s(
                        *b,
                        sin_theta as int,
                        cos_theta as int,
                        cc / 4,
                        (cc / 2) % 2,
                        cc % 2,
                    );
                    &&& mn.x <= p.0 <= mx.x
                    &&& mn.y <= p.1 <= mx.y
                    &&& mn.z <= p.2 <= mx.z
                },
        decreases 8 - c,
    {
        let i: usize = c / 4;
        let j: usize = (c / 2) % 2;
        let k: usize = c % 2;
        let cx: i64 = if i == 0 {
            b.minimum.x
        } else {
            b.maximum.x
        };
        let cy: i64 = if j == 0 {
            b.minimum.y
        } else {
            b.maximum.y
        };
        let cz: i64 = if k == 0 {
            b.minimum.z
        } else {
            b.maximum.z
        };
        proof {
            lemma_rot_one(cos_theta as int, cx as int);
            lemma_rot_one(sin_theta as int, cz as int);
            lemma_rot_one(sin_theta as int, cx as int);
            lemma_rot_one(cos_theta as int, cz as int);
        }
        let nx: i64 = crate::fixed::fx_mul(cos_theta, cx) + crate::fixed::fx_mul(sin_theta, cz);
        let nz: i64 = -crate::fixed::fx_mul(sin_theta, cx) + crate::fixed::fx_mul(cos_theta, cz);
        let nxc: i64 = clamp(nx, -0x4000_0000, 0x4000_0000);
        let nzc: i64 = clamp(nz, -0x4000_0000, 0x4000_0000);
        mn = Vec3 { x: min_i(mn.x, nxc), y: min_i(mn.y, cy), z: min_i(mn.z, nzc) };
        mx = Vec3 { x: max_i(mx.x, nxc), y: max_i(mx.y, cy), z: max_i(mx.z, nzc) };
        c = c + 1;
    }
    proof {
        assert forall|i: int, j: int, k: int|
            0 <= i < 2 && 0 <= j < 2 && 0 <= k < 2 implies {
            let p = #[trigger] rot_corner_s(*b, sin_theta as int, cos_theta as int, i, j, k);
            &&& mn.x <= p.0 <= mx.x
            &&& mn.y <= p.1 <= mx.y
            &&& mn.z <= p.2 <= mx.z
        } by {
            let cc = 4 * i + 2 * j + k;
            assert(cc / 4 == i && (cc / 2) % 2 == j && cc % 2 == k) by (nonlinear_arith)
                requires
                    0 <= i < 2 && 0 <= j < 2 && 0 <= k < 2 && cc == 4 * i + 2 * j + k,
            ;
            let p0 = rot_corner_s(*b, sin_theta as int, cos_theta as int, cc / 4, (cc / 2) % 2, cc % 2);
            assert(mn.x <= p0.0 <= mx.x && mn.y <= p0.1 <= mx.y && mn.z <= p0.2 <= mx.z);
        }
    }
    Some(Aabb::new(mn, mx))
}

} // verus!
