//! Statements the library promises as theorems rather than tests: the
//! translation round trip, and the root discipline of the sphere
//! intersection.

use crate::fixed::{is_sqrt_floor, lemma_sqf_is, lemma_tdiv_monotone, sabs, sqf, ONE};
use crate::hittable::{
    flatten, group_model, hit_model, lemma_dot_neg, moved_ray, shift_rec, translate_step, Hittable,
    Translate,
};
use crate::ray::Ray;
use crate::sphere::{quad_a, quad_disc, root_far, root_near, sphere_hit_s};
use crate::vec3::{dot_s, Point3, Vec3};
use vstd::prelude::*;

verus! {

/// Every nonnegative integer has an integer square root.
pub proof fn lemma_sqrt_floor_exists(n: int)
    requires
        n >= 0,
    ensures
        is_sqrt_floor(n, sqf(n)),
    decreases n,
{
    if n == 0 {
        assert(is_sqrt_floor(0, 0)) by (nonlinear_arith);
        lemma_sqf_is(0, 0);
    } else {
        lemma_sqrt_floor_exists(n - 1);
        let r = sqf(n - 1);
        if n < (r + 1) * (r + 1) {
            assert(is_sqrt_floor(n, r));
            lemma_sqf_is(n, r);
        } else {
            assert(n == (r + 1) * (r + 1));
            assert(n < (r + 2) * (r + 2)) by (nonlinear_arith)
                requires
                    n == (r + 1) * (r + 1) && r >= 0,
            ;
            assert(is_sqrt_floor(n, r + 1));
            lemma_sqf_is(n, r + 1);
        }
    }
}

/// The nearer root never lies beyond the farther one: the intersection
/// reports the smaller admissible parameter first.
pub proof fn lemma_roots_ordered(center: Point3, radius: i64, r: Ray)
    requires
        quad_a(r) > 0,
        quad_disc(center, radius, r) >= 0,
    ensures
        root_near(center, radius, r) <= root_far(center, radius, r),
{
    lemma_sqrt_floor_exists(quad_disc(center, radius, r));
    let hb = crate::sphere::quad_half_b(center, r);
    let s = sqf(quad_disc(center, radius, r));
    let a = quad_a(r);
    assert(s >= 0);
    let n1 = (-hb - s) * 65536;
    let n2 = (-hb + s) * 65536;
    assert(n1 <= n2) by (nonlinear_arith)
        requires
            s >= 0 && n1 == (-hb - s) * 65536 && n2 == (-hb + s) * 65536,
    ;
    lemma_tdiv_monotone(n1, n2, a);
}

/// When both quadratic roots lie in the search interval, the intersection
/// reports the nearer one.
pub proof fn lemma_sphere_prefers_near_root(
    center: Point3,
    radius: i64,
    material: std::sync::Arc<crate::material::Material>,
    r: Ray,
    tmin: int,
    tmax: int,
)
    requires
        quad_a(r) > 0,
        quad_disc(center, radius, r) >= 0,
        sabs(tmin) <= crate::fixed::T_INF as int,
        sabs(tmax) <= crate::fixed::T_INF as int,
        tmin <= root_near(center, radius, r) <= tmax,
        tmin <= root_far(center, radius, r) <= tmax,
    ensures
        root_near(center, radius, r) <= root_far(center, radius, r),
        sphere_hit_s(center, radius, material, r, tmin, tmax) is Some ==> sphere_hit_s(
            center,
            radius,
            material,
            r,
            tmin,
            tmax,
        )->0.t as int == root_near(center, radius, r),
{
    lemma_roots_ordered(center, radius, r);
}

/// Every sphere hit stores a normal that does not point along the ray: the
/// front-face convention, on every intersection.
pub proof fn lemma_sphere_front_face(
    center: Point3,
    radius: i64,
    material: std::sync::Arc<crate::material::Material>,
    r: Ray,
    tmin: int,
    tmax: int,
)
    ensures
        sphere_hit_s(center, radius, material, r, tmin, tmax) is Some ==> dot_s(
            r.dir,
            sphere_hit_s(center, radius, material, r, tmin, tmax)->0.normal,
        ) <= 0,
        sphere_hit_s(center, radius, material, r, tmin, tmax) is Some ==> sphere_hit_s(
            center,
            radius,
            material,
            r,
            tmin,
            tmax,
        )->0.normal.bounded(ONE as int),
{
    let a = quad_a(r);
    let disc = quad_disc(center, radius, r);
    if a != 0 && disc >= 0 {
        let t1 = root_near(center, radius, r);
        let t2 = root_far(center, radius, r);
        let t = if tmin <= t1 <= tmax {
            t1
        } else {
            t2
        };
        if tmin <= t <= tmax {
            let p = crate::ray::at_s(r, t);
            if p.bounded(0x200_0000_0000) {
                let on = crate::sphere::outward_s(p, center, radius);
                assert(on.bounded(ONE as int));
                if dot_s(r.dir, on) >= 0 {
                    lemma_dot_neg(r.dir, on);
                }
            }
        }
    }
}

/// The rectangles obey the same convention: every stored normal opposes the
/// incoming ray.
pub proof fn lemma_rect_front_face(r: Ray, tmin: int, tmax: int)
    ensures
        forall|rc: crate::rect::XYRect|
            (#[trigger] crate::rect::xy_rect_hit_s(rc, r, tmin, tmax)) is Some ==> dot_s(
                r.dir,
                crate::rect::xy_rect_hit_s(rc, r, tmin, tmax)->0.normal,
            ) <= 0,
        forall|rc: crate::rect::XZRect|
            (#[trigger] crate::rect::xz_rect_hit_s(rc, r, tmin, tmax)) is Some ==> dot_s(
                r.dir,
                crate::rect::xz_rect_hit_s(rc, r, tmin, tmax)->0.normal,
            ) <= 0,
        forall|rc: crate::rect::YZRect|
            (#[trigger] crate::rect::yz_rect_hit_s(rc, r, tmin, tmax)) is Some ==> dot_s(
                r.dir,
                crate::rect::yz_rect_hit_s(rc, r, tmin, tmax)->0.normal,
            ) <= 0,
{
    assert forall|rc: crate::rect::XYRect|
        (#[trigger] crate::rect::xy_rect_hit_s(rc, r, tmin, tmax)) is Some implies dot_s(
        r.dir,
        crate::rect::xy_rect_hit_s(rc, r, tmin, tmax)->0.normal,
    ) <= 0 by {
        let on = Vec3 { x: 0, y: 0, z: 65536 };
        if dot_s(r.dir, on) >= 0 {
            lemma_dot_neg(r.dir, on);
        }
    }
    assert forall|rc: crate::rect::XZRect|
        (#[trigger] crate::rect::xz_rect_hit_s(rc, r, tmin, tmax)) is Some implies dot_s(
        r.dir,
        crate::rect::xz_rect_hit_s(rc, r, tmin, tmax)->0.normal,
    ) <= 0 by {
        let on = Vec3 { x: 0, y: 65536, z: 0 };
        if dot_s(r.dir, on) >= 0 {
            lemma_dot_neg(r.dir, on);
        }
    }
    assert forall|rc: crate::rect::YZRect|
        (#[trigger] crate::rect::yz_rect_hit_s(rc, r, tmin, tmax)) is Some implies dot_s(
        r.dir,
        crate::rect::yz_rect_hit_s(rc, r, tmin, tmax)->0.normal,
    ) <= 0 by {
        let on = Vec3 { x: 65536, y: 0, z: 0 };
        if dot_s(r.dir, on) >= 0 {
            lemma_dot_neg(r.dir, on);
        }
    }
}

/// Translating a scene element by `d` and then by `-d` reproduces the
/// original intersection: the hit parameter, point, surface coordinates and
/// material are restored exactly, and the full record whenever the original
/// hit was front-facing with the normal strictly opposing the ray.
#[verifier::rlimit(100)]
#[verifier::spinoff_prover]
pub proof fn lemma_translate_round_trip(h: Hittable, d: Vec3, r: Ray, tmin: int, tmax: int)
    requires
        h.deterministic(),
        d.bounded(0x800_0000),
        r.orig.bounded(0x3800_0000),
        match hit_model(h, r, tmin, tmax) {
            Some(rec) => rec.p.bounded(0x3000_0000_0000),
            None => true,
        },
    ensures
        ({
            let there = Hittable::Translate(
                Translate { hittable: Box::new(h), offset: d },
            );
            let back = Hittable::Translate(
                Translate {
                    hittable: Box::new(there),
                    offset: Vec3 { x: (-d.x) as i64, y: (-d.y) as i64, z: (-d.z) as i64 },
                },
            );
            let direct = hit_model(h, r, tmin, tmax);
            let composed = hit_model(back, r, tmin, tmax);
            match direct {
                None => composed is None,
                Some(rec0) => composed is Some && {
                    let rec2 = composed->0;
                    &&& rec2.p == rec0.p
                    &&& rec2.t == rec0.t
                    &&& rec2.u == rec0.u
                    &&& rec2.v == rec0.v
                    &&& rec2.material == rec0.material
                    &&& (dot_s(r.dir, rec0.normal) < 0 && rec0.front_face ==> rec2 == rec0)
                },
            }
        }),
{
    let nd = Vec3 { x: (-d.x) as i64, y: (-d.y) as i64, z: (-d.z) as i64 };
    let there = Hittable::Translate(Translate { hittable: Box::new(h), offset: d });
    let back = Hittable::Translate(Translate { hittable: Box::new(there), offset: nd });
    let moved_out = moved_ray(nd, r);
    assert(moved_out.orig.bounded(0x4000_0000));
    let moved_in = moved_ray(d, moved_out);
    assert(moved_in.orig == r.orig);
    assert(moved_in == r);
    let direct = hit_model(h, r, tmin, tmax);
    assert(hit_model(there, moved_out, tmin, tmax) == translate_step(d, moved_in, direct));
    assert(hit_model(back, r, tmin, tmax) == translate_step(
        nd,
        moved_out,
        translate_step(d, moved_in, direct),
    ));
    match direct {
        None => {
        },
        Some(rec0) => {
            let rec1 = shift_rec(rec0, d, moved_in);
            assert(translate_step(d, moved_in, direct) == Some(rec1));
            assert(rec1.p.bounded(0x4000_0000_0000));
            let rec2 = shift_rec(rec1, nd, moved_out);
            assert(translate_step(nd, moved_out, Some(rec1)) == Some(rec2));
            assert(rec2.p == rec0.p);
            if dot_s(r.dir, rec0.normal) < 0 && rec0.front_face {
                assert(rec1.normal == rec0.normal && rec1.front_face);
                assert(rec2 == rec0);
            }
        },
    }
}


/// Conservative boxes along this ray: whenever a node's slab test fails for
/// an interval, neither child intersects the ray in that interval.
pub open spec fn covers(h: Hittable, r: Ray) -> bool
    decreases h,
{
    match h {
        Hittable::BVHNode(n) => {
            &&& forall|a: int, b: int|
                !(#[trigger] n.bbox.hit_s(r, a, b)) ==> hit_model(*n.left, r, a, b) is None
                    && hit_model(*n.right, r, a, b) is None
            &&& covers(*n.left, r)
            &&& covers(*n.right, r)
        },
        _ => true,
    }
}

/// Scanning a concatenation equals scanning the first part and then the
/// second with the interval tightened to the first part's best hit.
pub proof fn lemma_group_model_append(
    s1: Seq<Hittable>,
    s2: Seq<Hittable>,
    r: Ray,
    tmin: int,
    tmax: int,
)
    ensures
        group_model(s1 + s2, r, tmin, tmax) == match group_model(s1, r, tmin, tmax) {
            None => group_model(s2, r, tmin, tmax),
            Some(f) => match group_model(s2, r, tmin, f.t as int) {
                None => Some(f),
                Some(g) => Some(g),
            },
        },
    decreases s2.len(),
{
    if s2.len() == 0 {
        assert(s1 + s2 == s1);
    } else {
        let s2f = s2.subrange(0, s2.len() - 1);
        let x = s2[s2.len() - 1];
        lemma_group_model_append(s1, s2f, r, tmin, tmax);
        let whole = s1 + s2;
        assert(whole.len() == s1.len() + s2.len());
        assert(whole.subrange(0, whole.len() - 1) == s1 + s2f);
        assert(whole[whole.len() - 1] == x);
        if whole.len() == 1 {
            assert(s1.len() == 0 && s2.len() == 1);
            assert(group_model(s1, r, tmin, tmax) is None);
            assert(s1 + s2f =~= Seq::<Hittable>::empty());
            assert(group_model(s1 + s2f, r, tmin, tmax) is None);
            assert(group_model(whole, r, tmin, tmax) == group_model(s2, r, tmin, tmax));
        } else {
            match group_model(s1, r, tmin, tmax) {
                None => {
                },
                Some(f) => {
                    if s2f.len() == 0 {
                        assert(group_model(s2f, r, tmin, f.t as int) is None);
                    }
                },
            }
        }
    }
}

/// The hierarchy reports exactly what a flat scan over its leaves reports,
/// for every search interval, whenever its boxes are conservative for the
/// ray.
pub proof fn lemma_bvh_equals_linear_scan(h: Hittable, r: Ray, tmin: int, tmax: int)
    requires
        covers(h, r),
    ensures
        hit_model(h, r, tmin, tmax) == group_model(flatten(h), r, tmin, tmax),
    decreases h,
{
    match h {
        Hittable::BVHNode(n) => {
            let fl = flatten(*n.left);
            let fr = flatten(*n.right);
            lemma_group_model_append(fl, fr, r, tmin, tmax);
            lemma_bvh_equals_linear_scan(*n.left, r, tmin, tmax);
            lemma_bvh_equals_linear_scan(*n.right, r, tmin, tmax);
            if n.bbox.hit_s(r, tmin, tmax) {
                match hit_model(*n.left, r, tmin, tmax) {
                    None => {
                    },
                    Some(lr) => {
                        lemma_bvh_equals_linear_scan(*n.right, r, tmin, lr.t as int);
                        lemma_group_model_append(fl, fr, r, tmin, tmax);
                    },
                }
            } else {
                assert(hit_model(*n.left, r, tmin, tmax) is None);
                assert(hit_model(*n.right, r, tmin, tmax) is None);
            }
        },
        _ => {
            let single = flatten(h);
            assert(single.len() == 1);
            assert(single.subrange(0, 0) =~= Seq::<Hittable>::empty());
            assert(group_model(single.subrange(0, 0), r, tmin, tmax) is None);
            assert(single[0] == h);
        },
    }
}

} // verus!
