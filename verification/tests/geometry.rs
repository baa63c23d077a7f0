//! Geometry behavior: boxes, spheres, the hierarchy and the combinators.

use raytracer::aabb::Aabb;
use raytracer::fixed::T_INF;
use raytracer::hittable::{B0x, BVHNode, Hittable, HittableList, RotateY, Translate};
use raytracer::material::{Lambertian, Material};
use raytracer::ray::Ray;
use raytracer::rect::XZRect;
use raytracer::sphere::{MovingSphere, Sphere};
use raytracer::vec3::{Point3, Vec3};
use std::sync::Arc;

const ONE: i64 = 65536;

fn gray() -> Arc<Material> {
    Arc::new(Material::Lambertian(Lambertian::new(Vec3 {
        x: ONE / 2,
        y: ONE / 2,
        z: ONE / 2,
    })))
}

fn unit_x_ray(from_x: i64) -> Ray {
    Ray::new(
        Point3 { x: from_x, y: 0, z: 0 },
        Vec3 { x: ONE, y: 0, z: 0 },
    )
}

#[test]
fn aabb_sorted_box_hits_crossing_ray() {
    let b = Aabb::new(
        Point3 { x: -ONE, y: -ONE, z: -ONE },
        Point3 { x: ONE, y: ONE, z: ONE },
    );
    let r = unit_x_ray(-3 * ONE);
    assert!(b.hit(&r, 0, T_INF));
}

#[test]
fn aabb_swapped_bounds_never_hit() {
    // An unsorted box intersects nothing; re-sorting the corners restores it.
    let swapped = Aabb::new(
        Point3 { x: ONE, y: ONE, z: ONE },
        Point3 { x: -ONE, y: -ONE, z: -ONE },
    );
    let r = unit_x_ray(-3 * ONE);
    assert!(!swapped.hit(&r, 0, T_INF));
    let sorted = Aabb::new(
        Point3 { x: -ONE, y: -ONE, z: -ONE },
        Point3 { x: ONE, y: ONE, z: ONE },
    );
    assert!(sorted.hit(&r, 0, T_INF));
}

#[test]
fn aabb_parallel_ray_outside_slab_misses() {
    let b = Aabb::new(
        Point3 { x: -ONE, y: -ONE, z: -ONE },
        Point3 { x: ONE, y: ONE, z: ONE },
    );
    // Parallel to x, strictly above the box in y: never a hit.
    let r = Ray::new(
        Point3 { x: -3 * ONE, y: 2 * ONE, z: 0 },
        Vec3 { x: ONE, y: 0, z: 0 },
    );
    assert!(!b.hit(&r, 0, T_INF));
}

#[test]
fn aabb_surrounding_box_of_degenerate_axis_is_valid() {
    let flat = Aabb::new(
        Point3 { x: -ONE, y: 0, z: -ONE },
        Point3 { x: ONE, y: 0, z: ONE },
    );
    let other = Aabb::new(
        Point3 { x: 0, y: -ONE, z: 0 },
        Point3 { x: 2 * ONE, y: ONE, z: ONE },
    );
    let u = Aabb::surrounding_box(&flat, &other);
    let mn = u.min();
    let mx = u.max();
    assert!(mn.x <= mx.x && mn.y <= mx.y && mn.z <= mx.z);
    assert_eq!(mn.x, -ONE);
    assert_eq!(mx.x, 2 * ONE);
    assert_eq!(mn.y, -ONE);
    assert_eq!(mx.y, ONE);
}

#[test]
fn aabb_surrounding_box_commutes() {
    let a = Aabb::new(
        Point3 { x: -ONE, y: 0, z: 0 },
        Point3 { x: ONE, y: ONE, z: ONE },
    );
    let b = Aabb::new(
        Point3 { x: 0, y: -ONE, z: -ONE },
        Point3 { x: 2 * ONE, y: 0, z: 0 },
    );
    let ab = Aabb::surrounding_box(&a, &b);
    let ba = Aabb::surrounding_box(&b, &a);
    assert_eq!(ab.min(), ba.min());
    assert_eq!(ab.max(), ba.max());
}

#[test]
fn sphere_hit_reports_nearer_root() {
    let s = Sphere::new(Point3 { x: 0, y: 0, z: 0 }, ONE, gray());
    let r = unit_x_ray(-3 * ONE);
    let rec = s.hit(&r, 0, T_INF).expect("ray must hit the sphere");
    // Entering face at x = -1, two units of travel.
    assert_eq!(rec.t, 2 * ONE);
    assert_eq!(rec.p.x, -ONE);
    assert_eq!(rec.normal.x, -ONE);
    assert_eq!(rec.normal.y, 0);
    assert_eq!(rec.normal.z, 0);
    assert!(rec.front_face);
}

#[test]
fn sphere_hit_from_inside_takes_far_root() {
    let s = Sphere::new(Point3 { x: 0, y: 0, z: 0 }, ONE, gray());
    let r = unit_x_ray(0);
    let rec = s.hit(&r, 0, T_INF).expect("ray must exit the sphere");
    assert_eq!(rec.t, ONE);
    assert_eq!(rec.p.x, ONE);
    // Leaving through the back face: the stored normal still opposes the ray.
    assert!(!rec.front_face);
    assert_eq!(rec.normal.x, -ONE);
}

#[test]
fn sphere_missed_by_offset_ray() {
    let s = Sphere::new(Point3 { x: 0, y: 0, z: 0 }, ONE, gray());
    let r = Ray::new(
        Point3 { x: -3 * ONE, y: 2 * ONE, z: 0 },
        Vec3 { x: ONE, y: 0, z: 0 },
    );
    assert!(s.hit(&r, 0, T_INF).is_none());
}

#[test]
fn sphere_front_face_convention_holds() {
    let s = Sphere::new(Point3 { x: 0, y: 0, z: 0 }, ONE, gray());
    for ox in [-3 * ONE, -2 * ONE, 0, ONE / 2] {
        if let Some(rec) = s.hit(&unit_x_ray(ox), 0, T_INF) {
            let d = rec.normal.x; // ray direction is +x, so dot = normal.x
            assert!(d <= 0, "normal must oppose the ray, got {}", d);
        }
    }
}

fn five_spheres() -> Vec<Hittable> {
    let centers = [
        (0, 0, 0),
        (4, 0, 0),
        (-4, 1, 0),
        (0, 5, -2),
        (2, -3, 1),
    ];
    let mut v = Vec::new();
    for (cx, cy, cz) in centers {
        v.push(Hittable::Sphere(Sphere::new(
            Point3 {
                x: cx * ONE,
                y: cy * ONE,
                z: cz * ONE,
            },
            ONE,
            gray(),
        )));
    }
    v
}

#[test]
fn bvh_matches_linear_scan() {
    let rays = [
        unit_x_ray(-20 * ONE),
        Ray::new(
            Point3 { x: -20 * ONE, y: ONE / 4, z: 0 },
            Vec3 { x: ONE, y: 0, z: 0 },
        ),
        Ray::new(
            Point3 { x: 0, y: 20 * ONE, z: -2 * ONE },
            Vec3 { x: 0, y: -ONE, z: 0 },
        ),
        Ray::new(
            Point3 { x: 10 * ONE, y: 10 * ONE, z: 10 * ONE },
            Vec3 { x: -ONE, y: -ONE, z: -ONE },
        ),
        Ray::new(
            Point3 { x: -20 * ONE, y: 15 * ONE, z: 0 },
            Vec3 { x: ONE, y: 0, z: 0 },
        ),
    ];
    let flat = Hittable::List(HittableList::new(five_spheres()));
    let tree = BVHNode::new_from_list(HittableList::new(five_spheres()), 0, ONE)
        .expect("all spheres are bounded");
    for r in rays {
        let a = flat.hit(&r, 66, T_INF);
        let b = tree.hit(&r, 66, T_INF);
        match (a, b) {
            (None, None) => {}
            (Some(x), Some(y)) => {
                assert_eq!(x.t, y.t);
                assert_eq!(x.p, y.p);
                assert_eq!(x.normal, y.normal);
                assert_eq!(x.front_face, y.front_face);
            }
            (x, y) => panic!(
                "hierarchy disagrees with scan: {:?} vs {:?}",
                x.map(|h| h.t),
                y.map(|h| h.t)
            ),
        }
    }
}

#[test]
fn bvh_of_empty_list_is_refused() {
    let none = BVHNode::new_from_list(HittableList::new(Vec::new()), 0, ONE);
    assert!(none.is_none());
}

#[test]
fn translate_round_trip_restores_hits() {
    let d = Vec3 {
        x: 100 * ONE,
        y: 50 * ONE,
        z: -7 * ONE,
    };
    let nd = Vec3 { x: -d.x, y: -d.y, z: -d.z };
    let direct = Hittable::Sphere(Sphere::new(Point3 { x: 0, y: 0, z: 0 }, ONE, gray()));
    let there = Hittable::Translate(Translate::new(
        Box::new(Hittable::Sphere(Sphere::new(
            Point3 { x: 0, y: 0, z: 0 },
            ONE,
            gray(),
        ))),
        d,
    ));
    let back = Hittable::Translate(Translate::new(Box::new(there), nd));
    let r = unit_x_ray(-3 * ONE);
    let a = direct.hit(&r, 0, T_INF).expect("direct hit");
    let b = back.hit(&r, 0, T_INF).expect("round-trip hit");
    assert_eq!(a.t, b.t);
    assert_eq!(a.p, b.p);
    assert_eq!(a.normal, b.normal);
    assert_eq!(a.front_face, b.front_face);
    assert_eq!(a.u, b.u);
    assert_eq!(a.v, b.v);
}

#[test]
fn translate_shifts_hit_point() {
    let d = Vec3 { x: 0, y: 3 * ONE, z: 0 };
    let moved = Hittable::Translate(Translate::new(
        Box::new(Hittable::Sphere(Sphere::new(
            Point3 { x: 0, y: 0, z: 0 },
            ONE,
            gray(),
        ))),
        d,
    ));
    let r = Ray::new(
        Point3 { x: -3 * ONE, y: 3 * ONE, z: 0 },
        Vec3 { x: ONE, y: 0, z: 0 },
    );
    let rec = moved.hit(&r, 0, T_INF).expect("translated sphere hit");
    assert_eq!(rec.p.y, 3 * ONE);
    assert_eq!(rec.p.x, -ONE);
}

#[test]
fn ray_at_walks_the_parameter() {
    let r = Ray::new_with_time(
        Point3 { x: ONE, y: 2 * ONE, z: 0 },
        Vec3 { x: ONE, y: -ONE, z: ONE / 2 },
        ONE / 4,
    );
    let p = r.at(2 * ONE);
    assert_eq!(p.x, 3 * ONE);
    assert_eq!(p.y, 0);
    assert_eq!(p.z, ONE);
    assert_eq!(r.time(), ONE / 4);
}

#[test]
fn xz_rect_hit_reports_plane_crossing() {
    let rect = XZRect::new(-ONE, ONE, -ONE, ONE, 0, gray());
    let r = Ray::new(
        Point3 { x: 0, y: 2 * ONE, z: 0 },
        Vec3 { x: 0, y: -ONE, z: 0 },
    );
    let rec = rect.hit(&r, 0, T_INF).expect("ray must cross the plane");
    assert_eq!(rec.t, 2 * ONE);
    assert_eq!(rec.p.y, 0);
    assert_eq!(rec.u, ONE / 2);
    assert_eq!(rec.v, ONE / 2);
    assert_eq!(rec.normal, Vec3 { x: 0, y: ONE, z: 0 });
    assert!(rec.front_face);
    // Crossing outside the rectangle's extent is no hit.
    let wide = Ray::new(
        Point3 { x: 3 * ONE, y: 2 * ONE, z: 0 },
        Vec3 { x: 0, y: -ONE, z: 0 },
    );
    assert!(rect.hit(&wide, 0, T_INF).is_none());
}

#[test]
fn cuboid_is_hit_on_its_near_face() {
    let b = B0x::new(
        Point3 { x: -ONE, y: -ONE, z: -ONE },
        Point3 { x: ONE, y: ONE, z: ONE },
        gray(),
    );
    let h = Hittable::B0x(b);
    let rec = h.hit(&unit_x_ray(-3 * ONE), 0, T_INF).expect("box hit");
    assert_eq!(rec.t, 2 * ONE);
    assert_eq!(rec.p.x, -ONE);
    // The near face's fixed outward normal points +x, so this is a back-face
    // crossing by the rectangle's convention; the stored normal still
    // opposes the ray.
    assert_eq!(rec.normal, Vec3 { x: -ONE, y: 0, z: 0 });
    assert!(!rec.front_face);
}

#[test]
fn moving_sphere_follows_its_keyframes() {
    let m = MovingSphere::new(
        Point3 { x: 0, y: 0, z: 0 },
        Point3 { x: 2 * ONE, y: 0, z: 0 },
        0,
        ONE,
        ONE,
        gray(),
    );
    let at_start = Ray::new_with_time(
        Point3 { x: -3 * ONE, y: 0, z: 0 },
        Vec3 { x: ONE, y: 0, z: 0 },
        0,
    );
    let rec0 = m.hit(&at_start, 0, T_INF).expect("hit at shutter open");
    assert_eq!(rec0.t, 2 * ONE);
    let at_end = Ray::new_with_time(
        Point3 { x: -3 * ONE, y: 0, z: 0 },
        Vec3 { x: ONE, y: 0, z: 0 },
        ONE,
    );
    let rec1 = m.hit(&at_end, 0, T_INF).expect("hit at shutter close");
    assert_eq!(rec1.t, 4 * ONE);
}

#[test]
fn zero_rotation_is_nearly_identity() {
    let turned = Hittable::RotateY(RotateY::new(
        Box::new(Hittable::Sphere(Sphere::new(
            Point3 { x: 0, y: 0, z: 0 },
            2 * ONE,
            gray(),
        ))),
        0,
    ));
    let rec = turned
        .hit(&unit_x_ray(-10 * ONE), 0, T_INF)
        .expect("rotation by zero keeps the sphere in place");
    let err = (rec.t - 8 * ONE).abs();
    assert!(err < ONE / 4, "hit parameter drifted by {}", err);
}
