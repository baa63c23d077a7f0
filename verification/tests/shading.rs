//! Materials, textures, noise, the camera and the integrator.

use raytracer::camera::Camera;
use raytracer::fixed::{ediv, emod, fx_div, fx_mul, isqrt_u128, T_INF};
use raytracer::hittable::{ConstantMedium, HitRecord, Hittable};
use raytracer::material::{Dielectric, DiffuseLight, Lambertian, Material, Metal};
use raytracer::perlin::{perlin_generate_perm, Perlin};
use raytracer::ray::Ray;
use raytracer::render::render_pixel;
use raytracer::rng::{random_fraction, random_index};
use raytracer::sphere::{get_sphere_uv, Sphere};
use raytracer::texture::{Checker, Image, Noise, SolidColor, Texture};
use raytracer::vec3::{Axis, Color, Point3, Vec3};
use std::sync::Arc;

const ONE: i64 = 65536;

fn white() -> Color {
    Vec3 { x: ONE, y: ONE, z: ONE }
}

fn surface_rec(material: Arc<Material>) -> HitRecord {
    HitRecord {
        p: Point3 { x: 0, y: 0, z: 0 },
        normal: Vec3 { x: 0, y: 0, z: ONE },
        material,
        t: ONE,
        u: 0,
        v: 0,
        front_face: true,
    }
}

fn incoming() -> Ray {
    Ray::new(
        Point3 { x: 0, y: 0, z: 3 * ONE },
        Vec3 { x: 0, y: 0, z: -ONE },
    )
}

#[test]
fn fixed_point_arithmetic_exact_values() {
    assert_eq!(fx_mul(3 * ONE, 2 * ONE), 6 * ONE);
    assert_eq!(fx_mul(-3 * ONE, 2 * ONE), -6 * ONE);
    assert_eq!(fx_mul(ONE / 2, ONE / 2), ONE / 4);
    assert_eq!(fx_div(6 * ONE, 2 * ONE), 3 * ONE);
    assert_eq!(fx_div(ONE, 3 * ONE), 21845);
    assert_eq!(isqrt_u128(0), 0);
    assert_eq!(isqrt_u128(15), 3);
    assert_eq!(isqrt_u128(16), 4);
    assert_eq!(ediv(-7, 2), -4);
    assert_eq!(emod(-7, 2), 1);
    assert_eq!(ediv(7, 2), 3);
}

#[test]
fn vector_algebra_exact_values() {
    let a = Vec3 { x: 3 * ONE, y: 4 * ONE, z: 0 };
    let b = Vec3 { x: ONE, y: 0, z: 0 };
    assert_eq!(a.dot(&b), 3 * ONE);
    let c = b.cross(&Vec3 { x: 0, y: ONE, z: 0 });
    assert_eq!(c.x, 0);
    assert_eq!(c.y, 0);
    assert_eq!(c.z, ONE);
    let u = a.unit_vector();
    assert_eq!(u.x, 39321);
    assert_eq!(u.y, 52428);
    assert_eq!(u.z, 0);
    assert_eq!(a.length(), 5 * ONE);
}

#[test]
fn lambertian_scatters_with_albedo() {
    let m = Material::Lambertian(Lambertian::new(Vec3 {
        x: ONE / 4,
        y: ONE / 2,
        z: ONE,
    }));
    let rec = surface_rec(Arc::new(Material::Lambertian(Lambertian::new(white()))));
    let r = incoming();
    let mut attenuation = Vec3 { x: 0, y: 0, z: 0 };
    let mut scattered = Ray::new(Point3 { x: 0, y: 0, z: 0 }, Vec3 { x: 0, y: 0, z: 0 });
    let ok = m.scatter(&r, &rec, &mut attenuation, &mut scattered);
    assert!(ok);
    assert_eq!(attenuation.x, ONE / 4);
    assert_eq!(attenuation.y, ONE / 2);
    assert_eq!(attenuation.z, ONE);
    assert_eq!(scattered.orig, rec.p);
}

#[test]
fn metal_mirror_reflects_straight_on() {
    let m = Material::Metal(Metal::new(
        Vec3 { x: ONE, y: ONE / 2, z: ONE / 4 },
        0,
    ));
    let rec = surface_rec(Arc::new(Material::Lambertian(Lambertian::new(white()))));
    let r = incoming();
    let mut attenuation = Vec3 { x: 0, y: 0, z: 0 };
    let mut scattered = Ray::new(Point3 { x: 0, y: 0, z: 0 }, Vec3 { x: 0, y: 0, z: 0 });
    let ok = m.scatter(&r, &rec, &mut attenuation, &mut scattered);
    assert!(ok);
    assert_eq!(attenuation.x, ONE);
    assert_eq!(scattered.dir.x, 0);
    assert_eq!(scattered.dir.y, 0);
    assert_eq!(scattered.dir.z, ONE);
}

#[test]
fn dielectric_attenuation_is_exactly_white() {
    let m = Material::Dielectric(Dielectric::new(98304)); // index 1.5
    let rec = surface_rec(Arc::new(Material::Dielectric(Dielectric::new(98304))));
    let r = incoming();
    for _ in 0..32 {
        let mut attenuation = Vec3 { x: 0, y: 0, z: 0 };
        let mut scattered = Ray::new(Point3 { x: 0, y: 0, z: 0 }, Vec3 { x: 0, y: 0, z: 0 });
        let ok = m.scatter(&r, &rec, &mut attenuation, &mut scattered);
        assert!(ok);
        assert_eq!(attenuation, white());
        // Straight-on: reflection is +z, refraction -z; never anything else.
        assert_eq!(scattered.dir.x, 0);
        assert_eq!(scattered.dir.y, 0);
        assert!(scattered.dir.z != 0);
    }
}

#[test]
fn diffuse_light_absorbs_and_emits() {
    let glow = Vec3 { x: 4 * ONE, y: 4 * ONE, z: 4 * ONE };
    let m = Material::DiffuseLight(DiffuseLight::new(glow));
    let rec = surface_rec(Arc::new(Material::DiffuseLight(DiffuseLight::new(glow))));
    let r = incoming();
    let mut attenuation = Vec3 { x: 0, y: 0, z: 0 };
    let mut scattered = Ray::new(Point3 { x: 0, y: 0, z: 0 }, Vec3 { x: 0, y: 0, z: 0 });
    assert!(!m.scatter(&r, &rec, &mut attenuation, &mut scattered));
    let e = m.emitted(0, 0, &Point3 { x: 0, y: 0, z: 0 });
    assert_eq!(e, glow);
    let dark = Material::Lambertian(Lambertian::new(white()));
    let none = dark.emitted(0, 0, &Point3 { x: 0, y: 0, z: 0 });
    assert_eq!(none, Vec3 { x: 0, y: 0, z: 0 });
}

#[test]
fn checker_answers_one_of_its_colors() {
    let c1 = Vec3 { x: ONE, y: 0, z: 0 };
    let c2 = Vec3 { x: 0, y: ONE, z: 0 };
    let t = Texture::Checker(Checker::new(c1, c2));
    for i in 0..8_i64 {
        let p = Point3 {
            x: i * ONE / 3,
            y: (7 - i) * ONE / 5,
            z: i * ONE / 7,
        };
        let v = t.value(0, 0, &p);
        assert!(v == c1 || v == c2, "checker must pick one of its colors");
    }
}

#[test]
fn image_stub_answers_fixed_color() {
    let img = Image::new("does-not-exist.png");
    let t = Texture::Image(img);
    let v = t.value(0, 0, &Point3 { x: 0, y: 0, z: 0 });
    assert_eq!(v, Vec3 { x: 0, y: ONE, z: ONE });
    let s = Texture::SolidColor(SolidColor::new(white()));
    assert_eq!(s.value(ONE / 2, ONE / 2, &Point3 { x: 0, y: 0, z: 0 }), white());
}

#[test]
fn perlin_permutations_are_permutations() {
    for _ in 0..3 {
        let perm = perlin_generate_perm();
        assert_eq!(perm.len(), 256);
        let mut seen = [false; 256];
        for &v in perm.iter() {
            assert!((0..256).contains(&v));
            assert!(!seen[v as usize], "index repeated in permutation");
            seen[v as usize] = true;
        }
    }
}

#[test]
fn perlin_noise_lies_in_unit_band() {
    let perlin = Perlin::generate();
    for i in -12_i64..12 {
        for j in -4_i64..4 {
            let p = Point3 {
                x: i * ONE / 3 + j * 17,
                y: j * ONE / 2 - i * 31,
                z: (i + j) * ONE / 5,
            };
            let n = perlin.noise(&p);
            assert!(
                (-ONE..=ONE).contains(&n),
                "noise out of unit band: {}",
                n
            );
        }
    }
}

#[test]
fn perlin_turbulence_is_nonnegative() {
    let perlin = Perlin::generate();
    for i in 0..24_i64 {
        let p = Point3 {
            x: i * ONE / 2,
            y: ONE - i * 7,
            z: i * ONE,
        };
        assert!(perlin.turb(&p, 7) >= 0);
    }
}

#[test]
fn rng_wrappers_stay_in_range() {
    let mut varied = false;
    let first = random_fraction();
    for _ in 0..512 {
        let f = random_fraction();
        assert!((0..ONE).contains(&f));
        if f != first {
            varied = true;
        }
        let i = random_index(3, 9);
        assert!((3..=9).contains(&i));
    }
    assert!(varied, "the fraction source never varied");
}

#[test]
fn camera_time_stays_in_shutter_interval() {
    let cam = Camera::new_with_time(
        Point3 { x: 0, y: 0, z: 200 * ONE },
        Point3 { x: 0, y: 0, z: 0 },
        Vec3 { x: 0, y: ONE, z: 0 },
        20 * ONE,
        ONE,
        0,
        ONE,
        ONE / 4,
        ONE / 2,
    );
    for _ in 0..64 {
        let r = cam.get_ray(ONE / 2, ONE / 2);
        assert!(r.time >= ONE / 4 && r.time <= ONE / 2);
        assert!(r.dir.z < 0, "camera must look toward the scene");
    }
}

#[test]
fn center_pixel_of_backlit_sphere_is_black() {
    // One diffuse sphere, one sample, depth one: the bounce estimate hits the
    // depth floor, so the pixel is exactly black.
    let world = Hittable::Sphere(Sphere::new(
        Point3 { x: 0, y: 0, z: 0 },
        100 * ONE,
        Arc::new(Material::Lambertian(Lambertian::new(Vec3 {
            x: ONE / 2,
            y: ONE / 2,
            z: ONE / 2,
        }))),
    ));
    let cam = Camera::new(
        Point3 { x: 0, y: 0, z: 200 * ONE },
        Point3 { x: 0, y: 0, z: 0 },
        Vec3 { x: 0, y: ONE, z: 0 },
        20 * ONE,
        ONE,
        0,
        ONE,
    );
    let background = Vec3 { x: 45875, y: 52429, z: ONE };
    let c = render_pixel(&world, &cam, &background, 3, 3, 1, 1, 1, 1);
    assert_eq!(c, Vec3 { x: 0, y: 0, z: 0 });
}

#[test]
fn every_miss_returns_the_background() {
    let world = Hittable::Sphere(Sphere::new(
        Point3 { x: 0, y: 0, z: 0 },
        100 * ONE,
        Arc::new(Material::Lambertian(Lambertian::new(Vec3 {
            x: ONE / 2,
            y: ONE / 2,
            z: ONE / 2,
        }))),
    ));
    // Looking away from the sphere: everything is background.
    let cam = Camera::new(
        Point3 { x: 0, y: 0, z: 200 * ONE },
        Point3 { x: 0, y: 0, z: 400 * ONE },
        Vec3 { x: 0, y: ONE, z: 0 },
        20 * ONE,
        ONE,
        0,
        ONE,
    );
    let background = Vec3 { x: 45875, y: 52429, z: ONE };
    let c = render_pixel(&world, &cam, &background, 3, 3, 1, 1, 4, 8);
    assert_eq!(c, background);
}

#[test]
fn thin_medium_passes_dense_medium_scatters() {
    let boundary = |_: ()| {
        Hittable::Sphere(Sphere::new(
            Point3 { x: 0, y: 0, z: 0 },
            1000 * ONE,
            Arc::new(Material::Lambertian(Lambertian::new(Vec3 {
                x: ONE / 2,
                y: ONE / 2,
                z: ONE / 2,
            }))),
        ))
    };
    let thin = Hittable::ConstantMedium(ConstantMedium::new(
        Box::new(boundary(())),
        7, // about 1e-4 of a unit per step
        white(),
    ));
    let dense = Hittable::ConstantMedium(ConstantMedium::new(
        Box::new(boundary(())),
        ONE, // density one
        white(),
    ));
    let trials = 200;
    let mut thin_hits = 0;
    let mut dense_hits = 0;
    for _ in 0..trials {
        let r = Ray::new(
            Point3 { x: -2000 * ONE, y: 0, z: 0 },
            Vec3 { x: ONE, y: 0, z: 0 },
        );
        if thin.hit(&r, 66, T_INF).is_some() {
            thin_hits += 1;
        }
        if dense.hit(&r, 66, T_INF).is_some() {
            dense_hits += 1;
        }
    }
    assert!(
        thin_hits < trials / 2,
        "thin medium scattered {} of {}",
        thin_hits,
        trials
    );
    assert!(
        dense_hits >= trials - 1,
        "dense medium passed {} of {}",
        trials - dense_hits,
        trials
    );
}

#[test]
fn sphere_uv_uses_shifted_azimuth() {
    // u = (atan2(-z, x) + pi) / (2 pi): one half on the +x axis.
    let (u, v) = get_sphere_uv(&Point3 { x: ONE, y: 0, z: 0 });
    assert_eq!(u, ONE / 2);
    assert_eq!(v, ONE / 2 - 1); // acos(0)/pi, one truncation step under a half
    let (u2, _) = get_sphere_uv(&Point3 { x: -ONE, y: 0, z: 0 });
    assert_eq!(u2, ONE); // the seam: a full turn on the -x axis
    let (u3, _) = get_sphere_uv(&Point3 { x: 0, y: 0, z: -ONE });
    assert!(
        (ONE * 3 / 4 - 4..=ONE * 3 / 4 + 4).contains(&u3),
        "three quarters of a turn, got {}",
        u3
    );
    // The polynomial arcsine is coarsest at the poles; an eighth of a half
    // turn bounds its error there.
    let (_, v2) = get_sphere_uv(&Point3 { x: 0, y: -ONE, z: 0 });
    assert!(v2 <= ONE / 8, "south pole near zero, got {}", v2);
}

#[test]
fn marble_texture_is_gray_and_striped_along_axis() {
    let t = Texture::Noise(Noise::new(4 * ONE, Axis::Z));
    for i in 0..6_i64 {
        let p = Point3 {
            x: i * ONE / 2,
            y: ONE / 3,
            z: i * ONE / 5,
        };
        let c = t.value(0, 0, &p);
        assert_eq!(c.x, c.y);
        assert_eq!(c.y, c.z);
        assert!((0..=ONE).contains(&c.x));
    }
}
