//! Scattering models: diffuse, specular, refractive, emissive and
//! volumetric-isotropic.  `scatter` either absorbs the ray or produces an
//! attenuation color and a scattered ray; `emitted` is black except for
//! lights.

use crate::fixed::{clamp, fdiv, fmul, fx_div, fx_mul, fx_sqrt, max_i, min_i, sabs, ONE};
use crate::hittable::HitRecord;
use crate::ray::Ray;
use crate::rng::random_fraction;
use crate::texture::{color_ok, texture_value_s, SolidColor, Texture};
use crate::vec3::{dot_s, neg_s, reflect_s, refract_s, unit_s, Color, Vec3};
use std::sync::Arc;
use vstd::prelude::*;

verus! {

pub enum Material {
    Lambertian(Lambertian),
    Metal(Metal),
    Dielectric(Dielectric),
    DiffuseLight(DiffuseLight),
    Isotropic(Isotropic),
}

pub struct Lambertian {
    pub albedo: Box<Texture>,
}

pub struct Metal {
    pub albedo: Color,
    pub fuzz: i64,
}

pub struct Dielectric {
    pub refraction_index: i64,
}

pub struct DiffuseLight {
    pub emit: Box<Texture>,
}

pub struct Isotropic {
    pub albedo: Box<Texture>,
}

/// What a material emits: the emission texture's value for a light, black
/// for everything else.
pub open spec fn emitted_s(m: Material, u: i64, v: i64, p: crate::vec3::Point3) -> Color {
    match m {
        Material::DiffuseLight(l) => texture_value_s(*l.emit, u, v, p),
        _ => Color { x: 0, y: 0, z: 0 },
    }
}

/// Schlick's approximation as `reflectance` computes it: the normal-incidence
/// coefficient plus its complement scaled by the fifth power of one minus
/// the cosine.
pub open spec fn schlick_s(cosine: int, ref_idx: int) -> int {
    let ric = if ref_idx <= 0x3fff_ffff_ffff {
        ref_idx
    } else {
        0x3fff_ffff_ffff
    };
    let q = fdiv(65536 - ric, 65536 + ric);
    let qc = crate::trig::clamp_s(q, -65536, 65536);
    let r0 = fmul(qc, qc);
    let omc = crate::trig::clamp_s(65536 - cosine, 0, 65536);
    let p5 = fmul(fmul(fmul(fmul(omc, omc), omc), omc), omc);
    r0 + fmul(65536 - r0, p5)
}

/// What the refractive surface does, given the uniform draw: total internal
/// reflection and a Schlick draw above the threshold reflect; everything
/// else refracts.
pub open spec fn dielectric_dir_s(d: Dielectric, r_in: Ray, rec: HitRecord, draw: int) -> Vec3 {
    let ud = unit_s(r_in.dir);
    let ratio = if rec.front_face {
        fdiv(65536, d.refraction_index as int)
    } else {
        d.refraction_index as int
    };
    let cos = if dot_s(neg_s(ud), rec.normal) <= 65536 {
        dot_s(neg_s(ud), rec.normal)
    } else {
        65536int
    };
    let sin2 = if 65536 - fmul(cos, cos) >= 0 {
        65536 - fmul(cos, cos)
    } else {
        0int
    };
    let sint = crate::fixed::sqf(sin2 * 65536);
    let cannot_refract = fmul(ratio, sint) > 65536;
    if cannot_refract || schlick_s(cos, ratio) > draw {
        reflect_s(ud, rec.normal)
    } else {
        refract_s(ud, rec.normal, ratio)
    }
}

/// The diffuse bounce target: normal plus a random unit vector, falling back
/// to the bare normal when the sum degenerates to zero.
pub open spec fn lambertian_dir(n: Vec3, g: Vec3) -> Vec3 {
    let s = Vec3 { x: (n.x + g.x) as i64, y: (n.y + g.y) as i64, z: (n.z + g.z) as i64 };
    if s.x == 0 && s.y == 0 && s.z == 0 {
        n
    } else {
        s
    }
}

impl Material {
    pub open spec fn wf(self) -> bool {
        match self {
            Material::Lambertian(l) => l.albedo.wf(),
            Material::Metal(m) => color_ok(m.albedo) && 0 <= m.fuzz <= ONE,
            Material::Dielectric(d) => 32768 <= d.refraction_index <= 16 * ONE,
            Material::DiffuseLight(l) => l.emit.wf(),
            Material::Isotropic(i) => i.albedo.wf(),
        }
    }

    /// What a scattering event requires of the surrounding hit.
    pub open spec fn scatter_ok(rec: HitRecord, r_in: Ray) -> bool {
        &&& rec.p.in_world()
        &&& rec.normal.bounded(ONE as int)
        &&& r_in.dir.bounded(0x4000_0000)
        &&& sabs(r_in.time as int) <= crate::fixed::T_INF as int
    }

    /// Either absorb the ray (`false`) or fill in an attenuation and a
    /// scattered ray.  Each variant pins its attenuation and the shape of the
    /// scattered direction; randomness appears only through the existential
    /// sample vectors.
    pub fn scatter(
        &self,
        r_in: &Ray,
        rec: &HitRecord,
        attenuation: &mut Color,
        scattered: &mut Ray,
    ) -> (b: bool)
        requires
            self.wf(),
            Self::scatter_ok(*rec, *r_in),
        ensures
            match *self {
                Material::Lambertian(l) => {
                    &&& b
                    &&& *final(attenuation) == texture_value_s(*l.albedo, rec.u, rec.v, rec.p)
                    &&& color_ok(*final(attenuation))
                    &&& final(scattered).orig == rec.p
                    &&& final(scattered).time == r_in.time
                    &&& exists|g: Vec3|
                        g.bounded(ONE as int) && final(scattered).dir == lambertian_dir(
                            rec.normal,
                            g,
                        )
                },
                Material::Metal(m) => {
                    &&& *final(attenuation) == m.albedo
                    &&& final(scattered).orig == rec.p
                    &&& final(scattered).time == r_in.time
                    &&& b == (dot_s(final(scattered).dir, rec.normal) > 0)
                    &&& (r_in.dir.x != 0 || r_in.dir.y != 0 || r_in.dir.z != 0) ==> exists|f: Vec3|
                        f.bounded(ONE as int) && final(scattered).dir == metal_dir(
                            r_in.dir,
                            rec.normal,
                            m.fuzz as int,
                            f,
                        )
                },
                Material::Dielectric(d) => {
                    &&& (r_in.dir.x != 0 || r_in.dir.y != 0 || r_in.dir.z != 0) ==> {
                        &&& b
                        &&& *final(attenuation) == (Color { x: 65536, y: 65536, z: 65536 })
                        &&& final(scattered).orig == rec.p
                        &&& final(scattered).time == 0
                        &&& exists|draw: i64|
                            0 <= draw < 65536 && final(scattered).dir == dielectric_dir_s(
                                d,
                                *r_in,
                                *rec,
                                draw as int,
                            )
                    }
                    &&& !(r_in.dir.x != 0 || r_in.dir.y != 0 || r_in.dir.z != 0) ==> !b
                },
                Material::DiffuseLight(_) => {
                    &&& !b
                    &&& *final(attenuation) == *old(attenuation)
                    &&& *final(scattered) == *old(scattered)
                },
                Material::Isotropic(i) => {
                    &&& b
                    &&& *final(attenuation) == texture_value_s(*i.albedo, rec.u, rec.v, rec.p)
                    &&& color_ok(*final(attenuation))
                    &&& final(scattered).orig == rec.p
                    &&& final(scattered).time == r_in.time
                    &&& exists|g: Vec3|
                        g.bounded(ONE as int) && final(scattered).dir == g
                },
            },
            final(scattered).dir.bounded(0x40_0000_0000_0000) || *final(scattered) == *old(
                scattered,
            ),
    {
        match self {
            Material::Lambertian(l) => {
                let g: Vec3 = Vec3::random_unit_vector();
                let mut dir = Vec3 { x: rec.normal.x + g.x, y: rec.normal.y + g.y, z: rec.normal.z + g.z };
                if dir.near_zero() {
                    dir = rec.normal;
                }
                *scattered = Ray::new_with_time(rec.p, dir, r_in.time);
                *attenuation = l.albedo.value(rec.u, rec.v, &rec.p);
                proof {
                    assert(final(scattered).dir == lambertian_dir(rec.normal, g));
                }
                true
            },
            Material::Metal(m) => {
                if r_in.direction().near_zero() {
                    *attenuation = m.albedo;
                    *scattered = Ray::new_with_time(rec.p, rec.normal, r_in.time);
                    let down: i64 = scattered.direction().dot(&rec.normal);
                    return down > 0;
                }
                proof {
                    crate::vec3::lemma_nonzero_sq_sum(r_in.dir);
                }
                let reflected = r_in.direction().unit_vector().reflect(&rec.normal);
                let f: Vec3 = Vec3::random_in_unit_sphere();
                proof {
                    crate::fixed::lemma_mul_bounds(m.fuzz as int, f.x as int, 65536, 65536);
                    crate::fixed::lemma_mul_bounds(m.fuzz as int, f.y as int, 65536, 65536);
                    crate::fixed::lemma_mul_bounds(m.fuzz as int, f.z as int, 65536, 65536);
                    crate::fixed::lemma_tdiv_le(
                        m.fuzz as int * f.x as int,
                        0x1_0000,
                        65536int * 65536int,
                    );
                    crate::fixed::lemma_tdiv_le(
                        m.fuzz as int * f.y as int,
                        0x1_0000,
                        65536int * 65536int,
                    );
                    crate::fixed::lemma_tdiv_le(
                        m.fuzz as int * f.z as int,
                        0x1_0000,
                        65536int * 65536int,
                    );
                }
                let dir = Vec3 {
                    x: reflected.x + fx_mul(m.fuzz, f.x),
                    y: reflected.y + fx_mul(m.fuzz, f.y),
                    z: reflected.z + fx_mul(m.fuzz, f.z),
                };
                *scattered = Ray::new_with_time(rec.p, dir, r_in.time);
                *attenuation = m.albedo;
                let d: i64 = scattered.direction().dot(&rec.normal);
                d > 0
            },
            Material::Dielectric(d) => {
                if r_in.direction().near_zero() {
                    return false;
                }
                proof {
                    crate::vec3::lemma_nonzero_sq_sum(r_in.dir);
                }
                *attenuation = Vec3 { x: 65536, y: 65536, z: 65536 };
                let refraction_ratio: i64 = if rec.front_face {
                    fx_div(65536, d.refraction_index)
                } else {
                    d.refraction_index
                };
                let unit_direction = r_in.direction().unit_vector();
                let nu = unit_direction.neg();
                let cos_theta: i64 = min_i(nu.dot(&rec.normal), 65536);
                proof {
                    crate::vec3::lemma_dot_bound(nu, rec.normal, ONE as int);
                    crate::fixed::lemma_mul_bounds(cos_theta as int, cos_theta as int, 196608, 196608);
                    crate::fixed::lemma_tdiv_le(
                        cos_theta as int * cos_theta as int,
                        0x1_0000,
                        196608int * 196608int,
                    );
                }
                let sin2: i64 = max_i(0, 65536 - fx_mul(cos_theta, cos_theta));
                let sin_theta: i64 = fx_sqrt(sin2);
                proof {
                    assert(sin_theta as int * sin_theta as int <= sin2 as int * 65536);
                    assert(sin_theta <= 65536) by {
                        if sin_theta as int > 65536 {
                            assert(sin_theta as int * sin_theta as int > 65536int * 65536int)
                                by (nonlinear_arith)
                                requires
                                    sin_theta as int > 65536,
                            ;
                        }
                    }
                    crate::fixed::lemma_mul_bounds(
                        refraction_ratio as int,
                        sin_theta as int,
                        0x4000_0000_0000_0000,
                        65536,
                    );
                }
                proof {
                    if rec.front_face {
                        lemma_div_denominator_order(
                            65536int * 65536int,
                            32768,
                            d.refraction_index as int,
                        );
                        lemma_div_denominator_order(
                            65536int * 65536int,
                            d.refraction_index as int,
                            16int * 65536int,
                        );
                    }
                }
                let cannot_refract: bool = fx_mul(refraction_ratio, sin_theta) > 65536;
                let rf: i64 = reflectance(cos_theta, refraction_ratio);
                let draw: i64 = random_fraction();
                let dir: Vec3 = if cannot_refract || rf > draw {
                    unit_direction.reflect(&rec.normal)
                } else {
                    unit_direction.refract(&rec.normal, refraction_ratio)
                };
                *scattered = Ray::new(rec.p, dir);
                proof {
                    assert(nu == neg_s(unit_s(r_in.dir)));
                    assert(scattered.dir == dielectric_dir_s(*d, *r_in, *rec, draw as int));
                }
                true
            },
            Material::DiffuseLight(_) => false,
            Material::Isotropic(i) => {
                let g: Vec3 = Vec3::random_in_unit_sphere();
                *scattered = Ray::new_with_time(rec.p, g, r_in.time);
                *attenuation = i.albedo.value(rec.u, rec.v, &rec.p);
                true
            },
        }
    }

    /// Light sources return their emission texture's value; everything else
    /// is black.
    pub fn emitted(&self, u: i64, v: i64, p: &crate::vec3::Point3) -> (r: Color)
        requires
            self.wf(),
            p.in_world(),
        ensures
            r == emitted_s(*self, u, v, *p),
            color_ok(r),
    {
        match self {
            Material::DiffuseLight(l) => l.emit.value(u, v, p),
            _ => Vec3 { x: 0, y: 0, z: 0 },
        }
    }
}


/// The specular bounce: the reflection of the unit incoming direction,
/// perturbed by `fuzz` times a sample from the unit ball.
pub open spec fn metal_dir(din: Vec3, n: Vec3, fuzz: int, f: Vec3) -> Vec3 {
    let refl = reflect_s(unit_s(din), n);
    Vec3 {
        x: (refl.x + fmul(fuzz, f.x as int)) as i64,
        y: (refl.y + fmul(fuzz, f.y as int)) as i64,
        z: (refl.z + fmul(fuzz, f.z as int)) as i64,
    }
}

/// Schlick's approximation of the Fresnel reflectance.
fn reflectance(cosine: i64, ref_idx: i64) -> (r: i64)
    requires
        -0x20_0000 <= cosine <= 65536,
        0 < ref_idx <= 0x4000_0000_0000_0000,
    ensures
        r as int == schlick_s(cosine as int, ref_idx as int),
        0 <= r <= 2 * 65536,
{
    let q: i64 = fx_div(65536 - ref_idx_clamp(ref_idx), 65536 + ref_idx_clamp(ref_idx));
    let qc: i64 = clamp(q, -65536, 65536);
    proof {
        crate::fixed::lemma_mul_bounds(qc as int, qc as int, 65536, 65536);
        crate::fixed::lemma_tdiv_le(qc as int * qc as int, 0x1_0000, 65536int * 65536int);
        assert(qc as int * qc as int >= 0) by (nonlinear_arith);
    }
    let r0: i64 = fx_mul(qc, qc);
    let omc: i64 = clamp(65536 - cosine, 0, 65536);
    let p2: i64 = pow_unit(omc, omc);
    let p3: i64 = pow_unit(p2, omc);
    let p4: i64 = pow_unit(p3, omc);
    let p5: i64 = pow_unit(p4, omc);
    proof {
        crate::fixed::lemma_mul_bounds(65536 - r0 as int, p5 as int, 65536, 65536);
        crate::fixed::lemma_tdiv_le((65536 - r0 as int) * p5 as int, 0x1_0000, 65536int * 65536int);
    }
    let rest: i64 = fx_mul(65536 - r0, p5);
    r0 + rest
}

fn ref_idx_clamp(ref_idx: i64) -> (r: i64)
    requires
        0 < ref_idx,
    ensures
        r as int == if ref_idx <= 0x3fff_ffff_ffff {
            ref_idx as int
        } else {
            0x3fff_ffff_ffff
        },
        0 < r <= 0x3fff_ffff_ffff,
{
    min_i(ref_idx, 0x3fff_ffff_ffff)
}

/// One more factor of a unit-interval power.
fn pow_unit(a: i64, b: i64) -> (r: i64)
    requires
        0 <= a <= 65536,
        0 <= b <= 65536,
    ensures
        r as int == fmul(a as int, b as int),
        0 <= r <= 65536,
{
    proof {
        crate::fixed::lemma_mul_bounds(a as int, b as int, 65536, 65536);
        crate::fixed::lemma_tdiv_le(a as int * b as int, 0x1_0000, 65536int * 65536int);
        assert(a as int * b as int >= 0) by (nonlinear_arith)
            requires
                a >= 0 && b >= 0,
        ;
    }
    fx_mul(a, b)
}

/// Ordering of quotients by denominator, for positive numerators.
proof fn lemma_div_denominator_order(x: int, d1: int, d2: int)
    requires
        x >= 0,
        0 < d1 <= d2,
    ensures
        x / d1 >= x / d2,
{
    assert(x / d1 >= x / d2) by (nonlinear_arith)
        requires
            x >= 0 && 0 < d1 <= d2,
    ;
}

/// Relies on std's Arc::clone: the clone is a handle to the same value.
#[verifier::external_body]
pub fn share_material(m: &Arc<Material>) -> (r: Arc<Material>)
    ensures
        r == *m,
{
    m.clone()
}

impl Lambertian {
    pub fn new(color: Color) -> (r: Lambertian)
        ensures
            r.albedo == Box::new(Texture::SolidColor(SolidColor { color })),
    {
        Lambertian { albedo: Box::new(Texture::SolidColor(SolidColor { color })) }
    }

    pub fn new_with_texture(albedo: Box<Texture>) -> (r: Lambertian)
        ensures
            r.albedo == albedo,
    {
        Lambertian { albedo }
    }
}

impl Metal {
    /// Fuzz is clamped into the unit interval.
    pub fn new(albedo: Color, fuzz: i64) -> (r: Metal)
        ensures
            r.albedo == albedo,
            r.fuzz as int == crate::trig::clamp_s(fuzz as int, 0, ONE as int),
            0 <= r.fuzz <= ONE,
    {
        Metal { albedo, fuzz: clamp(fuzz, 0, 65536) }
    }
}

impl Dielectric {
    pub fn new(refraction_index: i64) -> (r: Dielectric)
        ensures
            r.refraction_index == refraction_index,
    {
        Dielectric { refraction_index }
    }
}

impl DiffuseLight {
    pub fn new(color: Color) -> (r: DiffuseLight)
        ensures
            r.emit == Box::new(Texture::SolidColor(SolidColor { color })),
    {
        DiffuseLight { emit: Box::new(Texture::SolidColor(SolidColor { color })) }
    }
}

impl Isotropic {
    pub fn new(c: Color) -> (r: Isotropic)
        ensures
            r.albedo == Box::new(Texture::SolidColor(SolidColor { color: c })),
    {
        Isotropic { albedo: Box::new(Texture::SolidColor(SolidColor { color: c })) }
    }

    pub fn new_texture(albedo: Box<Texture>) -> (r: Isotropic)
        ensures
            r.albedo == albedo,
    {
        Isotropic { albedo }
    }
}

} // verus!
