//! The recursive integrator: fixed-depth Monte Carlo estimation of the
//! rendering equation, and the per-pixel entry point that averages samples.

use crate::camera::Camera;
use crate::fixed::{clamp, fx_div, sabs, tdiv, ONE, T_INF, W_MAX};
use crate::hittable::{hit_model, Hittable};
use crate::material::emitted_s;
use crate::ray::Ray;
use crate::rng::random_fraction;
use crate::texture::color_ok;
use crate::vec3::{Color, Vec3};
use vstd::prelude::*;

verus! {

/// The lower ray-parameter cutoff that avoids re-hitting the origin surface.
pub const T_EPS: i64 = 66;

/// Channel cap for accumulated radiance; far above any displayable value,
/// so it only guards the arithmetic.
pub const RADIANCE_MAX: i64 = 0x100_0000_0000;

/// No admissible ray intersects the scene at all: everything the camera can
/// produce falls through to the background.
pub open spec fn scene_never_hit(world: Hittable) -> bool {
    forall|r: Ray|
        r.orig.bounded(0x4000_0000) && r.dir.bounded(0x4000_0000) && sabs(r.time as int)
            <= T_INF as int ==> (#[trigger] hit_model(world, r, T_EPS as int, T_INF as int))
            is None
}

/// What one light-transport estimate guarantees, whatever was drawn: it is
/// bounded radiance; on a media-free scene a miss is exactly the background,
/// and a hit within the world bound contributes at least its emission —
/// exactly its emission when the material is a light.
pub open spec fn sample_estimate_ok(
    world: Hittable,
    background: Color,
    ray: Ray,
    c: Color,
    depth: i32,
) -> bool {
    &&& radiance_ok(c)
    &&& (depth > 0 && world.deterministic() ==> match hit_model(
        world,
        ray,
        T_EPS as int,
        T_INF as int,
    ) {
        None => c == background,
        Some(rec) => rec.p.bounded(W_MAX as int) ==> {
            let e = emitted_s(*rec.material, rec.u, rec.v, rec.p);
            &&& e.x <= c.x && e.y <= c.y && e.z <= c.z
            &&& ((*rec.material) is DiffuseLight ==> c == e)
        },
    })
}

/// Channel-wise sum of a sequence of colors.
pub open spec fn csum(samples: Seq<Color>) -> (int, int, int)
    decreases samples,
{
    if samples.len() == 0 {
        (0int, 0int, 0int)
    } else {
        let rest = csum(samples.drop_last());
        (rest.0 + samples.last().x, rest.1 + samples.last().y, rest.2 + samples.last().z)
    }
}

/// One pixel explained: a sequence of shutter-admissible rays and one
/// estimate per ray, each carrying the sample-level guarantee, averaged with
/// truncation into the pixel.
pub open spec fn pixel_trace_ok(
    world: Hittable,
    background: Color,
    cam: Camera,
    c: Color,
    spp: i32,
    depth: i32,
    rays: Seq<Ray>,
    samples: Seq<Color>,
) -> bool {
    &&& rays.len() == spp
    &&& samples.len() == spp
    &&& (forall|i: int|
        0 <= i < samples.len() ==> sample_estimate_ok(
            world,
            background,
            rays[i],
            #[trigger] samples[i],
            depth,
        ) && cam.time_start <= rays[i].time <= cam.time_end)
    &&& c.x as int == tdiv(csum(samples).0, spp as int)
    &&& c.y as int == tdiv(csum(samples).1, spp as int)
    &&& c.z as int == tdiv(csum(samples).2, spp as int)
}

/// Some such explanation exists for the returned pixel.
pub open spec fn pixel_average_ok(
    world: Hittable,
    background: Color,
    cam: Camera,
    c: Color,
    spp: i32,
    depth: i32,
) -> bool {
    exists|rays: Seq<Ray>, samples: Seq<Color>|
        pixel_trace_ok(world, background, cam, c, spp, depth, rays, samples)
}

pub open spec fn radiance_ok(c: Color) -> bool {
    &&& 0 <= c.x <= RADIANCE_MAX
    &&& 0 <= c.y <= RADIANCE_MAX
    &&& 0 <= c.z <= RADIANCE_MAX
}

/// One light-transport estimate along a ray: black once the depth budget is
/// spent, the background on a miss, emission plus attenuated recursion on a
/// hit.
#[verifier::rlimit(100)]
pub fn ray_color(r: &Ray, background: &Color, world: &Hittable, depth: i32) -> (c: Color)
    requires
        world.wf(),
        color_ok(*background),
        r.orig.bounded(0x4000_0000),
        r.dir.bounded(0x4000_0000),
        sabs(r.time as int) <= T_INF as int,
    ensures
        sample_estimate_ok(*world, *background, *r, c, depth),
        depth <= 0 ==> c == (Color { x: 0, y: 0, z: 0 }),
        depth > 0 && world.deterministic() && hit_model(
            *world,
            *r,
            T_EPS as int,
            T_INF as int,
        ) is None ==> c == *background,
    decreases depth,
{
    if depth <= 0 {
        return Vec3 { x: 0, y: 0, z: 0 };
    }
    match world.hit(r, T_EPS, T_INF) {
        None => *background,
        Some(rec) => {
            if !(-W_MAX <= rec.p.x && rec.p.x <= W_MAX && -W_MAX <= rec.p.y && rec.p.y <= W_MAX
                && -W_MAX <= rec.p.z && rec.p.z <= W_MAX) {
                return Vec3 { x: 0, y: 0, z: 0 };
            }
            let emitted: Color = rec.material.emitted(rec.u, rec.v, &rec.p);
            let mut scattered = Ray {
                orig: Vec3 { x: 0, y: 0, z: 0 },
                dir: Vec3 { x: 0, y: 0, z: 0 },
                time: 0,
            };
            let mut attenuation = Vec3 { x: 0, y: 0, z: 0 };
            let scattered_ok = rec.material.scatter(r, &rec, &mut attenuation, &mut scattered);
            if !scattered_ok {
                return emitted;
            }
            if !(-0x4000_0000 <= scattered.orig.x && scattered.orig.x <= 0x4000_0000
                && -0x4000_0000 <= scattered.orig.y && scattered.orig.y <= 0x4000_0000
                && -0x4000_0000 <= scattered.orig.z && scattered.orig.z <= 0x4000_0000
                && -0x4000_0000 <= scattered.dir.x && scattered.dir.x <= 0x4000_0000
                && -0x4000_0000 <= scattered.dir.y && scattered.dir.y <= 0x4000_0000
                && -0x4000_0000 <= scattered.dir.z && scattered.dir.z <= 0x4000_0000 && -T_INF
                <= scattered.time && scattered.time <= T_INF) {
                return emitted;
            }
            let att = Vec3 {
                x: clamp(attenuation.x, 0, 16 * 65536),
                y: clamp(attenuation.y, 0, 16 * 65536),
                z: clamp(attenuation.z, 0, 16 * 65536),
            };
            let rc = ray_color(&scattered, background, world, depth - 1);
            Vec3 {
                x: shade(emitted.x, att.x, rc.x),
                y: shade(emitted.y, att.y, rc.y),
                z: shade(emitted.z, att.z, rc.z),
            }
        },
    }
}

/// One channel of `emitted + attenuation * incoming`, saturated at the
/// radiance cap.
fn shade(emitted: i64, att: i64, incoming: i64) -> (r: i64)
    requires
        0 <= emitted <= 16 * 65536,
        0 <= att <= 16 * 65536,
        0 <= incoming <= RADIANCE_MAX,
    ensures
        emitted <= r,
        0 <= r <= RADIANCE_MAX,
{
    proof {
        crate::fixed::lemma_mul_bounds(att as int, incoming as int, 0x10_0000, 0x100_0000_0000);
        crate::fixed::lemma_tdiv_le(
            att as int * incoming as int,
            0x1_0000,
            0x10_0000int * 0x100_0000_0000int,
        );
        assert(att as int * incoming as int >= 0) by (nonlinear_arith)
            requires
                att >= 0 && incoming >= 0,
        ;
    }
    let bounce: i64 = crate::fixed::fx_mul(att, incoming);
    clamp(emitted + bounce, 0, 0x100_0000_0000)
}

/// The pure per-pixel function: average `samples_per_pixel` estimates
/// through jittered camera rays.  Linear radiance, not gamma corrected.
#[verifier::loop_isolation(false)]
pub fn render_pixel(
    scene_root: &Hittable,
    camera: &Camera,
    background: &Color,
    image_width: i32,
    image_height: i32,
    pixel_x: i32,
    pixel_y: i32,
    samples_per_pixel: i32,
    max_depth: i32,
) -> (c: Color)
    requires
        scene_root.wf(),
        camera.wf(),
        color_ok(*background),
        2 <= image_width <= 0x1_0000,
        2 <= image_height <= 0x1_0000,
        0 <= pixel_x < image_width,
        0 <= pixel_y < image_height,
        1 <= samples_per_pixel <= 0x4000,
        0 <= max_depth <= 64,
    ensures
        radiance_ok(c),
        pixel_average_ok(*scene_root, *background, *camera, c, samples_per_pixel, max_depth),
        scene_root.deterministic() && scene_never_hit(*scene_root) && max_depth > 0 ==> c
            == *background,
{
    let ghost misses_all = scene_root.deterministic() && scene_never_hit(*scene_root)
        && max_depth > 0;
    let ghost mut rays: Seq<Ray> = Seq::empty();
    let ghost mut samples: Seq<Color> = Seq::empty();
    let mut sum_x: i64 = 0;
    let mut sum_y: i64 = 0;
    let mut sum_z: i64 = 0;
    let mut s: i32 = 0;
    while s < samples_per_pixel
        invariant
            0 <= s <= samples_per_pixel,
            rays.len() == s,
            samples.len() == s,
            forall|i: int|
                0 <= i < samples.len() ==> sample_estimate_ok(
                    *scene_root,
                    *background,
                    rays[i],
                    #[trigger] samples[i],
                    max_depth,
                ) && camera.time_start <= rays[i].time <= camera.time_end,
            sum_x as int == csum(samples).0,
            sum_y as int == csum(samples).1,
            sum_z as int == csum(samples).2,
            0 <= sum_x <= s * RADIANCE_MAX as int,
            0 <= sum_y <= s * RADIANCE_MAX as int,
            0 <= sum_z <= s * RADIANCE_MAX as int,
            misses_all ==> sum_x == s * background.x && sum_y == s * background.y && sum_z == s
                * background.z,
        decreases samples_per_pixel - s,
    {
        let u: i64 = pixel_fraction(pixel_x, image_width);
        let v: i64 = pixel_fraction(pixel_y, image_height);
        let ray: Ray = camera.get_ray(u, v);
        proof {
            if misses_all {
                assert(hit_model(*scene_root, ray, T_EPS as int, T_INF as int) is None);
            }
        }
        let sample: Color = ray_color(&ray, background, scene_root, max_depth);
        proof {
            if misses_all {
                assert((s as int + 1) * background.x as int == s as int * background.x as int
                    + background.x as int) by (nonlinear_arith);
                assert((s as int + 1) * background.y as int == s as int * background.y as int
                    + background.y as int) by (nonlinear_arith);
                assert((s as int + 1) * background.z as int == s as int * background.z as int
                    + background.z as int) by (nonlinear_arith);
            }
            let prev = samples;
            rays = rays.push(ray);
            samples = samples.push(sample);
            assert(samples.drop_last() =~= prev);
            assert(samples.last() == sample);
        }
        sum_x = sum_x + sample.x;
        sum_y = sum_y + sample.y;
        sum_z = sum_z + sample.z;
        s = s + 1;
    }
    let n: i64 = samples_per_pixel as i64;
    proof {
        if misses_all {
            lemma_uniform_average(background.x as int, n as int);
            lemma_uniform_average(background.y as int, n as int);
            lemma_uniform_average(background.z as int, n as int);
        }
    }
    let cx: i64 = average(sum_x, n);
    let cy: i64 = average(sum_y, n);
    let cz: i64 = average(sum_z, n);
    proof {
        assert(pixel_trace_ok(
            *scene_root,
            *background,
            *camera,
            Vec3 { x: cx, y: cy, z: cz },
            samples_per_pixel,
            max_depth,
            rays,
            samples,
        ));
    }
    Vec3 { x: cx, y: cy, z: cz }
}

/// Averaging `n` copies of a value gives the value back.
proof fn lemma_uniform_average(v: int, n: int)
    requires
        n >= 1,
        v >= 0,
    ensures
        tdiv(n * v, n) == v,
{
    assert((n * v) / n == v && n * v >= 0) by (nonlinear_arith)
        requires
            n >= 1 && v >= 0,
    ;
}

/// The jittered normalized coordinate of a pixel index.
fn pixel_fraction(index: i32, extent: i32) -> (r: i64)
    requires
        2 <= extent <= 0x1_0000,
        0 <= index < extent,
    ensures
        0 <= r <= ONE,
{
    let jitter: i64 = random_fraction();
    let numer: i64 = (index as i64) * 65536 + jitter;
    let denom: i64 = ((extent as i64) - 1) * 65536;
    proof {
        assert(denom as int >= 65536) by (nonlinear_arith)
            requires
                denom as int == ((extent as int) - 1) * 65536 && extent as int >= 2,
        ;
        assert(numer as int <= 0x1_0000_0000 + 0x1_0000) by (nonlinear_arith)
            requires
                0 <= index as int <= 0x1_0000 && 0 <= numer as int <= (index as int) * 65536
                    + 65536,
        ;
    }
    let q: i64 = fx_div(numer, denom);
    clamp(q, 0, 65536)
}

/// The per-channel average of accumulated radiance.
fn average(sum: i64, n: i64) -> (r: i64)
    requires
        0 <= sum,
        1 <= n <= 0x4000,
        sum as int <= n * RADIANCE_MAX as int,
    ensures
        0 <= r <= RADIANCE_MAX,
        r as int == tdiv(sum as int, n as int),
{
    let q: i128 = crate::fixed::div_i128(sum as i128, n as i128);
    proof {
        assert(tdiv(sum as int, n as int) == sum as int / n as int);
        assert(0 <= sum as int / n as int <= RADIANCE_MAX as int) by (nonlinear_arith)
            requires
                0 <= sum as int <= n as int * RADIANCE_MAX as int && 1 <= n as int,
        ;
    }
    q as i64
}

} // verus!
