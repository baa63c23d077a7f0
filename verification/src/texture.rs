//! Color-at-surface-coordinate evaluators: solid colors, a sine checkerboard,
//! marble-like procedural noise, and a placeholder image sampler.

use crate::fixed::{ediv, fmul, fx_mul, ONE};
use crate::perlin::{turb_s, Perlin};
use crate::trig::{sin_fx, sin_s};
use crate::vec3::{Axis, Color, Point3, Vec3};
use vstd::prelude::*;

verus! {

/// Channels a scene color may use: nonnegative and at most sixteen units.
pub open spec fn color_ok(c: Color) -> bool {
    &&& 0 <= c.x <= 16 * ONE
    &&& 0 <= c.y <= 16 * ONE
    &&& 0 <= c.z <= 16 * ONE
}

pub enum Texture {
    SolidColor(SolidColor),
    Checker(Checker),
    Noise(Noise),
    Image(Image),
}

pub struct SolidColor {
    pub color: Color,
}

pub struct Checker {
    pub even: Box<Texture>,
    pub odd: Box<Texture>,
}

pub struct Noise {
    pub noise: Perlin,
    pub scale: i64,
    pub axis: Axis,
}

/// A placeholder for image-backed textures: carries no pixels and answers
/// with a fixed color, as the image decoder lives outside this crate.
pub struct Image {
    pub data: Vec<u8>,
    pub width: i32,
    pub height: i32,
    pub bytes_per_scanline: i32,
    pub bytes_per_pixel: i32,
}

/// What each texture answers, as a function of the texture's data and the
/// query: the checkerboard picks a side by the sign of the triple sine
/// product, the marble texture reads the noise at the scaled point.
pub open spec fn texture_value_s(t: Texture, u: i64, v: i64, p: Point3) -> Color
    decreases t,
{
    match t {
        Texture::SolidColor(s) => s.color,
        Texture::Checker(c) => {
            let sines = fmul(
                fmul(
                    sin_s(fmul(655360, p.x as int)),
                    sin_s(fmul(655360, p.y as int)),
                ),
                sin_s(fmul(655360, p.z as int)),
            );
            if sines < 0 {
                texture_value_s(*c.odd, u, v, p)
            } else {
                texture_value_s(*c.even, u, v, p)
            }
        },
        Texture::Noise(n) => {
            let sp = Point3 {
                x: fmul(n.scale as int, p.x as int) as i64,
                y: fmul(n.scale as int, p.y as int) as i64,
                z: fmul(n.scale as int, p.z as int) as i64,
            };
            let comp = match n.axis {
                Axis::X => sp.x,
                Axis::Y => sp.y,
                Axis::Z => sp.z,
            };
            let w = (65536 + sin_s(comp + 10 * turb_s(n.noise, sp, 7))) / 2;
            Color { x: w as i64, y: w as i64, z: w as i64 }
        },
        Texture::Image(i) => {
            if i.data@.len() == 0 {
                Color { x: 0, y: 65536, z: 65536 }
            } else {
                Color { x: 65536, y: 0, z: 65536 }
            }
        },
    }
}

impl Texture {
    pub open spec fn wf(self) -> bool
        decreases self,
    {
        match self {
            Texture::SolidColor(s) => color_ok(s.color),
            Texture::Checker(c) => c.even.wf() && c.odd.wf(),
            Texture::Noise(n) => n.noise.wf() && 0 < n.scale <= 16 * ONE,
            Texture::Image(i) => i.data@.len() == 0,
        }
    }

    /// The color at surface coordinates `(u, v)` and point `p`: exactly the
    /// texture's evaluation model, and always a well-formed scene color.
    pub fn value(&self, u: i64, v: i64, p: &Point3) -> (r: Color)
        requires
            self.wf(),
            p.in_world(),
        ensures
            r == texture_value_s(*self, u, v, *p),
            color_ok(r),
        decreases *self,
    {
        match self {
            Texture::SolidColor(s) => s.color,
            Texture::Checker(c) => {
                proof {
                    crate::fixed::lemma_mul_bounds(10 * ONE as int, p.x as int, 655360, 0x2000_0000);
                    crate::fixed::lemma_mul_bounds(10 * ONE as int, p.y as int, 655360, 0x2000_0000);
                    crate::fixed::lemma_mul_bounds(10 * ONE as int, p.z as int, 655360, 0x2000_0000);
                    crate::fixed::lemma_tdiv_le(
                        10 * ONE as int * p.x as int,
                        0x1_0000,
                        655360int * 0x2000_0000int,
                    );
                    crate::fixed::lemma_tdiv_le(
                        10 * ONE as int * p.y as int,
                        0x1_0000,
                        655360int * 0x2000_0000int,
                    );
                    crate::fixed::lemma_tdiv_le(
                        10 * ONE as int * p.z as int,
                        0x1_0000,
                        655360int * 0x2000_0000int,
                    );
                }
                let sx: i64 = sin_fx(fx_mul(655360, p.x));
                let sy: i64 = sin_fx(fx_mul(655360, p.y));
                let sz: i64 = sin_fx(fx_mul(655360, p.z));
                proof {
                    crate::fixed::lemma_mul_bounds(sx as int, sy as int, 65536, 65536);
                    crate::fixed::lemma_tdiv_le(sx as int * sy as int, 0x1_0000, 65536int * 65536int);
                }
                let sxy: i64 = fx_mul(sx, sy);
                proof {
                    crate::fixed::lemma_mul_bounds(sxy as int, sz as int, 65536, 65536);
                }
                let sines: i64 = fx_mul(sxy, sz);
                if sines < 0 {
                    c.odd.value(u, v, p)
                } else {
                    c.even.value(u, v, p)
                }
            },
            Texture::Noise(n) => {
                proof {
                    crate::fixed::lemma_mul_bounds(n.scale as int, p.x as int, 16 * ONE as int, 0x2000_0000);
                    crate::fixed::lemma_mul_bounds(n.scale as int, p.y as int, 16 * ONE as int, 0x2000_0000);
                    crate::fixed::lemma_mul_bounds(n.scale as int, p.z as int, 16 * ONE as int, 0x2000_0000);
                    crate::fixed::lemma_tdiv_le(
                        n.scale as int * p.x as int,
                        0x1_0000,
                        16int * 65536int * 0x2000_0000int,
                    );
                    crate::fixed::lemma_tdiv_le(
                        n.scale as int * p.y as int,
                        0x1_0000,
                        16int * 65536int * 0x2000_0000int,
                    );
                    crate::fixed::lemma_tdiv_le(
                        n.scale as int * p.z as int,
                        0x1_0000,
                        16int * 65536int * 0x2000_0000int,
                    );
                }
                let sp = Vec3 {
                    x: fx_mul(n.scale, p.x),
                    y: fx_mul(n.scale, p.y),
                    z: fx_mul(n.scale, p.z),
                };
                let t7: i64 = n.noise.turb(&sp, 7);
                let comp: i64 = match n.axis {
                    Axis::X => sp.x,
                    Axis::Y => sp.y,
                    Axis::Z => sp.z,
                };
                let phase: i64 = comp + 10 * t7;
                let s: i64 = sin_fx(phase);
                let w: i64 = ediv(65536 + s, 2);
                proof {
                    assert(0 <= (65536 + s as int) / 2 <= 65536) by (nonlinear_arith)
                        requires
                            0 <= 65536 + s as int <= 131072,
                    ;
                }
                Vec3 { x: w, y: w, z: w }
            },
            Texture::Image(i) => {
                if i.data.len() == 0 {
                    Vec3 { x: 0, y: 65536, z: 65536 }
                } else {
                    Vec3 { x: 65536, y: 0, z: 65536 }
                }
            },
        }
    }
}

impl SolidColor {
    pub fn new(color: Color) -> (r: SolidColor)
        ensures
            r.color == color,
    {
        SolidColor { color }
    }
}

impl Checker {
    /// A checkerboard alternating between two solid colors.
    pub fn new(c1: Color, c2: Color) -> (r: Checker)
        ensures
            r.even == Box::new(Texture::SolidColor(SolidColor { color: c1 })),
            r.odd == Box::new(Texture::SolidColor(SolidColor { color: c2 })),
    {
        Checker {
            even: Box::new(Texture::SolidColor(SolidColor { color: c1 })),
            odd: Box::new(Texture::SolidColor(SolidColor { color: c2 })),
        }
    }
}

impl Noise {
    /// Marble-like texture from fresh noise tables, striped along `axis`.
    pub fn new(scale: i64, axis: Axis) -> (r: Noise)
        requires
            0 < scale <= 16 * ONE,
        ensures
            r.noise.wf(),
            r.scale == scale,
            r.axis == axis,
    {
        Noise { noise: Perlin::generate(), scale, axis }
    }
}

impl Perlin {
    /// Fresh noise tables: 256 random unit-scale gradients and three
    /// independent permutations.
    pub fn generate() -> (r: Perlin)
        ensures
            r.wf(),
    {
        let mut rand_vec: Vec<Vec3> = Vec::new();
        let mut i: usize = 0;
        while i < 256
            invariant
                i <= 256,
                rand_vec@.len() == i,
                forall|k: int|
                    0 <= k < i ==> (#[trigger] rand_vec@[k]).bounded(ONE as int),
            decreases 256 - i,
        {
            rand_vec.push(Vec3::random_unit_vector());
            i = i + 1;
        }
        Perlin {
            rand_vec,
            perm_x: crate::perlin::perlin_generate_perm(),
            perm_y: crate::perlin::perlin_generate_perm(),
            perm_z: crate::perlin::perlin_generate_perm(),
        }
    }
}

impl Default for Perlin {
    /// Fresh random noise tables.
    fn default() -> (r: Perlin)
        ensures
            r.wf(),
    {
        Perlin::generate()
    }
}

impl Image {
    /// The decoder is an outside concern: the stub records no pixels and
    /// zeroed geometry, three bytes per pixel.
    pub fn new(_file_path: &str) -> (r: Image)
        ensures
            r.data@.len() == 0,
            r.width == 0,
            r.height == 0,
            r.bytes_per_scanline == 0,
            r.bytes_per_pixel == 3,
    {
        Image { data: Vec::new(), width: 0, height: 0, bytes_per_scanline: 0, bytes_per_pixel: 3 }
    }
}

} // verus!
