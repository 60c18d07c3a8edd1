//! Textures: where a material's color comes from. Every texture's sample
//! is a displayable color, with channels in `[0, 1]` — the bound the
//! energy argument for materials rests on.

use crate::color::{channels_within, Color};
use crate::fx::{div_trunc, tdiv, SCALE};
use crate::perlin_noise::PerlinNoise;
use crate::vec3::{bounded, Point3};
use vstd::prelude::*;

verus! {

/// The closed set of texture variants.
pub enum TextureEnum {
    SolidColor(SolidColor),
    CheckerBoard(CheckerBoard),
    NoiseTexture(NoiseTexture),
}

/// A single color everywhere.
pub struct SolidColor {
    pub color: Color,
}

/// Two textures alternating in a three-dimensional checker pattern.
pub struct CheckerBoard {
    pub even: Box<TextureEnum>,
    pub odd: Box<TextureEnum>,
}

/// Gradient noise scaled into a gray level.
pub struct NoiseTexture {
    pub noise: PerlinNoise,
    pub scale: i64,
}

/// The checker cell number of one coordinate: the coordinate divided by
/// the cell width, rounded down (toward minus infinity).
pub open spec fn cell_number_spec(v: int) -> int {
    v / 20589
}

/// The checker parity at a point: whether the per-axis cell numbers sum
/// to an odd value.
pub open spec fn checker_parity_spec(p: Point3) -> bool {
    let sum = cell_number_spec(p.x as int) + cell_number_spec(p.y as int) + cell_number_spec(
        p.z as int,
    );
    sum % 2 != 0
}

/// One coordinate scaled by the noise frequency, at the specification
/// level.
pub open spec fn scale_coord_spec(v: int, k: int) -> int {
    tdiv(v * k, SCALE as int)
}

/// The color a texture yields at given coordinates: a solid color is
/// itself; a checker defers to its even or odd part by the cell parity;
/// noise is a gray at the level of the (nonnegative part of the) noise
/// value at the scaled point.
pub open spec fn texture_value_spec(t: TextureEnum, u: int, v: int, p: Point3) -> Color
    decreases t,
{
    match t {
        TextureEnum::SolidColor(s) => s.color,
        TextureEnum::CheckerBoard(c) => if checker_parity_spec(p) {
            texture_value_spec(*c.odd, u, v, p)
        } else {
            texture_value_spec(*c.even, u, v, p)
        },
        TextureEnum::NoiseTexture(n) => {
            let scaled = Point3 {
                x: scale_coord_spec(p.x as int, n.scale as int) as i64,
                y: scale_coord_spec(p.y as int, n.scale as int) as i64,
                z: scale_coord_spec(p.z as int, n.scale as int) as i64,
            };
            let raw = n.noise.noise_spec(scaled);
            let level = if raw < 0 {
                0
            } else {
                raw
            };
            Color { r: level as i64, g: level as i64, b: level as i64 }
        },
    }
}

/// Every color held anywhere in the texture is displayable, and noise
/// tables are well-formed.
pub open spec fn texture_wf(t: TextureEnum) -> bool
    decreases t,
{
    match t {
        TextureEnum::SolidColor(s) => channels_within(s.color, SCALE as int),
        TextureEnum::CheckerBoard(c) => texture_wf(*c.even) && texture_wf(*c.odd),
        TextureEnum::NoiseTexture(n) => n.noise.wf() && 0 <= n.scale <= SCALE,
    }
}

impl TextureEnum {
    /// Samples the texture. Whatever the coordinates, the sample is a
    /// displayable color: no texture amplifies energy.
    pub fn value(&self, u: i64, v: i64, hit_point: Point3) -> (c: Color)
        requires
            texture_wf(*self),
            bounded(hit_point, 0x4000_0000),
        ensures
            c == texture_value_spec(*self, u as int, v as int, hit_point),
            channels_within(c, SCALE as int),
        decreases *self,
    {
        match self {
            TextureEnum::SolidColor(s) => s.color,
            TextureEnum::CheckerBoard(cb) => {
                if checker_parity(hit_point) {
                    cb.odd.value(u, v, hit_point)
                } else {
                    cb.even.value(u, v, hit_point)
                }
            },
            TextureEnum::NoiseTexture(n) => {
                let scaled = Point3 {
                    x: scale_coord(hit_point.x, n.scale),
                    y: scale_coord(hit_point.y, n.scale),
                    z: scale_coord(hit_point.z, n.scale),
                };
                let raw = n.noise.noise(scaled);
                let level = if raw < 0 {
                    0
                } else {
                    raw
                };
                Color { r: level, g: level, b: level }
            },
        }
    }
}

impl SolidColor {
    /// A texture of one color.
    pub fn new(color: Color) -> (t: SolidColor)
        ensures
            t.color == color,
    {
        SolidColor { color }
    }

    /// A texture of one color given by channels.
    pub fn from_rgb(red: i64, green: i64, blue: i64) -> (t: SolidColor)
        ensures
            t.color == (Color { r: red, g: green, b: blue }),
    {
        SolidColor { color: Color { r: red, g: green, b: blue } }
    }
}

impl CheckerBoard {
    /// A checker of two textures.
    pub fn new(even: Box<TextureEnum>, odd: Box<TextureEnum>) -> (t: CheckerBoard)
        ensures
            t.even == even,
            t.odd == odd,
    {
        CheckerBoard { even, odd }
    }

    /// A checker of two solid colors.
    pub fn from_colors(even: Color, odd: Color) -> (t: CheckerBoard)
        ensures
            t.even == Box::new(TextureEnum::SolidColor(SolidColor { color: even })),
            t.odd == Box::new(TextureEnum::SolidColor(SolidColor { color: odd })),
    {
        CheckerBoard {
            even: Box::new(TextureEnum::SolidColor(SolidColor { color: even })),
            odd: Box::new(TextureEnum::SolidColor(SolidColor { color: odd })),
        }
    }
}

impl NoiseTexture {
    /// A noise texture at the given frequency scale.
    pub fn new(scale: i64) -> (t: NoiseTexture)
        requires
            0 <= scale <= SCALE,
        ensures
            t.noise.wf(),
            t.scale == scale,
    {
        NoiseTexture { noise: PerlinNoise::new(), scale }
    }
}

/// The checker cell parity at a point: whether the sum of the per-axis
/// cell numbers is odd, with cells about a third of a unit wide (the
/// width of the sine lobes the pattern is traditionally drawn with).
pub fn checker_parity(p: Point3) -> (odd: bool)
    requires
        bounded(p, 0x4000_0000),
    ensures
        odd == checker_parity_spec(p),
{
    let kx = cell_number(p.x);
    let ky = cell_number(p.y);
    let kz = cell_number(p.z);
    let sum = kx + ky + kz;
    let shifted = sum + 0x6_0000_0000;
    proof {
        assert(0 < shifted && (shifted % 2 != 0) == ((sum as int) % 2 != 0) && 0 <= shifted % 2)
            by (nonlinear_arith)
            requires
                shifted == sum as int + 0x6_0000_0000,
                -0x3_0000_0000 <= sum <= 0x3_0000_0000,
        ;
    }
    shifted % 2 != 0
}

/// The cell number of one coordinate: the coordinate divided by the cell
/// width, rounded down.
fn cell_number(v: i64) -> (k: i64)
    requires
        -0x4000_0000 <= v <= 0x4000_0000,
    ensures
        -0x1_0000_0000 <= k <= 0x1_0000_0000,
        k as int == cell_number_spec(v as int),
{
    let width: i64 = 20589;
    let q = if v >= 0 {
        v / width
    } else {
        -((-v + width - 1) / width)
    };
    proof {
        assert((0 <= v ==> 0 <= v / 20589 <= 0x1_0000_0000 && v / 20589 == v as int / 20589) && (0
            < -v ==> 0 <= (-v + 20588) / 20589 <= 0x1_0000_0000 && -((-v as int + 20588) / 20589)
            == v as int / 20589)) by (nonlinear_arith)
            requires
                -0x4000_0000 <= v <= 0x4000_0000,
        ;
    }
    q
}

/// One coordinate scaled by the noise frequency.
fn scale_coord(v: i64, k: i64) -> (r: i64)
    requires
        -0x4000_0000 <= v <= 0x4000_0000,
        0 <= k <= SCALE,
    ensures
        -0x4000_0000_0000 <= r <= 0x4000_0000_0000,
        r as int == scale_coord_spec(v as int, k as int),
{
    proof {
        assert(-0x4000_0000 * 65536 <= v as int * k as int <= 0x4000_0000 * 65536)
            by (nonlinear_arith)
            requires
                -0x4000_0000 <= v <= 0x4000_0000,
                0 <= k <= 65536,
        ;
        crate::fx::lemma_tdiv_bound(v as int * k as int, SCALE as int, (0x4000_0000 * 65536) as int);
    }
    div_trunc((v as i128) * (k as i128), SCALE as i128) as i64
}

} // verus!
