//! Colors over fixed-point channels, and the channel pipeline that turns
//! accumulated samples into output integers: average, gamma-correct by
//! square root, upscale and clamp.

use crate::fx::{div_trunc, isqrt, lemma_tdiv_bound, sqrt_floor, tdiv, SCALE};
use vstd::prelude::*;

verus! {

/// The largest channel value the output format carries.
pub const MAX_VALUE: u32 = 255;

/// Bound on accumulated channel values: per-sample channels stay within
/// one unit, and at most `65536` samples are accumulated.
pub const ACCUM_BOUND: i64 = 0x1000_0000_0000;

/// An RGB color with fixed-point channels. A displayable color has
/// channels in `[0, SCALE]`; accumulation sums many of them.
#[derive(Clone, Copy, Debug, PartialEq, Eq, Structural)]
pub struct Color {
    pub r: i64,
    pub g: i64,
    pub b: i64,
}

/// All three channels within `[0, m]`.
pub open spec fn channels_within(c: Color, m: int) -> bool {
    0 <= c.r <= m && 0 <= c.g <= m && 0 <= c.b <= m
}

/// One output channel: the accumulated value averaged over the samples,
/// gamma-corrected by square root, scaled to bytes and clamped.
pub open spec fn channel_byte(c: int, samples: int) -> int {
    let avg = tdiv(c, samples);
    if avg <= 0 {
        0
    } else {
        let root = sqrt_floor(avg * SCALE as int);
        let up = tdiv(root * (MAX_VALUE + 1) as int, SCALE as int);
        if up > MAX_VALUE as int {
            MAX_VALUE as int
        } else {
            up
        }
    }
}

impl Color {
    /// Builds the color with the given fixed-point channels.
    pub fn new(r: i64, g: i64, b: i64) -> (c: Color)
        ensures
            c == (Color { r, g, b }),
    {
        Color { r, g, b }
    }

    /// The red channel.
    pub fn r(&self) -> (v: i64)
        ensures
            v == self.r,
    {
        self.r
    }

    /// The green channel.
    pub fn g(&self) -> (v: i64)
        ensures
            v == self.g,
    {
        self.g
    }

    /// The blue channel.
    pub fn b(&self) -> (v: i64)
        ensures
            v == self.b,
    {
        self.b
    }

    /// Replaces the red channel.
    pub fn set_r(&mut self, new_red: i64)
        ensures
            *final(self) == (Color { r: new_red, ..*old(self) }),
    {
        self.r = new_red;
    }

    /// Replaces the green channel.
    pub fn set_g(&mut self, new_green: i64)
        ensures
            *final(self) == (Color { g: new_green, ..*old(self) }),
    {
        self.g = new_green;
    }

    /// Replaces the blue channel.
    pub fn set_b(&mut self, new_blue: i64)
        ensures
            *final(self) == (Color { b: new_blue, ..*old(self) }),
    {
        self.b = new_blue;
    }

    /// Channel-wise sum, for accumulating samples.
    pub fn plus(self, o: Color) -> (c: Color)
        requires
            -ACCUM_BOUND as int <= self.r + o.r <= ACCUM_BOUND as int,
            -ACCUM_BOUND as int <= self.g + o.g <= ACCUM_BOUND as int,
            -ACCUM_BOUND as int <= self.b + o.b <= ACCUM_BOUND as int,
        ensures
            c.r == self.r + o.r,
            c.g == self.g + o.g,
            c.b == self.b + o.b,
    {
        Color { r: self.r + o.r, g: self.g + o.g, b: self.b + o.b }
    }

    /// Channel-wise product rescaled by `SCALE`: the attenuation of one
    /// color by another. Attenuating a bounded color by a displayable one
    /// never amplifies any channel.
    pub fn attenuate(self, o: Color) -> (c: Color)
        requires
            channels_within(self, SCALE as int),
            channels_within(o, SCALE as int),
        ensures
            c.r == tdiv(self.r * o.r, SCALE as int),
            c.g == tdiv(self.g * o.g, SCALE as int),
            c.b == tdiv(self.b * o.b, SCALE as int),
            channels_within(c, SCALE as int),
    {
        proof {
            lemma_attenuate_channel(self.r as int, o.r as int);
            lemma_attenuate_channel(self.g as int, o.g as int);
            lemma_attenuate_channel(self.b as int, o.b as int);
        }
        Color {
            r: div_trunc((self.r as i128) * (o.r as i128), SCALE as i128) as i64,
            g: div_trunc((self.g as i128) * (o.g as i128), SCALE as i128) as i64,
            b: div_trunc((self.b as i128) * (o.b as i128), SCALE as i128) as i64,
        }
    }

    /// Scales each channel by a fixed-point factor in `[0, SCALE]`.
    pub fn scaled(self, k: i64) -> (c: Color)
        requires
            channels_within(self, SCALE as int),
            0 <= k <= SCALE,
        ensures
            c.r == tdiv(self.r * k, SCALE as int),
            c.g == tdiv(self.g * k, SCALE as int),
            c.b == tdiv(self.b * k, SCALE as int),
            channels_within(c, SCALE as int),
    {
        proof {
            lemma_attenuate_channel(self.r as int, k as int);
            lemma_attenuate_channel(self.g as int, k as int);
            lemma_attenuate_channel(self.b as int, k as int);
        }
        Color {
            r: div_trunc((self.r as i128) * (k as i128), SCALE as i128) as i64,
            g: div_trunc((self.g as i128) * (k as i128), SCALE as i128) as i64,
            b: div_trunc((self.b as i128) * (k as i128), SCALE as i128) as i64,
        }
    }

    /// The output triple of an accumulated color: each channel averaged
    /// over the sample count, gamma-corrected by square root, scaled up
    /// and clamped to the valid range.
    pub fn pixel_format(self, samples: u32) -> (rgb: (u32, u32, u32))
        requires
            samples >= 1,
            -ACCUM_BOUND as int <= self.r <= ACCUM_BOUND as int,
            -ACCUM_BOUND as int <= self.g <= ACCUM_BOUND as int,
            -ACCUM_BOUND as int <= self.b <= ACCUM_BOUND as int,
        ensures
            rgb.0 == channel_byte(self.r as int, samples as int),
            rgb.1 == channel_byte(self.g as int, samples as int),
            rgb.2 == channel_byte(self.b as int, samples as int),
            rgb.0 <= MAX_VALUE,
            rgb.1 <= MAX_VALUE,
            rgb.2 <= MAX_VALUE,
    {
        (
            quantize_channel(self.r, samples),
            quantize_channel(self.g, samples),
            quantize_channel(self.b, samples),
        )
    }
}

/// The zero color: black.
pub fn black() -> (c: Color)
    ensures
        c == (Color { r: 0, g: 0, b: 0 }),
{
    Color { r: 0, g: 0, b: 0 }
}

/// Full white.
pub fn white() -> (c: Color)
    ensures
        c == (Color { r: SCALE as i64, g: SCALE as i64, b: SCALE as i64 }),
{
    Color { r: SCALE, g: SCALE, b: SCALE }
}

/// The sky's blue: half red, seven tenths green, full blue.
pub fn sky_blue() -> (c: Color)
    ensures
        c == (Color { r: 32768, g: 45875, b: SCALE as i64 }),
        channels_within(c, SCALE as int),
{
    Color { r: 32768, g: 45875, b: SCALE }
}

/// One channel through the output pipeline.
fn quantize_channel(c: i64, samples: u32) -> (v: u32)
    requires
        samples >= 1,
        -ACCUM_BOUND as int <= c <= ACCUM_BOUND as int,
    ensures
        v == channel_byte(c as int, samples as int),
        v <= MAX_VALUE,
{
    proof {
        lemma_tdiv_bound(c as int, samples as int, ACCUM_BOUND as int);
    }
    let avg: i128 = div_trunc(c as i128, samples as i128);
    if avg <= 0 {
        return 0;
    }
    proof {
        assert(avg * SCALE as int <= 0x1000_0000_0000 * 65536) by (nonlinear_arith)
            requires
                0 < avg <= 0x1000_0000_0000,
                SCALE == 65536,
        ;
    }
    let root: u128 = isqrt((avg * (SCALE as i128)) as u128);
    proof {
        assert(root as int * root as int <= avg * SCALE as int && avg * SCALE as int
            <= 0x1_0000_0000_0000_0000 ==> root <= 0x1_0000_0000) by (nonlinear_arith);
        lemma_tdiv_bound(root as int * 256, SCALE as int, 0x100_0000_0000);
    }
    let up: i128 = div_trunc((root as i128) * ((MAX_VALUE + 1) as i128), SCALE as i128);
    if up > MAX_VALUE as i128 {
        MAX_VALUE
    } else {
        proof {
            assert(tdiv(root as int * 256, SCALE as int) >= 0) by (nonlinear_arith)
                requires
                    root >= 0,
                    SCALE == 65536,
        ;
        }
        up as u32
    }
}

/// Attenuating one bounded channel by another keeps it bounded.
proof fn lemma_attenuate_channel(a: int, k: int)
    requires
        0 <= a <= SCALE as int,
        0 <= k <= SCALE as int,
    ensures
        0 <= tdiv(a * k, SCALE as int) <= SCALE as int,
        -0x4000_0000_0000_0000_0000_0000_0000_0000 < a * k
            < 0x4000_0000_0000_0000_0000_0000_0000_0000,
{
    assert(0 <= tdiv(a * k, SCALE as int) <= SCALE as int && a * k < 0x1_0000_0000_0000)
        by (nonlinear_arith)
        requires
            0 <= a <= SCALE as int,
            0 <= k <= SCALE as int,
            SCALE == 65536,
    ;
}

} // verus!
