//! Render configuration: the raw shape read from the configuration file,
//! and its validation. Of width, height and aspect ratio exactly two must
//! be given; the third is computed, rounding to the nearest pixel.

use vstd::prelude::*;

verus! {

/// The configuration file's top-level shape.
pub struct TomlConfiguration {
    pub image: TomlImageConfiguration,
    pub rendering: TomlRenderingConfiguration,
    pub other: TomlOtherConfiguration,
}

/// The image section: two of the three fields must be present.
pub struct TomlImageConfiguration {
    pub aspect_ratio: Option<(u32, u32)>,
    pub width: Option<u32>,
    pub height: Option<u32>,
}

/// The rendering section.
pub struct TomlRenderingConfiguration {
    pub samples_per_pixel: u32,
    pub max_child_ray_depth: u32,
    pub threads: u32,
    pub main_thread_for_render: bool,
    pub update_frequency: u32,
    pub writing_buffer_capacity: usize,
}

/// The remaining switches.
pub struct TomlOtherConfiguration {
    pub use_build_function: bool,
}

/// An image configuration before validation.
pub struct UnvalidatedTomlConfig {
    pub image_width: Option<u32>,
    pub image_height: Option<u32>,
    pub aspect_ratio: Option<(u32, u32)>,
}

/// A validated image configuration: both dimensions fixed, the ratio
/// kept as the pair it came from.
#[derive(Clone, Copy, Debug, PartialEq, Eq, Structural)]
pub struct TomlConfig {
    pub image_width: u32,
    pub image_height: u32,
    pub aspect_width: u32,
    pub aspect_height: u32,
}

/// Why a configuration was rejected.
#[derive(Clone, Copy, Debug, PartialEq, Eq, Structural)]
pub enum ConfigError {
    WrongFieldCount,
    ZeroDimension,
}

/// The nearest integer to `a * w / h`.
pub open spec fn spec_scaled_dimension(a: int, w: int, h: int) -> int {
    (2 * a * w + h) / (2 * h)
}

impl UnvalidatedTomlConfig {
    /// Validation: exactly two of the three fields must be given, all
    /// quantities positive and moderate; the missing dimension is
    /// computed from the ratio, rounded to the nearest integer.
    pub fn validate(self) -> (res: Result<TomlConfig, ConfigError>)
        ensures
            res is Ok <==> ({
                match (self.image_width, self.image_height, self.aspect_ratio) {
                    (Some(w), Some(h), None) => 1 <= w <= 0x8000 && 1 <= h <= 0x8000,
                    (Some(w), None, Some((aw, ah))) => 1 <= w <= 0x8000 && 1 <= aw <= 0x8000 && 1
                        <= ah <= 0x8000,
                    (None, Some(h), Some((aw, ah))) => 1 <= h <= 0x8000 && 1 <= aw <= 0x8000 && 1
                        <= ah <= 0x8000,
                    _ => false,
                }
            }),
            res matches Ok(c) ==> 1 <= c.image_width && 1 <= c.image_height && (match (
                self.image_width,
                self.image_height,
                self.aspect_ratio,
            ) {
                (Some(w), Some(h), None) => c.image_width == w && c.image_height == h
                    && c.aspect_width == w && c.aspect_height == h,
                (Some(w), None, Some((aw, ah))) => c.image_width == w && c.aspect_width == aw
                    && c.aspect_height == ah && c.image_height as int == if spec_scaled_dimension(
                    w as int,
                    ah as int,
                    aw as int,
                ) >= 1 {
                    spec_scaled_dimension(w as int, ah as int, aw as int)
                } else {
                    1
                },
                (None, Some(h), Some((aw, ah))) => c.image_height == h && c.aspect_width == aw
                    && c.aspect_height == ah && c.image_width as int == if spec_scaled_dimension(
                    h as int,
                    aw as int,
                    ah as int,
                ) >= 1 {
                    spec_scaled_dimension(h as int, aw as int, ah as int)
                } else {
                    1
                },
                _ => false,
            }),
    {
        match (self.image_width, self.image_height, self.aspect_ratio) {
            (Some(width), Some(height), None) => {
                if !(1 <= width && width <= 0x8000 && 1 <= height && height <= 0x8000) {
                    return Err(ConfigError::ZeroDimension);
                }
                Ok(
                    TomlConfig {
                        image_width: width,
                        image_height: height,
                        aspect_width: width,
                        aspect_height: height,
                    },
                )
            },
            (Some(width), None, Some(aspect_ratio)) => {
                let (aw, ah) = aspect_ratio;
                if !(1 <= width && width <= 0x8000 && 1 <= aw && aw <= 0x8000 && 1 <= ah && ah
                    <= 0x8000) {
                    return Err(ConfigError::ZeroDimension);
                }
                let height = Self::image_height(width, aspect_ratio);
                Ok(
                    TomlConfig {
                        image_width: width,
                        image_height: height,
                        aspect_width: aw,
                        aspect_height: ah,
                    },
                )
            },
            (None, Some(height), Some(aspect_ratio)) => {
                let (aw, ah) = aspect_ratio;
                if !(1 <= height && height <= 0x8000 && 1 <= aw && aw <= 0x8000 && 1 <= ah && ah
                    <= 0x8000) {
                    return Err(ConfigError::ZeroDimension);
                }
                let width = Self::image_width(height, aspect_ratio);
                Ok(
                    TomlConfig {
                        image_width: width,
                        image_height: height,
                        aspect_width: aw,
                        aspect_height: ah,
                    },
                )
            },
            _ => Err(ConfigError::WrongFieldCount),
        }
    }

    /// The width matching a height under a ratio, rounded to nearest and
    /// floored at one pixel.
    pub fn image_width(image_height: u32, aspect_ratio: (u32, u32)) -> (w: u32)
        requires
            1 <= image_height <= 0x8000,
            1 <= aspect_ratio.0 <= 0x8000,
            1 <= aspect_ratio.1 <= 0x8000,
        ensures
            w as int == if spec_scaled_dimension(
                image_height as int,
                aspect_ratio.0 as int,
                aspect_ratio.1 as int,
            ) >= 1 {
                spec_scaled_dimension(
                    image_height as int,
                    aspect_ratio.0 as int,
                    aspect_ratio.1 as int,
                )
            } else {
                1
            },
            1 <= w,
    {
        Self::scaled_dimension(image_height, aspect_ratio.0, aspect_ratio.1)
    }

    /// The height matching a width under a ratio, rounded to nearest and
    /// floored at one pixel.
    pub fn image_height(image_width: u32, aspect_ratio: (u32, u32)) -> (h: u32)
        requires
            1 <= image_width <= 0x8000,
            1 <= aspect_ratio.0 <= 0x8000,
            1 <= aspect_ratio.1 <= 0x8000,
        ensures
            h as int == if spec_scaled_dimension(
                image_width as int,
                aspect_ratio.1 as int,
                aspect_ratio.0 as int,
            ) >= 1 {
                spec_scaled_dimension(
                    image_width as int,
                    aspect_ratio.1 as int,
                    aspect_ratio.0 as int,
                )
            } else {
                1
            },
            1 <= h,
    {
        Self::scaled_dimension(image_width, aspect_ratio.1, aspect_ratio.0)
    }

    /// `a * w / h` rounded to the nearest integer, floored at one.
    fn scaled_dimension(a: u32, w: u32, h: u32) -> (r: u32)
        requires
            1 <= a <= 0x8000,
            1 <= w <= 0x8000,
            1 <= h <= 0x8000,
        ensures
            r as int == if spec_scaled_dimension(a as int, w as int, h as int) >= 1 {
                spec_scaled_dimension(a as int, w as int, h as int)
            } else {
                1
            },
            1 <= r,
    {
        proof {
            assert(2 * a as int * w as int + h as int <= 0x2_0001_0000 && (2 * a as int * w as int
                + h as int) / (2 * h as int) <= 0x4100_0000) by (nonlinear_arith)
                requires
                    1 <= a <= 0x8000,
                    1 <= w <= 0x8000,
                    1 <= h <= 0x8000,
            ;
        }
        let num: u64 = 2 * (a as u64) * (w as u64) + (h as u64);
        let den: u64 = 2 * (h as u64);
        let q: u64 = num / den;
        if q < 1 {
            1
        } else {
            q as u32
        }
    }
}

} // verus!
