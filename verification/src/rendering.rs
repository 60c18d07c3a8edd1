//! The path integrator and the per-pixel sampling pipeline.
//!
//! A ray either runs out of bounces (black), misses everything (the sky
//! gradient, stated exactly), is absorbed (black), or scatters: then the
//! integrator recurses and attenuates. Colors never leave the displayable
//! range, whatever the scene and whatever the random draws.

use crate::color::{black, channels_within, Color};
use crate::fx::{sqrt_floor, tdiv, SCALE};
use crate::hittable::{best_num, BvhNode};
use crate::material::{material_wf, MaterialEnum};
use crate::random::random;
use crate::rat::Rat;
use crate::ray::Ray;
use vstd::prelude::*;

verus! {

/// The sky gradient at a normalized direction's vertical component: a
/// linear blend from white at the bottom to sky blue at the top, with
/// blend factor `(1 + y) / 2`.
pub open spec fn sky_color_spec(uy: int) -> Color {
    let blend = tdiv(SCALE as int + uy, 2);
    Color {
        r: (SCALE - blend + tdiv(blend * 32768, SCALE as int)) as i64,
        g: (SCALE - blend + tdiv(blend * 45875, SCALE as int)) as i64,
        b: SCALE as i64,
    }
}

/// The background color of a ray: the documented white-to-blue vertical
/// blend over the normalized direction.
pub fn get_sky_color(ray: &Ray) -> (c: Color)
    requires
        ray.wf(),
    ensures
        channels_within(c, SCALE as int),
        !(ray.direction.x == 0 && ray.direction.y == 0 && ray.direction.z == 0) ==> c
            == sky_color_spec(
            crate::fx::fx_div_spec(ray.direction.y as int, ray.direction.length_val()),
        ),
{
    let direction = ray.direction();
    let uy: i64 = if direction.x == 0 && direction.y == 0 && direction.z == 0 {
        0
    } else {
        let unit = direction.normalized();
        unit.y
    };
    let uy_clamped: i64 = if uy > SCALE {
        SCALE
    } else if uy < -SCALE {
        -SCALE
    } else {
        uy
    };
    proof {
        lemma_sky_in_range(uy_clamped as int);
        if !(ray.direction.x == 0 && ray.direction.y == 0 && ray.direction.z == 0) {
            crate::vec3::lemma_component_sq_le_dot(ray.direction);
            crate::vec3::lemma_length_val_props(ray.direction);
            lemma_unit_y_in_range(
                ray.direction.y as int,
                ray.direction.length_val(),
                crate::vec3::dot_spec(ray.direction, ray.direction),
            );
        }
    }
    let blend = (SCALE + uy_clamped) / 2;
    let white_part = SCALE - blend;
    let r = white_part + blend_channel(blend, 32768);
    let g = white_part + blend_channel(blend, 45875);
    Color { r, g, b: SCALE }
}

/// A normalized component never exceeds one unit, so clamping it is the
/// identity.
proof fn lemma_unit_y_in_range(y: int, len: int, d: int)
    requires
        len >= 1,
        y * y <= d,
        d < (len + 1) * (len + 1),
    ensures
        -SCALE as int <= crate::fx::fx_div_spec(y, len) <= SCALE as int,
{
    assert(-len <= y <= len) by (nonlinear_arith)
        requires
            len >= 1,
            y * y <= d,
            d < (len + 1) * (len + 1),
    ;
    assert(-65536 <= crate::fx::fx_div_spec(y, len) <= 65536) by (nonlinear_arith)
        requires
            len >= 1,
            -len <= y <= len,
            SCALE == 65536,
    ;
}

/// The sky formula stays within the displayable range.
proof fn lemma_sky_in_range(uy: int)
    requires
        -SCALE as int <= uy <= SCALE as int,
    ensures
        ({
            let blend = tdiv(SCALE as int + uy, 2);
            0 <= blend <= SCALE && 0 <= tdiv(blend * 32768, SCALE as int) <= blend && 0 <= tdiv(
                blend * 45875,
                SCALE as int,
            ) <= blend
        }),
{
    assert(({
        let blend = tdiv(SCALE as int + uy, 2);
        0 <= blend <= SCALE && 0 <= tdiv(blend * 32768, SCALE as int) <= blend && 0 <= tdiv(
            blend * 45875,
            SCALE as int,
        ) <= blend
    })) by (nonlinear_arith)
        requires
            -65536 <= uy <= 65536,
            SCALE == 65536,
    ;
}

/// One blended channel contribution.
fn blend_channel(blend: i64, tint: i64) -> (r: i64)
    requires
        0 <= blend <= SCALE,
        0 <= tint <= SCALE,
    ensures
        r == tdiv(blend as int * tint as int, SCALE as int),
        0 <= r <= blend,
{
    proof {
        assert(0 <= tdiv(blend as int * tint as int, SCALE as int) <= blend && blend as int
            * tint as int <= 65536 * 65536) by (nonlinear_arith)
            requires
                0 <= blend <= 65536,
                0 <= tint <= 65536,
                SCALE == 65536,
        ;
    }
    crate::fx::div_trunc((blend as i128) * (tint as i128), SCALE as i128) as i64
}

/// All materials of an arena are well-formed.
pub open spec fn materials_wf(materials: Seq<MaterialEnum>) -> bool {
    forall|i: int| 0 <= i < materials.len() ==> material_wf(#[trigger] materials[i])
}

/// The color a ray collects from the world, to a bounded bounce depth.
/// At depth zero the answer is black; a miss yields exactly the sky
/// gradient; an absorbed ray yields black; a scattered ray recurses and
/// attenuates. Whatever happens, every channel stays within `[0, 1]`.
pub fn get_ray_color(ray: &Ray, world: &BvhNode, depth: u32, materials: &Vec<MaterialEnum>) -> (c:
    Color)
    requires
        world.wf(),
        world.times_ok(ray.time as int),
        ray.wf(),
        materials_wf(materials@),
    ensures
        channels_within(c, SCALE as int),
        depth == 0 ==> c == (Color { r: 0, g: 0, b: 0 }),
        depth > 0 && crate::hittable::closer(
            best_num(*world.left, *ray, search_min(), search_max()),
            best_num(*world.right, *ray, search_min(), search_max()),
        ) is None ==> channels_within(c, SCALE as int) && (!(ray.direction.x == 0
            && ray.direction.y == 0 && ray.direction.z == 0) ==> c == sky_color_spec(
            crate::fx::fx_div_spec(ray.direction.y as int, ray.direction.length_val()),
        )),
    decreases depth,
{
    if depth == 0 {
        return black();
    }
    let hit = world.hit(ray, search_min_rat(), Rat::horizon());
    match hit {
        None => get_sky_color(ray),
        Some(hit_record) => {
            if hit_record.material >= materials.len() {
                return black();
            }
            let scatter = materials[hit_record.material].scatter(ray, &hit_record);
            match scatter {
                None => black(),
                Some(s) => {
                    let bounced = get_ray_color(&s.ray, world, depth - 1, materials);
                    s.attenuation.attenuate(bounced)
                },
            }
        },
    }
}

/// The near cutoff of every traced ray: a small positive parameter that
/// keeps scattered rays from re-striking their own origin.
pub open spec fn search_min() -> Rat {
    Rat { num: 1, den: 10000 }
}

/// The far limit: beyond every bounded parameter.
pub open spec fn search_max() -> Rat {
    Rat { num: crate::rat::RAT_BOUND, den: 1 }
}

/// The exact near cutoff used by the integrator.
pub fn search_min_rat() -> (r: Rat)
    ensures
        r == search_min(),
        r.wf(),
{
    Rat { num: 1, den: 10000 }
}

/// One jittered viewport coordinate for a given sub-pixel draw: the
/// pixel index plus the jitter, over the pixel count, capped at one.
pub open spec fn uv_coordinate_spec(index: int, count: int, jitter: int) -> int {
    if count == 1 {
        0
    } else {
        let raw = tdiv(index * SCALE as int + jitter, count - 1);
        if raw > SCALE as int {
            SCALE as int
        } else {
            raw
        }
    }
}

/// One jittered viewport coordinate: the pixel index plus a random
/// sub-pixel offset, over the pixel count, in `[0, 1]`.
pub fn get_uv_coordinate(index: u32, count: u32) -> (r: i64)
    requires
        1 <= count <= 0x10000,
        index < count,
    ensures
        0 <= r <= SCALE,
        exists|jitter: int|
            0 <= jitter < SCALE as int && r as int == #[trigger] uv_coordinate_spec(
                index as int,
                count as int,
                jitter,
            ),
{
    if count == 1 {
        proof {
            assert(0int == uv_coordinate_spec(index as int, count as int, 0));
        }
        return 0;
    }
    let jitter = random();
    proof {
        assert(0 <= index as int * (SCALE as int) + jitter && index as int * (SCALE as int)
            + jitter <= (count - 1) as int * 65536 + 65536) by (nonlinear_arith)
            requires
                0 <= index as int,
                (index as int) < count as int,
                count as int <= 0x10000,
                0 <= jitter < 65536,
                SCALE == 65536,
        ;
    }
    let numerator: i64 = (index as i64) * SCALE + jitter;
    let denominator: i64 = (count - 1) as i64;
    proof {
        assert(0 <= tdiv(numerator as int, denominator as int) && tdiv(
            numerator as int,
            denominator as int,
        ) <= 65536 + 65536) by (nonlinear_arith)
            requires
                1 <= denominator,
                0 <= numerator as int,
                numerator as int <= denominator as int * 65536 + 65536,
        ;
    }
    let raw = crate::fx::div_trunc(numerator as i128, denominator as i128) as i64;
    let capped = if raw > SCALE {
        SCALE
    } else {
        raw
    };
    proof {
        assert(capped as int == uv_coordinate_spec(index as int, count as int, jitter as int));
    }
    capped
}

/// One color sample of a pixel: a camera ray through the jittered pixel
/// coordinates, traced through the world.
pub fn calculate_sample(
    row: u32,
    col: u32,
    camera: &crate::camera::Camera,
    world: &BvhNode,
    materials: &Vec<MaterialEnum>,
    max_depth: u32,
    width: u32,
    height: u32,
) -> (c: Color)
    requires
        camera.wf(),
        world.wf(),
        world.time0 as int <= camera.time0 as int,
        camera.time1 as int <= world.time1 as int,
        spans_ok(*world),
        1 <= width <= 0x10000,
        1 <= height <= 0x10000,
        col < width,
        row < height,
        materials_wf(materials@),
    ensures
        channels_within(c, SCALE as int),
{
    let u = get_uv_coordinate(col, width);
    let v = get_uv_coordinate(row, height);
    let ray = camera.get_ray(u, v);
    proof {
        crate::bvh_node::lemma_spans_to_time_ok(*world.left, world.time0 as int, world.time1 as int, ray.time as int);
        crate::bvh_node::lemma_spans_to_time_ok(*world.right, world.time0 as int, world.time1 as int, ray.time as int);
    }
    get_ray_color(&ray, world, max_depth, materials)
}

/// The tree's node intervals span the tree's own interval (true of every
/// tree the builder produces).
pub open spec fn spans_ok(world: BvhNode) -> bool {
    crate::hittable::spans_times(*world.left, world.time0 as int, world.time1 as int)
        && crate::hittable::spans_times(*world.right, world.time0 as int, world.time1 as int)
}

/// The accumulated color of all samples of one pixel.
pub fn accumulate_pixel_color_samples(
    row: u32,
    col: u32,
    camera: &crate::camera::Camera,
    world: &BvhNode,
    materials: &Vec<MaterialEnum>,
    max_depth: u32,
    width: u32,
    height: u32,
    samples: u32,
) -> (c: Color)
    requires
        camera.wf(),
        world.wf(),
        world.time0 as int <= camera.time0 as int,
        camera.time1 as int <= world.time1 as int,
        spans_ok(*world),
        1 <= width <= 0x10000,
        1 <= height <= 0x10000,
        col < width,
        row < height,
        1 <= samples <= 0x10000,
        materials_wf(materials@),
    ensures
        channels_within(c, samples as int * SCALE as int),
{
    let mut accumulated = black();
    let mut sample: u32 = 0;
    while sample < samples
        invariant
            sample <= samples <= 0x10000,
            channels_within(accumulated, sample as int * SCALE as int),
            camera.wf(),
            world.wf(),
            world.time0 as int <= camera.time0 as int,
            camera.time1 as int <= world.time1 as int,
            spans_ok(*world),
            1 <= width <= 0x10000,
            1 <= height <= 0x10000,
            col < width,
            row < height,
            materials_wf(materials@),
        decreases samples - sample,
    {
        let s = calculate_sample(row, col, camera, world, materials, max_depth, width, height);
        proof {
            assert((sample as int + 1) * SCALE as int == sample as int * SCALE as int
                + SCALE as int) by (nonlinear_arith);
            assert(sample as int * SCALE as int <= 0x10000 * 65536) by (nonlinear_arith)
                requires
                    0 <= sample <= 0x10000,
                    SCALE == 65536,
            ;
        }
        accumulated = accumulated.plus(s);
        sample = sample + 1;
    }
    accumulated
}

/// The averaged, gamma-corrected color of one pixel: a display-ready
/// color. Its channels already carry the square-root gamma, so a
/// quantizer must not apply gamma again (the format pipeline instead
/// feeds raw accumulated sums to `Color::pixel_format`, which averages,
/// corrects and clamps in one pass).
pub fn calculate_pixel_color(
    row: u32,
    col: u32,
    camera: &crate::camera::Camera,
    world: &BvhNode,
    materials: &Vec<MaterialEnum>,
    max_depth: u32,
    width: u32,
    height: u32,
    samples: u32,
) -> (c: Color)
    requires
        camera.wf(),
        world.wf(),
        world.time0 as int <= camera.time0 as int,
        camera.time1 as int <= world.time1 as int,
        spans_ok(*world),
        1 <= width <= 0x10000,
        1 <= height <= 0x10000,
        col < width,
        row < height,
        1 <= samples <= 0x10000,
        materials_wf(materials@),
    ensures
        channels_within(c, SCALE as int),
        exists|acc: Color|
            #[trigger] channels_within(acc, samples as int * SCALE as int) && c.r as int
                == gamma_spec(tdiv(acc.r as int, samples as int)) && c.g as int == gamma_spec(
                tdiv(acc.g as int, samples as int),
            ) && c.b as int == gamma_spec(tdiv(acc.b as int, samples as int)),
{
    let accumulated = accumulate_pixel_color_samples(
        row,
        col,
        camera,
        world,
        materials,
        max_depth,
        width,
        height,
        samples,
    );
    let averaged = average_channels(accumulated, samples);
    let corrected = correct_gamma_value(averaged);
    proof {
        assert(channels_within(accumulated, samples as int * SCALE as int) && corrected.r as int
            == gamma_spec(tdiv(accumulated.r as int, samples as int)) && corrected.g as int
            == gamma_spec(tdiv(accumulated.g as int, samples as int)) && corrected.b as int
            == gamma_spec(tdiv(accumulated.b as int, samples as int)));
    }
    corrected
}

/// Averages accumulated channels over the sample count.
fn average_channels(c: Color, samples: u32) -> (r: Color)
    requires
        1 <= samples <= 0x10000,
        channels_within(c, samples as int * SCALE as int),
    ensures
        r.r as int == tdiv(c.r as int, samples as int),
        r.g as int == tdiv(c.g as int, samples as int),
        r.b as int == tdiv(c.b as int, samples as int),
        channels_within(r, SCALE as int),
{
    proof {
        assert(forall|v: int, n: int|
            1 <= n <= 0x10000 && 0 <= v <= n * 65536 ==> 0 <= #[trigger] tdiv(v, n) <= 65536)
            by (nonlinear_arith);
        assert(0 <= samples as int * 65536 <= 0x10000 * 65536) by (nonlinear_arith)
            requires
                1 <= samples <= 0x10000,
        ;
    }
    Color {
        r: crate::fx::div_trunc(c.r as i128, samples as i128) as i64,
        g: crate::fx::div_trunc(c.g as i128, samples as i128) as i64,
        b: crate::fx::div_trunc(c.b as i128, samples as i128) as i64,
    }
}

/// One gamma-corrected channel, as a specification value: the floor
/// square root of the channel rescaled by `SCALE`, so its square brackets
/// the linear value.
pub open spec fn gamma_spec(v: int) -> int {
    sqrt_floor(v * SCALE as int)
}

/// Gamma correction by square root, channel-wise: each output channel is
/// exactly the floor square root of the linear channel rescaled by
/// `SCALE`.
pub fn correct_gamma_value(c: Color) -> (r: Color)
    requires
        channels_within(c, SCALE as int),
    ensures
        r.r as int == gamma_spec(c.r as int),
        r.g as int == gamma_spec(c.g as int),
        r.b as int == gamma_spec(c.b as int),
        channels_within(r, SCALE as int),
{
    Color { r: gamma_channel(c.r), g: gamma_channel(c.g), b: gamma_channel(c.b) }
}

/// One gamma-corrected channel: the integer square root of the channel
/// rescaled by `SCALE`, exact to rounding.
fn gamma_channel(v: i64) -> (r: i64)
    requires
        0 <= v <= SCALE,
    ensures
        r as int == gamma_spec(v as int),
        0 <= r <= SCALE,
        r * r <= v * (SCALE as int),
        v * (SCALE as int) < (r + 1) * (r + 1),
{
    proof {
        assert(0 <= v as int * 65536 <= 65536 * 65536) by (nonlinear_arith)
            requires
                0 <= v <= 65536,
        ;
    }
    let root: u128 = crate::fx::isqrt((v as u128) * (SCALE as u128));
    proof {
        assert(root <= 65536) by (nonlinear_arith)
            requires
                root as int * root as int <= v as int * 65536,
                v as int * 65536 <= 65536 * 65536,
        ;
    }
    root as i64
}

} // verus!
