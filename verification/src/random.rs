//! Random sampling. The raw draws come from the `rand` crate through two
//! trusted wrappers; everything derived from them (ranges, points in the
//! unit sphere or disk, unit vectors) is verified, with contracts that hold
//! for every value the wrappers may return.

use crate::fx::{GEOM_BOUND, SCALE};
use crate::vec3::{bounded, dot_spec, Vec3};
use rand::Rng;
use vstd::prelude::*;

verus! {

/// Relies on rand::random: a uniformly random 64-bit value. Nothing can be
/// promised of the result.
#[verifier::external_body]
pub fn rand_u64() -> u64 {
    rand::random::<u64>()
}

/// Relies on rand::Rng::gen_range (via rand::thread_rng): a uniformly
/// random value in `[lo, hi)`. The range must be nonempty, since gen_range
/// panics on an empty range.
#[verifier::external_body]
fn rand_range_u64(lo: u64, hi: u64) -> (r: u64)
    requires
        lo < hi,
    ensures
        lo <= r < hi,
{
    rand::thread_rng().gen_range(lo..hi)
}

/// A random fixed-point scalar in `[0, 1)`.
pub fn random() -> (r: i64)
    ensures
        0 <= r < SCALE,
{
    rand_range_u64(0, SCALE as u64) as i64
}

/// A random fixed-point scalar in `[min, max)`.
pub fn random_range(min: i64, max: i64) -> (r: i64)
    requires
        min < max,
        -0x4000_0000_0000_0000 <= min,
        max <= 0x4000_0000_0000_0000,
    ensures
        min <= r < max,
{
    let span: u64 = (max as i128 - min as i128) as u64;
    let offset: u64 = rand_range_u64(0, span);
    min + (offset as i64)
}

/// A random axis index: 0, 1 or 2, each equally likely.
pub fn random_axis() -> (r: usize)
    ensures
        r < 3,
{
    rand_range_u64(0, 3) as usize
}

/// A random vector with each component drawn from `[min, max)`.
pub fn random_vector_range(min: i64, max: i64) -> (r: Vec3)
    requires
        min < max,
        -0x4000_0000_0000_0000 <= min,
        max <= 0x4000_0000_0000_0000,
    ensures
        min <= r.x < max,
        min <= r.y < max,
        min <= r.z < max,
{
    Vec3 { x: random_range(min, max), y: random_range(min, max), z: random_range(min, max) }
}

/// A random point inside the closed unit ball, by rejection sampling over
/// the cube. The draw is retried a bounded number of times; the origin-ward
/// fallback keeps the function total without leaving the ball.
pub fn random_in_unit_sphere() -> (r: Vec3)
    ensures
        bounded(r, SCALE as int),
        dot_spec(r, r) <= SCALE as int * SCALE as int,
{
    let mut attempts: u32 = 0;
    while attempts < 64
        invariant
            attempts <= 64,
        decreases 64 - attempts,
    {
        let v = random_vector_range(-SCALE, SCALE);
        proof {
            lemma_cube_dot_bound(v);
        }
        let ls: i128 = v.length_squared();
        if ls <= (SCALE as i128) * (SCALE as i128) {
            return v;
        }
        attempts = attempts + 1;
    }
    let fallback = Vec3 { x: SCALE / 2, y: 0, z: 0 };
    proof {
        assert(dot_spec(fallback, fallback) <= SCALE as int * SCALE as int) by (nonlinear_arith)
            requires
                fallback.x == 32768 && fallback.y == 0 && fallback.z == 0,
                SCALE == 65536,
        ;
    }
    fallback
}

/// A random direction of (nearly) unit length.
pub fn random_unit_vector() -> (r: Vec3)
    ensures
        bounded(r, 2 * SCALE as int),
{
    let v = random_in_unit_sphere();
    if v.x == 0 && v.y == 0 && v.z == 0 {
        Vec3 { x: SCALE, y: 0, z: 0 }
    } else {
        proof {
            lemma_cube_dot_bound(v);
        }
        v.normalized()
    }
}

/// A random near-unit direction in the hemisphere around `normal`: the
/// draw is flipped when it points against the normal.
pub fn random_in_hemisphere(normal: Vec3) -> (r: Vec3)
    requires
        bounded(normal, GEOM_BOUND as int),
    ensures
        bounded(r, 2 * SCALE as int),
        dot_spec(r, normal) >= 0,
{
    let v = random_unit_vector();
    let d: i128 = v.dot(normal);
    if d > 0 {
        v
    } else {
        let flipped = v.neg();
        proof {
            assert(dot_spec(flipped, normal) == -dot_spec(v, normal)) by (nonlinear_arith)
                requires
                    flipped.x == -v.x,
                    flipped.y == -v.y,
                    flipped.z == -v.z,
            ;
        }
        flipped
    }
}

/// A random point inside the closed unit disk in the xy-plane.
pub fn random_in_unit_disk() -> (r: Vec3)
    ensures
        bounded(r, SCALE as int),
        r.z == 0,
        dot_spec(r, r) <= SCALE as int * SCALE as int,
{
    let mut attempts: u32 = 0;
    while attempts < 64
        invariant
            attempts <= 64,
        decreases 64 - attempts,
    {
        let v = Vec3 { x: random_range(-SCALE, SCALE), y: random_range(-SCALE, SCALE), z: 0 };
        proof {
            lemma_cube_dot_bound(v);
        }
        let ls: i128 = v.length_squared();
        if ls <= (SCALE as i128) * (SCALE as i128) {
            return v;
        }
        attempts = attempts + 1;
    }
    let fallback = Vec3 { x: SCALE / 2, y: 0, z: 0 };
    proof {
        assert(dot_spec(fallback, fallback) <= SCALE as int * SCALE as int) by (nonlinear_arith)
            requires
                fallback.x == 32768 && fallback.y == 0 && fallback.z == 0,
                SCALE == 65536,
        ;
    }
    fallback
}

/// A vector from the cube of half-side `SCALE` has a squared length of at
/// most three, well within the geometry bounds.
proof fn lemma_cube_dot_bound(v: Vec3)
    requires
        bounded(v, SCALE as int),
    ensures
        0 <= dot_spec(v, v) <= 3 * (SCALE as int * SCALE as int),
{
    assert(0 <= dot_spec(v, v) <= 3 * (SCALE as int * SCALE as int)) by (nonlinear_arith)
        requires
            bounded(v, SCALE as int),
            SCALE == 65536,
    ;
}

} // verus!
