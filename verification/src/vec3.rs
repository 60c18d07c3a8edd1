//! Three-component vectors and points over fixed-point scalars.

use crate::fx::{fx_div, fx_div_spec, fx_mul, fx_mul_spec, GEOM_BOUND, SCALE};
use crate::fx::isqrt;
use vstd::prelude::*;

verus! {

/// Threshold under which a vector counts as degenerate (about 1e-4 in real
/// units): fallbacks replace such scatter directions.
pub const NEAR_ZERO: i64 = 8;

/// A vector (or point) with fixed-point components.
#[derive(Clone, Copy, Debug, PartialEq, Eq, Structural)]
pub struct Vec3 {
    pub x: i64,
    pub y: i64,
    pub z: i64,
}

/// Points are vectors under a different name, as positions rather than
/// displacements.
pub type Point3 = Vec3;

/// The dot product over the mathematical integers (in squared raw units).
pub open spec fn dot_spec(a: Vec3, b: Vec3) -> int {
    a.x * b.x + a.y * b.y + a.z * b.z
}

/// All three components bounded in magnitude by `m`.
pub open spec fn bounded(v: Vec3, m: int) -> bool {
    -m <= v.x <= m && -m <= v.y <= m && -m <= v.z <= m
}

/// Products of two `GEOM_BOUND`-bounded scalars, and sums of three of them,
/// stay far within `i128`.
pub proof fn lemma_dot_bound(a: Vec3, b: Vec3, m: int)
    requires
        0 <= m <= GEOM_BOUND as int,
        bounded(a, m),
        bounded(b, GEOM_BOUND as int),
    ensures
        -(m * GEOM_BOUND as int) <= a.x * b.x <= m * GEOM_BOUND as int,
        -(m * GEOM_BOUND as int) <= a.y * b.y <= m * GEOM_BOUND as int,
        -(m * GEOM_BOUND as int) <= a.z * b.z <= m * GEOM_BOUND as int,
        -3 * (m * GEOM_BOUND as int) <= dot_spec(a, b) <= 3 * (m * GEOM_BOUND as int),
        3 * (m * GEOM_BOUND as int) < 0x1000_0000_0000_0000_0000_0000_0000_0000,
{
    assert(-(m * GEOM_BOUND as int) <= a.x * b.x <= m * GEOM_BOUND as int && -(m
        * GEOM_BOUND as int) <= a.y * b.y <= m * GEOM_BOUND as int && -(m * GEOM_BOUND as int)
        <= a.z * b.z <= m * GEOM_BOUND as int && -3 * (m * GEOM_BOUND as int) <= dot_spec(a, b)
        <= 3 * (m * GEOM_BOUND as int) && 3 * (m * GEOM_BOUND as int)
        < 0x1000_0000_0000_0000_0000_0000_0000_0000) by (nonlinear_arith)
        requires
            0 <= m <= GEOM_BOUND as int,
            bounded(a, m),
            bounded(b, GEOM_BOUND as int),
            GEOM_BOUND == 1073741824,
    ;
}

impl Vec3 {
    /// Builds the vector with the given fixed-point components.
    pub fn new(x: i64, y: i64, z: i64) -> (r: Vec3)
        ensures
            r == (Vec3 { x, y, z }),
    {
        Vec3 { x, y, z }
    }

    /// The zero vector.
    pub fn zero() -> (r: Vec3)
        ensures
            r == (Vec3 { x: 0, y: 0, z: 0 }),
    {
        Vec3 { x: 0, y: 0, z: 0 }
    }

    /// The component along axis `i` (`0` is x, `1` is y, anything else z).
    pub open spec fn spec_axis(self, i: int) -> int {
        if i == 0 {
            self.x as int
        } else if i == 1 {
            self.y as int
        } else {
            self.z as int
        }
    }

    /// The component along axis `i`.
    pub fn axis(&self, i: usize) -> (r: i64)
        ensures
            r as int == self.spec_axis(i as int),
    {
        if i == 0 {
            self.x
        } else if i == 1 {
            self.y
        } else {
            self.z
        }
    }

    /// Componentwise sum.
    pub fn plus(self, o: Vec3) -> (r: Vec3)
        requires
            bounded(self, 0x2000_0000_0000_0000),
            bounded(o, 0x2000_0000_0000_0000),
        ensures
            r.x == self.x + o.x,
            r.y == self.y + o.y,
            r.z == self.z + o.z,
    {
        Vec3 { x: self.x + o.x, y: self.y + o.y, z: self.z + o.z }
    }

    /// Componentwise difference.
    pub fn minus(self, o: Vec3) -> (r: Vec3)
        requires
            bounded(self, 0x2000_0000_0000_0000),
            bounded(o, 0x2000_0000_0000_0000),
        ensures
            r.x == self.x - o.x,
            r.y == self.y - o.y,
            r.z == self.z - o.z,
    {
        Vec3 { x: self.x - o.x, y: self.y - o.y, z: self.z - o.z }
    }

    /// The opposite vector.
    pub fn neg(self) -> (r: Vec3)
        requires
            bounded(self, 0x2000_0000_0000_0000),
        ensures
            r.x == -self.x,
            r.y == -self.y,
            r.z == -self.z,
    {
        Vec3 { x: -self.x, y: -self.y, z: -self.z }
    }

    /// Scales by a fixed-point factor, each component rounded toward zero.
    pub fn scaled(self, k: i64) -> (r: Vec3)
        requires
            bounded(self, GEOM_BOUND as int),
            -GEOM_BOUND as int <= k <= GEOM_BOUND as int,
        ensures
            r.x == fx_mul_spec(self.x as int, k as int),
            r.y == fx_mul_spec(self.y as int, k as int),
            r.z == fx_mul_spec(self.z as int, k as int),
    {
        proof {
            lemma_scale_fits(self.x as int, k as int);
            lemma_scale_fits(self.y as int, k as int);
            lemma_scale_fits(self.z as int, k as int);
        }
        Vec3 { x: fx_mul(self.x, k), y: fx_mul(self.y, k), z: fx_mul(self.z, k) }
    }

    /// The dot product with `o`, exact, in squared raw units.
    pub fn dot(self, o: Vec3) -> (r: i128)
        requires
            bounded(self, GEOM_BOUND as int),
            bounded(o, GEOM_BOUND as int),
        ensures
            r == dot_spec(self, o),
    {
        proof {
            lemma_dot_bound(self, o, GEOM_BOUND as int);
        }
        (self.x as i128) * (o.x as i128) + (self.y as i128) * (o.y as i128) + (self.z as i128) * (
        o.z as i128)
    }

    /// The squared length, exact, in squared raw units.
    pub fn length_squared(self) -> (r: i128)
        requires
            bounded(self, GEOM_BOUND as int),
        ensures
            r == dot_spec(self, self),
            r >= 0,
    {
        proof {
            lemma_dot_self_nonneg(self);
        }
        self.dot(self)
    }

    /// The length as a fixed-point scalar, rounded down: the integer square
    /// root of the squared raw length.
    pub fn length(self) -> (r: i64)
        requires
            bounded(self, GEOM_BOUND as int),
        ensures
            0 <= r,
            r * r <= dot_spec(self, self),
            dot_spec(self, self) < (r + 1) * (r + 1),
    {
        proof {
            lemma_dot_self_nonneg(self);
            lemma_dot_bound(self, self, GEOM_BOUND as int);
        }
        let ls: i128 = self.length_squared();
        let r: u128 = isqrt(ls as u128);
        proof {
            assert(r as int * r as int <= ls < 0x4_0000_0000_0000_0000_0000 ==> r
                < 0x8000_0000_0000_0000) by (nonlinear_arith);
        }
        r as i64
    }

    /// Whether every component is below the degeneracy threshold.
    pub fn near_zero(self) -> (r: bool)
        requires
            bounded(self, GEOM_BOUND as int),
        ensures
            r == (-NEAR_ZERO < self.x < NEAR_ZERO && -NEAR_ZERO < self.y < NEAR_ZERO && -NEAR_ZERO
                < self.z < NEAR_ZERO),
    {
        -NEAR_ZERO < self.x && self.x < NEAR_ZERO && -NEAR_ZERO < self.y && self.y < NEAR_ZERO
            && -NEAR_ZERO < self.z && self.z < NEAR_ZERO
    }

    /// The vector rescaled to (nearly) unit length: each component divided
    /// by the rounded length. The result's components never exceed twice
    /// `SCALE` in magnitude.
    pub fn normalized(self) -> (r: Vec3)
        requires
            bounded(self, GEOM_BOUND as int),
            !(self.x == 0 && self.y == 0 && self.z == 0),
        ensures
            bounded(r, 2 * SCALE as int),
            ({
                let len = self.length_val();
                len >= 1 && r.x == fx_div_spec(self.x as int, len) && r.y == fx_div_spec(
                    self.y as int,
                    len,
                ) && r.z == fx_div_spec(self.z as int, len)
            }),
    {
        let len: i64 = self.length();
        proof {
            lemma_length_positive(self);
            lemma_length_val(self, len as int);
            lemma_component_sq_le_dot(self);
            lemma_div_by_length(self.x as int, len as int, dot_spec(self, self));
            lemma_div_by_length(self.y as int, len as int, dot_spec(self, self));
            lemma_div_by_length(self.z as int, len as int, dot_spec(self, self));
        }
        Vec3 { x: fx_div(self.x, len), y: fx_div(self.y, len), z: fx_div(self.z, len) }
    }

    /// The rounded-down length, as a specification value.
    pub open spec fn length_val(self) -> int {
        choose|r: int|
            0 <= r && #[trigger] (r * r) <= dot_spec(self, self) && dot_spec(self, self) < (r + 1)
                * (r + 1)
    }

    /// The cross product, each component a fixed-point product rounded
    /// toward zero.
    pub fn cross(self, o: Vec3) -> (r: Vec3)
        requires
            bounded(self, GEOM_BOUND as int),
            bounded(o, GEOM_BOUND as int),
        ensures
            r.x == fx_mul_spec(self.y as int, o.z as int) - fx_mul_spec(self.z as int, o.y as int),
            r.y == fx_mul_spec(self.z as int, o.x as int) - fx_mul_spec(self.x as int, o.z as int),
            r.z == fx_mul_spec(self.x as int, o.y as int) - fx_mul_spec(self.y as int, o.x as int),
    {
        proof {
            lemma_scale_fits(self.y as int, o.z as int);
            lemma_scale_fits(self.z as int, o.y as int);
            lemma_scale_fits(self.z as int, o.x as int);
            lemma_scale_fits(self.x as int, o.z as int);
            lemma_scale_fits(self.x as int, o.y as int);
            lemma_scale_fits(self.y as int, o.x as int);
        }
        Vec3 {
            x: fx_mul(self.y, o.z) - fx_mul(self.z, o.y),
            y: fx_mul(self.z, o.x) - fx_mul(self.x, o.z),
            z: fx_mul(self.x, o.y) - fx_mul(self.y, o.x),
        }
    }
}

/// A fixed-point product of two geometry-bounded scalars fits in an `i64`
/// and stays under `GEOM_BOUND * GEOM_BOUND / SCALE`.
pub proof fn lemma_scale_fits(a: int, k: int)
    requires
        -GEOM_BOUND as int <= a <= GEOM_BOUND as int,
        -GEOM_BOUND as int <= k <= GEOM_BOUND as int,
    ensures
        -0x2000_0000_0000 <= fx_mul_spec(a, k) <= 0x2000_0000_0000,
{
    assert(-0x2000_0000_0000 <= fx_mul_spec(a, k) <= 0x2000_0000_0000)
        by (nonlinear_arith)
        requires
            -GEOM_BOUND as int <= a <= GEOM_BOUND as int,
            -GEOM_BOUND as int <= k <= GEOM_BOUND as int,
            GEOM_BOUND == 1073741824,
            SCALE == 65536,
    ;
}

/// A vector's dot product with itself is nonnegative.
pub proof fn lemma_dot_self_nonneg(v: Vec3)
    ensures
        dot_spec(v, v) >= 0,
{
    assert(dot_spec(v, v) >= 0) by (nonlinear_arith);
}

/// A nonzero integer vector has length at least one.
proof fn lemma_length_positive(v: Vec3)
    requires
        !(v.x == 0 && v.y == 0 && v.z == 0),
    ensures
        dot_spec(v, v) >= 1,
{
    assert(dot_spec(v, v) >= 1) by (nonlinear_arith)
        requires
            !(v.x == 0 && v.y == 0 && v.z == 0),
    ;
}

/// Any value bracketing the squared length is the `length_val`.
proof fn lemma_length_val(v: Vec3, r: int)
    requires
        0 <= r,
        r * r <= dot_spec(v, v),
        dot_spec(v, v) < (r + 1) * (r + 1),
    ensures
        v.length_val() == r,
{
    assert(exists|c: int|
        0 <= c && #[trigger] (c * c) <= dot_spec(v, v) && dot_spec(v, v) < (c + 1) * (c + 1)) by {
        assert(0 <= r && r * r <= dot_spec(v, v) && dot_spec(v, v) < (r + 1) * (r + 1));
    }
    let c = v.length_val();
    assert(0 <= c && c * c <= dot_spec(v, v) && dot_spec(v, v) < (c + 1) * (c + 1));
    assert(c == r) by (nonlinear_arith)
        requires
            0 <= r,
            r * r <= dot_spec(v, v),
            dot_spec(v, v) < (r + 1) * (r + 1),
            0 <= c,
            c * c <= dot_spec(v, v),
            dot_spec(v, v) < (c + 1) * (c + 1),
    ;
}

/// The rounded length is characterized by its square bracketing the
/// squared length.
pub proof fn lemma_length_val_props(v: Vec3)
    ensures
        0 <= v.length_val(),
        v.length_val() * v.length_val() <= dot_spec(v, v),
        dot_spec(v, v) < (v.length_val() + 1) * (v.length_val() + 1),
{
    lemma_dot_self_nonneg(v);
    crate::fx::lemma_sqrt_floor_props(dot_spec(v, v));
    let r = crate::fx::sqrt_floor(dot_spec(v, v));
    lemma_length_val(v, r);
}

/// Each component's square is at most the squared length.
pub proof fn lemma_component_sq_le_dot(v: Vec3)
    ensures
        v.x * v.x <= dot_spec(v, v),
        v.y * v.y <= dot_spec(v, v),
        v.z * v.z <= dot_spec(v, v),
{
    assert(v.x * v.x <= dot_spec(v, v) && v.y * v.y <= dot_spec(v, v) && v.z * v.z <= dot_spec(
        v,
        v,
    )) by (nonlinear_arith);
}

/// Dividing a component by the vector's rounded length lands within twice
/// `SCALE`, since the length dominates each component's magnitude.
proof fn lemma_div_by_length(a: int, len: int, d: int)
    requires
        len >= 1,
        a * a <= d,
        d < (len + 1) * (len + 1),
    ensures
        -2 * SCALE as int <= fx_div_spec(a, len) <= 2 * SCALE as int,
{
    assert(-2 * SCALE as int <= fx_div_spec(a, len) <= 2 * SCALE as int) by (nonlinear_arith)
        requires
            len >= 1,
            a * a <= d,
            d < (len + 1) * (len + 1),
            SCALE == 65536,
    ;
}

} // verus!
