//! Spheres and the exact ray/sphere intersection.
//!
//! The quadratic's coefficients are exact integers, so the discriminant
//! test and the root-in-range tests are exact. The reported parameter is
//! the rational `(-half_b ± sqrt_floor(disc)) / a`; replacing the
//! irrational square root by its floor moves each root inward, between the
//! two true roots, so the reported parameter always lies inside (or on)
//! the sphere — the fact the bounding-box consistency proof rests on.

use crate::aabb::{box_slab, hit_spec, slab_ok, witness_ok, AABB};
use crate::fx::{div_trunc, fx_div, fx_div_spec, isqrt, lemma_sqrt_floor_props, sqrt_floor, tdiv, GEOM_BOUND, INPUT_BOUND, SCALE};
use crate::hittable::HitRecord;
use crate::rat::{frac_le, lemma_frac_le_trans, Rat, RAT_BOUND};
use crate::ray::Ray;
use crate::vec3::{bounded, dot_spec, lemma_dot_bound, Point3, Vec3};
use vstd::prelude::*;

verus! {

/// A sphere. A negative radius is allowed (it flips the reported normals,
/// which hollow shells use); the magnitude must be at least one raw unit.
#[derive(Clone, Copy, Debug)]
pub struct Sphere {
    pub center: Point3,
    pub radius: i64,
    pub material: usize,
}

/// The quadratic's leading coefficient: the direction's squared length.
pub open spec fn quad_a(r: Ray) -> int {
    dot_spec(r.direction, r.direction)
}

impl Sphere {
    /// Center and radius within the scene input bounds; the radius is
    /// nonzero.
    pub open spec fn wf(self) -> bool {
        bounded(self.center, INPUT_BOUND as int) && 1 <= self.abs_radius()
            <= INPUT_BOUND as int
    }

    /// The radius magnitude.
    pub open spec fn abs_radius(self) -> int {
        if self.radius >= 0 {
            self.radius as int
        } else {
            -(self.radius as int)
        }
    }

    /// Builds a sphere over a material index.
    pub fn new(center: Point3, radius: i64, material: usize) -> (s: Sphere)
        ensures
            s.center == center,
            s.radius == radius,
            s.material == material,
    {
        Sphere { center, radius, material }
    }

    /// The center.
    pub fn center(&self) -> (c: Point3)
        ensures
            c == self.center,
    {
        self.center
    }

    /// The radius.
    pub fn radius(&self) -> (r: i64)
        ensures
            r == self.radius,
    {
        self.radius
    }

    /// Origin-to-center offset along axis `i`.
    pub open spec fn oc_axis(self, r: Ray, i: int) -> int {
        r.origin.spec_axis(i) - self.center.spec_axis(i)
    }

    /// The quadratic's half middle coefficient.
    pub open spec fn quad_half_b(self, r: Ray) -> int {
        self.oc_axis(r, 0) * r.direction.spec_axis(0) + self.oc_axis(r, 1) * r.direction.spec_axis(
            1,
        ) + self.oc_axis(r, 2) * r.direction.spec_axis(2)
    }

    /// The quadratic's constant coefficient.
    pub open spec fn quad_c(self, r: Ray) -> int {
        self.oc_axis(r, 0) * self.oc_axis(r, 0) + self.oc_axis(r, 1) * self.oc_axis(r, 1)
            + self.oc_axis(r, 2) * self.oc_axis(r, 2) - self.radius as int * self.radius as int
    }

    /// The discriminant (of the half-b form).
    pub open spec fn quad_disc(self, r: Ray) -> int {
        self.quad_half_b(r) * self.quad_half_b(r) - quad_a(r) * self.quad_c(r)
    }

    /// Whether the intersection test reports a hit.
    pub open spec fn hit_exists(self, r: Ray, t_min: Rat, t_max: Rat) -> bool {
        quad_a(r) > 0 && solution_exists(
            quad_a(r),
            self.quad_half_b(r),
            self.quad_disc(r),
            t_min,
            t_max,
        )
    }

    /// The numerator of the reported parameter (its denominator is the
    /// leading coefficient).
    pub open spec fn hit_num(self, r: Ray, t_min: Rat, t_max: Rat) -> int {
        solution_num(quad_a(r), self.quad_half_b(r), self.quad_disc(r), t_min, t_max)
    }

    /// The sphere's bounding box: the cube of half-side `|radius|` around
    /// the center, whatever the query times.
    pub fn bounding_box(&self, time0: i64, time1: i64) -> (b: Option<AABB>)
        requires
            self.wf(),
        ensures
            b == Some(self.spec_box()),
    {
        let r_abs: i64 = if self.radius >= 0 {
            self.radius
        } else {
            -self.radius
        };
        let offset = Vec3 { x: r_abs, y: r_abs, z: r_abs };
        Some(AABB { minimum: self.center.minus(offset), maximum: self.center.plus(offset) })
    }

    /// The outward unit-scale normal at a surface point, as a
    /// specification value: the offset from the center divided by the
    /// (signed) radius.
    pub open spec fn outward_at(self, p: Point3) -> Vec3 {
        Vec3 {
            x: fx_div_spec(p.x - self.center.x, self.radius as int) as i64,
            y: fx_div_spec(p.y - self.center.y, self.radius as int) as i64,
            z: fx_div_spec(p.z - self.center.z, self.radius as int) as i64,
        }
    }

    /// The bounding box as a specification value.
    pub open spec fn spec_box(self) -> AABB {
        AABB {
            minimum: Vec3 {
                x: (self.center.x - self.abs_radius()) as i64,
                y: (self.center.y - self.abs_radius()) as i64,
                z: (self.center.z - self.abs_radius()) as i64,
            },
            maximum: Vec3 {
                x: (self.center.x + self.abs_radius()) as i64,
                y: (self.center.y + self.abs_radius()) as i64,
                z: (self.center.z + self.abs_radius()) as i64,
            },
        }
    }
}

/// The polar texture coordinate of a near-unit direction: a first-order
/// approximation of the angle from the south pole, linear in the (unit
/// clamped) vertical component.
pub open spec fn sphere_v_spec(p: Vec3) -> int {
    (SCALE as int + crate::fx::clamp_spec(p.y as int, SCALE as int)) / 2
}

/// The azimuth texture coordinate of a near-unit direction: a quadrant
/// decomposition with a first-order in-quadrant fraction, shifted by half
/// a turn and wrapped, exact at the axes.
pub open spec fn sphere_u_spec(p: Vec3) -> int {
    let zn = -p.z as int;
    let ax = if p.x >= 0 {
        p.x as int
    } else {
        -p.x as int
    };
    let az = if zn >= 0 {
        zn
    } else {
        -zn
    };
    if ax + az == 0 {
        SCALE as int / 2
    } else {
        let f = tdiv(az * SCALE as int, ax + az);
        let quarter = if p.x > 0 && zn >= 0 {
            f
        } else if p.x <= 0 && zn >= 0 {
            2 * SCALE as int - f
        } else if p.x <= 0 {
            2 * SCALE as int + f
        } else {
            4 * SCALE as int - f
        };
        let shifted = quarter / 4 + SCALE as int / 2;
        if shifted >= SCALE as int {
            shifted - SCALE as int
        } else {
            shifted
        }
    }
}

/// The first root (with the floored square root) lies in `[t_min, t_max]`.
pub open spec fn root_in_range(num: int, a: int, t_min: Rat, t_max: Rat) -> bool {
    frac_le(t_min.num as int, t_min.den as int, num, a) && frac_le(
        num,
        a,
        t_max.num as int,
        t_max.den as int,
    )
}

/// Some root is reported: the discriminant is nonnegative and the nearer
/// root, or failing that the farther root, lies in range.
pub open spec fn solution_exists(a: int, half_b: int, disc: int, t_min: Rat, t_max: Rat) -> bool {
    disc >= 0 && (root_in_range(-half_b - sqrt_floor(disc), a, t_min, t_max) || root_in_range(
        -half_b + sqrt_floor(disc),
        a,
        t_min,
        t_max,
    ))
}

/// The numerator of the reported root: the nearer root when it is in
/// range, otherwise the farther one.
pub open spec fn solution_num(a: int, half_b: int, disc: int, t_min: Rat, t_max: Rat) -> int {
    if root_in_range(-half_b - sqrt_floor(disc), a, t_min, t_max) {
        -half_b - sqrt_floor(disc)
    } else {
        -half_b + sqrt_floor(disc)
    }
}

/// Root selection for the sphere quadratic: no root when the discriminant
/// is negative; otherwise the nearer root if it lies in `[t_min, t_max]`,
/// else the farther root if it does, else none.
pub fn find_smallest_valid_solution(
    a: i128,
    half_b: i128,
    discriminant: i128,
    t_min: Rat,
    t_max: Rat,
) -> (res: Option<Rat>)
    requires
        0 < a <= RAT_BOUND,
        -0x2000_0000_0000_0000 <= half_b <= 0x2000_0000_0000_0000,
        discriminant < 0x0400_0000_0000_0000_0000_0000_0000_0000,
        t_min.wf(),
        t_max.wf(),
    ensures
        res is Some == solution_exists(a as int, half_b as int, discriminant as int, t_min, t_max),
        res matches Some(t) ==> t.wf() && t.den == a && t.num == solution_num(
            a as int,
            half_b as int,
            discriminant as int,
            t_min,
            t_max,
        ) && t_min.spec_le(t) && t.spec_le(t_max),
{
    if discriminant < 0 {
        return None;
    }
    let s_i: u128 = isqrt(discriminant as u128);
    proof {
        assert(s_i <= 0x2000_0000_0000_0000) by (nonlinear_arith)
            requires
                s_i as int * s_i as int <= discriminant as int,
                0 <= discriminant as int,
                (discriminant as int) < 0x0400_0000_0000_0000_0000_0000_0000_0000,
        ;
    }
    let s: i128 = s_i as i128;
    let t1 = Rat { num: -half_b - s, den: a };
    if t_min.le(t1) && t1.le(t_max) {
        return Some(t1);
    }
    let t2 = Rat { num: -half_b + s, den: a };
    if t_min.le(t2) && t2.le(t_max) {
        return Some(t2);
    }
    None
}

/// Tightening the far end of the search range to a value the reported
/// root respects does not change the report; and a report under the
/// tighter range is exactly a report under the full range that respects
/// the tighter end. The hierarchy's pruning of the far subtree rests on
/// this.
pub proof fn lemma_solution_narrow(
    a: int,
    half_b: int,
    disc: int,
    t_min: Rat,
    t_max: Rat,
    t_mid: Rat,
)
    requires
        a > 0,
        t_min.wf(),
        t_max.wf(),
        t_mid.wf(),
        t_mid.spec_le(t_max),
    ensures
        solution_exists(a, half_b, disc, t_min, t_mid) <==> (solution_exists(
            a,
            half_b,
            disc,
            t_min,
            t_max,
        ) && frac_le(
            solution_num(a, half_b, disc, t_min, t_max),
            a,
            t_mid.num as int,
            t_mid.den as int,
        )),
        solution_exists(a, half_b, disc, t_min, t_mid) ==> solution_num(
            a,
            half_b,
            disc,
            t_min,
            t_mid,
        ) == solution_num(a, half_b, disc, t_min, t_max),
{
    if disc >= 0 {
        lemma_sqrt_floor_props(disc);
        let sl = sqrt_floor(disc);
        let n1 = -half_b - sl;
        let n2 = -half_b + sl;
        // The nearer root never exceeds the farther one.
        assert(frac_le(n1, a, n2, a)) by (nonlinear_arith)
            requires
                a > 0,
                n1 <= n2,
        ;
        lemma_range_shrink(n1, a, t_min, t_max, t_mid);
        lemma_range_shrink(n2, a, t_min, t_max, t_mid);
        if root_in_range(n1, a, t_min, t_mid) {
        } else if root_in_range(n2, a, t_min, t_mid) {
            // The nearer root is out of the tighter range; were it inside
            // the full range and under the tighter end, it would be inside
            // the tighter range too, so the full range also selects the
            // farther root, unless the nearer root exceeds the tighter end
            // while the farther root respects it, which transitivity rules
            // out.
            if root_in_range(n1, a, t_min, t_max) {
                lemma_frac_le_trans(
                    n1,
                    a,
                    n2,
                    a,
                    t_mid.num as int,
                    t_mid.den as int,
                );
            }
        } else {
            if root_in_range(n1, a, t_min, t_max) && frac_le(
                n1,
                a,
                t_mid.num as int,
                t_mid.den as int,
            ) {
            }
            if !root_in_range(n1, a, t_min, t_max) && root_in_range(n2, a, t_min, t_max)
                && frac_le(n2, a, t_mid.num as int, t_mid.den as int) {
            }
        }
    }
}

/// A parameter inside the tighter range is inside the full range, and a
/// parameter inside the full range that respects the tighter end is
/// inside the tighter range.
proof fn lemma_range_shrink(n: int, a: int, t_min: Rat, t_max: Rat, t_mid: Rat)
    requires
        a > 0,
        t_min.wf(),
        t_max.wf(),
        t_mid.wf(),
        t_mid.spec_le(t_max),
    ensures
        root_in_range(n, a, t_min, t_mid) <==> (root_in_range(n, a, t_min, t_max) && frac_le(
            n,
            a,
            t_mid.num as int,
            t_mid.den as int,
        )),
{
    if root_in_range(n, a, t_min, t_mid) {
        lemma_frac_le_trans(
            n,
            a,
            t_mid.num as int,
            t_mid.den as int,
            t_max.num as int,
            t_max.den as int,
        );
    }
}

/// With the floored square root, either candidate root keeps the
/// quadratic nonpositive: it lies weakly between the two true roots.
proof fn lemma_quad_nonpos_at_root(a: int, hb: int, cc: int, disc: int, sl: int, m: int)
    requires
        disc == hb * hb - a * cc,
        0 <= sl,
        sl * sl <= disc,
        m == -hb - sl || m == -hb + sl,
    ensures
        m * m + 2 * hb * m + cc * a <= 0,
{
    assert(m * m + 2 * hb * m + cc * a <= 0) by (nonlinear_arith)
        requires
            disc == hb * hb - a * cc,
            sl * sl <= disc,
            m == -hb - sl || m == -hb + sl,
    ;
}

/// The heart of the cover argument: at a candidate root, the ray's
/// coordinate on every axis stays within the radius of the center
/// (all terms scaled by the positive leading coefficient).
proof fn lemma_root_within_radius(s: Sphere, r: Ray, m: int)
    requires
        s.wf(),
        quad_a(r) > 0,
        s.quad_disc(r) >= 0,
        m == -s.quad_half_b(r) - sqrt_floor(s.quad_disc(r)) || m == -s.quad_half_b(r)
            + sqrt_floor(s.quad_disc(r)),
    ensures
        -(quad_a(r) * s.abs_radius()) <= s.oc_axis(r, 0) * quad_a(r) + m * r.direction.spec_axis(0)
            <= quad_a(r) * s.abs_radius(),
        -(quad_a(r) * s.abs_radius()) <= s.oc_axis(r, 1) * quad_a(r) + m * r.direction.spec_axis(1)
            <= quad_a(r) * s.abs_radius(),
        -(quad_a(r) * s.abs_radius()) <= s.oc_axis(r, 2) * quad_a(r) + m * r.direction.spec_axis(2)
            <= quad_a(r) * s.abs_radius(),
{
    let a = quad_a(r);
    let hb = s.quad_half_b(r);
    let cc = s.quad_c(r);
    let disc = s.quad_disc(r);
    lemma_sqrt_floor_props(disc);
    let sl = sqrt_floor(disc);
    lemma_quad_nonpos_at_root(a, hb, cc, disc, sl, m);
    let phi = m * m + 2 * hb * m + cc * a;

    let oc0 = s.oc_axis(r, 0);
    let oc1 = s.oc_axis(r, 1);
    let oc2 = s.oc_axis(r, 2);
    let d0 = r.direction.spec_axis(0);
    let d1 = r.direction.spec_axis(1);
    let d2 = r.direction.spec_axis(2);
    let rr = s.radius as int;
    let g0 = oc0 * a + m * d0;
    let g1 = oc1 * a + m * d1;
    let g2 = oc2 * a + m * d2;

    // The sum of the squared axis offsets at the root equals the quadratic
    // value there plus the squared radius, scaled by the coefficient: a
    // chain of small ring identities.
    lemma_square_of_sum(oc0, a, m, d0);
    lemma_square_of_sum(oc1, a, m, d1);
    lemma_square_of_sum(oc2, a, m, d2);
    assert((oc0 * d0 + oc1 * d1 + oc2 * d2) * (m * a) == (oc0 * d0) * (m * a) + (oc1 * d1) * (m
        * a) + (oc2 * d2) * (m * a)) by (nonlinear_arith);
    assert((m * m) * (d0 * d0) + (m * m) * (d1 * d1) + (m * m) * (d2 * d2) == (m * m) * (d0 * d0
        + d1 * d1 + d2 * d2)) by (nonlinear_arith);
    assert((oc0 * oc0 + oc1 * oc1 + oc2 * oc2) * (a * a) == (oc0 * oc0) * (a * a) + (oc1 * oc1) * (
    a * a) + (oc2 * oc2) * (a * a)) by (nonlinear_arith);
    assert(cc * (a * a) == (oc0 * oc0 + oc1 * oc1 + oc2 * oc2) * (a * a) - (rr * rr) * (a * a))
        by (nonlinear_arith)
        requires
            cc == oc0 * oc0 + oc1 * oc1 + oc2 * oc2 - rr * rr,
    ;
    assert(a * phi == a * (m * m) + (2 * m * a) * hb + (a * a) * cc) by (nonlinear_arith)
        requires
            phi == m * m + 2 * hb * m + cc * a,
    ;
    assert((2 * m * a) * hb == 2 * (hb * (m * a))) by (nonlinear_arith);
    assert(a * (m * m) == (m * m) * a && (a * a) * cc == cc * (a * a) && (m * m) * (d0 * d0 + d1
        * d1 + d2 * d2) == (m * m) * a) by (nonlinear_arith)
        requires
            a == d0 * d0 + d1 * d1 + d2 * d2,
    ;
    assert((a * rr) * (a * rr) == (rr * rr) * (a * a)) by (nonlinear_arith);
    assert(g0 * g0 + g1 * g1 + g2 * g2 == a * phi + (a * rr) * (a * rr));
    let bound = a * s.abs_radius();
    assert(g0 * g0 <= bound * bound && g1 * g1 <= bound * bound && g2 * g2 <= bound * bound)
        by (nonlinear_arith)
        requires
            g0 * g0 + g1 * g1 + g2 * g2 == a * phi + (a * rr) * (a * rr),
            phi <= 0,
            a > 0,
            bound == a * (if rr >= 0 {
                rr
            } else {
                -rr
            }),
    ;
    assert(bound >= 0) by (nonlinear_arith)
        requires
            a > 0,
            bound == a * s.abs_radius(),
            s.abs_radius() >= 0,
    ;
    lemma_abs_from_square(g0, bound);
    lemma_abs_from_square(g1, bound);
    lemma_abs_from_square(g2, bound);
}


/// The square of `x * a + m * d`, written over paired products.
proof fn lemma_square_of_sum(x: int, a: int, m: int, d: int)
    ensures
        (x * a + m * d) * (x * a + m * d) == (x * x) * (a * a) + 2 * ((x * d) * (m * a)) + (m * m)
            * (d * d),
{
    assert((x * a + m * d) * (x * a + m * d) == (x * a) * (x * a) + 2 * ((x * a) * (m * d)) + (m
        * d) * (m * d)) by (nonlinear_arith);
    assert((x * a) * (x * a) == (x * x) * (a * a)) by (nonlinear_arith);
    assert((x * a) * (m * d) == (x * d) * (m * a)) by (nonlinear_arith);
    assert((m * d) * (m * d) == (m * m) * (d * d)) by (nonlinear_arith);
}

/// From a square bound to a magnitude bound.
proof fn lemma_abs_from_square(x: int, y: int)
    requires
        x * x <= y * y,
        y >= 0,
    ensures
        -y <= x <= y,
{
    assert(-y <= x <= y) by (nonlinear_arith)
        requires
            x * x <= y * y,
            y >= 0,
    ;
}

/// Whenever the sphere reports a hit, its bounding box reports a closed
/// hit over the same parameter range: pruning by boxes never loses a
/// sphere intersection.
pub proof fn lemma_sphere_hit_in_box(s: Sphere, r: Ray, t_min: Rat, t_max: Rat)
    requires
        s.wf(),
        r.wf(),
        t_min.wf(),
        t_max.wf(),
        s.hit_exists(r, t_min, t_max),
    ensures
        hit_spec(s.spec_box(), r, t_min, t_max, true),
{
    let a = quad_a(r);
    let m = s.hit_num(r, t_min, t_max);
    lemma_sqrt_floor_props(s.quad_disc(r));
    lemma_root_within_radius(s, r, m);
    let b = s.spec_box();
    assert forall|i: int| 0 <= i < 3 implies box_slab(b, r, i, m, a, true) by {
        let o = r.origin.spec_axis(i);
        let c = s.center.spec_axis(i);
        let d = r.direction.spec_axis(i);
        let ar = s.abs_radius();
        assert(b.minimum.spec_axis(i) == c - ar && b.maximum.spec_axis(i) == c + ar);
        assert(-(a * ar) <= (o - c) * a + m * d <= a * ar);
        assert((c - ar) * a <= o * a + m * d <= (c + ar) * a) by (nonlinear_arith)
            requires
                -(a * ar) <= (o - c) * a + m * d <= a * ar,
        ;
    }
    assert(witness_ok(b, r, t_min, t_max, m, a, true));
}

impl Sphere {
    /// The intersection test: solves the quadratic exactly and selects the
    /// root as `find_smallest_valid_solution` does. The record's hit point
    /// is the rounded position at the root; it always lies within the
    /// sphere's bounding box, and its normal faces the incoming ray.
    pub fn hit(&self, ray: &Ray, t_min: Rat, t_max: Rat) -> (res: Option<HitRecord>)
        requires
            self.wf(),
            ray.wf(),
            t_min.wf(),
            t_max.wf(),
        ensures
            res is Some == self.hit_exists(*ray, t_min, t_max),
            res matches Some(rec) ==> rec.t.den == quad_a(*ray) && rec.t.num == self.hit_num(
                *ray,
                t_min,
                t_max,
            ) && rec.t.wf() && rec.material == self.material && rec.wf() && t_min.spec_le(rec.t)
                && rec.t.spec_le(t_max) && self.center.x - self.abs_radius() <= rec.point.x
                <= self.center.x + self.abs_radius() && self.center.y - self.abs_radius()
                <= rec.point.y <= self.center.y + self.abs_radius() && self.center.z
                - self.abs_radius() <= rec.point.z <= self.center.z + self.abs_radius(),
            res matches Some(rec) ==> ({
                let m = self.hit_num(*ray, t_min, t_max);
                let a = quad_a(*ray);
                &&& rec.point.x == ray.origin.x + tdiv(m * ray.direction.x, a)
                &&& rec.point.y == ray.origin.y + tdiv(m * ray.direction.y, a)
                &&& rec.point.z == ray.origin.z + tdiv(m * ray.direction.z, a)
            }),
            res matches Some(rec) ==> ({
                let owx = fx_div_spec(rec.point.x - self.center.x, self.radius as int);
                let owy = fx_div_spec(rec.point.y - self.center.y, self.radius as int);
                let owz = fx_div_spec(rec.point.z - self.center.z, self.radius as int);
                &&& rec.on_front_face == (ray.direction.x * owx + ray.direction.y * owy
                    + ray.direction.z * owz < 0)
                &&& (rec.on_front_face ==> rec.normal.x == owx && rec.normal.y == owy
                    && rec.normal.z == owz)
                &&& (!rec.on_front_face ==> rec.normal.x == -owx && rec.normal.y == -owy
                    && rec.normal.z == -owz)
                &&& rec.u as int == sphere_u_spec(self.outward_at(rec.point))
                &&& rec.v as int == sphere_v_spec(self.outward_at(rec.point))
            }),
    {
        let oc = ray.origin().minus(self.center);
        let dir = ray.direction();
        let a_i: i128 = dir.length_squared();
        if a_i == 0 {
            return None;
        }
        let half_b: i128 = oc.dot(dir);
        proof {
            assert(0 <= self.radius as int * self.radius as int
                <= 0x1000_0000_0000_0000) by (nonlinear_arith)
                requires
                    -268435456 <= self.radius <= 268435456,
            ;
            lemma_dot_bound(oc, oc, GEOM_BOUND as int);
        }
        let radius_sq: i128 = (self.radius as i128) * (self.radius as i128);
        let c_i: i128 = oc.length_squared() - radius_sq;
        proof {
            lemma_quad_ranges(*self, *ray, a_i as int, half_b as int, c_i as int);
        }
        let disc: i128 = half_b * half_b - a_i * c_i;
        assert(a_i as int == quad_a(*ray) && half_b as int == self.quad_half_b(*ray) && disc as int
            == self.quad_disc(*ray));
        let sol = find_smallest_valid_solution(a_i, half_b, disc, t_min, t_max);
        let t = match sol {
            None => {
                return None;
            },
            Some(t) => t,
        };
        proof {
            lemma_sqrt_floor_props(self.quad_disc(*ray));
            lemma_root_within_radius(*self, *ray, t.num as int);
        }
        let px = self.point_coord(ray.origin().x, self.center.x, dir.x, t.num, a_i);
        let py = self.point_coord(ray.origin().y, self.center.y, dir.y, t.num, a_i);
        let pz = self.point_coord(ray.origin().z, self.center.z, dir.z, t.num, a_i);
        let point = Vec3 { x: px, y: py, z: pz };
        let outward = self.outward_normal(point);
        let (u, v) = Sphere::get_sphere_uv(outward);
        let rec = HitRecord::new(ray, point, t, u, v, outward, self.material);
        Some(rec)
    }

    /// One coordinate of the position at the rational parameter `m / a`,
    /// rounded toward zero; it stays within the radius of the center.
    fn point_coord(&self, o: i64, c: i64, d: i64, m: i128, a: i128) -> (p: i64)
        requires
            self.wf(),
            0 < a <= RAT_BOUND,
            -RAT_BOUND <= m <= RAT_BOUND,
            -0x4000_0000_0000 <= o <= 0x4000_0000_0000,
            -0x4000_0000_0000 <= c <= 0x4000_0000_0000,
            -0x4000_0000_0000 <= d <= 0x4000_0000_0000,
            -(a * self.abs_radius()) <= (o - c) * a + m * d <= a * self.abs_radius(),
        ensures
            p == o + tdiv(m * d, a as int),
            c - self.abs_radius() <= p <= c + self.abs_radius(),
    {
        proof {
            assert(-0x1000_0000_0000_0000_0000_0000_0000_0000 <= m * d
                <= 0x1000_0000_0000_0000_0000_0000_0000_0000) by (nonlinear_arith)
                requires
                    -RAT_BOUND <= m <= RAT_BOUND,
                    -0x4000_0000_0000 <= d <= 0x4000_0000_0000,
                    RAT_BOUND == 0x4000_0000_0000_0000,
            ;
            assert((c as int - o as int - self.abs_radius()) * a <= m * d <= (c as int
                - o as int + self.abs_radius()) * a) by (nonlinear_arith)
                requires
                    -(a as int * self.abs_radius()) <= (o - c) * a + m * d <= a as int
                        * self.abs_radius(),
            ;
            lemma_tdiv_in_interval(
                m as int * d as int,
                a as int,
                c as int - o as int - self.abs_radius(),
                c as int - o as int + self.abs_radius(),
            );
        }
        let q: i128 = div_trunc(m * (d as i128), a);
        o + (q as i64)
    }

    /// The outward unit-scale normal at a point of the sphere's surface:
    /// the offset from the center divided by the radius. A negative radius
    /// flips it inward, as hollow shells rely on.
    fn outward_normal(&self, p: Point3) -> (n: Vec3)
        requires
            self.wf(),
            self.center.x - self.abs_radius() <= p.x <= self.center.x + self.abs_radius(),
            self.center.y - self.abs_radius() <= p.y <= self.center.y + self.abs_radius(),
            self.center.z - self.abs_radius() <= p.z <= self.center.z + self.abs_radius(),
        ensures
            bounded(n, SCALE as int),
            n.x == fx_div_spec(p.x - self.center.x, self.radius as int),
            n.y == fx_div_spec(p.y - self.center.y, self.radius as int),
            n.z == fx_div_spec(p.z - self.center.z, self.radius as int),
    {
        proof {
            lemma_normal_component(p.x as int - self.center.x as int, self.radius as int);
            lemma_normal_component(p.y as int - self.center.y as int, self.radius as int);
            lemma_normal_component(p.z as int - self.center.z as int, self.radius as int);
        }
        Vec3 {
            x: fx_div(p.x - self.center.x, self.radius),
            y: fx_div(p.y - self.center.y, self.radius),
            z: fx_div(p.z - self.center.z, self.radius),
        }
    }

    /// Spherical texture coordinates of a near-unit direction, each in
    /// `[0, 1]`: the azimuth fraction measured from the negative x axis,
    /// and the polar fraction from the south pole. Both use first-order
    /// approximations of the angles, exact at the poles and axes.
    pub fn get_sphere_uv(p: Vec3) -> (uv: (i64, i64))
        requires
            bounded(p, 2 * SCALE as int),
        ensures
            uv.0 as int == sphere_u_spec(p),
            uv.1 as int == sphere_v_spec(p),
            0 <= uv.0 <= SCALE,
            0 <= uv.1 <= SCALE,
    {
        let zn: i64 = -p.z;
        let ax: i64 = if p.x >= 0 {
            p.x
        } else {
            -p.x
        };
        let az: i64 = if zn >= 0 {
            zn
        } else {
            -zn
        };
        let u: i64 = if ax + az == 0 {
            SCALE / 2
        } else {
            let f: i64 = {
                proof {
                    lemma_octant_fraction(az as int, ax as int);
                }
                let q: i128 = div_trunc((az as i128) * (SCALE as i128), (ax + az) as i128);
                q as i64
            };
            let quarter: i64 = if p.x > 0 && zn >= 0 {
                f
            } else if p.x <= 0 && zn >= 0 {
                2 * SCALE - f
            } else if p.x <= 0 {
                2 * SCALE + f
            } else {
                4 * SCALE - f
            };
            let shifted: i64 = quarter / 4 + SCALE / 2;
            if shifted >= SCALE {
                shifted - SCALE
            } else {
                shifted
            }
        };
        let yc: i64 = if p.y > SCALE {
            SCALE
        } else if p.y < -SCALE {
            -SCALE
        } else {
            p.y
        };
        let v: i64 = (SCALE + yc) / 2;
        (u, v)
    }
}

/// A truncating quotient of a product lands in the integer interval whose
/// scaled endpoints bracket the product.
proof fn lemma_tdiv_in_interval(x: int, a: int, lo: int, hi: int)
    requires
        a >= 1,
        lo * a <= x <= hi * a,
    ensures
        lo <= tdiv(x, a) <= hi,
{
    assert(lo <= tdiv(x, a) <= hi) by (nonlinear_arith)
        requires
            a >= 1,
            lo * a <= x <= hi * a,
    ;
}

/// Dividing an offset no larger than the radius by the radius stays at
/// unit scale.
proof fn lemma_normal_component(x: int, rad: int)
    requires
        rad != 0,
        -(if rad >= 0 {
            rad
        } else {
            -rad
        }) <= x <= (if rad >= 0 {
            rad
        } else {
            -rad
        }),
    ensures
        -SCALE as int <= fx_div_spec(x, rad) <= SCALE as int,
{
    assert(-SCALE as int <= fx_div_spec(x, rad) <= SCALE as int) by (nonlinear_arith)
        requires
            rad != 0,
            -(if rad >= 0 {
                rad
            } else {
                -rad
            }) <= x <= (if rad >= 0 {
                rad
            } else {
                -rad
            }),
            SCALE == 65536,
    ;
}

/// The octant fraction `az / (ax + az)` scaled to `SCALE` lies in `[0, 1]`.
proof fn lemma_octant_fraction(az: int, ax: int)
    requires
        az >= 0,
        ax >= 0,
        ax + az >= 1,
    ensures
        0 <= tdiv(az * SCALE as int, ax + az) <= SCALE as int,
{
    assert(0 <= tdiv(az * SCALE as int, ax + az) <= SCALE as int) by (nonlinear_arith)
        requires
            az >= 0,
            ax >= 0,
            ax + az >= 1,
            SCALE == 65536,
    ;
}

/// Ranges of the quadratic's coefficients for well-formed inputs, tight
/// enough that the discriminant fits the root-selection bounds.
proof fn lemma_quad_ranges(s: Sphere, r: Ray, a: int, hb: int, cc: int)
    requires
        s.wf(),
        r.wf(),
        a == quad_a(r),
        hb == s.quad_half_b(r),
        cc == s.quad_c(r),
    ensures
        0 <= a <= RAT_BOUND,
        -0x2000_0000_0000_0000 <= hb <= 0x2000_0000_0000_0000,
        0 <= hb * hb <= 0x0200_0000_0000_0000_0000_0000_0000_0000,
        -0x0200_0000_0000_0000_0000_0000_0000_0000 <= a * cc
            <= 0x0200_0000_0000_0000_0000_0000_0000_0000,
        -0x0200_0000_0000_0000_0000_0000_0000_0000 <= hb * hb - a * cc
            < 0x0400_0000_0000_0000_0000_0000_0000_0000,
{
    let ocb: int = 805306368;
    assert(-ocb <= r.origin.x - s.center.x <= ocb && -ocb <= r.origin.y - s.center.y <= ocb && -ocb
        <= r.origin.z - s.center.z <= ocb);
    assert(0 <= a <= 0x0C00_0000_0000_0000) by (nonlinear_arith)
        requires
            a == r.direction.x * r.direction.x + r.direction.y * r.direction.y + r.direction.z
                * r.direction.z,
            -536870912 <= r.direction.x <= 536870912,
            -536870912 <= r.direction.y <= 536870912,
            -536870912 <= r.direction.z <= 536870912,
    ;
    assert(-0x1200_0000_0000_0000 <= hb <= 0x1200_0000_0000_0000) by (nonlinear_arith)
        requires
            hb == (r.origin.x - s.center.x) * r.direction.x + (r.origin.y - s.center.y)
                * r.direction.y + (r.origin.z - s.center.z) * r.direction.z,
            -805306368 <= r.origin.x - s.center.x <= 805306368,
            -805306368 <= r.origin.y - s.center.y <= 805306368,
            -805306368 <= r.origin.z - s.center.z <= 805306368,
            -536870912 <= r.direction.x <= 536870912,
            -536870912 <= r.direction.y <= 536870912,
            -536870912 <= r.direction.z <= 536870912,
    ;
    assert(-0x2000_0000_0000_0000 <= cc <= 0x2000_0000_0000_0000) by (nonlinear_arith)
        requires
            cc == (r.origin.x - s.center.x) * (r.origin.x - s.center.x) + (r.origin.y - s.center.y)
                * (r.origin.y - s.center.y) + (r.origin.z - s.center.z) * (r.origin.z - s.center.z)
                - s.radius as int * s.radius as int,
            -805306368 <= r.origin.x - s.center.x <= 805306368,
            -805306368 <= r.origin.y - s.center.y <= 805306368,
            -805306368 <= r.origin.z - s.center.z <= 805306368,
            -268435456 <= s.radius <= 268435456,
    ;
    assert(0 <= hb * hb <= 0x0144_0000_0000_0000_0000_0000_0000_0000
        && -0x0180_0000_0000_0000_0000_0000_0000_0000 <= a * cc
        <= 0x0180_0000_0000_0000_0000_0000_0000_0000) by (nonlinear_arith)
        requires
            -0x1200_0000_0000_0000 <= hb <= 0x1200_0000_0000_0000,
            0 <= a <= 0x0C00_0000_0000_0000,
            -0x2000_0000_0000_0000 <= cc <= 0x2000_0000_0000_0000,
    ;
}

} // verus!
