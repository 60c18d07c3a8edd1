//! The hit protocol: hit records, the closed set of hittable shapes, the
//! brute-force list scan and the bounding-volume hierarchy.
//!
//! One specification, `best_num`, gives the numerator of the closest
//! reported intersection of a shape tree (every reported parameter shares
//! the denominator `quad_a` of the ray). The list scan computes it
//! directly; the hierarchy computes it with box pruning and far-subtree
//! narrowing, and both executable tests are proved equal to `best_num`, so
//! the hierarchy provably agrees with the brute-force scan.

use crate::aabb::{box_contains, hit_spec, union_box, AABB};
use crate::fx::{RAY_BOUND, SCALE};
use crate::moving_sphere::{
    lemma_journey_box_covers, lemma_moving_hit_in_box, lemma_still_wf, MovingSphere,
};
use crate::rat::{frac_le, Rat};
use crate::ray::Ray;
use crate::sphere::{lemma_solution_narrow, lemma_sphere_hit_in_box, quad_a, Sphere};
use crate::vec3::{bounded, dot_spec, Point3, Vec3};
use vstd::prelude::*;

verus! {

/// The outcome of a successful intersection test. Materials are addressed
/// by index into the scene's material arena, so records stay plain data.
#[derive(Clone, Copy, Debug)]
pub struct HitRecord {
    pub point: Point3,
    pub normal: Vec3,
    pub material: usize,
    pub t: Rat,
    pub u: i64,
    pub v: i64,
    pub on_front_face: bool,
}

impl HitRecord {
    /// Geometric sanity of a record: the parameter is a well-formed
    /// rational, the hit point is within the ray bounds (so scattered rays
    /// starting there are well-formed), the normal is at unit scale, and
    /// the texture coordinates lie in `[0, 1]`.
    pub open spec fn wf(self) -> bool {
        self.t.wf() && bounded(self.point, RAY_BOUND as int) && bounded(self.normal, SCALE as int)
            && 0 <= self.u <= SCALE && 0 <= self.v <= SCALE
    }

    /// Assembles a record, orienting the normal against the incoming ray:
    /// the stored normal is the outward normal when the ray strikes the
    /// front face, and its opposite otherwise.
    pub fn new(
        ray: &Ray,
        point: Point3,
        t: Rat,
        u: i64,
        v: i64,
        outward_normal: Vec3,
        material: usize,
    ) -> (rec: HitRecord)
        requires
            ray.wf(),
            bounded(outward_normal, SCALE as int),
        ensures
            rec.on_front_face == (dot_spec(ray.direction, outward_normal) < 0),
            rec.on_front_face ==> rec.normal == outward_normal,
            !rec.on_front_face ==> rec.normal.x == -outward_normal.x && rec.normal.y
                == -outward_normal.y && rec.normal.z == -outward_normal.z,
            rec.point == point,
            rec.t == t,
            rec.u == u,
            rec.v == v,
            rec.material == material,
    {
        let d: i128 = ray.direction().dot(outward_normal);
        let on_front_face = d < 0;
        let normal = if on_front_face {
            outward_normal
        } else {
            outward_normal.neg()
        };
        HitRecord { point, normal, material, t, u, v, on_front_face }
    }
}

/// Any object an intersection test can be run against: the closed set of
/// shape variants, dispatched by matching.
pub enum HittableEnum {
    Sphere(Sphere),
    MovingSphere(MovingSphere),
    HittableList(HittableList),
    BvhNode(BvhNode),
}

/// An unordered collection of hittables, scanned linearly: the
/// brute-force reference the hierarchy is measured against.
pub struct HittableList {
    pub objects: Vec<HittableEnum>,
}

/// An inner node of the bounding-volume hierarchy: two children and a
/// cached box that covers everything below, for the time interval the
/// tree was built with.
pub struct BvhNode {
    pub left: Box<HittableEnum>,
    pub right: Box<HittableEnum>,
    pub bbox: AABB,
    pub time0: i64,
    pub time1: i64,
}

/// The closer of two optional hit parameters (numerators over a shared
/// positive denominator); the first argument wins ties.
pub open spec fn closer(a: Option<int>, b: Option<int>) -> Option<int> {
    match (a, b) {
        (Option::None, Option::None) => Option::None,
        (Option::Some(x), Option::None) => Option::Some(x),
        (Option::None, Option::Some(y)) => Option::Some(y),
        (Option::Some(x), Option::Some(y)) => if y < x {
            Option::Some(y)
        } else {
            Option::Some(x)
        },
    }
}

/// The numerator of the closest reported intersection within
/// `[t_min, t_max]`, or `None` when nothing is struck.
pub open spec fn best_num(h: HittableEnum, r: Ray, t_min: Rat, t_max: Rat) -> Option<int>
    decreases h, 1int,
{
    match h {
        HittableEnum::Sphere(s) => if s.hit_exists(r, t_min, t_max) {
            Option::Some(s.hit_num(r, t_min, t_max))
        } else {
            Option::None
        },
        HittableEnum::MovingSphere(m) => {
            let still = m.spec_still(r.time as int);
            if still.hit_exists(r, t_min, t_max) {
                Option::Some(still.hit_num(r, t_min, t_max))
            } else {
                Option::None
            }
        },
        HittableEnum::HittableList(l) => best_num_seq(l.objects@, r, t_min, t_max),
        HittableEnum::BvhNode(b) => closer(
            best_num(*b.left, r, t_min, t_max),
            best_num(*b.right, r, t_min, t_max),
        ),
    }
}

/// The closest reported intersection over a sequence of shapes.
pub open spec fn best_num_seq(s: Seq<HittableEnum>, r: Ray, t_min: Rat, t_max: Rat) -> Option<int>
    decreases s, 0int, s.len(),
{
    if s.len() == 0 {
        Option::None
    } else {
        closer(best_num(s[0], r, t_min, t_max), best_num_seq(s.drop_first(), r, t_min, t_max))
    }
}

/// Well-formedness of a shape tree: leaves are well-formed, and each
/// hierarchy node's cached box covers both subtrees for the node's own
/// time interval.
pub open spec fn wf_shape(h: HittableEnum) -> bool
    decreases h, 1int,
{
    match h {
        HittableEnum::Sphere(s) => s.wf(),
        HittableEnum::MovingSphere(m) => m.wf(),
        HittableEnum::HittableList(l) => wf_shape_seq(l.objects@),
        HittableEnum::BvhNode(b) => b.wf(),
    }
}

/// Well-formedness of every element of a sequence of shapes.
pub open spec fn wf_shape_seq(s: Seq<HittableEnum>) -> bool
    decreases s, 0int, s.len(),
{
    if s.len() == 0 {
        true
    } else {
        wf_shape(s[0]) && wf_shape_seq(s.drop_first())
    }
}

/// Every leaf of the tree lies within the box `bb`, moving spheres for
/// their whole journey over `[time0, time1]`.
pub open spec fn covered_by(h: HittableEnum, bb: AABB, time0: int, time1: int) -> bool
    decreases h, 1int,
{
    match h {
        HittableEnum::Sphere(s) => box_contains(bb, s.spec_box()),
        HittableEnum::MovingSphere(m) => box_contains(bb, m.spec_journey_box(time0, time1)),
        HittableEnum::HittableList(l) => covered_by_seq(l.objects@, bb, time0, time1),
        HittableEnum::BvhNode(b) => covered_by(*b.left, bb, time0, time1) && covered_by(
            *b.right,
            bb,
            time0,
            time1,
        ),
    }
}

/// Coverage of every element of a sequence of shapes.
pub open spec fn covered_by_seq(s: Seq<HittableEnum>, bb: AABB, time0: int, time1: int) -> bool
    decreases s, 0int, s.len(),
{
    if s.len() == 0 {
        true
    } else {
        covered_by(s[0], bb, time0, time1) && covered_by_seq(s.drop_first(), bb, time0, time1)
    }
}

/// The time stamp lies within the interval of every hierarchy node of the
/// tree, so each cached box covers the scene as the ray sees it.
pub open spec fn time_ok(h: HittableEnum, time: int) -> bool
    decreases h, 1int,
{
    match h {
        HittableEnum::Sphere(_) => true,
        HittableEnum::MovingSphere(_) => true,
        HittableEnum::HittableList(l) => time_ok_seq(l.objects@, time),
        HittableEnum::BvhNode(b) => b.times_ok(time),
    }
}

/// The time condition over a sequence of shapes.
pub open spec fn time_ok_seq(s: Seq<HittableEnum>, time: int) -> bool
    decreases s, 0int, s.len(),
{
    if s.len() == 0 {
        true
    } else {
        time_ok(s[0], time) && time_ok_seq(s.drop_first(), time)
    }
}

/// Over a shared positive denominator, fraction order is numerator order.
proof fn lemma_same_den(a: int, n1: int, n2: int)
    requires
        a > 0,
    ensures
        frac_le(n1, a, n2, a) <==> n1 <= n2,
        crate::rat::frac_lt(n1, a, n2, a) <==> n1 < n2,
{
    assert((n1 * a <= n2 * a <==> n1 <= n2) && (n1 * a < n2 * a <==> n1 < n2)) by (nonlinear_arith)
        requires
            a > 0,
    ;
}

impl HittableEnum {
    /// Dispatches the intersection test to the shape.
    pub fn hit(&self, ray: &Ray, t_min: Rat, t_max: Rat) -> (res: Option<HitRecord>)
        requires
            wf_shape(*self),
            time_ok(*self, ray.time as int),
            ray.wf(),
            t_min.wf(),
            t_max.wf(),
        ensures
            res is Some == best_num(*self, *ray, t_min, t_max) is Some,
            res matches Some(rec) ==> rec.t.den == quad_a(*ray) && best_num(
                *self,
                *ray,
                t_min,
                t_max,
            ) == Option::Some(rec.t.num as int) && rec.t.wf() && rec.wf() && t_min.spec_le(rec.t)
                && rec.t.spec_le(t_max),
        decreases *self, 1int,
    {
        match self {
            HittableEnum::Sphere(s) => s.hit(ray, t_min, t_max),
            HittableEnum::MovingSphere(m) => m.hit(ray, t_min, t_max),
            HittableEnum::HittableList(l) => l.hit(ray, t_min, t_max),
            HittableEnum::BvhNode(b) => b.hit(ray, t_min, t_max),
        }
    }

    /// The box that bounds the shape for queries over `[time0, time1]`:
    /// `None` only for an empty list. For a hierarchy node the cached box
    /// is returned; it covers the subtrees for the node's own interval, so
    /// the coverage claim holds when the node's interval contains the
    /// queried one.
    pub fn bounding_box(&self, time0: i64, time1: i64) -> (res: Option<AABB>)
        requires
            wf_shape(*self),
            time0 <= time1,
            -RAY_BOUND as int <= time0 <= RAY_BOUND as int,
            -RAY_BOUND as int <= time1 <= RAY_BOUND as int,
        ensures
            res matches Some(bb) ==> bb == shape_box(*self, time0 as int, time1 as int) && bb.wf()
                && (spans_times(*self, time0 as int, time1 as int) ==> covered_by(
                *self,
                bb,
                time0 as int,
                time1 as int,
            )),
            res is None == has_empty_list(*self),
        decreases *self, 1int,
    {
        match self {
            HittableEnum::Sphere(s) => {
                let b = s.bounding_box(time0, time1);
                proof {
                    lemma_box_contains_refl(s.spec_box());
                }
                b
            },
            HittableEnum::MovingSphere(m) => {
                let b = m.bounding_box(time0, time1);
                proof {
                    lemma_box_contains_refl(m.spec_journey_box(time0 as int, time1 as int));
                    lemma_still_wf(*m, time0 as int);
                    lemma_still_wf(*m, time1 as int);
                }
                b
            },
            HittableEnum::HittableList(l) => l.bounding_box(time0, time1),
            HittableEnum::BvhNode(b) => b.bounding_box(time0, time1),
        }
    }
}

/// The bounding box a shape reports for queries over `[time0, time1]`:
/// the sphere's cube, the moving sphere's journey box, a hierarchy node's
/// cached box, and for a list the left fold of its members' boxes (an
/// empty list has none; a degenerate box stands in at the specification
/// level).
pub open spec fn shape_box(h: HittableEnum, time0: int, time1: int) -> AABB
    decreases h, 1int,
{
    match h {
        HittableEnum::Sphere(s) => s.spec_box(),
        HittableEnum::MovingSphere(m) => m.spec_journey_box(time0, time1),
        HittableEnum::HittableList(l) => list_box(l.objects@, l.objects@.len() as int, time0, time1),
        HittableEnum::BvhNode(b) => b.bbox,
    }
}

/// The left fold of the first `k` members' boxes.
pub open spec fn list_box(s: Seq<HittableEnum>, k: int, time0: int, time1: int) -> AABB
    decreases s, 0int, k,
{
    if k <= 0 || k > s.len() {
        AABB {
            minimum: Point3 { x: 0, y: 0, z: 0 },
            maximum: Point3 { x: 0, y: 0, z: 0 },
        }
    } else if k == 1 {
        shape_box(s[0], time0, time1)
    } else {
        union_box(list_box(s, k - 1, time0, time1), shape_box(s[k - 1], time0, time1))
    }
}

/// The tree holds an empty list somewhere (which has no bounding box).
pub open spec fn has_empty_list(h: HittableEnum) -> bool
    decreases h, 1int,
{
    match h {
        HittableEnum::Sphere(_) => false,
        HittableEnum::MovingSphere(_) => false,
        HittableEnum::HittableList(l) => l.objects@.len() == 0 || has_empty_list_seq(l.objects@),
        HittableEnum::BvhNode(b) => false,
    }
}

/// An empty list somewhere under a sequence of shapes.
pub open spec fn has_empty_list_seq(s: Seq<HittableEnum>) -> bool
    decreases s, 0int, s.len(),
{
    if s.len() == 0 {
        false
    } else {
        has_empty_list(s[0]) || has_empty_list_seq(s.drop_first())
    }
}

/// Every hierarchy node's interval contains `[time0, time1]`.
pub open spec fn spans_times(h: HittableEnum, time0: int, time1: int) -> bool
    decreases h, 1int,
{
    match h {
        HittableEnum::Sphere(_) => true,
        HittableEnum::MovingSphere(_) => true,
        HittableEnum::HittableList(l) => spans_times_seq(l.objects@, time0, time1),
        HittableEnum::BvhNode(b) => b.time0 as int <= time0 && time1 <= b.time1 as int
            && spans_times(*b.left, time0, time1) && spans_times(*b.right, time0, time1),
    }
}

/// The interval condition over a sequence of shapes.
pub open spec fn spans_times_seq(s: Seq<HittableEnum>, time0: int, time1: int) -> bool
    decreases s, 0int, s.len(),
{
    if s.len() == 0 {
        true
    } else {
        spans_times(s[0], time0, time1) && spans_times_seq(s.drop_first(), time0, time1)
    }
}

/// Boxes contain themselves.
pub proof fn lemma_box_contains_refl(b: AABB)
    ensures
        box_contains(b, b),
{
}

/// Box containment is transitive.
pub proof fn lemma_box_contains_trans(outer: AABB, mid: AABB, inner: AABB)
    requires
        box_contains(outer, mid),
        box_contains(mid, inner),
    ensures
        box_contains(outer, inner),
{
    assert forall|i: int|
        0 <= i < 3 implies outer.minimum.spec_axis(i) <= inner.minimum.spec_axis(i)
        && inner.maximum.spec_axis(i) <= outer.maximum.spec_axis(i) by {
        assert(outer.minimum.spec_axis(i) <= mid.minimum.spec_axis(i));
        assert(mid.minimum.spec_axis(i) <= inner.minimum.spec_axis(i));
        assert(inner.maximum.spec_axis(i) <= mid.maximum.spec_axis(i));
        assert(mid.maximum.spec_axis(i) <= outer.maximum.spec_axis(i));
    }
}

/// Coverage survives enlarging the covering box.
pub proof fn lemma_covered_by_mono(h: HittableEnum, small: AABB, big: AABB, time0: int, time1: int)
    requires
        covered_by(h, small, time0, time1),
        box_contains(big, small),
    ensures
        covered_by(h, big, time0, time1),
    decreases h, 1int,
{
    match h {
        HittableEnum::Sphere(s) => {
            lemma_box_contains_trans(big, small, s.spec_box());
        },
        HittableEnum::MovingSphere(m) => {
            lemma_box_contains_trans(big, small, m.spec_journey_box(time0, time1));
        },
        HittableEnum::HittableList(l) => {
            lemma_covered_by_seq_mono(l.objects@, small, big, time0, time1);
        },
        HittableEnum::BvhNode(b) => {
            lemma_covered_by_mono(*b.left, small, big, time0, time1);
            lemma_covered_by_mono(*b.right, small, big, time0, time1);
        },
    }
}

/// Coverage of a sequence survives enlarging the covering box.
pub proof fn lemma_covered_by_seq_mono(
    s: Seq<HittableEnum>,
    small: AABB,
    big: AABB,
    time0: int,
    time1: int,
)
    requires
        covered_by_seq(s, small, time0, time1),
        box_contains(big, small),
    ensures
        covered_by_seq(s, big, time0, time1),
    decreases s, 0int, s.len(),
{
    if s.len() != 0 {
        lemma_covered_by_mono(s[0], small, big, time0, time1);
        lemma_covered_by_seq_mono(s.drop_first(), small, big, time0, time1);
    }
}

/// When the covering box misses a ray (by the closed test), nothing under
/// it is struck: the heart of the pruning argument.
pub proof fn lemma_missed_box_no_hit(
    h: HittableEnum,
    bb: AABB,
    r: Ray,
    t_min: Rat,
    t_max: Rat,
    time0: int,
    time1: int,
)
    requires
        wf_shape(h),
        covered_by(h, bb, time0, time1),
        time0 <= r.time as int <= time1,
        r.wf(),
        t_min.wf(),
        t_max.wf(),
        !hit_spec(bb, r, t_min, t_max, true),
    ensures
        best_num(h, r, t_min, t_max) is None,
    decreases h, 1int,
{
    match h {
        HittableEnum::Sphere(s) => {
            if s.hit_exists(r, t_min, t_max) {
                lemma_sphere_hit_in_box(s, r, t_min, t_max);
                crate::aabb::lemma_hit_monotone(bb, s.spec_box(), r, t_min, t_max);
            }
        },
        HittableEnum::MovingSphere(m) => {
            lemma_still_wf(m, r.time as int);
            if m.spec_still(r.time as int).hit_exists(r, t_min, t_max) {
                lemma_moving_hit_in_box(m, r, t_min, t_max, time0, time1);
                crate::aabb::lemma_hit_monotone(
                    bb,
                    m.spec_journey_box(time0, time1),
                    r,
                    t_min,
                    t_max,
                );
            }
        },
        HittableEnum::HittableList(l) => {
            lemma_missed_box_no_hit_seq(l.objects@, bb, r, t_min, t_max, time0, time1);
        },
        HittableEnum::BvhNode(b) => {
            lemma_missed_box_no_hit(*b.left, bb, r, t_min, t_max, time0, time1);
            lemma_missed_box_no_hit(*b.right, bb, r, t_min, t_max, time0, time1);
        },
    }
}

/// The sequence form of the pruning argument.
pub proof fn lemma_missed_box_no_hit_seq(
    s: Seq<HittableEnum>,
    bb: AABB,
    r: Ray,
    t_min: Rat,
    t_max: Rat,
    time0: int,
    time1: int,
)
    requires
        wf_shape_seq(s),
        covered_by_seq(s, bb, time0, time1),
        time0 <= r.time as int <= time1,
        r.wf(),
        t_min.wf(),
        t_max.wf(),
        !hit_spec(bb, r, t_min, t_max, true),
    ensures
        best_num_seq(s, r, t_min, t_max) is None,
    decreases s, 0int, s.len(),
{
    if s.len() != 0 {
        lemma_missed_box_no_hit(s[0], bb, r, t_min, t_max, time0, time1);
        lemma_missed_box_no_hit_seq(s.drop_first(), bb, r, t_min, t_max, time0, time1);
    }
}


/// A value below another that respects a bound respects it too (over a
/// shared positive denominator).
proof fn lemma_filter_mono(x: int, y: int, a: int, m: Rat)
    requires
        a > 0,
        m.den > 0,
        y <= x,
        frac_le(x, a, m.num as int, m.den as int),
    ensures
        frac_le(y, a, m.num as int, m.den as int),
{
    assert(y * m.den <= m.num * a) by (nonlinear_arith)
        requires
            x * m.den <= m.num * a,
            y <= x,
            m.den > 0,
    ;
}

/// Tightening the far end of the range to a value at or above the closest
/// reported hit leaves the closest hit unchanged; the result under the
/// tighter range is the result under the full range when that respects
/// the tighter end, and nothing otherwise.
pub proof fn lemma_best_narrow(h: HittableEnum, r: Ray, t_min: Rat, t_max: Rat, t_mid: Rat)
    requires
        r.wf(),
        t_min.wf(),
        t_max.wf(),
        t_mid.wf(),
        t_mid.spec_le(t_max),
    ensures
        best_num(h, r, t_min, t_mid) == (match best_num(h, r, t_min, t_max) {
            Option::Some(n) => if frac_le(n, quad_a(r), t_mid.num as int, t_mid.den as int) {
                Option::Some(n)
            } else {
                Option::None
            },
            Option::None => Option::None,
        }),
    decreases h, 1int,
{
    match h {
        HittableEnum::Sphere(s) => {
            if quad_a(r) > 0 {
                lemma_solution_narrow(
                    quad_a(r),
                    s.quad_half_b(r),
                    s.quad_disc(r),
                    t_min,
                    t_max,
                    t_mid,
                );
            }
        },
        HittableEnum::MovingSphere(m) => {
            let still = m.spec_still(r.time as int);
            if quad_a(r) > 0 {
                lemma_solution_narrow(
                    quad_a(r),
                    still.quad_half_b(r),
                    still.quad_disc(r),
                    t_min,
                    t_max,
                    t_mid,
                );
            }
        },
        HittableEnum::HittableList(l) => {
            lemma_best_narrow_seq(l.objects@, r, t_min, t_max, t_mid);
        },
        HittableEnum::BvhNode(b) => {
            lemma_best_narrow(*b.left, r, t_min, t_max, t_mid);
            lemma_best_narrow(*b.right, r, t_min, t_max, t_mid);
            lemma_best_in_range(*b.left, r, t_min, t_max);
            lemma_best_in_range(*b.right, r, t_min, t_max);
            let lf = best_num(*b.left, r, t_min, t_max);
            let rf = best_num(*b.right, r, t_min, t_max);
            if lf is Some && rf is Some {
                let x = lf.unwrap();
                let y = rf.unwrap();
                let a = quad_a(r);
                if y <= x && frac_le(x, a, t_mid.num as int, t_mid.den as int) {
                    lemma_filter_mono(x, y, a, t_mid);
                }
                if x <= y && frac_le(y, a, t_mid.num as int, t_mid.den as int) {
                    lemma_filter_mono(y, x, a, t_mid);
                }
            }
        },
    }
}

/// The sequence form of the narrowing argument.
pub proof fn lemma_best_narrow_seq(
    s: Seq<HittableEnum>,
    r: Ray,
    t_min: Rat,
    t_max: Rat,
    t_mid: Rat,
)
    requires
        r.wf(),
        t_min.wf(),
        t_max.wf(),
        t_mid.wf(),
        t_mid.spec_le(t_max),
    ensures
        best_num_seq(s, r, t_min, t_mid) == (match best_num_seq(s, r, t_min, t_max) {
            Option::Some(n) => if frac_le(n, quad_a(r), t_mid.num as int, t_mid.den as int) {
                Option::Some(n)
            } else {
                Option::None
            },
            Option::None => Option::None,
        }),
    decreases s, 0int, s.len(),
{
    if s.len() != 0 {
        lemma_best_narrow(s[0], r, t_min, t_max, t_mid);
        lemma_best_narrow_seq(s.drop_first(), r, t_min, t_max, t_mid);
        lemma_best_in_range(s[0], r, t_min, t_max);
        lemma_best_in_range_seq(s.drop_first(), r, t_min, t_max);
        let lf = best_num(s[0], r, t_min, t_max);
        let rf = best_num_seq(s.drop_first(), r, t_min, t_max);
        if lf is Some && rf is Some {
            let x = lf.unwrap();
            let y = rf.unwrap();
            let a = quad_a(r);
            if y <= x && frac_le(x, a, t_mid.num as int, t_mid.den as int) {
                lemma_filter_mono(x, y, a, t_mid);
            }
            if x <= y && frac_le(y, a, t_mid.num as int, t_mid.den as int) {
                lemma_filter_mono(y, x, a, t_mid);
            }
        }
    }
}

impl HittableList {
    /// Builds an empty list.
    pub fn new() -> (l: HittableList)
        ensures
            l.objects@.len() == 0,
    {
        HittableList { objects: Vec::new() }
    }

    /// Appends an object.
    pub fn add(&mut self, object: HittableEnum)
        ensures
            final(self).objects@ == old(self).objects@.push(object),
    {
        self.objects.push(object);
    }

    /// The linear scan: every object is tested over the full range and
    /// the strictly closest record is kept, earlier objects winning ties.
    pub fn hit(&self, ray: &Ray, t_min: Rat, t_max: Rat) -> (res: Option<HitRecord>)
        requires
            wf_shape_seq(self.objects@),
            time_ok_seq(self.objects@, ray.time as int),
            ray.wf(),
            t_min.wf(),
            t_max.wf(),
        ensures
            res is Some == best_num_seq(self.objects@, *ray, t_min, t_max) is Some,
            res matches Some(rec) ==> rec.t.den == quad_a(*ray) && best_num_seq(
                self.objects@,
                *ray,
                t_min,
                t_max,
            ) == Option::Some(rec.t.num as int) && rec.t.wf() && rec.wf() && t_min.spec_le(rec.t)
                && rec.t.spec_le(t_max),
        decreases *self, 0int,
    {
        let mut best: Option<HitRecord> = None;
        let n = self.objects.len();
        let mut i: usize = 0;
        while i < n
            invariant
                n == self.objects@.len(),
                i <= n,
                wf_shape_seq(self.objects@),
                time_ok_seq(self.objects@, ray.time as int),
                ray.wf(),
                t_min.wf(),
                t_max.wf(),
                best is Some == best_num_seq(self.objects@.take(i as int), *ray, t_min, t_max)
                    is Some,
                best matches Some(rec) ==> rec.t.den == quad_a(*ray) && best_num_seq(
                    self.objects@.take(i as int),
                    *ray,
                    t_min,
                    t_max,
                ) == Option::Some(rec.t.num as int) && rec.t.wf() && rec.wf() && t_min.spec_le(
                    rec.t,
                ) && rec.t.spec_le(t_max),
            decreases n - i,
        {
            proof {
                lemma_wf_seq_index(self.objects@, i as int);
                lemma_time_ok_seq_index(self.objects@, i as int, ray.time as int);
            }
            let candidate = self.objects[i].hit(ray, t_min, t_max);
            let next = match (best, candidate) {
                (None, c) => c,
                (Some(b), None) => Some(b),
                (Some(b), Some(c)) => {
                    proof {
                        if quad_a(*ray) > 0 {
                            lemma_same_den(quad_a(*ray), c.t.num as int, b.t.num as int);
                        }
                        crate::rat::lemma_rat_order(c.t, b.t);
                    }
                    if c.t.lt(b.t) {
                        Some(c)
                    } else {
                        Some(b)
                    }
                },
            };
            proof {
                lemma_best_num_seq_snoc(self.objects@, i as int, *ray, t_min, t_max);
            }
            best = next;
            i = i + 1;
        }
        proof {
            assert(self.objects@.take(n as int) =~= self.objects@);
        }
        best
    }

    /// The union of the objects' boxes, or `None` for an empty list or
    /// when any nested list is empty.
    pub fn bounding_box(&self, time0: i64, time1: i64) -> (res: Option<AABB>)
        requires
            wf_shape_seq(self.objects@),
            time0 <= time1,
            -RAY_BOUND as int <= time0 <= RAY_BOUND as int,
            -RAY_BOUND as int <= time1 <= RAY_BOUND as int,
        ensures
            res matches Some(bb) ==> bb == list_box(
                self.objects@,
                self.objects@.len() as int,
                time0 as int,
                time1 as int,
            ) && bb.wf() && (spans_times_seq(self.objects@, time0 as int, time1 as int)
                ==> covered_by_seq(self.objects@, bb, time0 as int, time1 as int)),
            res is None == (self.objects@.len() == 0 || has_empty_list_seq(self.objects@)),
        decreases *self, 0int,
    {
        let n = self.objects.len();
        if n == 0 {
            return None;
        }
        proof {
            lemma_wf_seq_index(self.objects@, 0);
        }
        let first = self.objects[0].bounding_box(time0, time1);
        let mut acc: AABB = match first {
            None => {
                proof {
                    lemma_has_empty_list_seq_index(self.objects@, 0);
                }
                return None;
            },
            Some(bb) => bb,
        };
        proof {
            assert(!has_empty_list(self.objects@[0]));
            assert(self.objects@.take(1)[0] == self.objects@[0]);
            assert(self.objects@.take(1).drop_first() =~= self.objects@.take(0));
            assert(self.objects@.take(0).len() == 0);
            assert(!has_empty_list_seq(self.objects@.take(0)));
            assert(!has_empty_list_seq(self.objects@.take(1)));
        }
        let mut i: usize = 1;
        while i < n
            invariant
                n == self.objects@.len(),
                1 <= i <= n,
                wf_shape_seq(self.objects@),
                time0 <= time1,
                -RAY_BOUND as int <= time0 <= RAY_BOUND as int,
                -RAY_BOUND as int <= time1 <= RAY_BOUND as int,
                acc.wf(),
                acc == list_box(self.objects@, i as int, time0 as int, time1 as int),
                spans_times_seq(self.objects@, time0 as int, time1 as int) ==> forall|j: int|
                    0 <= j < i ==> covered_by(#[trigger] self.objects@[j], acc, time0 as int, time1 as int),
                !has_empty_list_seq(self.objects@.take(i as int)),
            decreases n - i,
        {
            proof {
                lemma_wf_seq_index(self.objects@, i as int);
            }
            let next = self.objects[i].bounding_box(time0, time1);
            match next {
                None => {
                    proof {
                        lemma_has_empty_list_seq_index(self.objects@, i as int);
                    }
                    return None;
                },
                Some(bb) => {
                    let grown = AABB::surrounding_box(acc, bb);
                    proof {
                        if spans_times_seq(self.objects@, time0 as int, time1 as int) {
                            lemma_spans_times_seq_index(
                                self.objects@,
                                i as int,
                                time0 as int,
                                time1 as int,
                            );
                            lemma_covered_by_mono(
                                self.objects@[i as int],
                                bb,
                                grown,
                                time0 as int,
                                time1 as int,
                            );
                            assert forall|j: int| 0 <= j < i + 1 implies covered_by(
                                #[trigger] self.objects@[j],
                                grown,
                                time0 as int,
                                time1 as int,
                            ) by {
                                if j < i {
                                    lemma_covered_by_mono(
                                        self.objects@[j],
                                        acc,
                                        grown,
                                        time0 as int,
                                        time1 as int,
                                    );
                                }
                            }
                        }
                        lemma_take_snoc_empty(self.objects@, i as int);
                    }
                    acc = grown;
                },
            }
            i = i + 1;
        }
        proof {
            if spans_times_seq(self.objects@, time0 as int, time1 as int) {
                lemma_covered_by_seq_from_all(
                    self.objects@,
                    acc,
                    time0 as int,
                    time1 as int,
                );
            }
            assert(self.objects@.take(n as int) =~= self.objects@);
        }
        Some(acc)
    }
}

/// Indexing facts for the element-wise recursive predicates: each element
/// of a well-formed sequence is well-formed, with the analogous facts for
/// the time predicates and for empty-list detection.
pub proof fn lemma_wf_seq_index(s: Seq<HittableEnum>, i: int)
    requires
        wf_shape_seq(s),
        0 <= i < s.len(),
    ensures
        wf_shape(s[i]),
    decreases s.len(),
{
    if i > 0 {
        lemma_wf_seq_index(s.drop_first(), i - 1);
    }
}

/// The time condition passes to each element.
pub proof fn lemma_time_ok_seq_index(s: Seq<HittableEnum>, i: int, time: int)
    requires
        time_ok_seq(s, time),
        0 <= i < s.len(),
    ensures
        time_ok(s[i], time),
    decreases s.len(),
{
    if i > 0 {
        lemma_time_ok_seq_index(s.drop_first(), i - 1, time);
    }
}

/// The interval condition passes to each element.
pub proof fn lemma_spans_times_seq_index(s: Seq<HittableEnum>, i: int, time0: int, time1: int)
    requires
        spans_times_seq(s, time0, time1),
        0 <= i < s.len(),
    ensures
        spans_times(s[i], time0, time1),
    decreases s.len(),
{
    if i > 0 {
        lemma_spans_times_seq_index(s.drop_first(), i - 1, time0, time1);
    }
}

/// An element holding an empty list makes the sequence hold one.
pub proof fn lemma_has_empty_list_seq_index(s: Seq<HittableEnum>, i: int)
    requires
        0 <= i < s.len(),
        has_empty_list(s[i]),
    ensures
        has_empty_list_seq(s),
    decreases s.len(),
{
    if i > 0 {
        lemma_has_empty_list_seq_index(s.drop_first(), i - 1);
    }
}

/// Extending a clean prefix by a clean element keeps it clean.
pub proof fn lemma_take_snoc_empty(s: Seq<HittableEnum>, i: int)
    requires
        0 <= i < s.len(),
        !has_empty_list_seq(s.take(i)),
        !has_empty_list(s[i]),
    ensures
        !has_empty_list_seq(s.take(i + 1)),
    decreases i,
{
    if i == 0 {
        assert(s.take(1)[0] == s[0]);
        assert(s.take(1).drop_first() =~= s.take(0));
    } else {
        assert(s.take(i + 1)[0] == s.take(i)[0]);
        assert(s.take(i + 1).drop_first() =~= s.drop_first().take(i));
        assert(s.take(i).drop_first() =~= s.drop_first().take(i - 1));
        assert(s.drop_first()[i - 1] == s[i]);
        lemma_take_snoc_empty(s.drop_first(), i - 1);
    }
}

/// Element-wise coverage gives the recursive sequence coverage.
pub proof fn lemma_covered_by_seq_from_all(s: Seq<HittableEnum>, bb: AABB, time0: int, time1: int)
    requires
        forall|j: int| 0 <= j < s.len() ==> covered_by(#[trigger] s[j], bb, time0, time1),
    ensures
        covered_by_seq(s, bb, time0, time1),
    decreases s.len(),
{
    if s.len() != 0 {
        assert forall|j: int| 0 <= j < s.drop_first().len() implies covered_by(
            #[trigger] s.drop_first()[j],
            bb,
            time0,
            time1,
        ) by {
            assert(s.drop_first()[j] == s[j + 1]);
        }
        lemma_covered_by_seq_from_all(s.drop_first(), bb, time0, time1);
    }
}

/// Scanning one more element combines the prefix's best with the
/// element's report.
proof fn lemma_best_num_seq_snoc(s: Seq<HittableEnum>, i: int, r: Ray, t_min: Rat, t_max: Rat)
    requires
        0 <= i < s.len(),
    ensures
        best_num_seq(s.take(i + 1), r, t_min, t_max) == closer(
            best_num_seq(s.take(i), r, t_min, t_max),
            best_num(s[i], r, t_min, t_max),
        ),
    decreases i,
{
    if i == 0 {
        assert(s.take(1)[0] == s[0]);
        assert(s.take(1).drop_first() =~= s.take(0));
    } else {
        assert(s.take(i + 1)[0] == s[0]);
        assert(s.take(i)[0] == s[0]);
        assert(s.take(i + 1).drop_first() =~= s.drop_first().take(i));
        assert(s.take(i).drop_first() =~= s.drop_first().take(i - 1));
        assert(s.drop_first()[i - 1] == s[i]);
        lemma_best_num_seq_snoc(s.drop_first(), i - 1, r, t_min, t_max);
        lemma_closer_assoc(
            best_num(s[0], r, t_min, t_max),
            best_num_seq(s.drop_first().take(i - 1), r, t_min, t_max),
            best_num(s[i], r, t_min, t_max),
        );
    }
}

/// Combining reports is associative.
pub proof fn lemma_closer_assoc(a: Option<int>, b: Option<int>, c: Option<int>)
    ensures
        closer(closer(a, b), c) == closer(a, closer(b, c)),
{
}

impl BvhNode {
    /// The node's cached box covers both subtrees, which are themselves
    /// well-formed, for the node's own time interval.
    pub open spec fn wf(self) -> bool
        decreases self, 0int,
    {
        wf_shape(*self.left) && wf_shape(*self.right) && self.bbox.wf() && covered_by(
            *self.left,
            self.bbox,
            self.time0 as int,
            self.time1 as int,
        ) && covered_by(*self.right, self.bbox, self.time0 as int, self.time1 as int)
    }

    /// The time stamp lies within this node's interval and every nested
    /// node's.
    pub open spec fn times_ok(self, time: int) -> bool
        decreases self, 0int,
    {
        self.time0 as int <= time <= self.time1 as int && time_ok(*self.left, time) && time_ok(
            *self.right,
            time,
        )
    }

    /// The hierarchy traversal: reject when the cached box misses the ray
    /// (by the closed test, so no covered intersection can be lost); then
    /// test the near subtree, tighten the range to its hit, and let the
    /// far subtree answer only when it strikes something at least as
    /// close.
    pub fn hit(&self, ray: &Ray, t_min: Rat, t_max: Rat) -> (res: Option<HitRecord>)
        requires
            self.wf(),
            self.times_ok(ray.time as int),
            ray.wf(),
            t_min.wf(),
            t_max.wf(),
        ensures
            !hit_spec(self.bbox, *ray, t_min, t_max, true) ==> res is None,
            res is Some == closer(
                best_num(*self.left, *ray, t_min, t_max),
                best_num(*self.right, *ray, t_min, t_max),
            ) is Some,
            res matches Some(rec) ==> rec.t.den == quad_a(*ray) && closer(
                best_num(*self.left, *ray, t_min, t_max),
                best_num(*self.right, *ray, t_min, t_max),
            ) == Option::Some(rec.t.num as int) && rec.t.wf() && rec.wf() && t_min.spec_le(rec.t)
                && rec.t.spec_le(t_max),
        decreases *self, 0int,
    {
        let ghost bl = best_num(*self.left, *ray, t_min, t_max);
        let ghost br = best_num(*self.right, *ray, t_min, t_max);
        if !self.bbox.hit_closed(ray, t_min, t_max) {
            proof {
                lemma_missed_box_no_hit(
                    *self.left,
                    self.bbox,
                    *ray,
                    t_min,
                    t_max,
                    self.time0 as int,
                    self.time1 as int,
                );
                lemma_missed_box_no_hit(
                    *self.right,
                    self.bbox,
                    *ray,
                    t_min,
                    t_max,
                    self.time0 as int,
                    self.time1 as int,
                );
            }
            return None;
        }
        let hit_left = self.left.hit(ray, t_min, t_max);
        let new_t_max = match &hit_left {
            Some(rec) => rec.t,
            None => t_max,
        };
        proof {
            crate::rat::lemma_rat_le_refl(t_max);
            lemma_best_in_range(*self.right, *ray, t_min, t_max);
            lemma_best_narrow(*self.right, *ray, t_min, t_max, new_t_max);
            if hit_left is Some {
                let nl = hit_left.unwrap().t.num as int;
                if br is Some {
                    lemma_same_den(quad_a(*ray), br.unwrap(), nl);
                }
            }
        }
        let hit_right = self.right.hit(ray, t_min, new_t_max);
        proof {
            if hit_right is Some {
                crate::rat::lemma_rat_le_trans(hit_right.unwrap().t, new_t_max, t_max);
            }
        }
        match hit_right {
            Some(r2) => Some(r2),
            None => hit_left,
        }
    }

    /// The cached box.
    pub fn bounding_box(&self, time0: i64, time1: i64) -> (res: Option<AABB>)
        requires
            self.wf(),
            time0 <= time1,
        ensures
            res == Some(self.bbox),
            res matches Some(bb) ==> bb.wf() && (spans_times(
                HittableEnum::BvhNode(*self),
                time0 as int,
                time1 as int,
            ) ==> covered_by(
                HittableEnum::BvhNode(*self),
                bb,
                time0 as int,
                time1 as int,
            )),
            res is None == false,
        decreases *self, 0int,
    {
        proof {
            if spans_times(HittableEnum::BvhNode(*self), time0 as int, time1 as int) {
                lemma_covered_shrink_times(
                    *self.left,
                    self.bbox,
                    self.time0 as int,
                    self.time1 as int,
                    time0 as int,
                    time1 as int,
                );
                lemma_covered_shrink_times(
                    *self.right,
                    self.bbox,
                    self.time0 as int,
                    self.time1 as int,
                    time0 as int,
                    time1 as int,
                );
            }
        }
        Some(self.bbox)
    }
}

/// Every report of a tree lies within the queried range, and a report
/// means the ray's quadratic is nondegenerate.
pub proof fn lemma_best_in_range(h: HittableEnum, r: Ray, t_min: Rat, t_max: Rat)
    ensures
        best_num(h, r, t_min, t_max) matches Some(n) ==> quad_a(r) > 0 && frac_le(
            t_min.num as int,
            t_min.den as int,
            n,
            quad_a(r),
        ) && frac_le(n, quad_a(r), t_max.num as int, t_max.den as int),
    decreases h, 1int,
{
    match h {
        HittableEnum::Sphere(s) => {
        },
        HittableEnum::MovingSphere(m) => {
        },
        HittableEnum::HittableList(l) => {
            lemma_best_in_range_seq(l.objects@, r, t_min, t_max);
        },
        HittableEnum::BvhNode(b) => {
            lemma_best_in_range(*b.left, r, t_min, t_max);
            lemma_best_in_range(*b.right, r, t_min, t_max);
        },
    }
}

/// The sequence form of the range fact.
pub proof fn lemma_best_in_range_seq(s: Seq<HittableEnum>, r: Ray, t_min: Rat, t_max: Rat)
    ensures
        best_num_seq(s, r, t_min, t_max) matches Some(n) ==> quad_a(r) > 0 && frac_le(
            t_min.num as int,
            t_min.den as int,
            n,
            quad_a(r),
        ) && frac_le(n, quad_a(r), t_max.num as int, t_max.den as int),
    decreases s, 0int, s.len(),
{
    if s.len() != 0 {
        lemma_best_in_range(s[0], r, t_min, t_max);
        lemma_best_in_range_seq(s.drop_first(), r, t_min, t_max);
    }
}

/// Coverage for a wide time interval covers any contained interval: a
/// moving sphere's journey over fewer times stays inside the wider
/// journey box.
pub proof fn lemma_covered_shrink_times(
    h: HittableEnum,
    bb: AABB,
    wide0: int,
    wide1: int,
    narrow0: int,
    narrow1: int,
)
    requires
        wf_shape(h),
        covered_by(h, bb, wide0, wide1),
        wide0 <= narrow0 <= narrow1 <= wide1,
    ensures
        covered_by(h, bb, narrow0, narrow1),
    decreases h, 1int,
{
    match h {
        HittableEnum::Sphere(_) => {
        },
        HittableEnum::MovingSphere(m) => {
            lemma_journey_within(m, wide0, wide1, narrow0, narrow1);
            lemma_box_contains_trans(
                bb,
                m.spec_journey_box(wide0, wide1),
                m.spec_journey_box(narrow0, narrow1),
            );
        },
        HittableEnum::HittableList(l) => {
            lemma_covered_shrink_times_seq(l.objects@, bb, wide0, wide1, narrow0, narrow1);
        },
        HittableEnum::BvhNode(b) => {
            lemma_covered_shrink_times(*b.left, bb, wide0, wide1, narrow0, narrow1);
            lemma_covered_shrink_times(*b.right, bb, wide0, wide1, narrow0, narrow1);
        },
    }
}

/// The sequence form of interval shrinking.
pub proof fn lemma_covered_shrink_times_seq(
    s: Seq<HittableEnum>,
    bb: AABB,
    wide0: int,
    wide1: int,
    narrow0: int,
    narrow1: int,
)
    requires
        wf_shape_seq(s),
        covered_by_seq(s, bb, wide0, wide1),
        wide0 <= narrow0 <= narrow1 <= wide1,
    ensures
        covered_by_seq(s, bb, narrow0, narrow1),
    decreases s, 0int, s.len(),
{
    if s.len() != 0 {
        lemma_covered_shrink_times(s[0], bb, wide0, wide1, narrow0, narrow1);
        lemma_covered_shrink_times_seq(s.drop_first(), bb, wide0, wide1, narrow0, narrow1);
    }
}

/// A journey over a contained interval stays within the wider journey
/// box.
proof fn lemma_journey_within(
    m: MovingSphere,
    wide0: int,
    wide1: int,
    narrow0: int,
    narrow1: int,
)
    requires
        m.wf(),
        wide0 <= narrow0 <= narrow1 <= wide1,
    ensures
        box_contains(m.spec_journey_box(wide0, wide1), m.spec_journey_box(narrow0, narrow1)),
{
    lemma_journey_box_covers(m, wide0, narrow0, wide1);
    lemma_journey_box_covers(m, wide0, narrow1, wide1);
    lemma_still_wf(m, narrow0);
    lemma_still_wf(m, narrow1);
    lemma_still_wf(m, wide0);
    lemma_still_wf(m, wide1);
}

} // verus!
