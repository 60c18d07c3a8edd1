//! Spheres whose center travels between two keyframes.
//!
//! The center is interpolated linearly over the sphere's own time
//! interval, with the interpolation parameter clamped to that interval:
//! outside it the sphere rests at the nearer keyframe. The intersection
//! test is the stationary sphere's, run at the interpolated center, so its
//! exactness and its bounding-box cover carry over.

use crate::aabb::{box_contains, hit_spec, AABB};
use crate::fx::{div_trunc, tdiv, INPUT_BOUND};
use crate::hittable::HitRecord;
use crate::rat::Rat;
use crate::ray::Ray;
use crate::sphere::{lemma_sphere_hit_in_box, Sphere};
use crate::vec3::{bounded, Point3, Vec3};
use vstd::prelude::*;

verus! {

/// A sphere moving from `center0` (at `time0`) to `center1` (at `time1`).
#[derive(Clone, Copy, Debug)]
pub struct MovingSphere {
    pub center0: Point3,
    pub center1: Point3,
    pub time0: i64,
    pub time1: i64,
    pub radius: i64,
    pub material: usize,
}

impl MovingSphere {
    /// Keyframes within the scene input bounds, a nonzero radius, and a
    /// nonempty time interval.
    pub open spec fn wf(self) -> bool {
        bounded(self.center0, INPUT_BOUND as int) && bounded(self.center1, INPUT_BOUND as int) && 1
            <= self.spec_still(0).abs_radius() <= INPUT_BOUND as int && -INPUT_BOUND as int
            <= self.time0 < self.time1 <= INPUT_BOUND as int
    }

    /// Builds a moving sphere over a material index.
    pub fn new(
        center0: Point3,
        center1: Point3,
        time0: i64,
        time1: i64,
        radius: i64,
        material: usize,
    ) -> (s: MovingSphere)
        ensures
            s == (MovingSphere { center0, center1, time0, time1, radius, material }),
    {
        MovingSphere { center0, center1, time0, time1, radius, material }
    }

    /// The clamped interpolation time.
    pub open spec fn spec_clamped_time(self, time: int) -> int {
        if time <= self.time0 {
            self.time0 as int
        } else if time >= self.time1 {
            self.time1 as int
        } else {
            time
        }
    }

    /// One coordinate of the center at a time: keyframe plus the scaled,
    /// truncated share of the travel.
    pub open spec fn spec_center_axis(self, time: int, i: int) -> int {
        self.center0.spec_axis(i) + tdiv(
            (self.spec_clamped_time(time) - self.time0) * (self.center1.spec_axis(i)
                - self.center0.spec_axis(i)),
            self.time1 - self.time0,
        )
    }

    /// The stationary sphere standing at the center reached at `time`.
    pub open spec fn spec_still(self, time: int) -> Sphere {
        Sphere {
            center: Vec3 {
                x: self.spec_center_axis(time, 0) as i64,
                y: self.spec_center_axis(time, 1) as i64,
                z: self.spec_center_axis(time, 2) as i64,
            },
            radius: self.radius,
            material: self.material,
        }
    }

    /// The center at the given time.
    pub fn center(&self, time: i64) -> (c: Point3)
        requires
            self.wf(),
        ensures
            c.x == self.spec_center_axis(time as int, 0),
            c.y == self.spec_center_axis(time as int, 1),
            c.z == self.spec_center_axis(time as int, 2),
            bounded(c, INPUT_BOUND as int),
    {
        let te: i64 = if time <= self.time0 {
            self.time0
        } else if time >= self.time1 {
            self.time1
        } else {
            time
        };
        let span: i64 = self.time1 - self.time0;
        let cx = Self::center_coord(self.center0.x, self.center1.x, te - self.time0, span);
        let cy = Self::center_coord(self.center0.y, self.center1.y, te - self.time0, span);
        let cz = Self::center_coord(self.center0.z, self.center1.z, te - self.time0, span);
        Vec3 { x: cx, y: cy, z: cz }
    }

    /// One interpolated coordinate; it stays between the two keyframe
    /// coordinates.
    fn center_coord(c0: i64, c1: i64, dt: i64, span: i64) -> (c: i64)
        requires
            -INPUT_BOUND as int <= c0 <= INPUT_BOUND as int,
            -INPUT_BOUND as int <= c1 <= INPUT_BOUND as int,
            0 < span <= 2 * INPUT_BOUND as int,
            0 <= dt <= span,
        ensures
            c == c0 + tdiv(dt * (c1 - c0), span as int),
            c0 <= c1 ==> c0 <= c <= c1,
            c1 <= c0 ==> c1 <= c <= c0,
    {
        proof {
            lemma_interp_between(c0 as int, c1 as int, dt as int, span as int);
            assert(-0x0800_0000_0000_0000 <= dt as int * (c1 - c0)
                <= 0x0800_0000_0000_0000) by (nonlinear_arith)
                requires
                    0 <= dt as int <= 0x2000_0000,
                    -0x4000_0000 <= c1 - c0 <= 0x4000_0000,
            ;
        }
        let q: i128 = div_trunc((dt as i128) * ((c1 - c0) as i128), span as i128);
        c0 + (q as i64)
    }

    /// The intersection test at the ray's time.
    pub fn hit(&self, ray: &Ray, t_min: Rat, t_max: Rat) -> (res: Option<HitRecord>)
        requires
            self.wf(),
            ray.wf(),
            t_min.wf(),
            t_max.wf(),
        ensures
            res is Some == self.spec_still(ray.time as int).hit_exists(*ray, t_min, t_max),
            res matches Some(rec) ==> {
                let still = self.spec_still(ray.time as int);
                rec.t.den == crate::sphere::quad_a(*ray) && rec.t.num == still.hit_num(
                    *ray,
                    t_min,
                    t_max,
                ) && rec.t.wf() && rec.material == self.material && rec.wf() && t_min.spec_le(
                    rec.t,
                ) && rec.t.spec_le(t_max)
            },
    {
        let c = self.center(ray.time());
        let still = Sphere { center: c, radius: self.radius, material: self.material };
        still.hit(ray, t_min, t_max)
    }

    /// The box of the whole journey between the two query times: the union
    /// of the boxes at both ends. It covers the sphere wherever a ray
    /// within those times can meet it.
    pub fn bounding_box(&self, time0: i64, time1: i64) -> (b: Option<AABB>)
        requires
            self.wf(),
        ensures
            b matches Some(bb) && bb == self.spec_journey_box(time0 as int, time1 as int),
    {
        let s0 = Sphere { center: self.center(time0), radius: self.radius, material: self.material };
        let s1 = Sphere { center: self.center(time1), radius: self.radius, material: self.material };
        let b0 = s0.bounding_box(time0, time1);
        let b1 = s1.bounding_box(time0, time1);
        match (b0, b1) {
            (Some(b0), Some(b1)) => Some(AABB::surrounding_box(b0, b1)),
            _ => None,
        }
    }

    /// The journey box as a specification value.
    pub open spec fn spec_journey_box(self, time0: int, time1: int) -> AABB {
        let b0 = self.spec_still(time0).spec_box();
        let b1 = self.spec_still(time1).spec_box();
        AABB {
            minimum: Vec3 {
                x: if b0.minimum.x <= b1.minimum.x {
                    b0.minimum.x
                } else {
                    b1.minimum.x
                },
                y: if b0.minimum.y <= b1.minimum.y {
                    b0.minimum.y
                } else {
                    b1.minimum.y
                },
                z: if b0.minimum.z <= b1.minimum.z {
                    b0.minimum.z
                } else {
                    b1.minimum.z
                },
            },
            maximum: Vec3 {
                x: if b0.maximum.x >= b1.maximum.x {
                    b0.maximum.x
                } else {
                    b1.maximum.x
                },
                y: if b0.maximum.y >= b1.maximum.y {
                    b0.maximum.y
                } else {
                    b1.maximum.y
                },
                z: if b0.maximum.z >= b1.maximum.z {
                    b0.maximum.z
                } else {
                    b1.maximum.z
                },
            },
        }
    }
}

/// The truncated interpolation lands between its endpoints.
proof fn lemma_interp_between(c0: int, c1: int, dt: int, span: int)
    requires
        0 < span,
        0 <= dt <= span,
    ensures
        c1 >= c0 ==> 0 <= tdiv(dt * (c1 - c0), span) <= c1 - c0,
        c1 < c0 ==> c1 - c0 <= tdiv(dt * (c1 - c0), span) <= 0,
{
    assert((c1 >= c0 ==> 0 <= tdiv(dt * (c1 - c0), span) <= c1 - c0) && (c1 < c0 ==> c1 - c0
        <= tdiv(dt * (c1 - c0), span) <= 0)) by (nonlinear_arith)
        requires
            0 < span,
            0 <= dt <= span,
    ;
}

/// The center at any time between two query times stays between the
/// centers at those times, so the journey box covers the sphere's box at
/// every intermediate time.
pub proof fn lemma_journey_box_covers(s: MovingSphere, time0: int, time: int, time1: int)
    requires
        s.wf(),
        time0 <= time <= time1,
    ensures
        box_contains(s.spec_journey_box(time0, time1), s.spec_still(time).spec_box()),
{
    let jb = s.spec_journey_box(time0, time1);
    let sb = s.spec_still(time).spec_box();
    assert forall|i: int|
        0 <= i < 3 implies jb.minimum.spec_axis(i) <= sb.minimum.spec_axis(i)
        && sb.maximum.spec_axis(i) <= jb.maximum.spec_axis(i) by {
        lemma_center_monotone(s, time0, time, i);
        lemma_center_monotone(s, time, time1, i);
        lemma_still_wf(s, time0);
        lemma_still_wf(s, time);
        lemma_still_wf(s, time1);
    }
}

/// Interpolation is monotone in time, in the direction of the travel.
proof fn lemma_center_monotone(s: MovingSphere, ta: int, tb: int, i: int)
    requires
        s.wf(),
        ta <= tb,
    ensures
        s.center1.spec_axis(i) >= s.center0.spec_axis(i) ==> s.spec_center_axis(ta, i)
            <= s.spec_center_axis(tb, i),
        s.center1.spec_axis(i) <= s.center0.spec_axis(i) ==> s.spec_center_axis(tb, i)
            <= s.spec_center_axis(ta, i),
{
    let span = s.time1 - s.time0;
    let da = s.spec_clamped_time(ta) - s.time0;
    let db = s.spec_clamped_time(tb) - s.time0;
    let delta = s.center1.spec_axis(i) - s.center0.spec_axis(i);
    assert(0 <= da <= db <= span);
    assert((delta >= 0 ==> tdiv(da * delta, span as int) <= tdiv(db * delta, span as int)) && (
    delta <= 0 ==> tdiv(db * delta, span as int) <= tdiv(da * delta, span as int)))
        by (nonlinear_arith)
        requires
            0 < span,
            0 <= da <= db <= span,
    ;
}

/// The journey box of a well-formed moving sphere, like every sphere's
/// box, reports a closed hit whenever the sphere itself does at a time
/// between the query times.
pub proof fn lemma_moving_hit_in_box(
    s: MovingSphere,
    r: Ray,
    t_min: Rat,
    t_max: Rat,
    time0: int,
    time1: int,
)
    requires
        s.wf(),
        r.wf(),
        t_min.wf(),
        t_max.wf(),
        time0 <= r.time as int <= time1,
        s.spec_still(r.time as int).hit_exists(r, t_min, t_max),
    ensures
        hit_spec(s.spec_journey_box(time0, time1), r, t_min, t_max, true),
{
    lemma_still_wf(s, r.time as int);
    lemma_sphere_hit_in_box(s.spec_still(r.time as int), r, t_min, t_max);
    lemma_journey_box_covers(s, time0, r.time as int, time1);
    crate::aabb::lemma_hit_monotone(
        s.spec_journey_box(time0, time1),
        s.spec_still(r.time as int).spec_box(),
        r,
        t_min,
        t_max,
    );
}

/// The stationary sphere at any time of a well-formed moving sphere is
/// well-formed.
pub proof fn lemma_still_wf(s: MovingSphere, time: int)
    requires
        s.wf(),
    ensures
        s.spec_still(time).wf(),
        s.spec_still(time).center.x as int == s.spec_center_axis(time, 0),
        s.spec_still(time).center.y as int == s.spec_center_axis(time, 1),
        s.spec_still(time).center.z as int == s.spec_center_axis(time, 2),
{
    lemma_interp_between(
        s.center0.spec_axis(0),
        s.center1.spec_axis(0),
        s.spec_clamped_time(time) - s.time0,
        s.time1 - s.time0,
    );
    lemma_interp_between(
        s.center0.spec_axis(1),
        s.center1.spec_axis(1),
        s.spec_clamped_time(time) - s.time0,
        s.time1 - s.time0,
    );
    lemma_interp_between(
        s.center0.spec_axis(2),
        s.center1.spec_axis(2),
        s.spec_clamped_time(time) - s.time0,
        s.time1 - s.time0,
    );
}

} // verus!
