//! Rays: an origin, a direction, and a time for motion blur.

use crate::fx::{fx_mul_spec, GEOM_BOUND, RAY_BOUND};
use crate::vec3::{bounded, Point3, Vec3};
use vstd::prelude::*;

verus! {

/// A ray, immutable once constructed. The time stamp places the ray within
/// the camera's shutter interval.
#[derive(Clone, Copy, Debug, PartialEq, Eq, Structural)]
pub struct Ray {
    pub origin: Point3,
    pub direction: Vec3,
    pub time: i64,
}

impl Ray {
    /// Origin and direction (and time) within the ray bounds.
    pub open spec fn wf(self) -> bool {
        bounded(self.origin, RAY_BOUND as int) && bounded(self.direction, RAY_BOUND as int)
            && -RAY_BOUND as int <= self.time <= RAY_BOUND as int
    }

    /// Builds a ray cast at time zero.
    pub fn new(origin: Point3, direction: Vec3) -> (r: Ray)
        ensures
            r.origin == origin,
            r.direction == direction,
            r.time == 0,
    {
        Ray { origin, direction, time: 0 }
    }

    /// Builds a ray cast at the given shutter time.
    pub fn new_at_time(origin: Point3, direction: Vec3, time: i64) -> (r: Ray)
        ensures
            r.origin == origin,
            r.direction == direction,
            r.time == time,
    {
        Ray { origin, direction, time }
    }

    /// The ray's origin.
    pub fn origin(&self) -> (r: Point3)
        ensures
            r == self.origin,
    {
        self.origin
    }

    /// The ray's direction.
    pub fn direction(&self) -> (r: Vec3)
        ensures
            r == self.direction,
    {
        self.direction
    }

    /// The ray's time stamp.
    pub fn time(&self) -> (r: i64)
        ensures
            r == self.time,
    {
        self.time
    }

    /// The point reached after parameter `t` (a fixed-point scalar):
    /// origin plus `t` times the direction, rounded toward zero.
    pub fn at(&self, t: i64) -> (p: Point3)
        requires
            self.wf(),
            -GEOM_BOUND as int <= t <= GEOM_BOUND as int,
            -GEOM_BOUND as int <= self.origin.x + fx_mul_spec(self.direction.x as int, t as int)
                <= GEOM_BOUND as int,
            -GEOM_BOUND as int <= self.origin.y + fx_mul_spec(self.direction.y as int, t as int)
                <= GEOM_BOUND as int,
            -GEOM_BOUND as int <= self.origin.z + fx_mul_spec(self.direction.z as int, t as int)
                <= GEOM_BOUND as int,
        ensures
            p.x == self.origin.x + fx_mul_spec(self.direction.x as int, t as int),
            p.y == self.origin.y + fx_mul_spec(self.direction.y as int, t as int),
            p.z == self.origin.z + fx_mul_spec(self.direction.z as int, t as int),
    {
        let offset = self.direction.scaled(t);
        self.origin.plus(offset)
    }
}

} // verus!
