//! A ray: an origin and a direction, tracing the points `origin + t * direction`.

use vstd::prelude::*;

verus! {

use crate::vec3::{Vec3, spec_vadd, spec_vscale};

#[derive(Debug, Clone, Copy, PartialEq, Eq, Structural)]
pub struct Ray {
    pub origin: Vec3,
    pub direction: Vec3,
}

/// The point a parametric distance `t` along the ray.
pub open spec fn spec_ray_at(ray: Ray, t: int) -> Vec3 {
    spec_vadd(ray.origin, spec_vscale(ray.direction, t))
}

impl Ray {
    pub fn new(origin: Vec3, direction: Vec3) -> (r: Ray)
        ensures
            r == (Ray { origin, direction }),
    {
        Ray { origin, direction }
    }

    pub fn origin(&self) -> (o: Vec3)
        ensures
            o == self.origin,
    {
        self.origin
    }

    pub fn direction(&self) -> (d: Vec3)
        ensures
            d == self.direction,
    {
        self.direction
    }

    pub fn at(&self, t: i64) -> (p: Vec3)
        ensures
            p == spec_ray_at(*self, t as int),
    {
        self.origin.add(self.direction.scale(t))
    }
}

} // verus!
