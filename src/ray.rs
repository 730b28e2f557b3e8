//! Rays: an origin and a direction that need not be normalized.
use vstd::prelude::*;
use crate::vec3::{vadd, vscale, Vec3};

verus! {

#[derive(Clone, Copy, Debug, PartialEq, Eq, Structural)]
pub struct Ray {
    pub origin: Vec3,
    pub direction: Vec3,
}

/// The point reached at parameter `t`: `origin + direction * t`.
pub open spec fn ray_at(ray: Ray, t: int) -> Vec3 {
    vadd(ray.origin, vscale(ray.direction, t))
}

impl Ray {
    pub fn new(origin: Vec3, direction: Vec3) -> (r: Ray)
        ensures
            r == (Ray { origin, direction }),
    {
        Ray { origin, direction }
    }

    pub fn origin(&self) -> (r: Vec3)
        ensures
            r == self.origin,
    {
        self.origin
    }

    pub fn direction(&self) -> (r: Vec3)
        ensures
            r == self.direction,
    {
        self.direction
    }

    pub fn point_at_parameter(&self, t: i64) -> (r: Vec3)
        ensures
            r == ray_at(*self, t as int),
    {
        self.origin.add(self.direction.mul(t))
    }
}

} // verus!
