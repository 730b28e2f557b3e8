//! The virtual camera: maps screen coordinates in `[0, 1]` to rays.
use vstd::prelude::*;
use crate::fixed::SCALE;
use crate::ray::Ray;
use crate::vec3::{vadd, vscale, vsub, Vec3};

verus! {

#[derive(Clone, Copy, Debug, PartialEq, Eq, Structural)]
pub struct Camera {
    pub origin: Vec3,
    pub lower_left_corner: Vec3,
    pub horizontal: Vec3,
    pub vertical: Vec3,
}

/// The ray from the origin toward `lower_left_corner + horizontal u + vertical v`.
pub open spec fn camera_ray(c: Camera, u: int, v: int) -> Ray {
    Ray {
        origin: c.origin,
        direction: vsub(
            vadd(vadd(c.lower_left_corner, vscale(c.horizontal, u)), vscale(c.vertical, v)),
            c.origin,
        ),
    }
}

/// At the origin, looking down `-z` through a 4 by 2 screen one unit away,
/// for images twice as wide as they are high.
pub open spec fn default_camera() -> Camera {
    Camera {
        origin: Vec3 { x: 0, y: 0, z: 0 },
        lower_left_corner: Vec3 { x: -131072i64, y: -65536i64, z: -65536i64 },
        horizontal: Vec3 { x: 262144, y: 0, z: 0 },
        vertical: Vec3 { x: 0, y: 131072, z: 0 },
    }
}

impl Camera {
    pub fn new(origin: Vec3, lower_left_corner: Vec3, horizontal: Vec3, vertical: Vec3) -> (r: Camera)
        ensures
            r == (Camera { origin, lower_left_corner, horizontal, vertical }),
    {
        Camera { origin, lower_left_corner, horizontal, vertical }
    }

    /// `u` runs left to right and `v` bottom to top.
    pub fn get_ray(&self, u: i64, v: i64) -> (r: Ray)
        ensures
            r == camera_ray(*self, u as int, v as int),
    {
        let target = self.lower_left_corner.add(self.horizontal.mul(u)).add(self.vertical.mul(v));
        Ray::new(self.origin, target.sub(self.origin))
    }
}

impl Default for Camera {
    /// The camera of `default_camera`.
    fn default() -> (r: Camera)
        ensures
            r == default_camera(),
    {
        Camera {
            origin: Vec3::new(0, 0, 0),
            lower_left_corner: Vec3::new(-2 * SCALE, -SCALE, -SCALE),
            horizontal: Vec3::new(4 * SCALE, 0, 0),
            vertical: Vec3::new(0, 2 * SCALE, 0),
        }
    }
}

} // verus!
