//! Rays: an origin plus a direction, evaluated by parameter.

use vstd::prelude::*;
use crate::fixed::fx_mul_spec;
use crate::vec3::{Point3, Vec3};

verus! {

/// Describes a ray by its origin and direction.
#[derive(Clone, Copy, Debug, PartialEq, Eq, Structural)]
pub struct Ray {
    pub orig: Point3,
    pub dir: Vec3,
}

impl Ray {
    /// Returns the point at parameter `t` along the ray:
    /// `orig + t * dir`, componentwise in fixed point.
    pub fn at(self, t: i64) -> (r: Point3)
        requires
            i64::MIN <= fx_mul_spec(self.dir.x as int, t as int) <= i64::MAX,
            i64::MIN <= fx_mul_spec(self.dir.y as int, t as int) <= i64::MAX,
            i64::MIN <= fx_mul_spec(self.dir.z as int, t as int) <= i64::MAX,
            i64::MIN <= self.orig.x + fx_mul_spec(self.dir.x as int, t as int) <= i64::MAX,
            i64::MIN <= self.orig.y + fx_mul_spec(self.dir.y as int, t as int) <= i64::MAX,
            i64::MIN <= self.orig.z + fx_mul_spec(self.dir.z as int, t as int) <= i64::MAX,
        ensures
            r.x == self.orig.x + fx_mul_spec(self.dir.x as int, t as int),
            r.y == self.orig.y + fx_mul_spec(self.dir.y as int, t as int),
            r.z == self.orig.z + fx_mul_spec(self.dir.z as int, t as int),
    {
        self.orig.add(self.dir.scale(t))
    }

    /// Builds a new Ray.
    pub fn build(orig: Point3, dir: Vec3) -> (r: Self)
        ensures
            r == (Ray { orig, dir }),
    {
        Self { orig, dir }
    }

    /// Returns the direction the Ray points.
    pub fn direction(self) -> (r: Vec3)
        ensures
            r == self.dir,
    {
        self.dir
    }

    /// Constructs a zero ray.
    pub fn new() -> (r: Self)
        ensures
            r.orig == (Vec3 { x: 0i64, y: 0i64, z: 0i64 }),
            r.dir == (Vec3 { x: 0i64, y: 0i64, z: 0i64 }),
    {
        Self { orig: Vec3 { x: 0, y: 0, z: 0 }, dir: Vec3 { x: 0, y: 0, z: 0 } }
    }
}

} // verus!
