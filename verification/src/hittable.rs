//! The result of an intersection query.

use vstd::prelude::*;
use crate::material::{Lambertian, Material};
use crate::ray::Ray;
use crate::vec3::{dot2, Point3, Vec3};

verus! {

/// Contains data related to a ray hitting an object: the hit point, the
/// unit-scale normal oriented against the ray, the material struck, the
/// ray parameter of the hit, and which side of the surface was struck.
#[derive(Clone, Copy, Debug, PartialEq, Eq, Structural)]
pub struct HitRecord {
    pub p: Point3,
    pub normal: Vec3,
    pub mat: Material,
    pub t: i64,
    pub front_face: bool,
}

impl HitRecord {
    /// Sets the oriented normal from an outward normal: the record faces
    /// front exactly when the ray runs against the outward normal, and
    /// the stored normal is flipped to face the ray.
    pub fn set_face_normal(&mut self, r: &Ray, outward_normal: &Vec3)
        requires
            r.dir.bounded(0x40_0000_0000),
            outward_normal.bounded(0x40_0000_0000),
        ensures
            final(self).front_face == (dot2(r.dir, *outward_normal) < 0),
            final(self).normal == if dot2(r.dir, *outward_normal) < 0 {
                *outward_normal
            } else {
                (Vec3 { x: (-outward_normal.x) as i64, y: (-outward_normal.y) as i64,
                    z: (-outward_normal.z) as i64 })
            },
            final(self).p == old(self).p,
            final(self).mat == old(self).mat,
            final(self).t == old(self).t,
    {
        proof {
            crate::vec3::lemma_mul_bound(r.dir.x as int, outward_normal.x as int,
                0x40_0000_0000);
            crate::vec3::lemma_mul_bound(r.dir.y as int, outward_normal.y as int,
                0x40_0000_0000);
            crate::vec3::lemma_mul_bound(r.dir.z as int, outward_normal.z as int,
                0x40_0000_0000);
        }
        let d2: i128 = r.dir.x as i128 * outward_normal.x as i128
            + r.dir.y as i128 * outward_normal.y as i128
            + r.dir.z as i128 * outward_normal.z as i128;
        self.front_face = d2 < 0;
        self.normal = if self.front_face {
            *outward_normal
        } else {
            outward_normal.neg()
        };
    }

    /// Constructs a default-initialized record, not meant for use before
    /// a successful intersection overwrites it.
    pub fn new() -> (r: Self)
        ensures
            r == HitRecord::default_spec(),
    {
        Self {
            p: Vec3 { x: 0, y: 0, z: 0 },
            normal: Vec3 { x: 0, y: 0, z: 0 },
            mat: Material::Lambertian(Lambertian { albedo: Vec3 { x: 0, y: 0, z: 0 } }),
            t: 0,
            front_face: true,
        }
    }

    /// The value `new` returns: zero point, normal and parameter, a
    /// black diffuse material, and a front face.
    pub open spec fn default_spec() -> Self {
        HitRecord {
            p: Vec3 { x: 0i64, y: 0i64, z: 0i64 },
            normal: Vec3 { x: 0i64, y: 0i64, z: 0i64 },
            mat: Material::Lambertian(Lambertian { albedo: Vec3 { x: 0i64, y: 0i64, z: 0i64 } }),
            t: 0i64,
            front_face: true,
        }
    }
}

} // verus!
