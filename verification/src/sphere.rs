//! The sphere primitive and its ray intersection.

use vstd::prelude::*;
use crate::fixed::{floor_div_i128, fx_mul_spec, fx_div_spec, isqrt, isqrt_u128, SCALE};
use crate::hittable::HitRecord;
use crate::material::Material;
use crate::ray::Ray;
use crate::vec3::{dot3, Point3, Vec3};
use crate::vec3::{lemma_mul_bound, lemma_mul_bound2, lemma_div_bound};

verus! {

/// Describes a hittable sphere.  A negative radius models an inverted
/// shell: the quadratic uses `radius * radius`, so only the outward
/// normal's orientation changes sign.
#[derive(Clone, Copy, Debug, PartialEq, Eq, Structural)]
pub struct Sphere {
    pub center: Point3,
    pub radius: i64,
    pub mat: Material,
}

/// The data of one ray-sphere contact, at the mathematical level.
pub ghost struct SphereContact {
    pub t: int,
    pub px: int,
    pub py: int,
    pub pz: int,
    pub nx: int,
    pub ny: int,
    pub nz: int,
    pub front: bool,
}

impl Sphere {
    /// A valid sphere: scene-scale center, a nonzero scene-scale
    /// radius, and a valid material.
    pub open spec fn wf(self) -> bool {
        self.center.bounded(134217728)
            && self.radius != 0
            && -134217728 <= self.radius <= 134217728
            && self.mat.wf()
    }

    pub fn build(center: Point3, radius: i64, material: Material) -> (s: Self)
        requires
            center.bounded(134217728),
            radius != 0,
            -134217728 <= radius <= 134217728,
            material.wf(),
        ensures
            s == (Sphere { center, radius, mat: material }),
            s.wf(),
    {
        Self { center, radius, mat: material }
    }

    /// The contact the sphere reports for the accepted root `root`: the
    /// hit point along the ray, and the outward normal
    /// `(point - center) / radius` oriented against the ray.  A contact
    /// whose normal rounds to zero or falls outside four units is
    /// discarded as degenerate.
    pub open spec fn contact_at(self, r: Ray, root: int) -> Option<SphereContact> {
        let px = r.orig.x + fx_mul_spec(r.dir.x as int, root);
        let py = r.orig.y + fx_mul_spec(r.dir.y as int, root);
        let pz = r.orig.z + fx_mul_spec(r.dir.z as int, root);
        let qx = fx_div_spec(px - self.center.x, self.radius as int);
        let qy = fx_div_spec(py - self.center.y, self.radius as int);
        let qz = fx_div_spec(pz - self.center.z, self.radius as int);
        if !(-262144 <= qx <= 262144 && -262144 <= qy <= 262144 && -262144 <= qz <= 262144) {
            None
        } else if qx == 0 && qy == 0 && qz == 0 {
            None
        } else {
            let front = dot3(r.dir.x as int, r.dir.y as int, r.dir.z as int, qx, qy, qz) < 0;
            Some(SphereContact {
                t: root,
                px, py, pz,
                nx: if front { qx } else { -qx },
                ny: if front { qy } else { -qy },
                nz: if front { qz } else { -qz },
                front,
            })
        }
    }

    /// The result of intersecting the ray with the sphere over the
    /// closed parameter range `[tmin, tmax]`: solve
    /// `|orig + t * dir - center|^2 == radius^2` for `t`, preferring
    /// the smaller root, and report the contact there.
    pub open spec fn hit_spec(self, r: Ray, tmin: int, tmax: int) -> Option<SphereContact> {
        let ocx = r.orig.x - self.center.x;
        let ocy = r.orig.y - self.center.y;
        let ocz = r.orig.z - self.center.z;
        let a2 = dot3(r.dir.x as int, r.dir.y as int, r.dir.z as int,
            r.dir.x as int, r.dir.y as int, r.dir.z as int);
        let hb2 = dot3(ocx, ocy, ocz, r.dir.x as int, r.dir.y as int, r.dir.z as int);
        let c2 = dot3(ocx, ocy, ocz, ocx, ocy, ocz) - self.radius * self.radius;
        let disc = hb2 * hb2 - a2 * c2;
        if a2 <= 0 || disc < 0 {
            None
        } else {
            let sqd = isqrt(disc);
            let root1 = ((-hb2 - sqd) * SCALE as int) / a2;
            let root = if tmin <= root1 <= tmax {
                root1
            } else {
                ((-hb2 + sqd) * SCALE as int) / a2
            };
            if !(tmin <= root <= tmax) {
                None
            } else {
                self.contact_at(r, root)
            }
        }
    }

    /// Narrowing the upper end of the search range can only discard
    /// hits: a hit found under the narrowed range is no farther than
    /// any hit the full range reports.
    pub proof fn lemma_hit_narrow_to_full(self, r: Ray, tmin: int, tmax2: int, tmax: int)
        requires
            tmax2 <= tmax,
        ensures
            ({
                let narrow = self.hit_spec(r, tmin, tmax2);
                let full = self.hit_spec(r, tmin, tmax);
                match narrow {
                    Option::None => true,
                    Option::Some(cn) => match full {
                        Option::None => true,
                        Option::Some(cf) => cf.t >= cn.t,
                    },
                }
            }),
    {
    }

    /// A miss under a narrowed range means the full range holds no hit
    /// at or before the narrowed bound.
    pub proof fn lemma_hit_full_to_narrow(self, r: Ray, tmin: int, tmax2: int, tmax: int)
        requires
            tmax2 <= tmax,
            self.hit_spec(r, tmin, tmax2) is None,
        ensures
            match self.hit_spec(r, tmin, tmax) {
                Option::None => true,
                Option::Some(cf) => cf.t > tmax2,
            },
    {
    }

    /// A reported contact lies within the search range.
    pub proof fn lemma_hit_in_range(self, r: Ray, tmin: int, tmax: int)
        ensures
            match self.hit_spec(r, tmin, tmax) {
                Option::None => true,
                Option::Some(c) => tmin <= c.t <= tmax,
            },
    {
    }

    /// Intersect a ray with the sphere over `[t_min, t_max]`.  On a hit
    /// the record is fully overwritten with the contact and the
    /// sphere's material; on a miss it is left untouched.  The contact
    /// is stated exactly through `hit_spec`, including the computed
    /// outward normal; a derived near-unit-length bound on that normal
    /// is not stated, since it would need the rounding of the root and
    /// hit point propagated through the quadratic, and callers rely
    /// only on the stated four-unit bound.
    pub fn hit(&self, r: &Ray, t_min: i64, t_max: i64, rec: &mut HitRecord) -> (b: bool)
        requires
            self.wf(),
            r.orig.bounded(0x4000_0000),
            r.dir.bounded(0x4000_0000),
            -0x200_0000_0000 <= t_min <= 0x200_0000_0000,
            -0x200_0000_0000 <= t_max <= 0x200_0000_0000,
        ensures
            match self.hit_spec(*r, t_min as int, t_max as int) {
                Option::None => !b && *final(rec) == *old(rec),
                Option::Some(c) => b
                    && final(rec).t == c.t
                    && final(rec).p.x == c.px
                    && final(rec).p.y == c.py
                    && final(rec).p.z == c.pz
                    && final(rec).normal.x == c.nx
                    && final(rec).normal.y == c.ny
                    && final(rec).normal.z == c.nz
                    && final(rec).front_face == c.front
                    && final(rec).mat == self.mat,
            },
            b ==> final(rec).normal.bounded(4 * SCALE as int)
                && !(final(rec).normal.x == 0 && final(rec).normal.y == 0
                    && final(rec).normal.z == 0)
                && t_min <= final(rec).t <= t_max,
    {
        let ocx: i64 = r.orig.x - self.center.x;
        let ocy: i64 = r.orig.y - self.center.y;
        let ocz: i64 = r.orig.z - self.center.z;
        proof {
            lemma_mul_bound(r.dir.x as int, r.dir.x as int, 1073741824);
            lemma_mul_bound(r.dir.y as int, r.dir.y as int, 1073741824);
            lemma_mul_bound(r.dir.z as int, r.dir.z as int, 1073741824);
            lemma_mul_bound(ocx as int, ocx as int, 1207959552);
            lemma_mul_bound(ocy as int, ocy as int, 1207959552);
            lemma_mul_bound(ocz as int, ocz as int, 1207959552);
            lemma_mul_bound2(ocx as int, r.dir.x as int, 1207959552, 1073741824);
            lemma_mul_bound2(ocy as int, r.dir.y as int, 1207959552, 1073741824);
            lemma_mul_bound2(ocz as int, r.dir.z as int, 1207959552, 1073741824);
            lemma_mul_bound(self.radius as int, self.radius as int, 134217728);
        }
        let a2: i128 = r.dir.x as i128 * r.dir.x as i128 + r.dir.y as i128 * r.dir.y as i128
            + r.dir.z as i128 * r.dir.z as i128;
        let hb2: i128 = ocx as i128 * r.dir.x as i128 + ocy as i128 * r.dir.y as i128
            + ocz as i128 * r.dir.z as i128;
        let c2: i128 = ocx as i128 * ocx as i128 + ocy as i128 * ocy as i128
            + ocz as i128 * ocz as i128 - self.radius as i128 * self.radius as i128;
        if a2 <= 0 {
            return false;
        }
        proof {
            lemma_mul_bound(hb2 as int, hb2 as int, 3891110078048108544);
            lemma_mul_bound2(a2 as int, c2 as int, 3458764513820540928, 4395513236313604096);
        }
        let disc: i128 = hb2 * hb2 - a2 * c2;
        if disc < 0 {
            return false;
        }
        let sqd_u: u64 = isqrt_u128(disc as u128);
        let sqd: i128 = sqd_u as i128;
        proof {
            assert(sqd as int * sqd as int <= disc as int);
            assert(sqd as int <= 6000000000000000000int) by (nonlinear_arith)
                requires
                    sqd as int * sqd as int
                        <= 30343782841277532661132220547962241024int,
                    sqd as int >= 0;
        }
        let root1: i128 = floor_div_i128((-hb2 - sqd) * 65536, a2);
        let root: i128 = if t_min as i128 <= root1 && root1 <= t_max as i128 {
            root1
        } else {
            floor_div_i128((-hb2 + sqd) * 65536, a2)
        };
        if !(t_min as i128 <= root && root <= t_max as i128) {
            return false;
        }
        let t: i64 = root as i64;
        proof {
            lemma_mul_bound2(r.dir.x as int, t as int, 1073741824, 2199023255552);
            lemma_mul_bound2(r.dir.y as int, t as int, 1073741824, 2199023255552);
            lemma_mul_bound2(r.dir.z as int, t as int, 1073741824, 2199023255552);
            lemma_div_bound(r.dir.x as int * t as int, 2361183241434822606848, 65536);
            lemma_div_bound(r.dir.y as int * t as int, 2361183241434822606848, 65536);
            lemma_div_bound(r.dir.z as int * t as int, 2361183241434822606848, 65536);
        }
        let p = r.at(t);
        let numx: i128 = (p.x as i128 - self.center.x as i128) * 65536;
        let numy: i128 = (p.y as i128 - self.center.y as i128) * 65536;
        let numz: i128 = (p.z as i128 - self.center.z as i128) * 65536;
        let qx: i128;
        let qy: i128;
        let qz: i128;
        if self.radius > 0 {
            qx = floor_div_i128(numx, self.radius as i128);
            qy = floor_div_i128(numy, self.radius as i128);
            qz = floor_div_i128(numz, self.radius as i128);
        } else {
            proof {
                lemma_div_bound(numx as int, 1300000000000000000000000int,
                    -(self.radius as int));
                lemma_div_bound(numy as int, 1300000000000000000000000int,
                    -(self.radius as int));
                lemma_div_bound(numz as int, 1300000000000000000000000int,
                    -(self.radius as int));
                vstd::arithmetic::div_mod::lemma_div_nonincreasing(
                    1300000000000000000000000int, -(self.radius as int));
            }
            qx = -floor_div_i128(numx, -(self.radius as i128));
            qy = -floor_div_i128(numy, -(self.radius as i128));
            qz = -floor_div_i128(numz, -(self.radius as i128));
        }
        if !(-262144 <= qx && qx <= 262144 && -262144 <= qy && qy <= 262144
            && -262144 <= qz && qz <= 262144) {
            return false;
        }
        if qx == 0 && qy == 0 && qz == 0 {
            return false;
        }
        let outward = Vec3 { x: qx as i64, y: qy as i64, z: qz as i64 };
        rec.t = t;
        rec.p = p;
        rec.set_face_normal(r, &outward);
        rec.mat = self.mat;
        true
    }
}

} // verus!
