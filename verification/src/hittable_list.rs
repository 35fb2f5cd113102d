//! The aggregate surface: an ordered collection of spheres that
//! reports the closest hit among its members.

use vstd::prelude::*;
use crate::hittable::HitRecord;
use crate::ray::Ray;
use crate::sphere::{Sphere, SphereContact};

verus! {

/// An ordered collection of spheres, hit-tested as one surface.
pub struct HittableList {
    pub objects: Vec<Sphere>,
}

impl HittableList {
    /// Every member is a valid sphere.
    pub open spec fn wf(self) -> bool {
        forall|i: int| 0 <= i < self.objects@.len() ==> (#[trigger] self.objects@[i]).wf()
    }

    /// Constructs an empty aggregate.
    pub fn new() -> (l: Self)
        ensures
            l.objects@.len() == 0,
            l.wf(),
    {
        Self { objects: Vec::new() }
    }

    /// Adds a sphere to the aggregate.
    pub fn add(&mut self, object: Sphere)
        requires
            object.wf(),
        ensures
            final(self).objects@ == old(self).objects@.push(object),
            old(self).wf() ==> final(self).wf(),
    {
        self.objects.push(object);
    }

    /// The hit the first `k` members report together: each member is
    /// asked over a range whose upper end has shrunk to one step below
    /// the closest accepted parameter so far, so a later member can
    /// only override an earlier result by a strictly closer hit.  The
    /// winner's index is carried with its contact.
    pub open spec fn hit_upto(self, k: int, r: Ray, tmin: int, tmax: int)
        -> Option<(int, SphereContact)>
        decreases k,
    {
        if k <= 0 {
            None
        } else {
            let prev = self.hit_upto(k - 1, r, tmin, tmax);
            let cur_max = match prev {
                Option::None => tmax,
                Option::Some(pc) => pc.1.t - 1,
            };
            match self.objects@[k - 1].hit_spec(r, tmin, cur_max) {
                Option::Some(c) => Some((k - 1, c)),
                Option::None => prev,
            }
        }
    }

    /// The hit the whole aggregate reports.
    pub open spec fn hit_spec(self, r: Ray, tmin: int, tmax: int)
        -> Option<(int, SphereContact)> {
        self.hit_upto(self.objects@.len() as int, r, tmin, tmax)
    }

    /// The aggregate's answer is the closest: when it reports a
    /// contact, no member hit over the full range is strictly closer,
    /// and when it reports a miss, no member hits at all.  A tie at
    /// the exact same parameter keeps the earlier member, since the
    /// narrowed range excludes the closest parameter found so far.
    pub proof fn lemma_hit_closest(self, k: int, r: Ray, tmin: int, tmax: int, j: int)
        requires
            0 <= j < k <= self.objects@.len(),
        ensures
            match self.hit_upto(k, r, tmin, tmax) {
                Option::None => self.objects@[j].hit_spec(r, tmin, tmax) is None,
                Option::Some(ic) => tmin <= ic.1.t <= tmax
                    && match self.objects@[j].hit_spec(r, tmin, tmax) {
                        Option::None => true,
                        Option::Some(c) => c.t >= ic.1.t,
                    },
            },
        decreases k,
    {
        if k - 1 > 0 {
            self.lemma_hit_closest(k - 1, r, tmin, tmax, if j < k - 1 { j } else { 0 });
        }
        let prev = self.hit_upto(k - 1, r, tmin, tmax);
        let cur_max = match prev {
            Option::None => tmax,
            Option::Some(pc) => pc.1.t - 1,
        };
        let s = self.objects@[k - 1];
        s.lemma_hit_in_range(r, tmin, cur_max);
        if j == k - 1 {
            match s.hit_spec(r, tmin, cur_max) {
                Option::Some(c) => {
                    s.lemma_hit_narrow_to_full(r, tmin, cur_max, tmax);
                },
                Option::None => {
                    s.lemma_hit_full_to_narrow(r, tmin, cur_max, tmax);
                },
            }
        }
    }

    /// Determines whether a ray hits anything in the aggregate over
    /// `[t_min, t_max]`, recording the closest contact found.  On a
    /// miss the record is left untouched.
    pub fn hit(&self, r: &Ray, t_min: i64, t_max: i64, rec: &mut HitRecord) -> (b: bool)
        requires
            self.wf(),
            r.orig.bounded(0x4000_0000),
            r.dir.bounded(0x4000_0000),
            -0x100_0000_0000 <= t_min <= 0x100_0000_0000,
            -0x100_0000_0000 <= t_max <= 0x100_0000_0000,
        ensures
            match self.hit_spec(*r, t_min as int, t_max as int) {
                Option::None => !b && *final(rec) == *old(rec),
                Option::Some(ic) => b
                    && 0 <= ic.0 < self.objects@.len()
                    && final(rec).t == ic.1.t
                    && final(rec).p.x == ic.1.px
                    && final(rec).p.y == ic.1.py
                    && final(rec).p.z == ic.1.pz
                    && final(rec).normal.x == ic.1.nx
                    && final(rec).normal.y == ic.1.ny
                    && final(rec).normal.z == ic.1.nz
                    && final(rec).front_face == ic.1.front
                    && final(rec).mat == self.objects@[ic.0].mat,
            },
            b ==> final(rec).normal.bounded(4 * crate::fixed::SCALE as int)
                && !(final(rec).normal.x == 0 && final(rec).normal.y == 0
                    && final(rec).normal.z == 0)
                && final(rec).mat.wf()
                && t_min <= final(rec).t <= t_max,
    {
        let ghost rec0: HitRecord = *rec;
        let mut hit_anything: bool = false;
        let mut closest_so_far: i64 = t_max;
        let mut i: usize = 0;
        let mut upper: i64 = t_max;
        while i < self.objects.len()
            invariant
                self.wf(),
                r.orig.bounded(0x4000_0000),
                r.dir.bounded(0x4000_0000),
                -0x100_0000_0000 <= t_min <= 0x100_0000_0000,
                -0x100_0000_0000 <= t_max <= 0x100_0000_0000,
                i <= self.objects@.len(),
                -0x100_0000_0000 <= closest_so_far <= 0x100_0000_0000,
                -0x200_0000_0000 <= upper <= 0x200_0000_0000,
                match self.hit_upto(i as int, *r, t_min as int, t_max as int) {
                    Option::None => !hit_anything && *rec == rec0 && closest_so_far == t_max
                        && upper == t_max,
                    Option::Some(ic) => hit_anything
                        && 0 <= ic.0 < self.objects@.len()
                        && closest_so_far == ic.1.t
                        && upper == ic.1.t - 1
                        && rec.t == ic.1.t
                        && rec.p.x == ic.1.px
                        && rec.p.y == ic.1.py
                        && rec.p.z == ic.1.pz
                        && rec.normal.x == ic.1.nx
                        && rec.normal.y == ic.1.ny
                        && rec.normal.z == ic.1.nz
                        && rec.front_face == ic.1.front
                        && rec.mat == self.objects@[ic.0].mat,
                },
                hit_anything ==> rec.normal.bounded(4 * crate::fixed::SCALE as int)
                    && !(rec.normal.x == 0 && rec.normal.y == 0 && rec.normal.z == 0)
                    && rec.mat.wf()
                    && t_min <= rec.t <= t_max,
            decreases self.objects@.len() - i,
        {
            let ob = &self.objects[i];
            if ob.hit(r, t_min, upper, rec) {
                hit_anything = true;
                closest_so_far = rec.t;
                upper = rec.t - 1;
            }
            i = i + 1;
        }
        hit_anything
    }
}

} // verus!
