//! Material scattering: diffuse, specular-with-fuzz, and dielectric
//! refraction/reflection.

use vstd::prelude::*;
use crate::fixed::{fx_mul, fx_div, fx_mul_spec, fx_div_spec, fx_sqrt, isqrt, SCALE};
use crate::fixed::lemma_fx_div_unit_bound;
use crate::hittable::HitRecord;
use crate::ray::Ray;
use crate::vec3::{dot, dot2, reflect, reflect_comp, refract, refract_cos, refract_spec,
    random_unit_vector, unit_of, unit_vector, Color, Vec3};
use crate::vec3::{lemma_mul_bound, lemma_mul_bound2, lemma_div_bound};

verus! {

/// Describes a material with dielectric properties such as glass.
#[derive(Clone, Copy, Debug, PartialEq, Eq, Structural)]
pub struct Dielectric {
    pub ir: i64,
}

/// Describes a material with Lambertian reflectance.
#[derive(Clone, Copy, Debug, PartialEq, Eq, Structural)]
pub struct Lambertian {
    pub albedo: Color,
}

/// Describes a material with mirror-like reflectance.
#[derive(Clone, Copy, Debug, PartialEq, Eq, Structural)]
pub struct Metal {
    pub albedo: Color,
    pub fuzz: i64,
}

/// One of the scattering behaviors a surface can carry.
#[derive(Clone, Copy, Debug, PartialEq, Eq, Structural)]
pub enum Material {
    Lambertian(Lambertian),
    Metal(Metal),
    Dielectric(Dielectric),
}

/// An RGB color whose channels lie in `[0, 1]`.
pub open spec fn color_wf(c: Color) -> bool {
    0 <= c.x <= SCALE && 0 <= c.y <= SCALE && 0 <= c.z <= SCALE
}

impl Lambertian {
    /// A valid diffuse material: channels in `[0, 1]`.
    pub open spec fn wf(self) -> bool {
        color_wf(self.albedo)
    }

    /// Builds a new Lambertian from RGB values.
    pub fn build(r: i64, g: i64, b: i64) -> (m: Self)
        requires
            0 <= r <= SCALE,
            0 <= g <= SCALE,
            0 <= b <= SCALE,
        ensures
            m.albedo == (Vec3 { x: r, y: g, z: b }),
            m.wf(),
    {
        Self { albedo: Vec3 { x: r, y: g, z: b } }
    }

    /// Returns the albedo of the Lambertian.
    pub fn color(&self) -> (c: Color)
        ensures
            c == self.albedo,
    {
        self.albedo
    }

    /// Constructs a new Lambertian from an existing Color.
    pub fn from(albedo: Color) -> (m: Self)
        requires
            color_wf(albedo),
        ensures
            m.albedo == albedo,
            m.wf(),
    {
        Self { albedo }
    }

    /// Diffuse scattering: the outgoing ray leaves the hit point toward
    /// the normal plus a random unit-ball sample, falling back to the
    /// normal itself when the sum cancels to zero; the attenuation is
    /// the albedo, and the ray is never absorbed.
    pub fn scatter(&self, _r_in: &Ray, rec: &HitRecord, attenuation: &mut Color,
        scattered: &mut Ray) -> (b: bool)
        requires
            self.wf(),
            rec.normal.bounded(4 * SCALE as int),
        ensures
            b,
            *final(attenuation) == self.albedo,
            final(scattered).orig == rec.p,
            final(scattered).dir.bounded(5 * SCALE as int),
            lambertian_dir_ok(rec.normal, final(scattered).dir),
            rec.normal != (Vec3 { x: 0i64, y: 0i64, z: 0i64 })
                ==> final(scattered).dir != (Vec3 { x: 0i64, y: 0i64, z: 0i64 }),
    {
        let u = random_unit_vector();
        let mut direction = rec.normal.add(u);
        if direction.near_zero() {
            direction = rec.normal;
        }
        *scattered = Ray { orig: rec.p, dir: direction };
        *attenuation = self.albedo;
        true
    }
}

impl Metal {
    /// A valid metal: channels in `[0, 1]` and fuzz in `[0, 1]`.
    pub open spec fn wf(self) -> bool {
        color_wf(self.albedo) && 0 <= self.fuzz <= SCALE as int
    }

    /// Builds a new Metal from RGB and fuzz values; fuzz is clamped to
    /// `[0, 1]`.
    pub fn build(r: i64, g: i64, b: i64, fuzz: i64) -> (m: Self)
        requires
            0 <= r <= SCALE,
            0 <= g <= SCALE,
            0 <= b <= SCALE,
        ensures
            m.albedo == (Vec3 { x: r, y: g, z: b }),
            m.fuzz == if fuzz < 0 { 0int } else if fuzz < SCALE { fuzz as int } else { SCALE as int },
            m.wf(),
    {
        Self {
            albedo: Vec3 { x: r, y: g, z: b },
            fuzz: if fuzz < 0 { 0 } else if fuzz < 65536 { fuzz } else { 65536 },
        }
    }

    /// Returns the albedo of the Metal.
    pub fn color(&self) -> (c: Color)
        ensures
            c == self.albedo,
    {
        self.albedo
    }

    /// Constructs a new Metal from an existing Color and a fuzz value,
    /// clamped to `[0, 1]`.
    pub fn from(albedo: Color, fuzz: i64) -> (m: Self)
        requires
            color_wf(albedo),
        ensures
            m.albedo == albedo,
            m.fuzz == if fuzz < 0 { 0int } else if fuzz < SCALE { fuzz as int } else { SCALE as int },
            m.wf(),
    {
        Self { albedo, fuzz: if fuzz < 0 { 0 } else if fuzz < 65536 { fuzz } else { 65536 } }
    }

    /// Specular scattering: the outgoing direction is the reflection of
    /// the unit incident direction about the normal, perturbed by a
    /// random unit-ball sample scaled by the fuzz; the ray survives
    /// exactly when the perturbed direction still points away from the
    /// surface.
    pub fn scatter(&self, r_in: &Ray, rec: &HitRecord, attenuation: &mut Color,
        scattered: &mut Ray) -> (b: bool)
        requires
            self.wf(),
            rec.normal.bounded(4 * SCALE as int),
            r_in.dir.bounded(0x0080_0000_0000_0000),
            dot2(r_in.dir, r_in.dir) > 0,
        ensures
            *final(attenuation) == self.albedo,
            final(scattered).orig == rec.p,
            final(scattered).dir.bounded(0x2_0000_0000),
            b == (dot2(final(scattered).dir, rec.normal) > 0),
            metal_dir_ok(*self, *r_in, rec.normal, final(scattered).dir),
    {
        let ud = unit_vector(&r_in.direction());
        let reflected = reflect(&ud, &rec.normal);
        let u = random_unit_vector();
        proof {
            lemma_mul_bound(u.x as int, self.fuzz as int, SCALE as int);
            lemma_mul_bound(u.y as int, self.fuzz as int, SCALE as int);
            lemma_mul_bound(u.z as int, self.fuzz as int, SCALE as int);
            lemma_div_bound(u.x as int * self.fuzz as int, 4294967296, 65536);
            lemma_div_bound(u.y as int * self.fuzz as int, 4294967296, 65536);
            lemma_div_bound(u.z as int * self.fuzz as int, 4294967296, 65536);
        }
        let direction = reflected.add(u.scale(self.fuzz));
        *scattered = Ray { orig: rec.p, dir: direction };
        *attenuation = self.albedo;
        proof {
            lemma_mul_bound2(direction.x as int, rec.normal.x as int, 0x2_0000_0000, 262144);
            lemma_mul_bound2(direction.y as int, rec.normal.y as int, 0x2_0000_0000, 262144);
            lemma_mul_bound2(direction.z as int, rec.normal.z as int, 0x2_0000_0000, 262144);
        }
        let d2: i128 = direction.x as i128 * rec.normal.x as i128
            + direction.y as i128 * rec.normal.y as i128
            + direction.z as i128 * rec.normal.z as i128;
        d2 > 0
    }
}

/// The raw dot product of an integer triple against a vector.
pub open spec fn dot3_of(a: (int, int, int), b: Vec3) -> int {
    crate::vec3::dot3(a.0, a.1, a.2, b.x as int, b.y as int, b.z as int)
}

/// A direction diffuse scattering can produce: the normal plus a
/// unit-ball sample, or the normal itself when the sum cancels.
pub open spec fn lambertian_dir_ok(normal: Vec3, dir: Vec3) -> bool {
    dir == normal || exists|u: Vec3| #[trigger] u.bounded(SCALE as int)
        && dir.x == normal.x + u.x
        && dir.y == normal.y + u.y
        && dir.z == normal.z + u.z
}

/// A direction metallic scattering can produce: the reflection of the
/// unit incident direction, perturbed by a unit-ball sample scaled by
/// the fuzz.
pub open spec fn metal_dir_ok(m: Metal, r_in: Ray, normal: Vec3, dir: Vec3) -> bool {
    exists|u: Vec3| #[trigger] u.bounded(SCALE as int)
        && dir.x == reflect_comp(unit_of(r_in.dir).0, dot3_of(unit_of(r_in.dir), normal),
            normal.x as int) + fx_mul_spec(u.x as int, m.fuzz as int)
        && dir.y == reflect_comp(unit_of(r_in.dir).1, dot3_of(unit_of(r_in.dir), normal),
            normal.y as int) + fx_mul_spec(u.y as int, m.fuzz as int)
        && dir.z == reflect_comp(unit_of(r_in.dir).2, dot3_of(unit_of(r_in.dir), normal),
            normal.z as int) + fx_mul_spec(u.z as int, m.fuzz as int)
}

/// A direction dielectric scattering can produce: the reflection of
/// the unit incident direction, or its Snell refraction; total
/// internal reflection forces the reflection.
pub open spec fn dielectric_dir_ok(d: Dielectric, r_in: Ray, front_face: bool, normal: Vec3,
    dir: Vec3) -> bool {
    exists|ud: Vec3| #[trigger] ud.bounded(SCALE as int)
        && ud.x == unit_of(r_in.dir).0
        && ud.y == unit_of(r_in.dir).1
        && ud.z == unit_of(r_in.dir).2
        && {
            let ratio = d.ratio_spec(front_face);
            let refl = dir.x == reflect_comp(ud.x as int, dot2(ud, normal), normal.x as int)
                && dir.y == reflect_comp(ud.y as int, dot2(ud, normal), normal.y as int)
                && dir.z == reflect_comp(ud.z as int, dot2(ud, normal), normal.z as int);
            let refr = dir.x == refract_spec(ud, normal, ratio).0
                && dir.y == refract_spec(ud, normal, ratio).1
                && dir.z == refract_spec(ud, normal, ratio).2;
            (refl || refr)
                && (fx_mul_spec(ratio, dielectric_sin(ud, normal)) > SCALE as int ==> refl)
        }
}

/// The Schlick reflectance approximation, in fixed point:
/// `r0 + (1 - r0) * (1 - cos)^5` with `r0 = ((1 - ri) / (1 + ri))^2`.
pub open spec fn schlick_spec(cos: int, ri: int) -> int {
    let r0 = schlick_r0(ri);
    let p = SCALE as int - cos;
    let p2 = fx_mul_spec(p, p);
    let p4 = fx_mul_spec(p2, p2);
    let p5 = fx_mul_spec(p4, p);
    r0 + fx_mul_spec(SCALE as int - r0, p5)
}

/// The reflectance at normal incidence: `((1 - ri) / (1 + ri))^2`.
pub open spec fn schlick_r0(ri: int) -> int {
    let a = fx_div_spec(SCALE as int - ri, SCALE as int + ri);
    fx_mul_spec(a, a)
}

/// The reflectance at normal incidence lies in `[0, 1]`.
pub proof fn lemma_schlick_r0_range(ri: int)
    requires
        ri > 0,
    ensures
        0 <= schlick_r0(ri) <= SCALE as int,
{
    let s = SCALE as int;
    lemma_fx_div_unit_bound(s - ri, s + ri);
    let a = fx_div_spec(s - ri, s + ri);
    lemma_mul_bound(a, a, s);
    assert(a * a >= 0) by (nonlinear_arith);
    vstd::arithmetic::div_mod::lemma_div_pos_is_pos(a * a, s);
    lemma_div_bound(a * a, 4294967296, 65536);
}

/// Fixed-point multiplication of nonnegative scalars is monotone in
/// both arguments and stays nonnegative.
pub proof fn lemma_fx_mul_monotone(a1: int, b1: int, a2: int, b2: int)
    requires
        0 <= a2 <= a1,
        0 <= b2 <= b1,
    ensures
        0 <= fx_mul_spec(a2, b2) <= fx_mul_spec(a1, b1),
{
    assert(0 <= a2 * b2 <= a1 * b1) by (nonlinear_arith)
        requires 0 <= a2 <= a1, 0 <= b2 <= b1;
    vstd::arithmetic::div_mod::lemma_div_is_ordered(a2 * b2, a1 * b1, SCALE as int);
    vstd::arithmetic::div_mod::lemma_div_pos_is_pos(a2 * b2, SCALE as int);
}

/// At normal incidence the Schlick reflectance equals `r0` exactly.
pub proof fn lemma_schlick_normal_incidence(ri: int)
    requires
        ri > 0,
    ensures
        schlick_spec(SCALE as int, ri) == schlick_r0(ri),
{
    let s = SCALE as int;
    assert(fx_mul_spec(0, 0) == 0) by {
        assert(0int * 0 == 0);
        assert(0int / s == 0);
    }
    assert(fx_mul_spec(s - schlick_r0(ri), 0) == 0) by {
        assert((s - schlick_r0(ri)) * 0 == 0);
        assert(0int / s == 0);
    }
}

/// The Schlick reflectance does not decrease as the cosine falls
/// toward grazing incidence.
pub proof fn lemma_schlick_monotone(c1: int, c2: int, ri: int)
    requires
        c1 <= c2 <= SCALE as int,
        ri > 0,
    ensures
        schlick_spec(c2, ri) <= schlick_spec(c1, ri),
{
    let s = SCALE as int;
    lemma_schlick_r0_range(ri);
    let r0 = schlick_r0(ri);
    let p1 = s - c1;
    let p2 = s - c2;
    lemma_fx_mul_monotone(p1, p1, p2, p2);
    lemma_fx_mul_monotone(fx_mul_spec(p1, p1), fx_mul_spec(p1, p1),
        fx_mul_spec(p2, p2), fx_mul_spec(p2, p2));
    lemma_fx_mul_monotone(fx_mul_spec(fx_mul_spec(p1, p1), fx_mul_spec(p1, p1)), p1,
        fx_mul_spec(fx_mul_spec(p2, p2), fx_mul_spec(p2, p2)), p2);
    lemma_fx_mul_monotone(s - r0,
        fx_mul_spec(fx_mul_spec(fx_mul_spec(p1, p1), fx_mul_spec(p1, p1)), p1),
        s - r0,
        fx_mul_spec(fx_mul_spec(fx_mul_spec(p2, p2), fx_mul_spec(p2, p2)), p2));
}

impl Dielectric {
    /// A valid dielectric: an index of refraction in `[1/4, 4]`.  This
    /// working range covers physical media (glass is near 1.5, diamond
    /// 2.4, and an inverted shell their reciprocals) and keeps the
    /// fixed-point refraction ratio `1 / ir` representable and within
    /// the bounds the refraction arithmetic is proved under.
    pub open spec fn wf(self) -> bool {
        16384 <= self.ir <= 262144
    }

    /// Builds a new Dielectric from an index of refraction.
    pub fn build(index_of_refraction: i64) -> (m: Self)
        requires
            16384 <= index_of_refraction <= 262144,
        ensures
            m == (Dielectric { ir: index_of_refraction }),
            m.wf(),
    {
        Self { ir: index_of_refraction }
    }

    /// The refraction ratio for a hit: `1 / ir` on the outward face,
    /// `ir` from inside.
    pub open spec fn ratio_spec(self, front_face: bool) -> int {
        if front_face {
            fx_div_spec(SCALE as int, self.ir as int)
        } else {
            self.ir as int
        }
    }

    /// Use Schlick's approximation for reflectance.
    pub fn reflectance(&self, cosine: i64, ref_idx: i64) -> (r: i64)
        requires
            -851969 <= cosine <= SCALE,
            0 < ref_idx <= 4 * SCALE as int,
        ensures
            r == schlick_spec(cosine as int, ref_idx as int),
            r >= 0,
    {
        proof {
            lemma_fx_div_unit_bound(65536 - ref_idx, 65536 + ref_idx);
            lemma_schlick_r0_range(ref_idx as int);
        }
        let a: i64 = fx_div(65536 - ref_idx, 65536 + ref_idx);
        proof {
            lemma_mul_bound(a as int, a as int, 65536);
            lemma_div_bound(a as int * a as int, 4294967296, 65536);
        }
        let r0: i64 = fx_mul(a, a);
        let p: i64 = 65536 - cosine;
        proof {
            lemma_fx_mul_monotone(983040, 983040, p as int, p as int);
        }
        let p2: i64 = fx_mul(p, p);
        proof {
            lemma_fx_mul_monotone(14745600, 14745600, p2 as int, p2 as int);
        }
        let p4: i64 = fx_mul(p2, p2);
        proof {
            lemma_fx_mul_monotone(3317760000, 983040, p4 as int, p as int);
        }
        let p5: i64 = fx_mul(p4, p);
        proof {
            lemma_fx_mul_monotone(131072, 49766400000, 65536 - r0 as int, p5 as int);
        }
        r0 + fx_mul(65536 - r0, p5)
    }

    /// Dielectric scattering: glass does not tint, and the outgoing
    /// direction is the reflection of the unit incident direction when
    /// total internal reflection forces it or a random draw falls below
    /// the Schlick reflectance, and its Snell refraction otherwise.
    pub fn scatter(&self, r_in: &Ray, rec: &HitRecord, attenuation: &mut Color,
        scattered: &mut Ray) -> (b: bool)
        requires
            self.wf(),
            rec.normal.bounded(4 * SCALE as int),
            r_in.dir.bounded(0x0080_0000_0000_0000),
            dot2(r_in.dir, r_in.dir) > 0,
        ensures
            b,
            *final(attenuation) == (Vec3 { x: 65536i64, y: 65536i64, z: 65536i64 }),
            final(scattered).orig == rec.p,
            final(scattered).dir.bounded(0x2_0000_0000),
            dielectric_dir_ok(*self, *r_in, rec.front_face, rec.normal, final(scattered).dir),
    {
        *attenuation = Vec3 { x: 65536, y: 65536, z: 65536 };
        proof {
            vstd::arithmetic::div_mod::lemma_div_is_ordered_by_denominator(4294967296,
                16384, self.ir as int);
            vstd::arithmetic::div_mod::lemma_div_is_ordered_by_denominator(4294967296,
                self.ir as int, 262144);
        }
        let refraction_ratio: i64 = if rec.front_face {
            fx_div(65536, self.ir)
        } else {
            self.ir
        };
        let ud = unit_vector(&r_in.direction());
        let nv = ud.neg();
        proof {
            assert(dot2(nv, rec.normal) == -dot2(ud, rec.normal)) by (nonlinear_arith)
                requires
                    nv.x == -ud.x && nv.y == -ud.y && nv.z == -ud.z,
                    dot2(nv, rec.normal) == crate::vec3::dot3(nv.x as int, nv.y as int,
                        nv.z as int, rec.normal.x as int, rec.normal.y as int,
                        rec.normal.z as int),
                    dot2(ud, rec.normal) == crate::vec3::dot3(ud.x as int, ud.y as int,
                        ud.z as int, rec.normal.x as int, rec.normal.y as int,
                        rec.normal.z as int);
            lemma_mul_bound2(nv.x as int, rec.normal.x as int, 65536, 262144);
            lemma_mul_bound2(nv.y as int, rec.normal.y as int, 65536, 262144);
            lemma_mul_bound2(nv.z as int, rec.normal.z as int, 65536, 262144);
            lemma_div_bound(dot2(nv, rec.normal), 51539607552, 65536);
        }
        let c0: i64 = dot(&nv, &rec.normal);
        let cos_theta: i64 = if c0 < 65536 { c0 } else { 65536 };
        proof {
            lemma_mul_bound(cos_theta as int, cos_theta as int, 851969);
            lemma_div_bound(cos_theta as int * cos_theta as int, 725931124861, 65536);
        }
        proof {
            assert(cos_theta as int * cos_theta as int >= 0) by (nonlinear_arith);
            vstd::arithmetic::div_mod::lemma_div_pos_is_pos(
                cos_theta as int * cos_theta as int, 65536);
        }
        let dsq: i64 = 65536 - fx_mul(cos_theta, cos_theta);
        let dcl: i64 = if dsq >= 0 { dsq } else { 0 };
        let sin_theta: i64 = fx_sqrt(dcl);
        proof {
            assert(sin_theta as int * sin_theta as int <= dcl as int * 65536);
            assert(sin_theta as int <= 65536) by (nonlinear_arith)
                requires
                    sin_theta as int * sin_theta as int <= 65536int * 65536,
                    sin_theta as int >= 0;
            lemma_mul_bound2(refraction_ratio as int, sin_theta as int, 262144, 65536);
            lemma_div_bound(refraction_ratio as int * sin_theta as int, 17179869184, 65536);
        }
        let cannot_refract: bool = fx_mul(refraction_ratio, sin_theta) > 65536;
        let draw: i64 = crate::random_scalar();
        let direction: Vec3 =
            if cannot_refract || self.reflectance(cos_theta, refraction_ratio) > draw {
                reflect(&ud, &rec.normal)
            } else {
                refract(&ud, &rec.normal, refraction_ratio)
            };
        *scattered = Ray { orig: rec.p, dir: direction };
        proof {
            assert(refract_cos(ud, rec.normal) == cos_theta as int);
        }
        true
    }
}

/// The sine used by the total-internal-reflection test:
/// `sqrt(1 - cos^2)`, with a negative radicand clamped to zero.
pub open spec fn dielectric_sin(ud: Vec3, n: Vec3) -> int {
    let c = refract_cos(ud, n);
    let d = SCALE as int - fx_mul_spec(c, c);
    let d0 = if d >= 0 { d } else { 0 };
    isqrt(d0 * SCALE as int)
}

impl Material {
    /// A valid material of any variant.
    pub open spec fn wf(self) -> bool {
        match self {
            Material::Lambertian(m) => m.wf(),
            Material::Metal(m) => m.wf(),
            Material::Dielectric(m) => m.wf(),
        }
    }

    /// Scatter an incoming ray at a hit: produce an attenuation and an
    /// outgoing ray, or report absorption.  The attenuation is the
    /// variant's albedo (white for glass), the outgoing ray starts at
    /// the hit point, and only a fuzzed metal reflection that falls
    /// into the surface is absorbed.
    pub fn scatter(&self, r_in: &Ray, rec: &HitRecord, attenuation: &mut Color,
        scattered: &mut Ray) -> (b: bool)
        requires
            self.wf(),
            rec.normal.bounded(4 * SCALE as int),
            r_in.dir.bounded(0x0080_0000_0000_0000),
            dot2(r_in.dir, r_in.dir) > 0,
        ensures
            color_wf(*final(attenuation)),
            *final(attenuation) == match *self {
                Material::Lambertian(m) => m.albedo,
                Material::Metal(m) => m.albedo,
                Material::Dielectric(_) => Vec3 { x: 65536i64, y: 65536i64, z: 65536i64 },
            },
            final(scattered).orig == rec.p,
            final(scattered).dir.bounded(0x4_0000_0000),
            b == match *self {
                Material::Metal(_) => dot2(final(scattered).dir, rec.normal) > 0,
                _ => true,
            },
            match *self {
                Material::Lambertian(_) => lambertian_dir_ok(rec.normal, final(scattered).dir)
                    && (rec.normal != (Vec3 { x: 0i64, y: 0i64, z: 0i64 })
                        ==> final(scattered).dir != (Vec3 { x: 0i64, y: 0i64, z: 0i64 })),
                Material::Metal(m) => metal_dir_ok(m, *r_in, rec.normal, final(scattered).dir),
                Material::Dielectric(m) => dielectric_dir_ok(m, *r_in, rec.front_face,
                    rec.normal, final(scattered).dir),
            },
    {
        match self {
            Material::Lambertian(m) => m.scatter(r_in, rec, attenuation, scattered),
            Material::Metal(m) => m.scatter(r_in, rec, attenuation, scattered),
            Material::Dielectric(m) => m.scatter(r_in, rec, attenuation, scattered),
        }
    }
}

} // verus!
