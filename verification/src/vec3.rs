//! Three-component fixed-point vectors, used for points, directions, and
//! RGB colors.

use vstd::prelude::*;
use crate::fixed::{fx_mul, fx_div, fx_mul_spec, fx_div_spec, is_isqrt, isqrt, SCALE};
use crate::fixed::{lemma_isqrt_exists, scale_down_spec, lemma_scale_down_odd,
    lemma_scale_down_bound};

verus! {

/// A vector of three fixed-point scalars.
#[derive(Clone, Copy, Debug, PartialEq, Eq, Structural)]
pub struct Vec3 {
    pub x: i64,
    pub y: i64,
    pub z: i64,
}

/// A spatial position.
pub type Point3 = Vec3;

/// An RGB color; `SCALE` is full intensity of a channel.
pub type Color = Vec3;

/// The dot product of two integer triples.
pub open spec fn dot3(ax: int, ay: int, az: int, bx: int, by: int, bz: int) -> int {
    ax * bx + ay * by + az * bz
}

/// The dot product of the raw components of two vectors; its scale is
/// `SCALE * SCALE`.
pub open spec fn dot2(a: Vec3, b: Vec3) -> int {
    dot3(a.x as int, a.y as int, a.z as int, b.x as int, b.y as int, b.z as int)
}

impl Vec3 {
    /// All components lie within `b` in magnitude.
    pub open spec fn bounded(self, b: int) -> bool {
        -b <= self.x <= b && -b <= self.y <= b && -b <= self.z <= b
    }

    /// Builds a new Vec3 from x, y, and z components.
    pub fn build(x: i64, y: i64, z: i64) -> (r: Self)
        ensures
            r == (Vec3 { x, y, z }),
    {
        Self { x, y, z }
    }

    /// Constructs the zero vector.
    pub fn new() -> (r: Self)
        ensures
            r == (Vec3 { x: 0i64, y: 0i64, z: 0i64 }),
    {
        Self { x: 0, y: 0, z: 0 }
    }

    /// Returns the x component.
    pub fn x(&self) -> (r: i64)
        ensures
            r == self.x,
    {
        self.x
    }

    /// Returns the y component.
    pub fn y(&self) -> (r: i64)
        ensures
            r == self.y,
    {
        self.y
    }

    /// Returns the z component.
    pub fn z(&self) -> (r: i64)
        ensures
            r == self.z,
    {
        self.z
    }

    /// Componentwise sum.
    pub fn add(self, rhs: Self) -> (r: Self)
        requires
            i64::MIN <= self.x + rhs.x <= i64::MAX,
            i64::MIN <= self.y + rhs.y <= i64::MAX,
            i64::MIN <= self.z + rhs.z <= i64::MAX,
        ensures
            r.x == self.x + rhs.x,
            r.y == self.y + rhs.y,
            r.z == self.z + rhs.z,
    {
        Self { x: self.x + rhs.x, y: self.y + rhs.y, z: self.z + rhs.z }
    }

    /// Componentwise difference.
    pub fn sub(self, rhs: Self) -> (r: Self)
        requires
            i64::MIN <= self.x - rhs.x <= i64::MAX,
            i64::MIN <= self.y - rhs.y <= i64::MAX,
            i64::MIN <= self.z - rhs.z <= i64::MAX,
        ensures
            r.x == self.x - rhs.x,
            r.y == self.y - rhs.y,
            r.z == self.z - rhs.z,
    {
        Self { x: self.x - rhs.x, y: self.y - rhs.y, z: self.z - rhs.z }
    }

    /// Componentwise negation.
    pub fn neg(self) -> (r: Self)
        requires
            self.bounded(i64::MAX as int),
        ensures
            r.x == -self.x,
            r.y == -self.y,
            r.z == -self.z,
    {
        Self { x: -self.x, y: -self.y, z: -self.z }
    }

    /// Componentwise fixed-point product, used for color tinting.
    pub fn mul(self, rhs: Self) -> (r: Self)
        requires
            i64::MIN <= fx_mul_spec(self.x as int, rhs.x as int) <= i64::MAX,
            i64::MIN <= fx_mul_spec(self.y as int, rhs.y as int) <= i64::MAX,
            i64::MIN <= fx_mul_spec(self.z as int, rhs.z as int) <= i64::MAX,
        ensures
            r.x == fx_mul_spec(self.x as int, rhs.x as int),
            r.y == fx_mul_spec(self.y as int, rhs.y as int),
            r.z == fx_mul_spec(self.z as int, rhs.z as int),
    {
        Self { x: fx_mul(self.x, rhs.x), y: fx_mul(self.y, rhs.y), z: fx_mul(self.z, rhs.z) }
    }

    /// The vector scaled by a fixed-point scalar.
    pub fn scale(self, t: i64) -> (r: Self)
        requires
            i64::MIN <= fx_mul_spec(self.x as int, t as int) <= i64::MAX,
            i64::MIN <= fx_mul_spec(self.y as int, t as int) <= i64::MAX,
            i64::MIN <= fx_mul_spec(self.z as int, t as int) <= i64::MAX,
        ensures
            r.x == fx_mul_spec(self.x as int, t as int),
            r.y == fx_mul_spec(self.y as int, t as int),
            r.z == fx_mul_spec(self.z as int, t as int),
    {
        Self { x: fx_mul(self.x, t), y: fx_mul(self.y, t), z: fx_mul(self.z, t) }
    }

    /// The vector divided by a fixed-point scalar.
    pub fn div(self, t: i64) -> (r: Self)
        requires
            t != 0,
            i64::MIN <= fx_div_spec(self.x as int, t as int) <= i64::MAX,
            i64::MIN <= fx_div_spec(self.y as int, t as int) <= i64::MAX,
            i64::MIN <= fx_div_spec(self.z as int, t as int) <= i64::MAX,
        ensures
            r.x == fx_div_spec(self.x as int, t as int),
            r.y == fx_div_spec(self.y as int, t as int),
            r.z == fx_div_spec(self.z as int, t as int),
    {
        Self { x: fx_div(self.x, t), y: fx_div(self.y, t), z: fx_div(self.z, t) }
    }

    /// The squared length, as a fixed-point scalar.
    pub fn length_squared(&self) -> (r: i64)
        requires
            self.bounded(0x40_0000_0000),
        ensures
            r == dot2(*self, *self) / SCALE as int,
            r >= 0,
    {
        dot(self, self)
    }

    /// The length: the integer square root of the raw squared length,
    /// which is again a fixed-point scalar.
    pub fn length(&self) -> (r: i64)
        requires
            self.bounded(0x0080_0000_0000_0000),
        ensures
            r == isqrt(dot2(*self, *self)),
            is_isqrt(dot2(*self, *self), r as int),
    {
        proof {
            lemma_dot2_self_nonneg(*self);
            assert((self.x as int) * (self.x as int) <= 0x0080_0000_0000_0000int * 0x0080_0000_0000_0000int)
                by (nonlinear_arith)
                requires -0x0080_0000_0000_0000 <= self.x as int <= 0x0080_0000_0000_0000;
            assert((self.y as int) * (self.y as int) <= 0x0080_0000_0000_0000int * 0x0080_0000_0000_0000int)
                by (nonlinear_arith)
                requires -0x0080_0000_0000_0000 <= self.y as int <= 0x0080_0000_0000_0000;
            assert((self.z as int) * (self.z as int) <= 0x0080_0000_0000_0000int * 0x0080_0000_0000_0000int)
                by (nonlinear_arith)
                requires -0x0080_0000_0000_0000 <= self.z as int <= 0x0080_0000_0000_0000;
        }
        let n: u128 = (self.x as i128 * self.x as i128
            + self.y as i128 * self.y as i128
            + self.z as i128 * self.z as i128) as u128;
        let r: u64 = crate::fixed::isqrt_u128(n);
        proof {
            assert((r as int) * (r as int) <= n as int);
            assert(n as int <= 3int * 0x0080_0000_0000_0000 * 0x0080_0000_0000_0000);
            assert(r as int <= 0x100_0000_0000_0000) by (nonlinear_arith)
                requires
                    (r as int) * (r as int) <= 3int * 0x0080_0000_0000_0000 * 0x0080_0000_0000_0000,
                    r as int >= 0;
        }
        r as i64
    }

    /// True when the vector is exactly zero: the fixed-point grid has no
    /// nonzero value below one raw unit.
    pub fn near_zero(&self) -> (r: bool)
        ensures
            r == (self.x == 0 && self.y == 0 && self.z == 0),
    {
        self.x == 0 && self.y == 0 && self.z == 0
    }
}

/// Every raw squared length is nonnegative.
pub proof fn lemma_dot2_self_nonneg(v: Vec3)
    ensures
        dot2(v, v) >= 0,
        (v.x as int) * (v.x as int) <= dot2(v, v),
        (v.y as int) * (v.y as int) <= dot2(v, v),
        (v.z as int) * (v.z as int) <= dot2(v, v),
{
    assert((v.x as int) * (v.x as int) >= 0) by (nonlinear_arith);
    assert((v.y as int) * (v.y as int) >= 0) by (nonlinear_arith);
    assert((v.z as int) * (v.z as int) >= 0) by (nonlinear_arith);
}

/// The dot product of two vectors, as a fixed-point scalar:
/// the exact raw dot product scaled back down by `SCALE`.
pub fn dot(lhs: &Vec3, rhs: &Vec3) -> (r: i64)
    requires
        lhs.bounded(0x40_0000_0000),
        rhs.bounded(0x40_0000_0000),
    ensures
        r == dot2(*lhs, *rhs) / SCALE as int,
        lhs == rhs ==> r >= 0,
{
    proof {
        lemma_mul_bound(lhs.x as int, rhs.x as int, 0x40_0000_0000);
        lemma_mul_bound(lhs.y as int, rhs.y as int, 0x40_0000_0000);
        lemma_mul_bound(lhs.z as int, rhs.z as int, 0x40_0000_0000);
    }
    let n: i128 = lhs.x as i128 * rhs.x as i128
        + lhs.y as i128 * rhs.y as i128
        + lhs.z as i128 * rhs.z as i128;
    let q: i128 = crate::fixed::floor_div_i128(n, 65536);
    proof {
        lemma_div_bound_symmetric(dot2(*lhs, *rhs), 3int * 0x40_0000_0000 * 0x40_0000_0000);
        if lhs == rhs {
            lemma_dot2_self_nonneg(*lhs);
            vstd::arithmetic::div_mod::lemma_div_pos_is_pos(dot2(*lhs, *rhs), SCALE as int);
        }
    }
    q as i64
}

/// `|a * b| <= m * m` when both factors lie within `m`.
pub proof fn lemma_mul_bound(a: int, b: int, m: int)
    requires
        -m <= a <= m,
        -m <= b <= m,
        m >= 0,
    ensures
        -(m * m) <= a * b <= m * m,
{
    assert(-(m * m) <= a * b <= m * m) by (nonlinear_arith)
        requires -m <= a <= m, -m <= b <= m, m >= 0;
}

/// Floor division of a value within `m` by a positive divisor lies
/// within `m / d`, up to the one unit the floor loses on the negative
/// side.
pub proof fn lemma_div_bound(n: int, m: int, d: int)
    requires
        -m <= n <= m,
        m >= 0,
        d > 0,
    ensures
        -(m / d) - 1 <= n / d <= m / d,
{
    vstd::arithmetic::div_mod::lemma_fundamental_div_mod(n, d);
    vstd::arithmetic::div_mod::lemma_fundamental_div_mod(m, d);
    assert(-(m / d) - 1 <= n / d <= m / d) by (nonlinear_arith)
        requires
            n == d * (n / d) + n % d,
            0 <= n % d < d,
            m == d * (m / d) + m % d,
            0 <= m % d < d,
            -m <= n <= m,
            m >= 0,
            d > 0,
    ;
}

/// Division by `SCALE` of a value within `m` lies within `m / SCALE`,
/// up to the one unit the floor can lose on the negative side.
pub proof fn lemma_div_bound_symmetric(n: int, m: int)
    requires
        -m <= n <= m,
        m >= 0,
    ensures
        -(m / SCALE as int) - 1 <= n / SCALE as int <= m / SCALE as int,
{
    lemma_div_bound(n, m, SCALE as int);
}

/// The cross product: each raw component is the exact raw product
/// difference scaled back down by `SCALE`, rounded toward zero so that
/// swapping the arguments negates the result exactly.
pub fn cross(lhs: &Vec3, rhs: &Vec3) -> (r: Vec3)
    requires
        lhs.bounded(0x40_0000_0000),
        rhs.bounded(0x40_0000_0000),
    ensures
        r.x == scale_down_spec(lhs.y * rhs.z - lhs.z * rhs.y),
        r.y == scale_down_spec(lhs.z * rhs.x - lhs.x * rhs.z),
        r.z == scale_down_spec(lhs.x * rhs.y - lhs.y * rhs.x),
{
    proof {
        lemma_mul_bound(lhs.y as int, rhs.z as int, 0x40_0000_0000);
        lemma_mul_bound(lhs.z as int, rhs.y as int, 0x40_0000_0000);
        lemma_mul_bound(lhs.z as int, rhs.x as int, 0x40_0000_0000);
        lemma_mul_bound(lhs.x as int, rhs.z as int, 0x40_0000_0000);
        lemma_mul_bound(lhs.x as int, rhs.y as int, 0x40_0000_0000);
        lemma_mul_bound(lhs.y as int, rhs.x as int, 0x40_0000_0000);
        lemma_scale_down_bound(lhs.y as int * rhs.z as int - lhs.z as int * rhs.y as int,
            2int * 0x40_0000_0000 * 0x40_0000_0000);
        lemma_scale_down_bound(lhs.z as int * rhs.x as int - lhs.x as int * rhs.z as int,
            2int * 0x40_0000_0000 * 0x40_0000_0000);
        lemma_scale_down_bound(lhs.x as int * rhs.y as int - lhs.y as int * rhs.x as int,
            2int * 0x40_0000_0000 * 0x40_0000_0000);
    }
    let cx: i128 = lhs.y as i128 * rhs.z as i128 - lhs.z as i128 * rhs.y as i128;
    let cy: i128 = lhs.z as i128 * rhs.x as i128 - lhs.x as i128 * rhs.z as i128;
    let cz: i128 = lhs.x as i128 * rhs.y as i128 - lhs.y as i128 * rhs.x as i128;
    Vec3 {
        x: scale_down_i128(cx) as i64,
        y: scale_down_i128(cy) as i64,
        z: scale_down_i128(cz) as i64,
    }
}

/// The symmetric scaling division on a bounded 128-bit value.
fn scale_down_i128(n: i128) -> (q: i128)
    requires
        -0x4000_0000_0000_0000_0000_0000_0000_0000 <= n
            <= 0x4000_0000_0000_0000_0000_0000_0000_0000,
    ensures
        q == scale_down_spec(n as int),
{
    if n >= 0 {
        crate::fixed::floor_div_i128(n, 65536)
    } else {
        proof {
            vstd::arithmetic::div_mod::lemma_div_pos_is_pos(-(n as int), 65536);
            vstd::arithmetic::div_mod::lemma_div_nonincreasing(-(n as int), 65536);
        }
        -crate::fixed::floor_div_i128(-n, 65536)
    }
}

/// The components of the unit vector of `v`: each raw component divided
/// by the integer length.
pub open spec fn unit_of(v: Vec3) -> (int, int, int) {
    let len = isqrt(dot2(v, v));
    (fx_div_spec(v.x as int, len), fx_div_spec(v.y as int, len), fx_div_spec(v.z as int, len))
}

/// Return the unit vector of a nonzero vector: each component divided
/// by the integer length.  The result lies within `SCALE` componentwise.
pub fn unit_vector(v: &Vec3) -> (r: Vec3)
    requires
        v.bounded(0x0080_0000_0000_0000),
        dot2(*v, *v) > 0,
    ensures
        r.x == unit_of(*v).0,
        r.y == unit_of(*v).1,
        r.z == unit_of(*v).2,
        r.bounded(SCALE as int),
{
    let len: i64 = v.length();
    proof {
        lemma_dot2_self_nonneg(*v);
        if len == 0 {
            assert(dot2(*v, *v) < (0 + 1) * (0 + 1));
        }
        lemma_unit_component_bound(v.x as int, dot2(*v, *v), len as int);
        lemma_unit_component_bound(v.y as int, dot2(*v, *v), len as int);
        lemma_unit_component_bound(v.z as int, dot2(*v, *v), len as int);
    }
    Vec3 { x: fx_div(v.x, len), y: fx_div(v.y, len), z: fx_div(v.z, len) }
}

/// A component of a vector divided by the vector's integer length lies
/// within `SCALE`.
proof fn lemma_unit_component_bound(c: int, n: int, len: int)
    requires
        c * c <= n,
        is_isqrt(n, len),
        len >= 1,
    ensures
        -(SCALE as int) <= fx_div_spec(c, len) <= SCALE as int,
{
    let s = SCALE as int;
    assert(-len <= c <= len) by (nonlinear_arith)
        requires c * c <= n, n < (len + 1) * (len + 1), len >= 1;
    assert(-(len * s) <= c * s <= len * s) by (nonlinear_arith)
        requires -len <= c <= len, s > 0, len >= 1;
    vstd::arithmetic::div_mod::lemma_div_is_ordered(c * s, len * s, len);
    vstd::arithmetic::div_mod::lemma_div_is_ordered(-(len * s), c * s, len);
    vstd::arithmetic::div_mod::lemma_div_multiples_vanish(s, len);
    vstd::arithmetic::div_mod::lemma_div_multiples_vanish(-s, len);
    assert(len * s == s * len == -(len * -s));
}

/// Returns the reflection of `v` about the normal `n`:
/// `v - 2 * dot(v, n) * n`, with one floor division by `SCALE^2` per
/// component.
pub open spec fn reflect_comp(vi: int, d2: int, ni: int) -> int {
    vi - (2 * d2 * ni) / (SCALE as int * SCALE as int)
}

/// `|a * b| <= ma * mb` when the factors lie within `ma` and `mb`.
pub proof fn lemma_mul_bound2(a: int, b: int, ma: int, mb: int)
    requires
        -ma <= a <= ma,
        -mb <= b <= mb,
        ma >= 0,
        mb >= 0,
    ensures
        -(ma * mb) <= a * b <= ma * mb,
{
    assert(-(ma * mb) <= a * b <= ma * mb) by (nonlinear_arith)
        requires -ma <= a <= ma, -mb <= b <= mb, ma >= 0, mb >= 0;
}

/// Returns the reflected direction for mirror-like surfaces.
pub fn reflect(v: &Vec3, n: &Vec3) -> (r: Vec3)
    requires
        v.bounded(16 * SCALE as int),
        n.bounded(16 * SCALE as int),
    ensures
        r.x == reflect_comp(v.x as int, dot2(*v, *n), n.x as int),
        r.y == reflect_comp(v.y as int, dot2(*v, *n), n.y as int),
        r.z == reflect_comp(v.z as int, dot2(*v, *n), n.z as int),
        r.bounded(0x1_0000_0000),
{
    proof {
        lemma_mul_bound(v.x as int, n.x as int, 1048576);
        lemma_mul_bound(v.y as int, n.y as int, 1048576);
        lemma_mul_bound(v.z as int, n.z as int, 1048576);
        lemma_mul_bound2(2 * dot2(*v, *n), n.x as int, 6int * 1048576 * 1048576, 1048576);
        lemma_mul_bound2(2 * dot2(*v, *n), n.y as int, 6int * 1048576 * 1048576, 1048576);
        lemma_mul_bound2(2 * dot2(*v, *n), n.z as int, 6int * 1048576 * 1048576, 1048576);
        lemma_div_bound(2 * dot2(*v, *n) * n.x, 6int * 1048576 * 1048576 * 1048576,
            SCALE as int * SCALE as int);
        lemma_div_bound(2 * dot2(*v, *n) * n.y, 6int * 1048576 * 1048576 * 1048576,
            SCALE as int * SCALE as int);
        lemma_div_bound(2 * dot2(*v, *n) * n.z, 6int * 1048576 * 1048576 * 1048576,
            SCALE as int * SCALE as int);
    }
    let d2: i128 = v.x as i128 * n.x as i128 + v.y as i128 * n.y as i128
        + v.z as i128 * n.z as i128;
    let tx: i128 = crate::fixed::floor_div_i128(2 * d2 * (n.x as i128), 4294967296);
    let ty: i128 = crate::fixed::floor_div_i128(2 * d2 * (n.y as i128), 4294967296);
    let tz: i128 = crate::fixed::floor_div_i128(2 * d2 * (n.z as i128), 4294967296);
    Vec3 {
        x: v.x - tx as i64,
        y: v.y - ty as i64,
        z: v.z - tz as i64,
    }
}

/// The cosine used by refraction: `min(-uv . n, 1)`, as a fixed-point
/// scalar.
pub open spec fn refract_cos(uv: Vec3, n: Vec3) -> int {
    let c0 = (-dot2(uv, n)) / (SCALE as int);
    if c0 < SCALE as int { c0 } else { SCALE as int }
}

/// The perpendicular part of the refracted direction:
/// `eta * (uv + cos * n)`, componentwise in fixed point.
pub open spec fn refract_perp(uv: Vec3, n: Vec3, eta: int) -> (int, int, int) {
    let c = refract_cos(uv, n);
    (fx_mul_spec(uv.x + fx_mul_spec(n.x as int, c), eta),
        fx_mul_spec(uv.y + fx_mul_spec(n.y as int, c), eta),
        fx_mul_spec(uv.z + fx_mul_spec(n.z as int, c), eta))
}

/// The refracted direction by Snell's law: the perpendicular part plus
/// `-sqrt(|1 - |perp|^2|) * n`.
pub open spec fn refract_spec(uv: Vec3, n: Vec3, eta: int) -> (int, int, int) {
    let p = refract_perp(uv, n, eta);
    let pls = dot3(p.0, p.1, p.2, p.0, p.1, p.2) / (SCALE as int);
    let d = if SCALE as int - pls >= 0 { SCALE as int - pls } else { pls - SCALE as int };
    let f = isqrt(d * SCALE as int);
    (p.0 + fx_mul_spec(n.x as int, -f),
        p.1 + fx_mul_spec(n.y as int, -f),
        p.2 + fx_mul_spec(n.z as int, -f))
}

/// Returns the refracted direction for a unit incident direction `uv`,
/// a unit-scale normal `n`, and the ratio of refractive indices.
pub fn refract(uv: &Vec3, n: &Vec3, etai_over_etat: i64) -> (r: Vec3)
    requires
        uv.bounded(2 * SCALE as int),
        n.bounded(4 * SCALE as int),
        0 < etai_over_etat <= 4 * SCALE as int,
    ensures
        r.x == refract_spec(*uv, *n, etai_over_etat as int).0,
        r.y == refract_spec(*uv, *n, etai_over_etat as int).1,
        r.z == refract_spec(*uv, *n, etai_over_etat as int).2,
        r.bounded(0x1_0000_0000),
{
    let nv = uv.neg();
    proof {
        assert(dot2(nv, *n) == -dot2(*uv, *n)) by (nonlinear_arith)
            requires
                nv.x == -uv.x && nv.y == -uv.y && nv.z == -uv.z,
                dot2(nv, *n) == dot3(nv.x as int, nv.y as int, nv.z as int,
                    n.x as int, n.y as int, n.z as int),
                dot2(*uv, *n) == dot3(uv.x as int, uv.y as int, uv.z as int,
                    n.x as int, n.y as int, n.z as int);
        lemma_mul_bound2(nv.x as int, n.x as int, 131072, 262144);
        lemma_mul_bound2(nv.y as int, n.y as int, 131072, 262144);
        lemma_mul_bound2(nv.z as int, n.z as int, 131072, 262144);
        lemma_div_bound(dot2(nv, *n), 103079215104, 65536);
    }
    let c0: i64 = dot(&nv, n);
    let cos_t: i64 = if c0 < 65536 { c0 } else { 65536 };
    proof {
        lemma_mul_bound2(n.x as int, cos_t as int, 262144, 1638400);
        lemma_mul_bound2(n.y as int, cos_t as int, 262144, 1638400);
        lemma_mul_bound2(n.z as int, cos_t as int, 262144, 1638400);
        lemma_div_bound(n.x as int * cos_t as int, 429496729600, 65536);
        lemma_div_bound(n.y as int * cos_t as int, 429496729600, 65536);
        lemma_div_bound(n.z as int * cos_t as int, 429496729600, 65536);
    }
    let inner = uv.add(n.scale(cos_t));
    proof {
        lemma_mul_bound2(inner.x as int, etai_over_etat as int, 6815744, 262144);
        lemma_mul_bound2(inner.y as int, etai_over_etat as int, 6815744, 262144);
        lemma_mul_bound2(inner.z as int, etai_over_etat as int, 6815744, 262144);
        lemma_div_bound(inner.x as int * etai_over_etat as int, 1786706395136, 65536);
        lemma_div_bound(inner.y as int * etai_over_etat as int, 1786706395136, 65536);
        lemma_div_bound(inner.z as int * etai_over_etat as int, 1786706395136, 65536);
    }
    let perp = inner.scale(etai_over_etat);
    let pls: i64 = perp.length_squared();
    proof {
        lemma_mul_bound(perp.x as int, perp.x as int, 27328512);
        lemma_mul_bound(perp.y as int, perp.y as int, 27328512);
        lemma_mul_bound(perp.z as int, perp.z as int, 27328512);
        lemma_div_bound(dot2(perp, perp), 2240542704402432, 65536);
    }
    let d: i64 = if 65536 - pls >= 0 { 65536 - pls } else { pls - 65536 };
    let sq: i64 = crate::fixed::fx_sqrt(d);
    proof {
        assert(sq as int * sq as int <= d as int * 65536);
        assert(sq as int <= 67108864) by (nonlinear_arith)
            requires
                sq as int * sq as int <= 39321600001int * 65536,
                sq as int >= 0;
        lemma_mul_bound2(n.x as int, -(sq as int), 262144, 67108864);
        lemma_mul_bound2(n.y as int, -(sq as int), 262144, 67108864);
        lemma_mul_bound2(n.z as int, -(sq as int), 262144, 67108864);
        lemma_div_bound(n.x as int * -(sq as int), 17592186044416, 65536);
        lemma_div_bound(n.y as int * -(sq as int), 17592186044416, 65536);
        lemma_div_bound(n.z as int * -(sq as int), 17592186044416, 65536);
    }
    let r = perp.add(n.scale(-sq));
    r
}

/// Returns a random vector with each component in `[0, 1)`.
pub fn random_vec3() -> (r: Vec3)
    ensures
        0 <= r.x < SCALE,
        0 <= r.y < SCALE,
        0 <= r.z < SCALE,
{
    Vec3 {
        x: crate::random_scalar(),
        y: crate::random_scalar(),
        z: crate::random_scalar(),
    }
}

/// Returns a random vector with each component in `[min, max)`.
pub fn random_vec3_in_range(min: i64, max: i64) -> (r: Vec3)
    requires
        min < max,
        max - min <= 0x1_0000_0000,
    ensures
        min <= r.x < max,
        min <= r.y < max,
        min <= r.z < max,
{
    Vec3 {
        x: crate::random_scalar_in(min, max),
        y: crate::random_scalar_in(min, max),
        z: crate::random_scalar_in(min, max),
    }
}

/// Returns a random vector within the unit disk in the `z = 0` plane,
/// by bounded rejection sampling; an exhausted draw budget yields the
/// disk's center.
pub fn random_vec3_in_unit_disk() -> (r: Vec3)
    ensures
        dot2(r, r) < SCALE as int * SCALE as int,
        r.z == 0,
        r.bounded(SCALE as int),
{
    let mut tries: u32 = 0;
    while tries < 64
        invariant
            tries <= 64,
        decreases 64 - tries,
    {
        let p = Vec3 {
            x: crate::random_scalar_in(-65536, 65536),
            y: crate::random_scalar_in(-65536, 65536),
            z: 0,
        };
        let ls: i64 = p.length_squared();
        if ls < 65536 {
            proof {
                vstd::arithmetic::div_mod::lemma_fundamental_div_mod(dot2(p, p), SCALE as int);
            }
            return p;
        }
        tries = tries + 1;
    }
    Vec3 { x: 0, y: 0, z: 0 }
}

/// Returns a random vector within the unit sphere, by bounded rejection
/// sampling; an exhausted draw budget yields the center.
pub fn random_vec3_in_unit_sphere() -> (r: Vec3)
    ensures
        dot2(r, r) < SCALE as int * SCALE as int,
        r.bounded(SCALE as int),
{
    let mut tries: u32 = 0;
    while tries < 64
        invariant
            tries <= 64,
        decreases 64 - tries,
    {
        let p = random_vec3_in_range(-65536, 65536);
        let ls: i64 = p.length_squared();
        if ls < 65536 {
            proof {
                vstd::arithmetic::div_mod::lemma_fundamental_div_mod(dot2(p, p), SCALE as int);
            }
            return p;
        }
        tries = tries + 1;
    }
    Vec3 { x: 0, y: 0, z: 0 }
}

/// Return a random vector on (up to rounding) the surface of the unit
/// sphere, for Lambertian reflection: a draw from the cube is accepted
/// when its length lies in `[1/2, 1)` -- smaller samples, which the
/// grid cannot normalize accurately, are redrawn -- and normalized; an
/// exhausted draw budget falls back to the `x` axis.  The result is
/// never zero and its squared length lies within a few grid steps of
/// one.
pub fn random_unit_vector() -> (r: Vec3)
    ensures
        r.bounded(SCALE as int),
        SCALE as int * SCALE as int - 6 * SCALE as int - 3 <= dot2(r, r)
            <= SCALE as int * SCALE as int + 10 * SCALE as int,
        r != (Vec3 { x: 0i64, y: 0i64, z: 0i64 }),
        r == (Vec3 { x: 65536i64, y: 0i64, z: 0i64 }) || exists|p: Vec3|
            #[trigger] p.bounded(SCALE as int)
            && 1073741824 <= dot2(p, p) < SCALE as int * SCALE as int
            && r.x == unit_of(p).0 && r.y == unit_of(p).1 && r.z == unit_of(p).2,
{
    let mut tries: u32 = 0;
    while tries < 64
        invariant
            tries <= 64,
        decreases 64 - tries,
    {
        let p = random_vec3_in_range(-65536, 65536);
        let ls: i64 = p.length_squared();
        if 16384 <= ls && ls < 65536 {
            proof {
                vstd::arithmetic::div_mod::lemma_fundamental_div_mod(dot2(p, p),
                    SCALE as int);
            }
            let u = unit_vector(&p);
            proof {
                lemma_unit_vector_near_unit_length(p);
                assert(dot2(u, u)
                    == dot3(unit_of(p).0, unit_of(p).1, unit_of(p).2,
                        unit_of(p).0, unit_of(p).1, unit_of(p).2));
                if u.x == 0 && u.y == 0 && u.z == 0 {
                    assert(dot2(u, u) == 0) by (nonlinear_arith)
                        requires u.x == 0 && u.y == 0 && u.z == 0,
                        dot2(u, u) == dot3(u.x as int, u.y as int, u.z as int,
                            u.x as int, u.y as int, u.z as int);
                }
                assert(p.bounded(SCALE as int));
            }
            return u;
        }
        tries = tries + 1;
    }
    proof {
        assert(dot2(Vec3 { x: 65536i64, y: 0i64, z: 0i64 },
            Vec3 { x: 65536i64, y: 0i64, z: 0i64 }) == 4294967296);
    }
    Vec3 { x: 65536, y: 0, z: 0 }
}

/// Returns a random vector in the hemisphere around `normal`: a unit
/// sphere sample, mirrored when it points against the normal.
pub fn random_vec3_on_hemisphere(normal: &Vec3) -> (r: Vec3)
    requires
        normal.bounded(0x40_0000_0000),
    ensures
        r.bounded(SCALE as int),
        dot2(r, *normal) >= 0,
        dot2(r, r) < SCALE as int * SCALE as int,
        exists|p: Vec3| #[trigger] p.bounded(SCALE as int)
            && dot2(p, p) < SCALE as int * SCALE as int
            && ((r.x == p.x && r.y == p.y && r.z == p.z)
                || (r.x == -p.x && r.y == -p.y && r.z == -p.z)),
{
    let p = random_vec3_in_unit_sphere();
    proof {
        lemma_mul_bound2(p.x as int, normal.x as int, SCALE as int, 0x40_0000_0000);
        lemma_mul_bound2(p.y as int, normal.y as int, SCALE as int, 0x40_0000_0000);
        lemma_mul_bound2(p.z as int, normal.z as int, SCALE as int, 0x40_0000_0000);
    }
    let d2: i128 = p.x as i128 * normal.x as i128 + p.y as i128 * normal.y as i128
        + p.z as i128 * normal.z as i128;
    if d2 >= 0 {
        p
    } else {
        let q = p.neg();
        proof {
            assert(dot2(q, *normal) == -dot2(p, *normal) && dot2(q, q) == dot2(p, p))
                by (nonlinear_arith)
                requires
                    q.x == -p.x && q.y == -p.y && q.z == -p.z,
                    dot2(q, *normal) == dot3(q.x as int, q.y as int, q.z as int,
                        normal.x as int, normal.y as int, normal.z as int),
                    dot2(p, *normal) == dot3(p.x as int, p.y as int, p.z as int,
                        normal.x as int, normal.y as int, normal.z as int),
                    dot2(q, q) == dot3(q.x as int, q.y as int, q.z as int,
                        q.x as int, q.y as int, q.z as int),
                    dot2(p, p) == dot3(p.x as int, p.y as int, p.z as int,
                        p.x as int, p.y as int, p.z as int);
        }
        q
    }
}

/// One output pixel: three display-range channel values.
#[derive(Clone, Copy, Debug, PartialEq, Eq, Structural)]
pub struct Rgb {
    pub r: u8,
    pub g: u8,
    pub b: u8,
}

/// Converts from linear space to gamma space by taking the square root
/// of the linear component.
pub fn linear_to_gamma(linear_component: i64) -> (r: i64)
    requires
        linear_component >= 0,
    ensures
        r == isqrt(linear_component * SCALE as int),
{
    crate::fixed::fx_sqrt(linear_component)
}

/// The display value of one channel: the accumulated sample sum is
/// averaged, clamped to `[0, 0.999]` after gamma correction, and
/// scaled to `[0, 255]`.
pub open spec fn channel_out(sum: int, n: int) -> int {
    let sc = if sum >= 0 { sum } else { 0 };
    let c = sc / n;
    let g = isqrt(c * SCALE as int);
    let cl = if g > 65470 { 65470 } else { g };
    (256 * cl) / SCALE as int
}

/// For writing pixels out, averages an accumulated color over its
/// sample count and gamma-corrects each channel into `[0, 255]`.
pub fn write_color(pixel_color: &Color, samples_per_pixel: i32) -> (out: Rgb)
    requires
        samples_per_pixel > 0,
    ensures
        out.r == channel_out(pixel_color.x as int, samples_per_pixel as int),
        out.g == channel_out(pixel_color.y as int, samples_per_pixel as int),
        out.b == channel_out(pixel_color.z as int, samples_per_pixel as int),
{
    Rgb {
        r: write_channel(pixel_color.x, samples_per_pixel),
        g: write_channel(pixel_color.y, samples_per_pixel),
        b: write_channel(pixel_color.z, samples_per_pixel),
    }
}

/// One channel of `write_color`.
fn write_channel(sum: i64, n: i32) -> (out: u8)
    requires
        n > 0,
    ensures
        out == channel_out(sum as int, n as int),
{
    let sc: i64 = if sum >= 0 { sum } else { 0 };
    let c: i128 = crate::fixed::floor_div_i128(sc as i128, n as i128);
    proof {
        vstd::arithmetic::div_mod::lemma_div_pos_is_pos(sc as int, n as int);
        vstd::arithmetic::div_mod::lemma_div_nonincreasing(sc as int, n as int);
    }
    let g: i64 = crate::fixed::fx_sqrt(c as i64);
    let cl: i64 = if g > 65470 { 65470 } else { g };
    proof {
        assert(g >= 0);
        vstd::arithmetic::div_mod::lemma_div_pos_is_pos(256 * cl, SCALE as int);
        vstd::arithmetic::div_mod::lemma_div_is_ordered(256 * cl, 256int * 65470, 65536);
    }
    let v: u64 = (256 * cl) as u64 / 65536;
    v as u8
}

/// Tests at run time that every component lies within `b`.
pub fn check_bounded(v: &Vec3, b: i64) -> (r: bool)
    requires
        b >= 0,
    ensures
        r == v.bounded(b as int),
{
    -b <= v.x && v.x <= b && -b <= v.y && v.y <= b && -b <= v.z && v.z <= b
}

/// One component's contribution to the unit vector's squared length,
/// written through the division's quotient and remainder.
proof fn lemma_unit_sq_decomp(c: int, s: int, len: int, r: int, e: int)
    requires
        c * s == len * r + e,
    ensures
        (len * len) * (r * r) == (c * c) * (s * s) - 2 * ((len * r) * e) - e * e,
{
    assert((len * r + e) * (len * r + e)
        == (len * len) * (r * r) + 2 * ((len * r) * e) + e * e) by (nonlinear_arith);
    assert((c * s) * (c * s) == (c * c) * (s * s)) by (nonlinear_arith);
}

/// Normalizing lands on the unit sphere up to rounding: for a vector
/// at least half a unit long, the squared length of its unit vector
/// lies within a few grid steps of one.
pub proof fn lemma_unit_vector_near_unit_length(v: Vec3)
    requires
        dot2(v, v) >= 1073741824,
    ensures
        ({
            let u = unit_of(v);
            let uu = dot3(u.0, u.1, u.2, u.0, u.1, u.2);
            SCALE as int * SCALE as int - 6 * SCALE as int - 3 <= uu
                <= SCALE as int * SCALE as int + 10 * SCALE as int
        }),
{
    let s = SCALE as int;
    let n = dot2(v, v);
    lemma_dot2_self_nonneg(v);
    lemma_isqrt_exists(n);
    let len = isqrt(n);
    assert(2 * len >= s) by (nonlinear_arith)
        requires is_isqrt(n, len), n >= 1073741824, s == 65536;
    let c1 = v.x as int;
    let c2 = v.y as int;
    let c3 = v.z as int;
    lemma_unit_component_bound(c1, n, len);
    lemma_unit_component_bound(c2, n, len);
    lemma_unit_component_bound(c3, n, len);
    let r1 = fx_div_spec(c1, len);
    let r2 = fx_div_spec(c2, len);
    let r3 = fx_div_spec(c3, len);
    vstd::arithmetic::div_mod::lemma_fundamental_div_mod(c1 * s, len);
    vstd::arithmetic::div_mod::lemma_fundamental_div_mod(c2 * s, len);
    vstd::arithmetic::div_mod::lemma_fundamental_div_mod(c3 * s, len);
    let e1 = (c1 * s) % len;
    let e2 = (c2 * s) % len;
    let e3 = (c3 * s) % len;
    lemma_unit_sq_decomp(c1, s, len, r1, e1);
    lemma_unit_sq_decomp(c2, s, len, r2, e2);
    lemma_unit_sq_decomp(c3, s, len, r3, e3);
    let uu = dot3(r1, r2, r3, r1, r2, r3);
    assert((len * len) * uu == (len * len) * (r1 * r1) + (len * len) * (r2 * r2)
        + (len * len) * (r3 * r3)) by (nonlinear_arith)
        requires uu == r1 * r1 + r2 * r2 + r3 * r3;
    assert((c1 * c1) * (s * s) + (c2 * c2) * (s * s) + (c3 * c3) * (s * s)
        == n * (s * s)) by (nonlinear_arith)
        requires n == c1 * c1 + c2 * c2 + c3 * c3;
    assert(-(s * (len * len)) <= (len * r1) * e1 <= s * (len * len)) by (nonlinear_arith)
        requires -s <= r1 <= s, 0 <= e1 < len, len >= 1;
    assert(-(s * (len * len)) <= (len * r2) * e2 <= s * (len * len)) by (nonlinear_arith)
        requires -s <= r2 <= s, 0 <= e2 < len, len >= 1;
    assert(-(s * (len * len)) <= (len * r3) * e3 <= s * (len * len)) by (nonlinear_arith)
        requires -s <= r3 <= s, 0 <= e3 < len, len >= 1;
    assert(0 <= e1 * e1 <= len * len) by (nonlinear_arith) requires 0 <= e1 < len;
    assert(0 <= e2 * e2 <= len * len) by (nonlinear_arith) requires 0 <= e2 < len;
    assert(0 <= e3 * e3 <= len * len) by (nonlinear_arith) requires 0 <= e3 < len;
    assert(len * len <= n && n * (s * s) <= (len * len) * (s * s) + (2 * s) * (s * len))
        by (nonlinear_arith)
        requires is_isqrt(n, len), s >= 1;
    assert((len * len) * (s * s) <= n * (s * s)) by (nonlinear_arith)
        requires len * len <= n, s >= 1;
    assert((2 * s) * (s * len) <= 4 * (s * (len * len))) by (nonlinear_arith)
        requires s <= 2 * len, s >= 1, len >= 1;
    assert((len * len) * uu >= (len * len) * (s * s - 6 * s - 3)
        && (len * len) * uu <= (len * len) * (s * s + 10 * s)) by (nonlinear_arith)
        requires
            (len * len) * uu >= (len * len) * (s * s) - 6 * (s * (len * len))
                - 3 * (len * len),
            (len * len) * uu <= (len * len) * (s * s) + 4 * (s * (len * len))
                + 6 * (s * (len * len)),
            len >= 1,
            s == 65536,
    ;
    assert(s * s - 6 * s - 3 <= uu <= s * s + 10 * s) by (nonlinear_arith)
        requires
            (len * len) * uu >= (len * len) * (s * s - 6 * s - 3),
            (len * len) * uu <= (len * len) * (s * s + 10 * s),
            len >= 1;
}

/// The dot product is symmetric in its arguments.
pub proof fn lemma_dot_symmetric(a: Vec3, b: Vec3)
    ensures
        dot2(a, b) == dot2(b, a),
{
    assert(dot2(a, b) == dot2(b, a)) by (nonlinear_arith)
        requires
            dot2(a, b) == dot3(a.x as int, a.y as int, a.z as int, b.x as int, b.y as int,
                b.z as int),
            dot2(b, a) == dot3(b.x as int, b.y as int, b.z as int, a.x as int, a.y as int,
                a.z as int);
}

/// The cross product is anti-commutative, exactly: swapping the
/// arguments negates every component, before and after the symmetric
/// scaling division.
pub proof fn lemma_cross_antisymmetric(a: Vec3, b: Vec3)
    ensures
        a.y * b.z - a.z * b.y == -(b.y * a.z - b.z * a.y),
        a.z * b.x - a.x * b.z == -(b.z * a.x - b.x * a.z),
        a.x * b.y - a.y * b.x == -(b.x * a.y - b.y * a.x),
        scale_down_spec(a.y * b.z - a.z * b.y) == -scale_down_spec(b.y * a.z - b.z * a.y),
        scale_down_spec(a.z * b.x - a.x * b.z) == -scale_down_spec(b.z * a.x - b.x * a.z),
        scale_down_spec(a.x * b.y - a.y * b.x) == -scale_down_spec(b.x * a.y - b.y * a.x),
{
    assert(a.y * b.z == b.z * a.y && a.z * b.y == b.y * a.z && a.z * b.x == b.x * a.z
        && a.x * b.z == b.z * a.x && a.x * b.y == b.y * a.x && a.y * b.x == b.x * a.y)
        by (nonlinear_arith);
    lemma_scale_down_odd(b.y * a.z - b.z * a.y);
    lemma_scale_down_odd(b.z * a.x - b.x * a.z);
    lemma_scale_down_odd(b.x * a.y - b.y * a.x);
}

/// Expands the square of one component of a scale-free reflection.
proof fn lemma_reflect_square_expand(nn: int, d: int, vi: int, ni: int, w: int)
    requires
        w == nn * vi - 2 * d * ni,
    ensures
        w * w == nn * nn * (vi * vi) - 4 * nn * d * (vi * ni) + 4 * (d * d) * (ni * ni),
{
    assert(w * w == (nn * vi) * (nn * vi) - 2 * ((nn * vi) * (2 * d * ni))
        + (2 * d * ni) * (2 * d * ni)) by (nonlinear_arith)
        requires w == nn * vi - 2 * d * ni;
    assert((nn * vi) * (nn * vi) == nn * nn * (vi * vi)) by (nonlinear_arith);
    assert((nn * vi) * (2 * d * ni) == 2 * nn * d * (vi * ni)) by (nonlinear_arith);
    assert((2 * d * ni) * (2 * d * ni) == 4 * (d * d) * (ni * ni)) by (nonlinear_arith);
    assert(2 * (2 * nn * d * (vi * ni)) == 4 * nn * d * (vi * ni)) by (nonlinear_arith);
}

/// Reflection about a normal preserves squared length and mirrors the
/// angle against the normal.  With `nn = |n|^2` and `d = v . n`, the
/// scale-free reflection `w = nn * v - 2 * d * n` satisfies
/// `|w|^2 == nn^2 * |v|^2` and `w . n == -(nn * d)`: the angle of
/// incidence equals the angle of reflection.
pub proof fn lemma_reflect_preserves_length(v: Vec3, n: Vec3)
    ensures
        ({
            let nn = dot2(n, n);
            let d = dot2(v, n);
            let wx = nn * v.x - 2 * d * n.x;
            let wy = nn * v.y - 2 * d * n.y;
            let wz = nn * v.z - 2 * d * n.z;
            dot3(wx, wy, wz, wx, wy, wz) == nn * nn * dot2(v, v)
                && dot3(wx, wy, wz, n.x as int, n.y as int, n.z as int) == -(nn * d)
        }),
{
    let nn = dot2(n, n);
    let d = dot2(v, n);
    let vx = v.x as int;
    let vy = v.y as int;
    let vz = v.z as int;
    let nx = n.x as int;
    let ny = n.y as int;
    let nz = n.z as int;
    let wx = nn * v.x - 2 * d * n.x;
    let wy = nn * v.y - 2 * d * n.y;
    let wz = nn * v.z - 2 * d * n.z;
    lemma_reflect_square_expand(nn, d, vx, nx, wx);
    lemma_reflect_square_expand(nn, d, vy, ny, wy);
    lemma_reflect_square_expand(nn, d, vz, nz, wz);
    assert(nn * nn * (vx * vx) + nn * nn * (vy * vy) + nn * nn * (vz * vz)
        == nn * nn * dot2(v, v)) by (nonlinear_arith)
        requires dot2(v, v) == vx * vx + vy * vy + vz * vz;
    assert(4 * nn * d * (vx * nx) + 4 * nn * d * (vy * ny) + 4 * nn * d * (vz * nz)
        == 4 * nn * (d * d)) by (nonlinear_arith)
        requires d == vx * nx + vy * ny + vz * nz;
    assert(4 * (d * d) * (nx * nx) + 4 * (d * d) * (ny * ny) + 4 * (d * d) * (nz * nz)
        == 4 * nn * (d * d)) by (nonlinear_arith)
        requires nn == nx * nx + ny * ny + nz * nz;
    assert(wx * nx == nn * (vx * nx) - 2 * d * (nx * nx)) by (nonlinear_arith)
        requires wx == nn * vx - 2 * d * nx;
    assert(wy * ny == nn * (vy * ny) - 2 * d * (ny * ny)) by (nonlinear_arith)
        requires wy == nn * vy - 2 * d * ny;
    assert(wz * nz == nn * (vz * nz) - 2 * d * (nz * nz)) by (nonlinear_arith)
        requires wz == nn * vz - 2 * d * nz;
    assert(nn * (vx * nx) + nn * (vy * ny) + nn * (vz * nz) == nn * d) by (nonlinear_arith)
        requires d == vx * nx + vy * ny + vz * nz;
    assert(2 * d * (nx * nx) + 2 * d * (ny * ny) + 2 * d * (nz * nz) == 2 * (nn * d))
        by (nonlinear_arith)
        requires nn == nx * nx + ny * ny + nz * nz;
}

} // verus!
