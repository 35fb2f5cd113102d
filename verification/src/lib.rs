//! A stochastic path tracer over fixed-point arithmetic.
//!
//! Rays are cast through a configurable camera into a scene of spheres
//! with diffuse, metallic, and dielectric materials; radiance is gathered
//! by a depth-bounded recursive integrator.  Every scalar is an `i64`
//! holding the real value times `fixed::SCALE`, so all geometry and
//! shading is exact integer arithmetic with stated rounding.

use vstd::prelude::*;

pub mod camera;
pub mod fixed;
pub mod hittable;
pub mod hittable_list;
pub mod material;
pub mod ray;
pub mod sphere;
pub mod vec3;

verus! {

/// Relies on `rand::Rng::gen_range` on the thread-local generator:
/// the draw lies within the half-open range it is given.
#[verifier::external_body]
fn random_below(bound: u64) -> (r: u64)
    requires
        bound > 0,
    ensures
        r < bound,
{
    rand::Rng::gen_range(&mut rand::thread_rng(), 0..bound)
}

/// A uniformly drawn fixed-point scalar in `[0, 1)`, that is a raw value
/// in `[0, SCALE)`.
pub fn random_scalar() -> (r: i64)
    ensures
        0 <= r < fixed::SCALE,
{
    let raw = random_below(65536);
    raw as i64
}

/// A uniformly drawn fixed-point scalar in `[min, max)`.
pub fn random_scalar_in(min: i64, max: i64) -> (r: i64)
    requires
        min < max,
        max - min <= 0x1_0000_0000,
    ensures
        min <= r < max,
{
    let span = (max - min) as u64;
    let raw = random_below(span);
    min + raw as i64
}

} // verus!
