//! The camera: derives a viewport from framing configuration, generates
//! jittered (and optionally defocus-blurred) rays, and drives the
//! recursive integrator over every pixel.

use vstd::prelude::*;
use crate::fixed::{fx_mul, fx_mul_spec, fx_div_spec, floor_div_i128, is_isqrt, isqrt,
    scale_down_spec};
use crate::fixed::{lemma_fx_div_shrink, lemma_div_scaled_product, lemma_scale_down_bound};
use crate::hittable::HitRecord;
use crate::hittable_list::HittableList;
use crate::material::{color_wf, lemma_fx_mul_monotone, Material};
use crate::ray::Ray;
use crate::vec3::{channel_out, check_bounded, cross, dot2, unit_of, unit_vector, write_color,
    Color, Point3, Rgb, Vec3};
use crate::vec3::{lemma_mul_bound2, lemma_div_bound, lemma_dot2_self_nonneg};

verus! {

/// The camera's framing configuration and the viewport state derived
/// from it.  The first group of fields is chosen by the caller; the
/// rest are pure functions of them, computed by `initialize` and
/// read-only during a render.
pub struct Camera {
    /// Ratio of image width over height.
    pub aspect_ratio: i64,
    /// Rendered image width in pixel count.
    pub image_width: i32,
    /// Count of random samples for each pixel.
    pub samples_per_pixel: i32,
    /// Maximum number of ray bounces into the scene.
    pub max_depth: i32,
    /// Point the camera is looking from.
    pub look_from: Point3,
    /// Point the camera is looking at.
    pub look_at: Point3,
    /// Camera-relative "up" direction.
    pub vup: Vec3,
    /// Tangent of half the vertical field of view.
    pub vfov_tan_half: i64,
    /// Tangent of half the defocus cone angle; zero or less disables
    /// depth of field.
    pub defocus_tan_half: i64,
    /// Distance from `look_from` to the plane of perfect focus.
    pub focus_dist: i64,
    /// Rendered image height (derived).
    pub image_height: i32,
    /// Camera center (derived).
    pub center: Point3,
    /// Location of pixel (0, 0) (derived).
    pub pixel100_loc: Point3,
    /// Offset to the pixel to the right (derived).
    pub pixel_delta_u: Vec3,
    /// Offset to the pixel below (derived).
    pub pixel_delta_v: Vec3,
    /// Camera frame basis vector toward the right (derived).
    pub u: Vec3,
    /// Camera frame basis vector upward (derived).
    pub v: Vec3,
    /// Camera frame basis vector against the view (derived).
    pub w: Vec3,
    /// Defocus disk horizontal radius vector (derived).
    pub defocus_disk_u: Vec3,
    /// Defocus disk vertical radius vector (derived).
    pub defocus_disk_v: Vec3,
}

impl Camera {
    /// The derived image height: width over aspect ratio, at least one.
    pub open spec fn height_spec(self) -> int {
        let h = (self.image_width * 65536) / (self.aspect_ratio as int);
        if h < 1 { 1int } else { h }
    }

    /// The pixel aspect ratio actually used: width over derived height.
    pub open spec fn ratio_spec(self) -> int {
        (self.image_width * 65536) / self.height_spec()
    }

    /// The viewport height: `2 * tan(vfov / 2) * focus_dist`.
    pub open spec fn vh_spec(self) -> int {
        2 * fx_mul_spec(self.vfov_tan_half as int, self.focus_dist as int)
    }

    /// The viewport width: the height scaled by the pixel ratio.
    pub open spec fn vw_spec(self) -> int {
        fx_mul_spec(self.vh_spec(), self.ratio_spec())
    }

    /// The viewing offset `look_from - look_at`.
    pub open spec fn delta_spec(self) -> Vec3 {
        Vec3 {
            x: (self.look_from.x - self.look_at.x) as i64,
            y: (self.look_from.y - self.look_at.y) as i64,
            z: (self.look_from.z - self.look_at.z) as i64,
        }
    }

    /// The basis vector pointing against the view direction.
    pub open spec fn w_spec(self) -> Vec3 {
        let d = self.delta_spec();
        Vec3 { x: unit_of(d).0 as i64, y: unit_of(d).1 as i64, z: unit_of(d).2 as i64 }
    }

    /// The cross product of the up vector with `w`.
    pub open spec fn cross_vup_w_spec(self) -> Vec3 {
        let w = self.w_spec();
        Vec3 {
            x: scale_down_spec(self.vup.y * w.z - self.vup.z * w.y) as i64,
            y: scale_down_spec(self.vup.z * w.x - self.vup.x * w.z) as i64,
            z: scale_down_spec(self.vup.x * w.y - self.vup.y * w.x) as i64,
        }
    }

    /// The basis vector pointing to the camera's right.
    pub open spec fn u_spec(self) -> Vec3 {
        let c = self.cross_vup_w_spec();
        Vec3 { x: unit_of(c).0 as i64, y: unit_of(c).1 as i64, z: unit_of(c).2 as i64 }
    }

    /// The basis vector pointing up in the camera frame.
    pub open spec fn v_spec(self) -> Vec3 {
        let w = self.w_spec();
        let u = self.u_spec();
        Vec3 {
            x: scale_down_spec(w.y * u.z - w.z * u.y) as i64,
            y: scale_down_spec(w.z * u.x - w.x * u.z) as i64,
            z: scale_down_spec(w.x * u.y - w.y * u.x) as i64,
        }
    }

    /// The vector across the viewport's horizontal edge.
    pub open spec fn viewport_u_spec(self) -> Vec3 {
        let u = self.u_spec();
        Vec3 {
            x: fx_mul_spec(u.x as int, self.vw_spec()) as i64,
            y: fx_mul_spec(u.y as int, self.vw_spec()) as i64,
            z: fx_mul_spec(u.z as int, self.vw_spec()) as i64,
        }
    }

    /// The vector down the viewport's vertical edge.
    pub open spec fn viewport_v_spec(self) -> Vec3 {
        let v = self.v_spec();
        Vec3 {
            x: fx_mul_spec(-v.x as int, self.vh_spec()) as i64,
            y: fx_mul_spec(-v.y as int, self.vh_spec()) as i64,
            z: fx_mul_spec(-v.z as int, self.vh_spec()) as i64,
        }
    }

    /// The offset from one pixel to the next to the right.
    pub open spec fn du_spec(self) -> Vec3 {
        let vu = self.viewport_u_spec();
        let d = self.image_width as int * 65536;
        Vec3 {
            x: fx_div_spec(vu.x as int, d) as i64,
            y: fx_div_spec(vu.y as int, d) as i64,
            z: fx_div_spec(vu.z as int, d) as i64,
        }
    }

    /// The offset from one pixel to the next below.
    pub open spec fn dv_spec(self) -> Vec3 {
        let vv = self.viewport_v_spec();
        let d = self.height_spec() * 65536;
        Vec3 {
            x: fx_div_spec(vv.x as int, d) as i64,
            y: fx_div_spec(vv.y as int, d) as i64,
            z: fx_div_spec(vv.z as int, d) as i64,
        }
    }

    /// The world location of the center of pixel (0, 0): walk from the
    /// camera center to the viewport's upper-left corner, then half a
    /// pixel step inward.
    pub open spec fn px100_spec(self) -> Vec3 {
        let w = self.w_spec();
        let vu = self.viewport_u_spec();
        let vv = self.viewport_v_spec();
        let du = self.du_spec();
        let dv = self.dv_spec();
        Vec3 {
            x: (self.look_from.x - fx_mul_spec(w.x as int, self.focus_dist as int)
                - fx_div_spec(vu.x as int, 131072) - fx_div_spec(vv.x as int, 131072)
                + fx_mul_spec(du.x + dv.x, 32768)) as i64,
            y: (self.look_from.y - fx_mul_spec(w.y as int, self.focus_dist as int)
                - fx_div_spec(vu.y as int, 131072) - fx_div_spec(vv.y as int, 131072)
                + fx_mul_spec(du.y + dv.y, 32768)) as i64,
            z: (self.look_from.z - fx_mul_spec(w.z as int, self.focus_dist as int)
                - fx_div_spec(vu.z as int, 131072) - fx_div_spec(vv.z as int, 131072)
                + fx_mul_spec(du.z + dv.z, 32768)) as i64,
        }
    }

    /// The radius of the defocus disk: `focus_dist * tan(defocus / 2)`.
    pub open spec fn defocus_radius_spec(self) -> int {
        fx_mul_spec(self.focus_dist as int, self.defocus_tan_half as int)
    }

    /// The defocus disk's horizontal basis vector.
    pub open spec fn ddu_spec(self) -> Vec3 {
        let u = self.u_spec();
        let r = self.defocus_radius_spec();
        Vec3 {
            x: fx_mul_spec(u.x as int, r) as i64,
            y: fx_mul_spec(u.y as int, r) as i64,
            z: fx_mul_spec(u.z as int, r) as i64,
        }
    }

    /// The defocus disk's vertical basis vector.
    pub open spec fn ddv_spec(self) -> Vec3 {
        let v = self.v_spec();
        let r = self.defocus_radius_spec();
        Vec3 {
            x: fx_mul_spec(v.x as int, r) as i64,
            y: fx_mul_spec(v.y as int, r) as i64,
            z: fx_mul_spec(v.z as int, r) as i64,
        }
    }

    /// A framing configuration the renderer accepts: scene-scale
    /// positions, a viewing direction and an up vector that span a
    /// frame, and viewport dimensions within the working range.
    pub open spec fn config_valid(self) -> bool {
        1 <= self.image_width <= 4096
            && 1 <= self.samples_per_pixel <= 100000
            && 0 <= self.max_depth <= 1000
            && 6554 <= self.aspect_ratio <= 1048576
            && self.look_from.bounded(67108864)
            && self.look_at.bounded(67108864)
            && self.vup.bounded(524288)
            && 0 < self.vfov_tan_half <= 262144
            && -65536 <= self.defocus_tan_half <= 65536
            && 1638 <= self.focus_dist <= 16777216
            && dot2(self.delta_spec(), self.delta_spec()) > 0
            && dot2(self.cross_vup_w_spec(), self.cross_vup_w_spec()) > 0
            && 0 <= self.vh_spec() <= 67108864
            && -67108864 <= self.vw_spec() <= 67108864
    }

    /// The derived fields agree with the configuration: what
    /// `initialize` establishes and rendering relies on.
    pub open spec fn initialized(self) -> bool {
        self.config_valid()
            && self.image_height as int == self.height_spec()
            && 1 <= self.image_height <= 65536
            && self.center == self.look_from
            && self.w == self.w_spec()
            && self.u == self.u_spec()
            && self.v == self.v_spec()
            && self.pixel_delta_u == self.du_spec()
            && self.pixel_delta_v == self.dv_spec()
            && self.pixel100_loc == self.px100_spec()
            && self.defocus_disk_u == self.ddu_spec()
            && self.defocus_disk_v == self.ddv_spec()
            && self.w.bounded(65536)
            && self.u.bounded(65536)
            && self.v.bounded(131073)
            && self.pixel_delta_u.bounded(67108865)
            && self.pixel_delta_v.bounded(134218753)
            && -67112961 <= self.image_width * self.pixel_delta_u.x <= 67112961
            && -67112961 <= self.image_width * self.pixel_delta_u.y <= 67112961
            && -67112961 <= self.image_width * self.pixel_delta_u.z <= 67112961
            && -134284289 <= self.image_height * self.pixel_delta_v.x <= 134284289
            && -134284289 <= self.image_height * self.pixel_delta_v.y <= 134284289
            && -134284289 <= self.image_height * self.pixel_delta_v.z <= 134284289
            && self.pixel100_loc.bounded(335544320)
            && self.defocus_disk_u.bounded(16777217)
            && self.defocus_disk_v.bounded(33556734)
    }

    /// Calculates and sets the derived fields of the camera.
    #[verifier::rlimit(100)]
    #[verifier::spinoff_prover]
    pub fn initialize(&mut self)
        requires
            old(self).config_valid(),
        ensures
            final(self).initialized(),
            final(self).aspect_ratio == old(self).aspect_ratio,
            final(self).image_width == old(self).image_width,
            final(self).samples_per_pixel == old(self).samples_per_pixel,
            final(self).max_depth == old(self).max_depth,
            final(self).look_from == old(self).look_from,
            final(self).look_at == old(self).look_at,
            final(self).vup == old(self).vup,
            final(self).vfov_tan_half == old(self).vfov_tan_half,
            final(self).defocus_tan_half == old(self).defocus_tan_half,
            final(self).focus_dist == old(self).focus_dist,
    {
        let h0: i128 = floor_div_i128(self.image_width as i128 * 65536, self.aspect_ratio as i128);
        proof {
            vstd::arithmetic::div_mod::lemma_div_pos_is_pos(
                self.image_width as int * 65536, self.aspect_ratio as int);
            vstd::arithmetic::div_mod::lemma_div_nonincreasing(
                self.image_width as int * 65536, self.aspect_ratio as int);
            vstd::arithmetic::div_mod::lemma_div_is_ordered_by_denominator(
                self.image_width as int * 65536, 6554, self.aspect_ratio as int);
        }
        let hh: i32 = if h0 < 1 { 1 } else { h0 as i32 };
        self.image_height = hh;
        self.center = self.look_from;
        proof {
            lemma_mul_bound2(self.vfov_tan_half as int, self.focus_dist as int,
                262144, 16777216);
            lemma_div_bound(self.vfov_tan_half as int * self.focus_dist as int,
                4398046511104, 65536);
        }
        let viewport_height: i64 = 2 * fx_mul(self.vfov_tan_half, self.focus_dist);
        let ratio: i128 = floor_div_i128(self.image_width as i128 * 65536, hh as i128);
        proof {
            vstd::arithmetic::div_mod::lemma_div_pos_is_pos(
                self.image_width as int * 65536, hh as int);
            vstd::arithmetic::div_mod::lemma_div_nonincreasing(
                self.image_width as int * 65536, hh as int);
        }
        let viewport_width: i64 = fx_mul(viewport_height, ratio as i64);
        let delta = self.look_from.sub(self.look_at);
        self.w = unit_vector(&delta);
        let cv = cross(&self.vup, &self.w);
        proof {
            lemma_mul_bound2(self.vup.y as int, self.w.z as int, 524288, 65536);
            lemma_mul_bound2(self.vup.z as int, self.w.y as int, 524288, 65536);
            lemma_mul_bound2(self.vup.z as int, self.w.x as int, 524288, 65536);
            lemma_mul_bound2(self.vup.x as int, self.w.z as int, 524288, 65536);
            lemma_mul_bound2(self.vup.x as int, self.w.y as int, 524288, 65536);
            lemma_mul_bound2(self.vup.y as int, self.w.x as int, 524288, 65536);
            lemma_scale_down_bound(self.vup.y as int * self.w.z as int
                - self.vup.z as int * self.w.y as int, 68719476736);
            lemma_scale_down_bound(self.vup.z as int * self.w.x as int
                - self.vup.x as int * self.w.z as int, 68719476736);
            lemma_scale_down_bound(self.vup.x as int * self.w.y as int
                - self.vup.y as int * self.w.x as int, 68719476736);
        }
        self.u = unit_vector(&cv);
        self.v = cross(&self.w, &self.u);
        proof {
            lemma_mul_bound2(self.w.y as int, self.u.z as int, 65536, 65536);
            lemma_mul_bound2(self.w.z as int, self.u.y as int, 65536, 65536);
            lemma_mul_bound2(self.w.z as int, self.u.x as int, 65536, 65536);
            lemma_mul_bound2(self.w.x as int, self.u.z as int, 65536, 65536);
            lemma_mul_bound2(self.w.x as int, self.u.y as int, 65536, 65536);
            lemma_mul_bound2(self.w.y as int, self.u.x as int, 65536, 65536);
            lemma_scale_down_bound(self.w.y as int * self.u.z as int
                - self.w.z as int * self.u.y as int, 8589934592);
            lemma_scale_down_bound(self.w.z as int * self.u.x as int
                - self.w.x as int * self.u.z as int, 8589934592);
            lemma_scale_down_bound(self.w.x as int * self.u.y as int
                - self.w.y as int * self.u.x as int, 8589934592);
            lemma_mul_bound2(self.u.x as int, viewport_width as int, 65536, 67108864);
            lemma_mul_bound2(self.u.y as int, viewport_width as int, 65536, 67108864);
            lemma_mul_bound2(self.u.z as int, viewport_width as int, 65536, 67108864);
            lemma_div_bound(self.u.x as int * viewport_width as int, 4398046511104, 65536);
            lemma_div_bound(self.u.y as int * viewport_width as int, 4398046511104, 65536);
            lemma_div_bound(self.u.z as int * viewport_width as int, 4398046511104, 65536);
        }
        let viewport_u = self.u.scale(viewport_width);
        proof {
            lemma_mul_bound2(-self.v.x as int, viewport_height as int, 131073, 67108864);
            lemma_mul_bound2(-self.v.y as int, viewport_height as int, 131073, 67108864);
            lemma_mul_bound2(-self.v.z as int, viewport_height as int, 131073, 67108864);
            lemma_div_bound(-self.v.x as int * viewport_height as int, 8796227045031936, 65536);
            lemma_div_bound(-self.v.y as int * viewport_height as int, 8796227045031936, 65536);
            lemma_div_bound(-self.v.z as int * viewport_height as int, 8796227045031936, 65536);
        }
        let viewport_v = self.v.neg().scale(viewport_height);
        let wfx: i64 = self.image_width as i64 * 65536;
        let hfx: i64 = hh as i64 * 65536;
        proof {
            lemma_fx_div_shrink(viewport_u.x as int, wfx as int);
            lemma_fx_div_shrink(viewport_u.y as int, wfx as int);
            lemma_fx_div_shrink(viewport_u.z as int, wfx as int);
            lemma_fx_div_shrink(viewport_v.x as int, hfx as int);
            lemma_fx_div_shrink(viewport_v.y as int, hfx as int);
            lemma_fx_div_shrink(viewport_v.z as int, hfx as int);
            lemma_div_scaled_product(viewport_u.x as int, self.image_width as int);
            lemma_div_scaled_product(viewport_u.y as int, self.image_width as int);
            lemma_div_scaled_product(viewport_u.z as int, self.image_width as int);
            lemma_div_scaled_product(viewport_v.x as int, hh as int);
            lemma_div_scaled_product(viewport_v.y as int, hh as int);
            lemma_div_scaled_product(viewport_v.z as int, hh as int);
        }
        self.pixel_delta_u = viewport_u.div(wfx);
        self.pixel_delta_v = viewport_v.div(hfx);
        proof {
            lemma_mul_bound2(self.w.x as int, self.focus_dist as int, 65536, 16777216);
            lemma_mul_bound2(self.w.y as int, self.focus_dist as int, 65536, 16777216);
            lemma_mul_bound2(self.w.z as int, self.focus_dist as int, 65536, 16777216);
            lemma_div_bound(self.w.x as int * self.focus_dist as int, 1099511627776, 65536);
            lemma_div_bound(self.w.y as int * self.focus_dist as int, 1099511627776, 65536);
            lemma_div_bound(self.w.z as int * self.focus_dist as int, 1099511627776, 65536);
            lemma_fx_div_shrink(viewport_u.x as int, 131072);
            lemma_fx_div_shrink(viewport_u.y as int, 131072);
            lemma_fx_div_shrink(viewport_u.z as int, 131072);
            lemma_fx_div_shrink(viewport_v.x as int, 131072);
            lemma_fx_div_shrink(viewport_v.y as int, 131072);
            lemma_fx_div_shrink(viewport_v.z as int, 131072);
            lemma_mul_bound2(self.pixel_delta_u.x + self.pixel_delta_v.x, 32768,
                201327620, 32768);
            lemma_mul_bound2(self.pixel_delta_u.y + self.pixel_delta_v.y, 32768,
                201327620, 32768);
            lemma_mul_bound2(self.pixel_delta_u.z + self.pixel_delta_v.z, 32768,
                201327620, 32768);
            lemma_div_bound((self.pixel_delta_u.x + self.pixel_delta_v.x) * 32768,
                6597103452160, 65536);
            lemma_div_bound((self.pixel_delta_u.y + self.pixel_delta_v.y) * 32768,
                6597103452160, 65536);
            lemma_div_bound((self.pixel_delta_u.z + self.pixel_delta_v.z) * 32768,
                6597103452160, 65536);
        }
        let viewport_upper_left = self.center
            .sub(self.w.scale(self.focus_dist))
            .sub(viewport_u.div(131072))
            .sub(viewport_v.div(131072));
        self.pixel100_loc = viewport_upper_left
            .add(self.pixel_delta_u.add(self.pixel_delta_v).scale(32768));
        proof {
            lemma_mul_bound2(self.focus_dist as int, self.defocus_tan_half as int,
                16777216, 65536);
            lemma_div_bound(self.focus_dist as int * self.defocus_tan_half as int,
                1099511627776, 65536);
        }
        let defocus_radius: i64 = fx_mul(self.focus_dist, self.defocus_tan_half);
        proof {
            lemma_mul_bound2(self.u.x as int, defocus_radius as int, 65536, 16777217);
            lemma_mul_bound2(self.u.y as int, defocus_radius as int, 65536, 16777217);
            lemma_mul_bound2(self.u.z as int, defocus_radius as int, 65536, 16777217);
            lemma_mul_bound2(self.v.x as int, defocus_radius as int, 131073, 16777217);
            lemma_mul_bound2(self.v.y as int, defocus_radius as int, 131073, 16777217);
            lemma_mul_bound2(self.v.z as int, defocus_radius as int, 131073, 16777217);
            lemma_div_bound(self.u.x as int * defocus_radius as int, 1099578736640, 65536);
            lemma_div_bound(self.u.y as int * defocus_radius as int, 1099578736640, 65536);
            lemma_div_bound(self.u.z as int * defocus_radius as int, 1099578736640, 65536);
            lemma_div_bound(self.v.x as int * defocus_radius as int, 2199174118912, 65536);
            lemma_div_bound(self.v.y as int * defocus_radius as int, 2199174118912, 65536);
            lemma_div_bound(self.v.z as int * defocus_radius as int, 2199174118912, 65536);
        }
        self.defocus_disk_u = self.u.scale(defocus_radius);
        self.defocus_disk_v = self.v.scale(defocus_radius);
        proof {
            assert(self.config_valid());
            assert(self.image_height as int == self.height_spec());
            assert(1 <= self.image_height <= 65536);
            assert(self.center == self.look_from);
            assert(self.w == self.w_spec());
            assert(self.u == self.u_spec());
            assert(self.v == self.v_spec());
            assert(self.pixel_delta_u == self.du_spec());
            assert(self.pixel_delta_v == self.dv_spec());
            assert(self.pixel100_loc == self.px100_spec());
            assert(self.defocus_disk_u == self.ddu_spec());
            assert(self.defocus_disk_v == self.ddv_spec());
            assert(self.w.bounded(65536));
            assert(self.u.bounded(65536));
            assert(self.v.bounded(131073));
            assert(self.pixel_delta_u.bounded(67108865));
            assert(self.pixel_delta_v.bounded(134218753));
            assert(-67112961 <= self.image_width * self.pixel_delta_u.x <= 67112961);
            assert(-67112961 <= self.image_width * self.pixel_delta_u.y <= 67112961);
            assert(-67112961 <= self.image_width * self.pixel_delta_u.z <= 67112961);
            assert(-134284289 <= self.image_height * self.pixel_delta_v.x <= 134284289);
            assert(-134284289 <= self.image_height * self.pixel_delta_v.y <= 134284289);
            assert(-134284289 <= self.image_height * self.pixel_delta_v.z <= 134284289);
            assert(self.pixel100_loc.bounded(335544320));
            assert(self.defocus_disk_u.bounded(16777217));
            assert(self.defocus_disk_v.bounded(33556734));
        }
    }

    /// Tests at run time that the framing configuration is one the
    /// renderer accepts, so unverified callers can check it before
    /// asking for a render.
    pub fn check_config(&self) -> (r: bool)
        ensures
            r == self.config_valid(),
    {
        if !(1 <= self.image_width && self.image_width <= 4096) {
            return false;
        }
        if !(1 <= self.samples_per_pixel && self.samples_per_pixel <= 100000) {
            return false;
        }
        if !(0 <= self.max_depth && self.max_depth <= 1000) {
            return false;
        }
        if !(6554 <= self.aspect_ratio && self.aspect_ratio <= 1048576) {
            return false;
        }
        if !check_bounded(&self.look_from, 67108864) {
            return false;
        }
        if !check_bounded(&self.look_at, 67108864) {
            return false;
        }
        if !check_bounded(&self.vup, 524288) {
            return false;
        }
        if !(0 < self.vfov_tan_half && self.vfov_tan_half <= 262144) {
            return false;
        }
        if !(-65536 <= self.defocus_tan_half && self.defocus_tan_half <= 65536) {
            return false;
        }
        if !(1638 <= self.focus_dist && self.focus_dist <= 16777216) {
            return false;
        }
        let delta = self.look_from.sub(self.look_at);
        proof {
            assert(delta == self.delta_spec());
            lemma_mul_bound2(delta.x as int, delta.x as int, 268435456, 268435456);
            lemma_mul_bound2(delta.y as int, delta.y as int, 268435456, 268435456);
            lemma_mul_bound2(delta.z as int, delta.z as int, 268435456, 268435456);
        }
        let d2: i128 = delta.x as i128 * delta.x as i128 + delta.y as i128 * delta.y as i128
            + delta.z as i128 * delta.z as i128;
        if !(d2 > 0) {
            return false;
        }
        let wv = unit_vector(&delta);
        let cv = cross(&self.vup, &wv);
        proof {
            assert(wv == self.w_spec());
            lemma_mul_bound2(self.vup.y as int, wv.z as int, 524288, 65536);
            lemma_mul_bound2(self.vup.z as int, wv.y as int, 524288, 65536);
            lemma_mul_bound2(self.vup.z as int, wv.x as int, 524288, 65536);
            lemma_mul_bound2(self.vup.x as int, wv.z as int, 524288, 65536);
            lemma_mul_bound2(self.vup.x as int, wv.y as int, 524288, 65536);
            lemma_mul_bound2(self.vup.y as int, wv.x as int, 524288, 65536);
            lemma_scale_down_bound(self.vup.y as int * wv.z as int
                - self.vup.z as int * wv.y as int, 68719476736);
            lemma_scale_down_bound(self.vup.z as int * wv.x as int
                - self.vup.x as int * wv.z as int, 68719476736);
            lemma_scale_down_bound(self.vup.x as int * wv.y as int
                - self.vup.y as int * wv.x as int, 68719476736);
            assert(cv == self.cross_vup_w_spec());
            lemma_mul_bound2(cv.x as int, cv.x as int, 2097152, 2097152);
            lemma_mul_bound2(cv.y as int, cv.y as int, 2097152, 2097152);
            lemma_mul_bound2(cv.z as int, cv.z as int, 2097152, 2097152);
        }
        let c2: i128 = cv.x as i128 * cv.x as i128 + cv.y as i128 * cv.y as i128
            + cv.z as i128 * cv.z as i128;
        if !(c2 > 0) {
            return false;
        }
        proof {
            lemma_mul_bound2(self.vfov_tan_half as int, self.focus_dist as int,
                262144, 16777216);
            lemma_div_bound(self.vfov_tan_half as int * self.focus_dist as int,
                4398046511104, 65536);
        }
        let vh: i64 = 2 * fx_mul(self.vfov_tan_half, self.focus_dist);
        if !(0 <= vh && vh <= 67108864) {
            return false;
        }
        let h0: i128 = floor_div_i128(self.image_width as i128 * 65536,
            self.aspect_ratio as i128);
        proof {
            vstd::arithmetic::div_mod::lemma_div_pos_is_pos(
                self.image_width as int * 65536, self.aspect_ratio as int);
            vstd::arithmetic::div_mod::lemma_div_nonincreasing(
                self.image_width as int * 65536, self.aspect_ratio as int);
        }
        let hh: i64 = if h0 < 1 { 1 } else { h0 as i64 };
        let ratio: i128 = floor_div_i128(self.image_width as i128 * 65536, hh as i128);
        proof {
            vstd::arithmetic::div_mod::lemma_div_pos_is_pos(
                self.image_width as int * 65536, hh as int);
            vstd::arithmetic::div_mod::lemma_div_nonincreasing(
                self.image_width as int * 65536, hh as int);
            lemma_mul_bound2(vh as int, ratio as int, 67108864, 268435456);
            lemma_div_bound(vh as int * ratio as int, 18014398509481984, 65536);
        }
        let vw: i64 = fx_mul(vh, ratio as i64);
        if !(-67108864 <= vw && vw <= 67108864) {
            return false;
        }
        true
    }

    /// Returns a camera with the documented defaults: square aspect,
    /// a 100-pixel-wide image, 10 samples per pixel, 10 bounces, a
    /// 90-degree vertical field of view from the origin toward `-z`,
    /// `+y` up, no defocus, and a focus distance of 10.
    pub fn new() -> (c: Camera)
        ensures
            c.aspect_ratio == 65536,
            c.image_width == 100,
            c.samples_per_pixel == 10,
            c.max_depth == 10,
            c.look_from == (Vec3 { x: 0i64, y: 0i64, z: 0i64 }),
            c.look_at == (Vec3 { x: 0i64, y: 0i64, z: -65536i64 }),
            c.vup == (Vec3 { x: 0i64, y: 65536i64, z: 0i64 }),
            c.vfov_tan_half == 65536,
            c.defocus_tan_half == 0,
            c.focus_dist == 655360,
            c.config_valid(),
    {
        let zero = Vec3 { x: 0, y: 0, z: 0 };
        let cam = Camera {
            aspect_ratio: 65536,
            image_width: 100,
            samples_per_pixel: 10,
            max_depth: 10,
            look_from: zero,
            look_at: Vec3 { x: 0, y: 0, z: -65536 },
            vup: Vec3 { x: 0, y: 65536, z: 0 },
            vfov_tan_half: 65536,
            defocus_tan_half: 0,
            focus_dist: 655360,
            image_height: 1,
            center: zero,
            pixel100_loc: zero,
            pixel_delta_u: zero,
            pixel_delta_v: zero,
            u: zero,
            v: zero,
            w: zero,
            defocus_disk_u: zero,
            defocus_disk_v: zero,
        };
        proof {
            vstd::arithmetic::div_mod::lemma_fundamental_div_mod_converse(0, 65536, 0, 0);
            vstd::arithmetic::div_mod::lemma_fundamental_div_mod_converse(6553600, 65536,
                100, 0);
            vstd::arithmetic::div_mod::lemma_fundamental_div_mod_converse(6553600, 100,
                65536, 0);
            vstd::arithmetic::div_mod::lemma_fundamental_div_mod_converse(4294967296, 65536,
                65536, 0);
            vstd::arithmetic::div_mod::lemma_fundamental_div_mod_converse(42949672960, 65536,
                655360, 0);
            vstd::arithmetic::div_mod::lemma_fundamental_div_mod_converse(85899345920, 65536,
                1310720, 0);
            assert(cam.delta_spec() == (Vec3 { x: 0i64, y: 0i64, z: 65536i64 }));
            assert(dot2(cam.delta_spec(), cam.delta_spec()) == 4294967296);
            assert(is_isqrt(4294967296, 65536)) by (nonlinear_arith);
            crate::fixed::lemma_isqrt_exists(4294967296);
            crate::fixed::lemma_isqrt_unique(4294967296, 65536, isqrt(4294967296));
            assert(cam.w_spec() == (Vec3 { x: 0i64, y: 0i64, z: 65536i64 }));
            assert(cam.cross_vup_w_spec() == (Vec3 { x: 65536i64, y: 0i64, z: 0i64 }));
            assert(dot2(cam.cross_vup_w_spec(), cam.cross_vup_w_spec()) == 4294967296);
            assert(cam.height_spec() == 100);
            assert(cam.ratio_spec() == 65536);
            assert(cam.vh_spec() == 1310720);
            assert(cam.vw_spec() == 1310720);
        }
        cam
    }

    /// The sky gradient: a vertical blend from white at the horizon to
    /// sky blue straight up, as a function of the unit direction's `y`
    /// component.
    pub open spec fn sky_color(uy: int) -> (int, int, int) {
        let a = fx_mul_spec(uy + 65536, 32768);
        (fx_mul_spec(65536, 65536 - a) + fx_mul_spec(32768, a),
            fx_mul_spec(65536, 65536 - a) + fx_mul_spec(45875, a),
            fx_mul_spec(65536, 65536 - a) + fx_mul_spec(65536, a))
    }

    /// Where a ray for the disk sample `(dx, dy)` starts: the exact
    /// camera center under a pinhole model, a point on the defocus
    /// disk otherwise.
    pub open spec fn ray_origin_spec(self, dx: int, dy: int) -> (int, int, int) {
        if self.defocus_tan_half <= 0 {
            (self.center.x as int, self.center.y as int, self.center.z as int)
        } else {
            (self.center.x + fx_mul_spec(self.defocus_disk_u.x as int, dx)
                    + fx_mul_spec(self.defocus_disk_v.x as int, dy),
                self.center.y + fx_mul_spec(self.defocus_disk_u.y as int, dx)
                    + fx_mul_spec(self.defocus_disk_v.y as int, dy),
                self.center.z + fx_mul_spec(self.defocus_disk_u.z as int, dx)
                    + fx_mul_spec(self.defocus_disk_v.z as int, dy))
        }
    }

    /// The point a ray for pixel `(i, j)` aims at: the pixel's center
    /// plus the jitter `(px, py)` along the pixel-delta directions.
    pub open spec fn pixel_sample_spec(self, i: int, j: int, px: int, py: int)
        -> (int, int, int) {
        (self.pixel100_loc.x + fx_mul_spec(self.pixel_delta_u.x as int, i * 65536)
                + fx_mul_spec(self.pixel_delta_v.x as int, j * 65536)
                + fx_mul_spec(self.pixel_delta_u.x as int, px)
                + fx_mul_spec(self.pixel_delta_v.x as int, py),
            self.pixel100_loc.y + fx_mul_spec(self.pixel_delta_u.y as int, i * 65536)
                + fx_mul_spec(self.pixel_delta_v.y as int, j * 65536)
                + fx_mul_spec(self.pixel_delta_u.y as int, px)
                + fx_mul_spec(self.pixel_delta_v.y as int, py),
            self.pixel100_loc.z + fx_mul_spec(self.pixel_delta_u.z as int, i * 65536)
                + fx_mul_spec(self.pixel_delta_v.z as int, j * 65536)
                + fx_mul_spec(self.pixel_delta_u.z as int, px)
                + fx_mul_spec(self.pixel_delta_v.z as int, py))
    }

    /// A camera ray through pixel `(i, j)`, jittered by `(px, py)`
    /// within the pixel square, originating at the camera center or,
    /// with defocus enabled, at the disk point given by `(dx, dy)`.
    pub fn get_ray_with(&self, i: i32, j: i32, px: i64, py: i64, dx: i64, dy: i64) -> (r: Ray)
        requires
            self.initialized(),
            0 <= i < self.image_width,
            0 <= j < self.image_height,
            -32768 <= px <= 32768,
            -32768 <= py <= 32768,
            -65536 <= dx <= 65536,
            -65536 <= dy <= 65536,
        ensures
            r.orig.bounded(0x4000_0000),
            r.dir.bounded(0x4000_0000),
            ({
                let o = self.ray_origin_spec(dx as int, dy as int);
                let ps = self.pixel_sample_spec(i as int, j as int, px as int, py as int);
                r.orig.x == o.0 && r.orig.y == o.1 && r.orig.z == o.2
                    && r.dir.x == ps.0 - o.0 && r.dir.y == ps.1 - o.1 && r.dir.z == ps.2 - o.2
            }),
    {
        let iu: i64 = i as i64 * 65536;
        let jv: i64 = j as i64 * 65536;
        proof {
            lemma_step_bound(self.pixel_delta_u.x as int, i as int, self.image_width as int,
                67112961);
            lemma_step_bound(self.pixel_delta_u.y as int, i as int, self.image_width as int,
                67112961);
            lemma_step_bound(self.pixel_delta_u.z as int, i as int, self.image_width as int,
                67112961);
            lemma_step_bound(self.pixel_delta_v.x as int, j as int, self.image_height as int,
                134284289);
            lemma_step_bound(self.pixel_delta_v.y as int, j as int, self.image_height as int,
                134284289);
            lemma_step_bound(self.pixel_delta_v.z as int, j as int, self.image_height as int,
                134284289);
            lemma_mul_bound2(self.pixel_delta_u.x as int, px as int, 67108865, 32768);
            lemma_mul_bound2(self.pixel_delta_u.y as int, px as int, 67108865, 32768);
            lemma_mul_bound2(self.pixel_delta_u.z as int, px as int, 67108865, 32768);
            lemma_mul_bound2(self.pixel_delta_v.x as int, py as int, 134218753, 32768);
            lemma_mul_bound2(self.pixel_delta_v.y as int, py as int, 134218753, 32768);
            lemma_mul_bound2(self.pixel_delta_v.z as int, py as int, 134218753, 32768);
            lemma_div_bound(self.pixel_delta_u.x as int * px as int, 2199023288320, 65536);
            lemma_div_bound(self.pixel_delta_u.y as int * px as int, 2199023288320, 65536);
            lemma_div_bound(self.pixel_delta_u.z as int * px as int, 2199023288320, 65536);
            lemma_div_bound(self.pixel_delta_v.x as int * py as int, 4398080098304, 65536);
            lemma_div_bound(self.pixel_delta_v.y as int * py as int, 4398080098304, 65536);
            lemma_div_bound(self.pixel_delta_v.z as int * py as int, 4398080098304, 65536);
            lemma_mul_bound2(self.defocus_disk_u.x as int, dx as int, 16777217, 65536);
            lemma_mul_bound2(self.defocus_disk_u.y as int, dx as int, 16777217, 65536);
            lemma_mul_bound2(self.defocus_disk_u.z as int, dx as int, 16777217, 65536);
            lemma_mul_bound2(self.defocus_disk_v.x as int, dy as int, 33556734, 65536);
            lemma_mul_bound2(self.defocus_disk_v.y as int, dy as int, 33556734, 65536);
            lemma_mul_bound2(self.defocus_disk_v.z as int, dy as int, 33556734, 65536);
            lemma_div_bound(self.defocus_disk_u.x as int * dx as int, 1099511693312, 65536);
            lemma_div_bound(self.defocus_disk_u.y as int * dx as int, 1099511693312, 65536);
            lemma_div_bound(self.defocus_disk_u.z as int * dx as int, 1099511693312, 65536);
            lemma_div_bound(self.defocus_disk_v.x as int * dy as int, 2199174119424, 65536);
            lemma_div_bound(self.defocus_disk_v.y as int * dy as int, 2199174119424, 65536);
            lemma_div_bound(self.defocus_disk_v.z as int * dy as int, 2199174119424, 65536);
        }
        let pixel_center = self.pixel100_loc
            .add(self.pixel_delta_u.scale(iu))
            .add(self.pixel_delta_v.scale(jv));
        let pixel_sample = pixel_center
            .add(self.pixel_delta_u.scale(px))
            .add(self.pixel_delta_v.scale(py));
        let ray_origin = if self.defocus_tan_half <= 0 {
            self.center
        } else {
            self.center
                .add(self.defocus_disk_u.scale(dx))
                .add(self.defocus_disk_v.scale(dy))
        };
        let ray_direction = pixel_sample.sub(ray_origin);
        Ray { orig: ray_origin, dir: ray_direction }
    }

    /// An admissible sampled ray for pixel `(i, j)`: one the jittered
    /// generator can produce for some in-range pixel jitter and disk
    /// sample.
    pub open spec fn admissible_ray(self, i: int, j: int, r: Ray) -> bool {
        exists|px: int, py: int, dx: int, dy: int|
            #![trigger self.ray_origin_spec(dx, dy), self.pixel_sample_spec(i, j, px, py)]
            -32768 <= px <= 32768 && -32768 <= py <= 32768
                && -65536 <= dx <= 65536 && -65536 <= dy <= 65536
                && ({
                    let o = self.ray_origin_spec(dx, dy);
                    let ps = self.pixel_sample_spec(i, j, px, py);
                    r.orig.x == o.0 && r.orig.y == o.1 && r.orig.z == o.2
                        && r.dir.x == ps.0 - o.0 && r.dir.y == ps.1 - o.1
                        && r.dir.z == ps.2 - o.2
                })
    }

    /// Get a randomly sampled camera ray for the pixel at `(i, j)`:
    /// jittered within the pixel square and, with defocus enabled,
    /// originating on the defocus disk.
    pub fn get_ray(&self, i: i32, j: i32) -> (r: Ray)
        requires
            self.initialized(),
            0 <= i < self.image_width,
            0 <= j < self.image_height,
        ensures
            r.orig.bounded(0x4000_0000),
            r.dir.bounded(0x4000_0000),
            self.admissible_ray(i as int, j as int, r),
    {
        let px: i64 = crate::random_scalar() - 32768;
        let py: i64 = crate::random_scalar() - 32768;
        let p = crate::vec3::random_vec3_in_unit_disk();
        self.get_ray_with(i, j, px, py, p.x, p.y)
    }

    /// Determines the color gathered by a ray cast into the world:
    /// black once the bounce budget is exhausted, the sky gradient on
    /// a miss, and otherwise the scattered ray's color filtered by the
    /// material's attenuation.  The search starts 66 raw units (about
    /// a thousandth) along the ray to avoid re-hitting the surface it
    /// just left, and a scattered ray that leaves the working
    /// coordinate range is treated as absorbed.
    pub fn ray_color(r: &Ray, depth: i32, world: &HittableList) -> (c: Color)
        requires
            world.wf(),
            r.orig.bounded(0x4000_0000),
            r.dir.bounded(0x4000_0000),
            depth >= 0,
        ensures
            sample_ok(*world, *r, depth as int, c),
        decreases depth,
    {
        if depth <= 0 {
            return Vec3 { x: 0, y: 0, z: 0 };
        }
        if r.dir.near_zero() {
            return Vec3 { x: 0, y: 0, z: 0 };
        }
        proof {
            lemma_dot2_self_nonneg(r.dir);
            if dot2(r.dir, r.dir) == 0 {
                assert(r.dir.x as int * r.dir.x as int > 0 || r.dir.y as int * r.dir.y as int > 0
                    || r.dir.z as int * r.dir.z as int > 0) by (nonlinear_arith)
                    requires !(r.dir.x == 0 && r.dir.y == 0 && r.dir.z == 0);
            }
        }
        let mut rec = HitRecord::new();
        if world.hit(r, 66, 1099511627776, &mut rec) {
            let mut attenuation: Color = Vec3 { x: 0, y: 0, z: 0 };
            let mut scattered: Ray = Ray::new();
            if rec.mat.scatter(r, &rec, &mut attenuation, &mut scattered) {
                if check_bounded(&scattered.orig, 0x4000_0000)
                    && check_bounded(&scattered.dir, 0x4000_0000) {
                    let inner = Camera::ray_color(&scattered, depth - 1, world);
                    proof {
                        lemma_fx_mul_monotone(65536, 65536, attenuation.x as int,
                            inner.x as int);
                        lemma_fx_mul_monotone(65536, 65536, attenuation.y as int,
                            inner.y as int);
                        lemma_fx_mul_monotone(65536, 65536, attenuation.z as int,
                            inner.z as int);
                        assert(color_wf(inner));
                    }
                    return attenuation.mul(inner);
                }
                return Vec3 { x: 0, y: 0, z: 0 };
            }
            return Vec3 { x: 0, y: 0, z: 0 };
        }
        let ud = unit_vector(&r.direction());
        proof {
            lemma_mul_bound2(ud.y as int + 65536, 32768, 131072, 32768);
            lemma_div_bound((ud.y as int + 65536) * 32768, 4294967296, 65536);
            vstd::arithmetic::div_mod::lemma_div_pos_is_pos((ud.y as int + 65536) * 32768,
                65536);
        }
        let a: i64 = fx_mul(ud.y + 65536, 32768);
        proof {
            assert(a <= 65536) by {
                vstd::arithmetic::div_mod::lemma_div_is_ordered((ud.y as int + 65536) * 32768,
                    4294967296, 65536);
            }
            lemma_fx_mul_monotone(65536, 65536, 65536, 65536 - a as int);
            lemma_fx_mul_monotone(65536, 65536 - a as int, 65536, 65536 - a as int);
            lemma_fx_mul_monotone(65536, 65536, 32768, a as int);
            lemma_fx_mul_monotone(65536, 65536, 45875, a as int);
            lemma_fx_mul_monotone(65536, 65536, 65536, a as int);
            lemma_fx_mul_monotone(65536, a as int, 32768, a as int);
            lemma_fx_mul_monotone(65536, a as int, 45875, a as int);
            lemma_fx_mul_monotone(65536, a as int, 65536, a as int);
            vstd::arithmetic::div_mod::lemma_div_multiples_vanish(65536 - a as int, 65536);
            vstd::arithmetic::div_mod::lemma_div_multiples_vanish(a as int, 65536);
            assert(65536 * (65536 - a as int) == 65536int * (65536 - a as int));
            assert(fx_mul_spec(65536, 65536 - a as int) == 65536 - a as int);
            assert(fx_mul_spec(65536, a as int) == a as int);
        }
        let white = Vec3 { x: 65536, y: 65536, z: 65536 };
        let blue = Vec3 { x: 32768, y: 45875, z: 65536 };
        white.scale(65536 - a).add(blue.scale(a))
    }

    /// One output pixel is faithful for pixel `(i, j)`: it resolves,
    /// through `write_color`, the sum of the configured number of
    /// gathered samples, each of which satisfies the integrator's
    /// promise for some admissible ray of that pixel.
    pub open spec fn pixel_ok(self, world: HittableList, i: int, j: int, px: Rgb) -> bool {
        exists|samples: Seq<Vec3>|
            #![trigger color_sum(samples)]
            samples.len() == self.samples_per_pixel
                && (forall|m: int| #![trigger samples[m]] 0 <= m < samples.len()
                    ==> exists|r: Ray| #[trigger] self.admissible_ray(i, j, r)
                        && sample_ok(world, r, self.max_depth as int, samples[m]))
                && px.r == channel_out(color_sum(samples).0, self.samples_per_pixel as int)
                && px.g == channel_out(color_sum(samples).1, self.samples_per_pixel as int)
                && px.b == channel_out(color_sum(samples).2, self.samples_per_pixel as int)
    }

    /// Renders the image: derives the viewport, then for every pixel
    /// in row-major order accumulates the configured number of sampled
    /// ray colors and resolves them to one display pixel.
    pub fn render(&mut self, world: &HittableList) -> (pixels: Vec<Rgb>)
        requires
            old(self).config_valid(),
            world.wf(),
        ensures
            final(self).initialized(),
            pixels@.len() == final(self).image_height * final(self).image_width,
            forall|p: int| #![trigger pixels@[p]] 0 <= p < pixels@.len()
                ==> final(self).pixel_ok(*world, p % (final(self).image_width as int),
                    p / (final(self).image_width as int), pixels@[p]),
    {
        self.initialize();
        let mut pixels: Vec<Rgb> = Vec::new();
        let mut j: i32 = 0;
        while j < self.image_height
            invariant
                self.initialized(),
                world.wf(),
                0 <= j <= self.image_height,
                pixels@.len() == j * self.image_width,
                forall|p: int| #![trigger pixels@[p]] 0 <= p < pixels@.len()
                    ==> self.pixel_ok(*world, p % (self.image_width as int),
                        p / (self.image_width as int), pixels@[p]),
            decreases self.image_height - j,
        {
            let mut i: i32 = 0;
            while i < self.image_width
                invariant
                    self.initialized(),
                    world.wf(),
                    0 <= j < self.image_height,
                    0 <= i <= self.image_width,
                    pixels@.len() == j * self.image_width + i,
                    forall|p: int| #![trigger pixels@[p]] 0 <= p < pixels@.len()
                        ==> self.pixel_ok(*world, p % (self.image_width as int),
                            p / (self.image_width as int), pixels@[p]),
                decreases self.image_width - i,
            {
                let mut pixel_color: Color = Vec3 { x: 0, y: 0, z: 0 };
                let mut k: i32 = 0;
                let ghost mut samples: Seq<Vec3> = Seq::empty();
                while k < self.samples_per_pixel
                    invariant
                        self.initialized(),
                        world.wf(),
                        0 <= j < self.image_height,
                        0 <= i < self.image_width,
                        0 <= k <= self.samples_per_pixel,
                        0 <= pixel_color.x <= k * 65536,
                        0 <= pixel_color.y <= k * 65536,
                        0 <= pixel_color.z <= k * 65536,
                        samples.len() == k,
                        color_sum(samples).0 == pixel_color.x,
                        color_sum(samples).1 == pixel_color.y,
                        color_sum(samples).2 == pixel_color.z,
                        forall|m: int| #![trigger samples[m]] 0 <= m < samples.len()
                            ==> exists|r: Ray|
                                #[trigger] self.admissible_ray(i as int, j as int, r)
                                && sample_ok(*world, r, self.max_depth as int, samples[m]),
                    decreases self.samples_per_pixel - k,
                {
                    let ray = self.get_ray(i, j);
                    let c = Camera::ray_color(&ray, self.max_depth, world);
                    proof {
                        assert((k + 1) * 65536 == k * 65536 + 65536) by (nonlinear_arith);
                        lemma_color_sum_push(samples, c);
                        let s2 = samples.push(c);
                        assert forall|m: int| #![trigger s2[m]] 0 <= m < s2.len()
                            implies exists|r: Ray|
                            #[trigger] self.admissible_ray(i as int, j as int, r)
                            && sample_ok(*world, r, self.max_depth as int, s2[m]) by {
                            if m < samples.len() {
                                assert(s2[m] == samples[m]);
                            } else {
                                assert(s2[m] == c);
                                assert(self.admissible_ray(i as int, j as int, ray));
                            }
                        }
                        samples = s2;
                    }
                    pixel_color = pixel_color.add(c);
                    k = k + 1;
                }
                let px_out = write_color(&pixel_color, self.samples_per_pixel);
                proof {
                    assert(self.pixel_ok(*world, i as int, j as int, px_out));
                    assert(j * self.image_width + i + 1 <= self.image_height as int
                        * self.image_width as int) by (nonlinear_arith)
                        requires
                            0 <= j < self.image_height as int,
                            0 <= i < self.image_width as int,
                    ;
                    vstd::arithmetic::div_mod::lemma_fundamental_div_mod_converse(
                        j * (self.image_width as int) + i, self.image_width as int,
                        j as int, i as int);
                }
                let ghost pixels0 = pixels@;
                pixels.push(px_out);
                proof {
                    assert forall|p: int| 0 <= p < pixels@.len()
                        implies self.pixel_ok(*world, p % (self.image_width as int),
                            p / (self.image_width as int), pixels@[p]) by {
                        if p < pixels0.len() {
                            assert(pixels@[p] == pixels0[p]);
                        } else {
                            assert(pixels@[p] == px_out);
                            assert(p == j * (self.image_width as int) + i);
                        }
                    }
                }
                i = i + 1;
            }
            proof {
                assert((j + 1) * self.image_width == j * self.image_width
                    + self.image_width) by (nonlinear_arith);
            }
            j = j + 1;
        }
        pixels
    }
}

/// What the integrator can return for a ray: the promise that holds of
/// every outcome of the random scattering.  The color is a valid one;
/// an exhausted bounce budget yields black; a miss yields the exact
/// sky gradient; and a hit yields black (absorption, or a scattered
/// ray out of the working range) or the hit material's attenuation
/// times some valid recursively gathered color.
pub open spec fn sample_ok(world: HittableList, r: Ray, depth: int, c: Color) -> bool {
    &&& color_wf(c)
    &&& depth == 0 ==> c == (Vec3 { x: 0i64, y: 0i64, z: 0i64 })
    &&& (depth > 0 && dot2(r.dir, r.dir) > 0
        && world.hit_spec(r, 66, 1099511627776) is None)
        ==> (c.x == Camera::sky_color(unit_of(r.dir).1).0
            && c.y == Camera::sky_color(unit_of(r.dir).1).1
            && c.z == Camera::sky_color(unit_of(r.dir).1).2)
    &&& match world.hit_spec(r, 66, 1099511627776) {
        Option::None => true,
        Option::Some(ic) => c == (Vec3 { x: 0i64, y: 0i64, z: 0i64 })
            || exists|inner: Color| #[trigger] color_wf(inner)
                && ({
                    let att = match world.objects@[ic.0].mat {
                        Material::Lambertian(m) => m.albedo,
                        Material::Metal(m) => m.albedo,
                        Material::Dielectric(_) => Vec3 { x: 65536i64, y: 65536i64, z: 65536i64 },
                    };
                    c.x == fx_mul_spec(att.x as int, inner.x as int)
                        && c.y == fx_mul_spec(att.y as int, inner.y as int)
                        && c.z == fx_mul_spec(att.z as int, inner.z as int)
                }),
    }
}

/// The componentwise sum of a sequence of colors.
pub open spec fn color_sum(s: Seq<Vec3>) -> (int, int, int)
    decreases s.len(),
{
    if s.len() == 0 {
        (0int, 0int, 0int)
    } else {
        let t = color_sum(s.drop_last());
        (t.0 + s.last().x, t.1 + s.last().y, t.2 + s.last().z)
    }
}

/// Appending one color adds its components to the sum.
proof fn lemma_color_sum_push(s: Seq<Vec3>, c: Vec3)
    ensures
        color_sum(s.push(c))
            == (color_sum(s).0 + c.x, color_sum(s).1 + c.y, color_sum(s).2 + c.z),
{
    assert(s.push(c).drop_last() =~= s);
    assert(s.push(c).last() == c);
}

/// A pixel-step offset scaled by an index within the image stays
/// within the whole row's bound.
proof fn lemma_step_bound(d: int, i: int, wdt: int, m: int)
    requires
        -m <= wdt * d <= m,
        0 <= i <= wdt,
        0 <= m,
    ensures
        -m - 1 <= fx_mul_spec(d, i * 65536) <= m,
{
    assert(-(m * 65536) <= d * (i * 65536) <= m * 65536) by (nonlinear_arith)
        requires -m <= wdt * d <= m, 0 <= i <= wdt, 0 <= m;
    lemma_div_bound(d * (i * 65536), m * 65536, 65536);
    vstd::arithmetic::div_mod::lemma_div_multiples_vanish(m, 65536);
    assert(m * 65536 == 65536 * m);
}

} // verus!
