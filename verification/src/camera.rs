//! The camera: an orthonormal basis, a virtual image plane, jittered
//! ray generation with an optional thin-lens aperture, the recursive
//! radiance estimate, and the render loop.

use vstd::prelude::*;
use vstd::math::abs;
use crate::fixed::{
    SCALE, fmul, fdiv, tdiv, sqrt_floor, tan_approx, mul_fix, div_fix, div_i64, sqrt_fix, tan_fix,
    lemma_fmul_le, lemma_fmul_nonneg, lemma_fmul_unit, lemma_tdiv_abs, lemma_tdiv_le,
    lemma_fdiv_scaled_bound, lemma_fmul_scaled_bound,
};
use crate::vector3::{
    Vector3, Color, Point, Vec3, v_add, v_sub, v_neg, v_cmul, v_smul, v_sdiv, v_cross, v_lensq,
    v_unit, v_quasi_unit, comp_bound,
};
use crate::ray::{Ray, RayV, ray_wf};
use crate::interval::Interval;
use crate::hittable::{Hittable, HittableList, HittableObject, list_hit};
use crate::sphere::HitInfo;
use crate::material::{Material, color_unit, mat_attenuation};
use crate::rng::random_range_i64;

verus! {

/// Degrees to radians: multiply by the fixed-point π over 180 units.
pub open spec fn radians_of_degrees(d: int) -> int {
    tdiv(d * 205887, 11796480)
}

pub fn degrees_to_radians(degrees: i64) -> (r: i64)
    requires
        -23592960 <= degrees <= 23592960,
    ensures
        r == radians_of_degrees(degrees as int),
        0 <= degrees ==> 0 <= r,
{
    proof {
        if degrees >= 0 {
            lemma_tdiv_abs((degrees as int) * 205887, 11796480);
            vstd::arithmetic::mul::lemma_mul_nonnegative(degrees as int, 205887);
        }
    }
    div_i64(degrees * 205887, 11796480)
}

/// Half the vertical field of view, in radians.
pub open spec fn spec_theta(vfov: int) -> int {
    tdiv(radians_of_degrees(vfov), 2)
}

/// Height of the image plane at the focus distance.
#[verifier::opaque]
pub open spec fn spec_viewport_height(vfov: int, focus_dist: int) -> int {
    2 * fmul(tan_approx(spec_theta(vfov)), focus_dist)
}

/// Width over height of the image, as a fixed-point ratio.
pub open spec fn spec_aspect(width: int, height: int) -> int {
    fdiv(width * (SCALE as int), height * (SCALE as int))
}

#[verifier::opaque]
pub open spec fn spec_viewport_width(vfov: int, focus_dist: int, width: int, height: int) -> int {
    fmul(spec_viewport_height(vfov, focus_dist), spec_aspect(width, height))
}

/// Radius of the thin-lens disk rays may start from.
#[verifier::opaque]
pub open spec fn spec_defocus_radius(defocus_angle: int, focus_dist: int) -> int {
    fmul(focus_dist, tan_approx(radians_of_degrees(tdiv(defocus_angle, 2))))
}


/// The orthonormal basis of the view: `w` back along the gaze, `u` to
/// the right, `v` up, with fixed-axis fallbacks for degenerate input.
fn camera_basis(lookfrom: Point, lookat: Point, vup: Vector3) -> (r: (Vector3, Vector3, Vector3))
    requires
        comp_bound(lookfrom@, 1000000),
        comp_bound(lookat@, 1000000),
        comp_bound(vup@, 1000000),
        v_lensq(v_sub(lookfrom@, lookat@)) >= 1,
    ensures
        r.2@ == v_unit(v_sub(lookfrom@, lookat@)),
        r.0@ == (if v_lensq(v_cross(vup@, r.2@)) >= 1 {
            v_unit(v_cross(vup@, r.2@))
        } else {
            Vec3 { x: SCALE as int, y: 0, z: 0 }
        }),
        r.1@ == (if v_quasi_unit(v_cross(r.2@, r.0@)) {
            v_cross(r.2@, r.0@)
        } else {
            Vec3 { x: 0, y: SCALE as int, z: 0 }
        }),
        v_quasi_unit(r.0@) && v_quasi_unit(r.1@) && v_quasi_unit(r.2@),
{
    let w0 = lookfrom.sub(lookat);
    let w = Vector3::unit_vector(&w0);
    let cross_uw = Vector3::cross(vup, w);
    proof {
        lemma_fmul_le(vup@.x, w@.y, 1000000, 131072);
        lemma_fmul_le(vup@.x, w@.z, 1000000, 131072);
        lemma_fmul_le(vup@.y, w@.x, 1000000, 131072);
        lemma_fmul_le(vup@.y, w@.z, 1000000, 131072);
        lemma_fmul_le(vup@.z, w@.x, 1000000, 131072);
        lemma_fmul_le(vup@.z, w@.y, 1000000, 131072);
    }
    let clq = cross_uw.length_squared();
    let u = if clq >= 1 {
        Vector3::unit_vector(&cross_uw)
    } else {
        Vector3::new(SCALE, 0, 0)
    };
    let v0 = Vector3::cross(w, u);
    let v = if v0.quasi_unit() {
        v0
    } else {
        Vector3::new(0, SCALE, 0)
    };
    (u, v, w)
}

/// Height and width of the image plane at the focus distance.
fn viewport_size(vfov: i64, focus_dist: i64, width: u16, height: u16) -> (r: (i64, i64))
    requires
        SCALE <= vfov <= 90 * SCALE,
        6554 <= focus_dist <= 655360,
        1 <= height <= width,
        width as int <= 4 * (height as int),
        width <= 8192,
    ensures
        r.0 == spec_viewport_height(vfov as int, focus_dist as int),
        r.1 == spec_viewport_width(vfov as int, focus_dist as int, width as int, height as int),
        0 <= r.0 <= 1520000,
        0 <= r.1 <= 6080000,
{
    proof {
        reveal(spec_viewport_height);
        reveal(spec_viewport_width);
    }
    let theta = degrees_to_radians(vfov);
    proof {
        vstd::arithmetic::mul::lemma_mul_inequality(vfov as int, 5898240, 205887);
        vstd::arithmetic::mul::lemma_mul_nonnegative(vfov as int, 205887);
        lemma_tdiv_le((vfov as int) * 205887, 11796480, 1214370938880);
    }
    let half_theta = div_i64(theta, 2);
    proof {
        lemma_tdiv_le(theta as int, 2, 102943);
        lemma_tdiv_abs(theta as int, 2);
    }
    let h = tan_fix(half_theta);
    proof {
        lemma_fmul_le(h as int, focus_dist as int, 76000, 655360);
        lemma_fmul_nonneg(h as int, focus_dist as int);
    }
    let viewport_height = 2 * mul_fix(h, focus_dist);
    let wf64 = (width as i64) * SCALE;
    let hf64 = (height as i64) * SCALE;
    let ratio = div_fix(wf64, hf64);
    proof {
        lemma_fdiv_scaled_bound(wf64 as int, height as int);
        lemma_tdiv_abs((wf64 as int) * (SCALE as int), hf64 as int);
        assert((wf64 as int) * (SCALE as int) >= 0) by (nonlinear_arith)
            requires
                wf64 >= 0;
        assert(ratio as int <= 262144) by (nonlinear_arith)
            requires
                (height as int) * (ratio as int) <= wf64 as int,
                wf64 as int == (width as int) * 65536,
                width as int <= 4 * (height as int),
                height >= 1,
                ratio as int >= 0;
        lemma_fmul_nonneg(viewport_height as int, ratio as int);
    }
    let viewport_width = mul_fix(viewport_height, ratio);
    proof {
        lemma_fmul_le(viewport_height as int, ratio as int, 1520000, 262144);
    }
    (viewport_height, viewport_width)
}

/// Radius of the thin-lens disk that depth-of-field rays start from.
fn defocus_disk_radius(defocus_angle: i64, focus_dist: i64) -> (r: i64)
    requires
        0 <= defocus_angle <= 90 * SCALE,
        6554 <= focus_dist <= 655360,
    ensures
        r == spec_defocus_radius(defocus_angle as int, focus_dist as int),
        0 <= r <= 760000,
{
    proof {
        reveal(spec_defocus_radius);
    }
    let defocus_half = div_i64(defocus_angle, 2);
    proof {
        lemma_tdiv_abs(defocus_angle as int, 2);
        lemma_tdiv_le(defocus_angle as int, 2, 5898240);
    }
    let defocus_rad_angle = degrees_to_radians(defocus_half);
    proof {
        vstd::arithmetic::mul::lemma_mul_inequality(defocus_half as int, 2949120, 205887);
        vstd::arithmetic::mul::lemma_mul_nonnegative(defocus_half as int, 205887);
        lemma_tdiv_le((defocus_half as int) * 205887, 11796480, 607185469440);
    }
    let tan_defocus = tan_fix(defocus_rad_angle);
    proof {
        lemma_fmul_le(focus_dist as int, tan_defocus as int, 655360, 76000);
        lemma_fmul_nonneg(focus_dist as int, tan_defocus as int);
    }
    mul_fix(focus_dist, tan_defocus)
}


/// The image-plane vectors and the per-pixel steps.
fn image_plane(u: Vector3, v: Vector3, vfov: i64, focus_dist: i64, width: u16, height: u16) -> (r:
    (Vector3, Vector3, Vector3, Vector3))
    requires
        v_quasi_unit(u@),
        v_quasi_unit(v@),
        SCALE <= vfov <= 90 * SCALE,
        6554 <= focus_dist <= 655360,
        1 <= height <= width,
        width as int <= 4 * (height as int),
        width <= 8192,
    ensures
        r.0@ == v_smul(
            u@,
            spec_viewport_width(vfov as int, focus_dist as int, width as int, height as int),
        ),
        r.1@ == v_smul(v_neg(v@), spec_viewport_height(vfov as int, focus_dist as int)),
        r.2@ == v_sdiv(r.0@, (width as int) * (SCALE as int)),
        r.3@ == v_sdiv(r.1@, (height as int) * (SCALE as int)),
        comp_bound(r.0@, 13000000),
        comp_bound(r.1@, 4000000),
        comp_bound(r.2@, 13000000),
        comp_bound(r.3@, 4000000),
        (width as int) * abs(r.2@.x) <= 13000000,
        (width as int) * abs(r.2@.y) <= 13000000,
        (width as int) * abs(r.2@.z) <= 13000000,
        (height as int) * abs(r.3@.x) <= 4000000,
        (height as int) * abs(r.3@.y) <= 4000000,
        (height as int) * abs(r.3@.z) <= 4000000,
{
    let dims = viewport_size(vfov, focus_dist, width, height);
    let viewport_height = dims.0;
    let viewport_width = dims.1;
    proof {
        lemma_fmul_le(u@.x, viewport_width as int, 131072, 6080000);
        lemma_fmul_le(u@.y, viewport_width as int, 131072, 6080000);
        lemma_fmul_le(u@.z, viewport_width as int, 131072, 6080000);
    }
    let viewport_u = u.scale(viewport_width);
    let nv = v.neg();
    proof {
        lemma_fmul_le(nv@.x, viewport_height as int, 131072, 1520000);
        lemma_fmul_le(nv@.y, viewport_height as int, 131072, 1520000);
        lemma_fmul_le(nv@.z, viewport_height as int, 131072, 1520000);
    }
    let viewport_v = nv.scale(viewport_height);
    let wf64 = (width as i64) * SCALE;
    let hf64 = (height as i64) * SCALE;
    let pixel_delta_u = viewport_u.div(wf64);
    let pixel_delta_v = viewport_v.div(hf64);
    proof {
        lemma_fdiv_scaled_bound(viewport_u@.x, width as int);
        lemma_fdiv_scaled_bound(viewport_u@.y, width as int);
        lemma_fdiv_scaled_bound(viewport_u@.z, width as int);
        lemma_fdiv_scaled_bound(viewport_v@.x, height as int);
        lemma_fdiv_scaled_bound(viewport_v@.y, height as int);
        lemma_fdiv_scaled_bound(viewport_v@.z, height as int);
        let ghost dux = abs(v_sdiv(viewport_u@, (width as int) * (SCALE as int)).x) as int;
        let ghost duy = abs(v_sdiv(viewport_u@, (width as int) * (SCALE as int)).y) as int;
        let ghost duz = abs(v_sdiv(viewport_u@, (width as int) * (SCALE as int)).z) as int;
        let ghost dvx = abs(v_sdiv(viewport_v@, (height as int) * (SCALE as int)).x) as int;
        let ghost dvy = abs(v_sdiv(viewport_v@, (height as int) * (SCALE as int)).y) as int;
        let ghost dvz = abs(v_sdiv(viewport_v@, (height as int) * (SCALE as int)).z) as int;
        assert(dux <= 13000000 && duy <= 13000000 && duz <= 13000000) by (nonlinear_arith)
            requires
                (width as int) * dux <= 13000000,
                (width as int) * duy <= 13000000,
                (width as int) * duz <= 13000000,
                width as int >= 1,
                dux >= 0 && duy >= 0 && duz >= 0;
        assert(dvx <= 4000000 && dvy <= 4000000 && dvz <= 4000000) by (nonlinear_arith)
            requires
                (height as int) * dvx <= 4000000,
                (height as int) * dvy <= 4000000,
                (height as int) * dvz <= 4000000,
                height as int >= 1,
                dvx >= 0 && dvy >= 0 && dvz >= 0;
    }
    (viewport_u, viewport_v, pixel_delta_u, pixel_delta_v)
}

/// The world position of the viewport corner and of the first pixel.
#[verifier::rlimit(100)]
fn plane_anchors(
    camera_center: Vector3,
    w: Vector3,
    viewport_u: Vector3,
    viewport_v: Vector3,
    pixel_delta_u: Vector3,
    pixel_delta_v: Vector3,
    focus_dist: i64,
) -> (r: (Vector3, Vector3))
    requires
        comp_bound(camera_center@, 2000000),
        v_quasi_unit(w@),
        comp_bound(viewport_u@, 13000000),
        comp_bound(viewport_v@, 4000000),
        comp_bound(pixel_delta_u@, 13000000),
        comp_bound(pixel_delta_v@, 4000000),
        6554 <= focus_dist <= 655360,
    ensures
        r.0@ == v_sub(
            v_sub(
                v_sub(camera_center@, v_smul(w@, focus_dist as int)),
                v_sdiv(viewport_u@, 2 * (SCALE as int)),
            ),
            v_sdiv(viewport_v@, 2 * (SCALE as int)),
        ),
        r.1@ == v_add(r.0@, v_smul(v_add(pixel_delta_u@, pixel_delta_v@), 32768)),
        comp_bound(r.0@, 12000000),
        comp_bound(r.1@, 21000000),
{
    proof {
        lemma_fmul_le(w@.x, focus_dist as int, 131072, 655360);
        lemma_fmul_le(w@.y, focus_dist as int, 131072, 655360);
        lemma_fmul_le(w@.z, focus_dist as int, 131072, 655360);
        lemma_fdiv_scaled_bound(viewport_u@.x, 2);
        lemma_fdiv_scaled_bound(viewport_u@.y, 2);
        lemma_fdiv_scaled_bound(viewport_u@.z, 2);
        lemma_fdiv_scaled_bound(viewport_v@.x, 2);
        lemma_fdiv_scaled_bound(viewport_v@.y, 2);
        lemma_fdiv_scaled_bound(viewport_v@.z, 2);
    }
    let viewport_upper_left = camera_center.sub(w.scale(focus_dist)).sub(
        viewport_u.div(2 * SCALE),
    ).sub(viewport_v.div(2 * SCALE));
    let half_deltas = pixel_delta_u.add(pixel_delta_v);
    proof {
        lemma_fmul_le(half_deltas@.x, 32768, 17000000, 32768);
        lemma_fmul_le(half_deltas@.y, 32768, 17000000, 32768);
        lemma_fmul_le(half_deltas@.z, 32768, 17000000, 32768);
    }
    let pixel00_loc = viewport_upper_left.add(half_deltas.scale(32768));
    (viewport_upper_left, pixel00_loc)
}

pub struct Camera {
    pub camera_center: Vector3,
    pub viewport_u: Vector3,
    pub viewport_v: Vector3,
    pub pixel_delta_u: Vector3,
    pub pixel_delta_v: Vector3,
    pub viewport_upper_left: Vector3,
    pub pixel00_loc: Vector3,
    pub width: u16,
    pub height: u16,
    pub samples_per_pixel: u16,
    pub max_depth: u16,
    pub vfov: i64,
    pub u: Vector3,
    pub v: Vector3,
    pub w: Vector3,
    pub defocus_disk_u: Vector3,
    pub defocus_disk_v: Vector3,
    pub defocus_angle: i64,
    pub focus_dist: i64,
}

impl Camera {
    /// The bounds every derived camera satisfies; they keep each ray the
    /// camera casts within the representable coordinate range.
    pub open spec fn wf(&self) -> bool {
        &&& 1 <= self.height
        &&& self.height <= self.width
        &&& self.width <= 8192
        &&& 1 <= self.samples_per_pixel
        &&& comp_bound(self.camera_center@, 2000000)
        &&& v_quasi_unit(self.u@)
        &&& v_quasi_unit(self.v@)
        &&& v_quasi_unit(self.w@)
        &&& comp_bound(self.viewport_u@, 13000000)
        &&& comp_bound(self.viewport_v@, 4000000)
        &&& comp_bound(self.pixel_delta_u@, 13000000)
        &&& comp_bound(self.pixel_delta_v@, 4000000)
        &&& (self.width as int) * abs(self.pixel_delta_u@.x) <= 13000000
        &&& (self.width as int) * abs(self.pixel_delta_u@.y) <= 13000000
        &&& (self.width as int) * abs(self.pixel_delta_u@.z) <= 13000000
        &&& (self.height as int) * abs(self.pixel_delta_v@.x) <= 4000000
        &&& (self.height as int) * abs(self.pixel_delta_v@.y) <= 4000000
        &&& (self.height as int) * abs(self.pixel_delta_v@.z) <= 4000000
        &&& comp_bound(self.viewport_upper_left@, 12000000)
        &&& comp_bound(self.pixel00_loc@, 21000000)
        &&& comp_bound(self.defocus_disk_u@, 2000000)
        &&& comp_bound(self.defocus_disk_v@, 2000000)
    }

    /// Derives the camera from its extrinsic configuration.  Degenerate
    /// bases (a view direction parallel to the up vector, or a cross
    /// product drifting outside the normalized band) fall back to fixed
    /// axes rather than producing unrepresentable values.
    #[verifier::rlimit(100)]
    pub fn new(
        width: u16,
        height: u16,
        samples_per_pixel: u16,
        max_depth: u16,
        vfov: i64,
        lookfrom: Point,
        lookat: Point,
        vup: Vector3,
        defocus_angle: i64,
        focus_dist: i64,
    ) -> (r: Self)
        requires
            1 <= height <= width,
            width as int <= 4 * (height as int),
            width <= 8192,
            1 <= samples_per_pixel,
            SCALE <= vfov <= 90 * SCALE,
            0 <= defocus_angle <= 90 * SCALE,
            6554 <= focus_dist <= 655360,
            comp_bound(lookfrom@, 1000000),
            comp_bound(lookat@, 1000000),
            comp_bound(vup@, 1000000),
            v_lensq(v_sub(lookfrom@, lookat@)) >= 1,
        ensures
            r.wf(),
            r.width == width && r.height == height,
            r.samples_per_pixel == samples_per_pixel && r.max_depth == max_depth,
            r.vfov == vfov && r.defocus_angle == defocus_angle && r.focus_dist == focus_dist,
            r.camera_center == lookfrom,
            r.w@ == v_unit(v_sub(lookfrom@, lookat@)),
            r.u@ == (if v_lensq(v_cross(vup@, r.w@)) >= 1 {
                v_unit(v_cross(vup@, r.w@))
            } else {
                Vec3 { x: SCALE as int, y: 0, z: 0 }
            }),
            r.v@ == (if v_quasi_unit(v_cross(r.w@, r.u@)) {
                v_cross(r.w@, r.u@)
            } else {
                Vec3 { x: 0, y: SCALE as int, z: 0 }
            }),
            r.viewport_u@ == v_smul(
                r.u@,
                spec_viewport_width(vfov as int, focus_dist as int, width as int, height as int),
            ),
            r.viewport_v@ == v_smul(
                v_neg(r.v@),
                spec_viewport_height(vfov as int, focus_dist as int),
            ),
            r.pixel_delta_u@ == v_sdiv(r.viewport_u@, (width as int) * (SCALE as int)),
            r.pixel_delta_v@ == v_sdiv(r.viewport_v@, (height as int) * (SCALE as int)),
            r.viewport_upper_left@ == v_sub(
                v_sub(
                    v_sub(lookfrom@, v_smul(r.w@, focus_dist as int)),
                    v_sdiv(r.viewport_u@, 2 * (SCALE as int)),
                ),
                v_sdiv(r.viewport_v@, 2 * (SCALE as int)),
            ),
            r.pixel00_loc@ == v_add(
                r.viewport_upper_left@,
                v_smul(v_add(r.pixel_delta_u@, r.pixel_delta_v@), 32768),
            ),
            r.defocus_disk_u@ == v_smul(
                r.u@,
                spec_defocus_radius(defocus_angle as int, focus_dist as int),
            ),
            r.defocus_disk_v@ == v_smul(
                r.v@,
                spec_defocus_radius(defocus_angle as int, focus_dist as int),
            ),
    {
        let basis = camera_basis(lookfrom, lookat, vup);
        let u = basis.0;
        let v = basis.1;
        let w = basis.2;
        let camera_center = lookfrom;
        let plane = image_plane(u, v, vfov, focus_dist, width, height);
        let viewport_u = plane.0;
        let viewport_v = plane.1;
        let pixel_delta_u = plane.2;
        let pixel_delta_v = plane.3;
        let anchors = plane_anchors(
            camera_center,
            w,
            viewport_u,
            viewport_v,
            pixel_delta_u,
            pixel_delta_v,
            focus_dist,
        );
        let viewport_upper_left = anchors.0;
        let pixel00_loc = anchors.1;
        let defocus_radius = defocus_disk_radius(defocus_angle, focus_dist);
        proof {
            lemma_fmul_le(u@.x, defocus_radius as int, 131072, 760000);
            lemma_fmul_le(u@.y, defocus_radius as int, 131072, 760000);
            lemma_fmul_le(u@.z, defocus_radius as int, 131072, 760000);
            lemma_fmul_le(v@.x, defocus_radius as int, 131072, 760000);
            lemma_fmul_le(v@.y, defocus_radius as int, 131072, 760000);
            lemma_fmul_le(v@.z, defocus_radius as int, 131072, 760000);
        }
        let defocus_disk_u = u.scale(defocus_radius);
        let defocus_disk_v = v.scale(defocus_radius);
        Self {
            camera_center,
            viewport_u,
            viewport_v,
            pixel_delta_u,
            pixel_delta_v,
            viewport_upper_left,
            pixel00_loc,
            width,
            height,
            samples_per_pixel,
            max_depth,
            vfov,
            u,
            v,
            w,
            defocus_disk_u,
            defocus_disk_v,
            defocus_angle,
            focus_dist,
        }
    }

    /// A uniform jitter within the half-open unit pixel footprint.
    pub fn sample_square(&self) -> (r: Vector3)
        ensures
            -32768 <= r@.x < 32768,
            -32768 <= r@.y < 32768,
            r@.z == 0,
    {
        Vector3::new(random_range_i64(-32768, 32768), random_range_i64(-32768, 32768), 0)
    }

    /// A point of the thin-lens disk around the camera center.
    pub fn defocus_disk_sample(&self) -> (r: Point)
        requires
            self.wf(),
        ensures
            comp_bound(r@, 6000000),
            on_defocus_disk(*self, r@),
    {
        let p = Vector3::random_in_unit_disk();
        proof {
            // the disk sample's vertical coordinate is zero, so its two
            // live coordinates alone carry the squared length
            crate::fixed::lemma_fmul_zero(0);
            assert(fmul(p@.x, p@.x) + fmul(p@.y, p@.y) < SCALE as int);
        }
        proof {
            lemma_fmul_le(self.defocus_disk_u@.x, p@.x, 2000000, 65536);
            lemma_fmul_le(self.defocus_disk_u@.y, p@.x, 2000000, 65536);
            lemma_fmul_le(self.defocus_disk_u@.z, p@.x, 2000000, 65536);
            lemma_fmul_le(self.defocus_disk_v@.x, p@.y, 2000000, 65536);
            lemma_fmul_le(self.defocus_disk_v@.y, p@.y, 2000000, 65536);
            lemma_fmul_le(self.defocus_disk_v@.z, p@.y, 2000000, 65536);
        }
        let r = self.camera_center.add(self.defocus_disk_u.scale(p.x)).add(
            self.defocus_disk_v.scale(p.y),
        );
        proof {
            assert(r@ == v_add(
                v_add(self.camera_center@, v_smul(self.defocus_disk_u@, p@.x)),
                v_smul(self.defocus_disk_v@, p@.y),
            ));
        }
        r
    }

    /// A jittered ray through the given pixel, starting on the lens disk
    /// when depth of field is enabled.
    #[verifier::rlimit(100)]
    pub fn get_ray(&self, col: u16, row: u16) -> (r: Ray)
        requires
            self.wf(),
            col < self.width,
            row < self.height,
        ensures
            ray_wf(r@),
            pixel_ray_ok(*self, col as int, row as int, r@),
    {
        let offset = self.sample_square();
        let cs = (col as i64) * SCALE + offset.x;
        let rs = (row as i64) * SCALE + offset.y;
        proof {
            lemma_fmul_scaled_bound(cs as int, self.pixel_delta_u@.x, self.width as int);
            lemma_fmul_scaled_bound(cs as int, self.pixel_delta_u@.y, self.width as int);
            lemma_fmul_scaled_bound(cs as int, self.pixel_delta_u@.z, self.width as int);
            lemma_fmul_scaled_bound(rs as int, self.pixel_delta_v@.x, self.height as int);
            lemma_fmul_scaled_bound(rs as int, self.pixel_delta_v@.y, self.height as int);
            lemma_fmul_scaled_bound(rs as int, self.pixel_delta_v@.z, self.height as int);
        }
        let cterm = self.pixel_delta_u.scale(cs);
        let rterm = self.pixel_delta_v.scale(rs);
        proof {
            assert(abs(cterm@.x) <= 13000000 && abs(cterm@.y) <= 13000000 && abs(cterm@.z)
                <= 13000000);
            assert(abs(rterm@.x) <= 4000000 && abs(rterm@.y) <= 4000000 && abs(rterm@.z)
                <= 4000000);
        }
        let pixel_sample = self.pixel00_loc.add(cterm).add(rterm);
        let ray_origin = if self.defocus_angle <= 0 {
            self.camera_center
        } else {
            self.defocus_disk_sample()
        };
        let ray_direction = pixel_sample.sub(ray_origin);
        proof {
            assert(ray_direction@ == v_sub(
                v_add(
                    v_add(
                        self.pixel00_loc@,
                        v_smul(self.pixel_delta_u@, (col as int) * (SCALE as int) + offset@.x),
                    ),
                    v_smul(self.pixel_delta_v@, (row as int) * (SCALE as int) + offset@.y),
                ),
                ray_origin@,
            ));
            assert(pixel_ray_ok(
                *self,
                col as int,
                row as int,
                RayV { origin: ray_origin@, direction: ray_direction@ },
            ));
        }
        Ray::new(ray_origin, ray_direction)
    }

    /// The recursive radiance estimate: black at the depth limit or on
    /// absorption, the sky gradient on a miss, and the scattered
    /// radiance filtered by the attenuation on a hit.
    pub fn ray_color<T: Hittable>(&self, ray: &Ray, depth: u16, world: &T) -> (r: Color)
        requires
            world.wf(),
            ray_wf(ray@),
        ensures
            color_unit(r@),
            depth == 0 ==> r@ == (Vec3 { x: 0, y: 0, z: 0 }),
            radiance_post(world.spec_hit(ray@, 65, i64::MAX as int), ray@, depth as int, r@),
        decreases depth,
    {
        if depth == 0 {
            return Color::new(0, 0, 0);
        }
        // the window opens just under a thousandth of a unit, so rays
        // respawned at a surface do not immediately re-hit it
        if let Some(rec) = world.hit(ray, Interval::new(65, i64::MAX)) {
            if let Some((attenuation, scattered)) = rec.material.scatter(ray, &rec) {
                let c = self.ray_color(&scattered, depth - 1, world);
                proof {
                    lemma_fmul_unit(attenuation@.x, c@.x);
                    lemma_fmul_unit(attenuation@.y, c@.y);
                    lemma_fmul_unit(attenuation@.z, c@.z);
                }
                let result = attenuation.mul(c);
                proof {
                    assert(result@ == v_cmul(attenuation@, c@));
                    assert(mat_attenuation(rec.material, attenuation@));
                }
                return result;
            } else {
                return Color::new(0, 0, 0);
            }
        }
        let dlsq = ray.direction.length_squared();
        if dlsq < 1 {
            return Color::new(0, 0, 0);
        }
        sky_color(ray)
    }

    /// Gamma-two encoding of one linear channel: the square root of a
    /// positive value, zero otherwise.
    pub fn linear_to_gamma(linear_component: i64) -> (r: i64)
        ensures
            r == spec_gamma(linear_component as int),
            0 <= r,
            linear_component <= SCALE ==> r <= SCALE,
    {
        if linear_component > 0 {
            let r = sqrt_fix(linear_component);
            proof {
                if linear_component <= SCALE {
                    assert(r as int <= 65536) by (nonlinear_arith)
                        requires
                            (r as int) * (r as int) <= (linear_component as int) * 65536,
                            linear_component as int <= 65536,
                            r >= 0;
                }
            }
            r
        } else {
            0
        }
    }

    /// Renders the scene: for each pixel in row-major order, average the
    /// radiance of the jittered samples, gamma-encode, and emit three
    /// bytes.
    #[verifier::rlimit(100)]
    pub fn render(&self, world: &HittableList) -> (pixels: Vec<u8>)
        requires
            self.wf(),
            world.wf(),
        ensures
            pixels@.len() == 3 * (self.width as int) * (self.height as int),
            exists|avgs: Seq<Vec3>|
                avgs.len() == (self.width as int) * (self.height as int) && (forall|i: int|
                    0 <= i < avgs.len() ==> image_pixel_ok(
                        *self,
                        world.list@,
                        i,
                        #[trigger] avgs[i],
                    )) && pixels@ == #[trigger] bytes_of_avgs(avgs),
    {
        let mut out: Vec<u8> = Vec::new();
        let ghost mut avgs: Seq<Vec3> = Seq::empty();
        let mut row: u16 = 0;
        while row < self.height
            invariant
                self.wf(),
                world.wf(),
                row <= self.height,
                avgs.len() == (row as int) * (self.width as int),
                out@.len() == 3 * avgs.len(),
                out@ == bytes_of_avgs(avgs),
                forall|i: int|
                    0 <= i < avgs.len() ==> image_pixel_ok(*self, world.list@, i, #[trigger] avgs[i]),
            decreases self.height as int - row as int,
        {
            let mut col: u16 = 0;
            while col < self.width
                invariant
                    self.wf(),
                    world.wf(),
                    col <= self.width,
                    row < self.height,
                    avgs.len() == (row as int) * (self.width as int) + (col as int),
                    out@.len() == 3 * avgs.len(),
                    out@ == bytes_of_avgs(avgs),
                    forall|i: int|
                        0 <= i < avgs.len() ==> image_pixel_ok(
                            *self,
                            world.list@,
                            i,
                            #[trigger] avgs[i],
                        ),
                decreases self.width as int - col as int,
            {
                let mut color = Color::new(0, 0, 0);
                let ghost mut samples: Seq<Vec3> = Seq::empty();
                let mut s: u16 = 0;
                while s < self.samples_per_pixel
                    invariant
                        self.wf(),
                        world.wf(),
                        row < self.height,
                        col < self.width,
                        s <= self.samples_per_pixel,
                        0 <= color@.x <= (s as int) * (SCALE as int),
                        0 <= color@.y <= (s as int) * (SCALE as int),
                        0 <= color@.z <= (s as int) * (SCALE as int),
                        samples.len() == s as int,
                        color@ == v3_sum(samples),
                        forall|i: int|
                            0 <= i < samples.len() ==> sample_radiance_ok(
                                *self,
                                world.list@,
                                col as int,
                                row as int,
                                #[trigger] samples[i],
                            ),
                    decreases self.samples_per_pixel as int - s as int,
                {
                    let ray = self.get_ray(col, row);
                    let sample = self.ray_color(&ray, self.max_depth, world);
                    proof {
                        assert(world.spec_hit(ray@, 65, i64::MAX as int) == list_hit(
                            world.list@,
                            ray@,
                            65,
                            i64::MAX as int,
                        ));
                        assert(sample_radiance_ok(
                            *self,
                            world.list@,
                            col as int,
                            row as int,
                            sample@,
                        ));
                        let ghost grown = samples.push(sample@);
                        assert(grown.drop_last() =~= samples);
                        assert(v3_sum(grown) == v_add(v3_sum(samples), sample@));
                        samples = grown;
                    }
                    color = color.add(sample);
                    s = s + 1;
                }
                let n = self.samples_per_pixel;
                proof {
                    lemma_fdiv_scaled_bound(color@.x, n as int);
                    lemma_fdiv_scaled_bound(color@.y, n as int);
                    lemma_fdiv_scaled_bound(color@.z, n as int);
                    let ghost ax = abs(v_sdiv(color@, (n as int) * (SCALE as int)).x) as int;
                    let ghost ay = abs(v_sdiv(color@, (n as int) * (SCALE as int)).y) as int;
                    let ghost az = abs(v_sdiv(color@, (n as int) * (SCALE as int)).z) as int;
                    assert(ax <= 65536 && ay <= 65536 && az <= 65536) by (nonlinear_arith)
                        requires
                            (n as int) * ax <= (n as int) * 65536,
                            (n as int) * ay <= (n as int) * 65536,
                            (n as int) * az <= (n as int) * 65536,
                            n as int >= 1,
                            ax >= 0 && ay >= 0 && az >= 0;
                }
                let avg = color.div((n as i64) * SCALE);
                let bytes = color_bytes(avg);
                proof {
                    assert(avg@ == v_sdiv(v3_sum(samples), (n as int) * (SCALE as int)));
                    assert(pixel_average_ok(*self, world.list@, col as int, row as int, avg@));
                    assert(image_pixel_ok(*self, world.list@, avgs.len() as int, avg@));
                }
                out.push(bytes.0);
                out.push(bytes.1);
                out.push(bytes.2);
                proof {
                    let ghost old_avgs = avgs;
                    avgs = avgs.push(avg@);
                    assert(avgs.drop_last() =~= old_avgs);
                    assert(avgs.last() == avg@);
                    assert(bytes.0 == spec_channel_byte(avg@.x) as u8);
                    assert(bytes.1 == spec_channel_byte(avg@.y) as u8);
                    assert(bytes.2 == spec_channel_byte(avg@.z) as u8);
                    assert(out@ =~= bytes_of_avgs(avgs));
                    assert forall|i: int| 0 <= i < avgs.len() implies image_pixel_ok(
                        *self,
                        world.list@,
                        i,
                        avgs[i],
                    ) by {
                        if i < old_avgs.len() {
                            assert(avgs[i] == old_avgs[i]);
                            assert(image_pixel_ok(*self, world.list@, i, old_avgs[i]));
                        } else {
                            assert(avgs[i] == avg@);
                        }
                    }
                }
                col = col + 1;
            }
            proof {
                assert((row as int) * (self.width as int) + (self.width as int) == ((row as int)
                    + 1) * (self.width as int)) by (nonlinear_arith);
            }
            row = row + 1;
        }
        proof {
            assert(avgs.len() == (self.height as int) * (self.width as int));
            assert((self.height as int) * (self.width as int) == (self.width as int) * (
            self.height as int)) by (nonlinear_arith);
            assert(3 * avgs.len() == 3 * (self.width as int) * (self.height as int))
                by (nonlinear_arith)
                requires
                    avgs.len() == (self.width as int) * (self.height as int);
        }
        out
    }
}

/// A point of the camera's aperture disk: the center displaced along
/// the disk basis by a sample strictly inside the unit disk.
pub open spec fn on_defocus_disk(cam: Camera, p: Vec3) -> bool {
    exists|px: int, py: int|
        abs(px) <= SCALE as int && abs(py) <= SCALE as int && fmul(px, px) + fmul(py, py) < (
        SCALE as int) && p == v_add(
            v_add(cam.camera_center@, #[trigger] v_smul(cam.defocus_disk_u@, px)),
            #[trigger] v_smul(cam.defocus_disk_v@, py),
        )
}

/// A ray the camera may cast through pixel (col, row): it starts at the
/// camera center, or on the aperture disk when depth of field is on,
/// and aims at the pixel's footprint jittered by half a pixel.
pub open spec fn pixel_ray_ok(cam: Camera, col: int, row: int, rv: RayV) -> bool {
    &&& ray_wf(rv)
    &&& (cam.defocus_angle <= 0 ==> rv.origin == cam.camera_center@)
    &&& (cam.defocus_angle > 0 ==> on_defocus_disk(cam, rv.origin))
    &&& (exists|ox: int, oy: int|
        -32768 <= ox < 32768 && -32768 <= oy < 32768 && rv.direction == v_sub(
            v_add(
                v_add(
                    cam.pixel00_loc@,
                    #[trigger] v_smul(cam.pixel_delta_u@, col * (SCALE as int) + ox),
                ),
                #[trigger] v_smul(cam.pixel_delta_v@, row * (SCALE as int) + oy),
            ),
            rv.origin,
        ))
}

/// What the radiance estimate owes, given the scene's mathematical hit
/// for the ray: black at the depth limit; on a miss the sky gradient,
/// or black when the direction degenerates; on a hit, black for an
/// absorbed path, else the scattered radiance filtered by the hit
/// material's attenuation.
pub open spec fn radiance_post(hit: Option<HitInfo>, rv: RayV, depth: int, c: Vec3) -> bool {
    &&& color_unit(c)
    &&& (depth == 0 ==> c == (Vec3 { x: 0, y: 0, z: 0 }))
    &&& (depth > 0 ==> (match hit {
        Some(hi) => c == (Vec3 { x: 0, y: 0, z: 0 }) || (exists|att: Vec3, f: Vec3|
            c == #[trigger] v_cmul(att, f) && color_unit(att) && color_unit(f) && mat_attenuation(
                hi.mat,
                att,
            )),
        None => c == (if v_lensq(rv.direction) >= 1 {
            spec_sky(rv)
        } else {
            Vec3 { x: 0, y: 0, z: 0 }
        }),
    }))
}

/// Sum of a sequence of radiance samples.
pub open spec fn v3_sum(samples: Seq<Vec3>) -> Vec3
    decreases samples.len(),
{
    if samples.len() == 0 {
        Vec3 { x: 0, y: 0, z: 0 }
    } else {
        v_add(v3_sum(samples.drop_last()), samples.last())
    }
}

/// One sample of one pixel: the radiance estimate of some admissible
/// camera ray through that pixel.
pub open spec fn sample_radiance_ok(
    cam: Camera,
    objs: Seq<HittableObject>,
    col: int,
    row: int,
    c: Vec3,
) -> bool {
    exists|rv: RayV|
        #[trigger] pixel_ray_ok(cam, col, row, rv) && radiance_post(
            list_hit(objs, rv, 65, i64::MAX as int),
            rv,
            cam.max_depth as int,
            c,
        )
}

/// The finished value of one pixel: the average of a full set of
/// samples, each an admissible radiance for that pixel.
pub open spec fn pixel_average_ok(
    cam: Camera,
    objs: Seq<HittableObject>,
    col: int,
    row: int,
    avg: Vec3,
) -> bool {
    exists|samples: Seq<Vec3>|
        samples.len() == cam.samples_per_pixel && (forall|i: int|
            0 <= i < samples.len() ==> sample_radiance_ok(
                cam,
                objs,
                col,
                row,
                #[trigger] samples[i],
            )) && avg == v_sdiv(
            #[trigger] v3_sum(samples),
            (cam.samples_per_pixel as int) * (SCALE as int),
        )
}

/// The finished value of the pixel at flat index `idx` of the row-major
/// image.
pub open spec fn image_pixel_ok(cam: Camera, objs: Seq<HittableObject>, idx: int, avg: Vec3) -> bool {
    exists|row: int, col: int|
        0 <= row && 0 <= col < cam.width && idx == row * (cam.width as int) + col
            && #[trigger] pixel_average_ok(cam, objs, col, row, avg)
}

/// The bytes of the finished image: three gamma-encoded channels per
/// pixel average, in order.
pub open spec fn bytes_of_avgs(avgs: Seq<Vec3>) -> Seq<u8>
    decreases avgs.len(),
{
    if avgs.len() == 0 {
        Seq::empty()
    } else {
        bytes_of_avgs(avgs.drop_last()) + seq![
            spec_channel_byte(avgs.last().x) as u8,
            spec_channel_byte(avgs.last().y) as u8,
            spec_channel_byte(avgs.last().z) as u8,
        ]
    }
}

/// The sky gradient: white at the horizon blending upward to pale blue,
/// driven by the vertical component of the normalized direction.
pub open spec fn spec_sky(rv: RayV) -> Vec3 {
    let a = crate::interval::spec_clamp(
        0,
        SCALE as int,
        tdiv(v_unit(rv.direction).y + (SCALE as int), 2),
    );
    Vec3 {
        x: fmul(SCALE as int, (SCALE as int) - a) + fmul(32768, a),
        y: fmul(SCALE as int, (SCALE as int) - a) + fmul(45875, a),
        z: fmul(SCALE as int, (SCALE as int) - a) + fmul(SCALE as int, a),
    }
}

/// The color of a ray that leaves the scene.
pub fn sky_color(ray: &Ray) -> (r: Color)
    requires
        ray_wf(ray@),
        v_lensq(ray@.direction) >= 1,
    ensures
        r@ == spec_sky(ray@),
        color_unit(r@),
{
    let unit_direction = Vector3::unit_vector(&ray.direction);
    let a_raw = div_i64(unit_direction.y + SCALE, 2);
    let band = Interval::new(0, SCALE);
    let a = band.clamp(a_raw);
    let one_minus = SCALE - a;
    proof {
        vstd::arithmetic::div_mod::lemma_div_multiples_vanish(one_minus as int, 65536);
        vstd::arithmetic::div_mod::lemma_div_multiples_vanish(a as int, 65536);
        lemma_tdiv_abs(65536 * (one_minus as int), 65536);
        lemma_tdiv_abs(65536 * (a as int), 65536);
        vstd::arithmetic::mul::lemma_mul_is_commutative(32768, a as int);
        vstd::arithmetic::mul::lemma_mul_is_commutative(45875, a as int);
        lemma_fmul_unit(a as int, 32768);
        lemma_fmul_unit(a as int, 45875);
        lemma_fmul_nonneg(32768, a as int);
        lemma_fmul_nonneg(45875, a as int);
    }
    let white = Color::new(SCALE, SCALE, SCALE);
    let blue = Color::new(32768, 45875, SCALE);
    white.scale(one_minus).add(blue.scale(a))
}

/// The square-root gamma value of one channel, as a mathematical map.
pub open spec fn spec_gamma(x: int) -> int {
    if x > 0 {
        sqrt_floor(x * (SCALE as int))
    } else {
        0
    }
}

/// The byte a channel maps to: gamma-encode, clamp just below one, and
/// scale to the 256-step range.
pub open spec fn spec_channel_byte(x: int) -> int {
    tdiv(256 * crate::interval::spec_clamp(0, 65470, spec_gamma(x)), SCALE as int)
}

fn channel_byte(x: i64) -> (r: u8)
    ensures
        r == spec_channel_byte(x as int),
{
    let g = Camera::linear_to_gamma(x);
    let intensity = Interval::new(0, 65470);
    let cl = intensity.clamp(g);
    proof {
        lemma_tdiv_le(256 * (cl as int), 65536, 16760320);
        lemma_tdiv_abs(256 * (cl as int), 65536);
    }
    let b = div_i64(256 * cl, SCALE);
    b as u8
}

/// The three output bytes of a finished pixel color.
pub fn color_bytes(color: Color) -> (r: (u8, u8, u8))
    ensures
        r.0 == spec_channel_byte(color@.x),
        r.1 == spec_channel_byte(color@.y),
        r.2 == spec_channel_byte(color@.z),
{
    (channel_byte(color.x), channel_byte(color.y), channel_byte(color.z))
}

} // verus!
