//! The sole concrete scene primitive: a sphere with an attached material.

use vstd::prelude::*;
use vstd::math::abs;
use crate::fixed::{
    SCALE, FMAX, fmul, fdiv, sqrt_floor, mul_fix, div_fix, sqrt_fix, lemma_fmul_le,
};
use crate::vector3::{
    Vector3, Point, Vec3, v_sub, v_neg, v_sdiv, v_dot, v_lensq, v_in_range, v_quasi_unit,
    v_near_zero, VMAX,
};
use crate::ray::{Ray, RayV, ray_at};
use crate::interval::Interval;
use crate::material::{MaterialType, mat_wf};
use crate::hittable::{Hittable, HitRecord};

verus! {

/// The mathematical content of a successful intersection.
pub struct HitInfo {
    pub t: int,
    pub p: Vec3,
    pub normal: Vec3,
    pub front: bool,
    pub mat: MaterialType,
}

/// Discriminant of the hit quadratic in its half-angle form.
pub open spec fn sph_disc(s: Sphere, rv: RayV) -> int {
    let a = v_lensq(rv.direction);
    let oc = v_sub(s.center@, rv.origin);
    let h = v_dot(rv.direction, oc);
    let c = v_lensq(oc) - fmul(s.radius as int, s.radius as int);
    fmul(h, h) - fmul(a, c)
}

/// The record produced at parameter `t`, unless the hit point or the
/// outward normal degenerates past the representable range.
pub open spec fn sph_hit_at(s: Sphere, rv: RayV, t: int) -> Option<HitInfo> {
    if abs(t) > FMAX as int {
        None
    } else {
        let p = ray_at(rv, t);
        if !v_in_range(p) {
            None
        } else {
            let outward = v_sdiv(v_sub(p, s.center@), s.radius as int);
            if !v_quasi_unit(outward) || v_near_zero(outward) {
                None
            } else {
                let front = v_dot(rv.direction, outward) < 0;
                Some(
                    HitInfo {
                        t,
                        p,
                        normal: if front {
                            outward
                        } else {
                            v_neg(outward)
                        },
                        front,
                        mat: s.mat,
                    },
                )
            }
        }
    }
}

/// The full intersection decision: solve the quadratic, take the nearer
/// root strictly inside the window, else the farther one, else nothing.
pub open spec fn sph_hit(s: Sphere, rv: RayV, tmin: int, tmax: int) -> Option<HitInfo> {
    let a = v_lensq(rv.direction);
    let oc = v_sub(s.center@, rv.origin);
    let h = v_dot(rv.direction, oc);
    let disc = sph_disc(s, rv);
    if s.radius < 1 || a < 1 || disc < 0 {
        None
    } else {
        let sq = sqrt_floor(disc * (SCALE as int));
        let root1 = fdiv(h - sq, a);
        let root2 = fdiv(h + sq, a);
        if tmin < root1 && root1 < tmax {
            sph_hit_at(s, rv, root1)
        } else if tmin < root2 && root2 < tmax {
            sph_hit_at(s, rv, root2)
        } else {
            None
        }
    }
}

pub struct Sphere {
    pub center: Point,
    pub radius: i64,
    pub mat: MaterialType,
}

impl Sphere {
    /// Builds the sphere, clamping a negative radius to zero.
    pub fn new(center: Point, radius: i64, mat: MaterialType) -> (r: Self)
        requires
            v_in_range(center@),
            radius <= VMAX,
            mat_wf(mat),
        ensures
            r.wf(),
            r.center == center,
            r.mat == mat,
            r.radius == (if radius < 0 {
                0int
            } else {
                radius as int
            }),
    {
        Self {
            center,
            radius: if radius < 0 {
                0
            } else {
                radius
            },
            mat,
        }
    }
}

impl Hittable for Sphere {
    open spec fn wf(&self) -> bool {
        v_in_range(self.center@) && 0 <= self.radius <= VMAX && mat_wf(self.mat)
    }

    open spec fn spec_hit(&self, rv: RayV, tmin: int, tmax: int) -> Option<HitInfo> {
        sph_hit(*self, rv, tmin, tmax)
    }

    fn hit(&self, ray: &Ray, ray_t: Interval) -> (r: Option<HitRecord>)
        ensures
            sph_disc(*self, ray@) < 0 ==> (r is None),
    {
        if self.radius < 1 {
            return None;
        }
        let oc = self.center.sub(ray.origin);
        let a = ray.direction.length_squared();
        if a < 1 {
            return None;
        }
        let h = Vector3::dot(ray.direction, oc);
        proof {
            lemma_fmul_le(self.radius as int, self.radius as int, VMAX as int, VMAX as int);
        }
        let c = Vector3::dot(oc, oc) - mul_fix(self.radius, self.radius);
        proof {
            lemma_fmul_le(h as int, h as int, 457763671875, 457763671875);
            lemma_fmul_le(a as int, c as int, 457763671875, 495910644531);
        }
        let discriminant = mul_fix(h, h) - mul_fix(a, c);
        if discriminant < 0 {
            return None;
        }
        let sqrtd = sqrt_fix(discriminant);
        proof {
            assert((sqrtd as int) <= 700000000000) by (nonlinear_arith)
                requires
                    (sqrtd as int) * (sqrtd as int) <= (discriminant as int) * 65536,
                    0 <= discriminant as int <= 6661338147749193012,
                    sqrtd >= 0;
        }
        let mut root = div_fix(h - sqrtd, a);
        if !ray_t.surrounds(root) {
            root = div_fix(h + sqrtd, a);
            if !ray_t.surrounds(root) {
                return None;
            }
        }
        if root > FMAX || root < -FMAX {
            return None;
        }
        let p = ray.at(root);
        if !p.in_range() {
            return None;
        }
        let outward_normal = p.sub(self.center).div(self.radius);
        if !outward_normal.quasi_unit() {
            return None;
        }
        if outward_normal.near_zero() {
            return None;
        }
        let mut hr = HitRecord {
            t: root,
            p,
            normal: Vector3::new(0, 0, 0),
            front_face: false,
            material: self.mat,
        };
        hr.set_face_normal(ray, outward_normal);
        Some(hr)
    }
}

} // verus!
