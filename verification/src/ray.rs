//! Rays: an origin point and an unnormalized direction.

use vstd::prelude::*;
use vstd::math::abs;
use crate::vector3::{Vector3, Point, Vec3, v_add, v_smul, v_in_range, VMAX};
use crate::fixed::{FMAX, lemma_fmul_le};

verus! {

/// Mathematical view of a ray.
pub struct RayV {
    pub origin: Vec3,
    pub direction: Vec3,
}

/// Both endpoints of the ray description are well-formed vectors.
pub open spec fn ray_wf(r: RayV) -> bool {
    v_in_range(r.origin) && v_in_range(r.direction)
}

/// The point reached after parameter `t` along the ray.
pub open spec fn ray_at(r: RayV, t: int) -> Vec3 {
    v_add(r.origin, v_smul(r.direction, t))
}

#[derive(Clone, Copy)]
pub struct Ray {
    pub origin: Point,
    pub direction: Vector3,
}

impl View for Ray {
    type V = RayV;

    open spec fn view(&self) -> RayV {
        RayV { origin: self.origin@, direction: self.direction@ }
    }
}

impl Ray {
    pub fn new(origin: Point, direction: Vector3) -> (r: Self)
        ensures
            r@.origin == origin@,
            r@.direction == direction@,
    {
        Self { origin, direction }
    }

    pub fn at(&self, t: i64) -> (r: Point)
        requires
            ray_wf(self@),
            abs(t as int) <= FMAX as int,
        ensures
            r@ == ray_at(self@, t as int),
    {
        proof {
            lemma_fmul_le(self@.direction.x, t as int, VMAX as int, FMAX as int);
            lemma_fmul_le(self@.direction.y, t as int, VMAX as int, FMAX as int);
            lemma_fmul_le(self@.direction.z, t as int, VMAX as int, FMAX as int);
        }
        self.origin.add(self.direction.scale(t))
    }
}

} // verus!
