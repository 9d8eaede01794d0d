//! The intersection abstraction: hit records, the hittable contract,
//! and the scene container that keeps the closest hit.

use vstd::prelude::*;
use crate::fixed::lemma_fmul_neg;
use crate::vector3::{Vector3, Point, v_dot, v_neg, v_in_range, v_quasi_unit, v_near_zero};
use crate::ray::{Ray, RayV, ray_wf};
use crate::interval::Interval;
use crate::material::{MaterialType, mat_wf};
use crate::sphere::{Sphere, HitInfo, sph_hit};

verus! {

pub struct HitRecord {
    pub p: Point,
    pub normal: Vector3,
    pub t: i64,
    pub front_face: bool,
    pub material: MaterialType,
}

impl HitRecord {
    /// The shape of every record of a successful intersection: a
    /// representable hit point, a normalized nonzero normal, and a
    /// well-formed material.
    pub open spec fn wf(&self) -> bool {
        v_in_range(self.p@) && v_quasi_unit(self.normal@) && !v_near_zero(self.normal@)
            && mat_wf(self.material)
    }

    /// Orients the stored normal against the incoming ray: kept as given
    /// when the ray arrives from outside, negated otherwise, so the
    /// stored normal never points along the ray.
    pub fn set_face_normal(&mut self, ray: &Ray, outward_normal: Vector3)
        requires
            ray_wf(ray@),
            v_in_range(outward_normal@),
        ensures
            final(self).front_face == (v_dot(ray@.direction, outward_normal@) < 0),
            final(self).normal@ == (if v_dot(ray@.direction, outward_normal@) < 0 {
                outward_normal@
            } else {
                v_neg(outward_normal@)
            }),
            v_dot(ray@.direction, final(self).normal@) <= 0,
            final(self).p == old(self).p,
            final(self).t == old(self).t,
            final(self).material == old(self).material,
    {
        let d = Vector3::dot(ray.direction, outward_normal);
        self.front_face = d < 0;
        if d < 0 {
            self.normal = outward_normal;
        } else {
            proof {
                lemma_fmul_neg(ray@.direction.x, outward_normal@.x);
                lemma_fmul_neg(ray@.direction.y, outward_normal@.y);
                lemma_fmul_neg(ray@.direction.z, outward_normal@.z);
            }
            self.normal = outward_normal.neg();
        }
    }
}

pub trait Hittable {
    spec fn wf(&self) -> bool;

    /// The intersection this object yields, as a mathematical value.
    spec fn spec_hit(&self, rv: RayV, tmin: int, tmax: int) -> Option<HitInfo>;

    /// Intersection over the open parameter window `(ray_t.min,
    /// ray_t.max)`: the running code returns exactly the mathematical
    /// hit, and every hit carries a well-formed record whose normal
    /// opposes the incoming ray.
    fn hit(&self, ray: &Ray, ray_t: Interval) -> (r: Option<HitRecord>)
        requires
            self.wf(),
            ray_wf(ray@),
        ensures
            hit_corresponds(r, self.spec_hit(ray@, ray_t.min as int, ray_t.max as int)),
            (match r {
                Some(rec) => rec.wf() && ray_t.min < rec.t < ray_t.max && v_dot(
                    ray@.direction,
                    rec.normal@,
                ) <= 0,
                None => true,
            }),
    ;
}

pub enum HittableObject {
    Sphere(Sphere),
}

/// The intersection of one scene object, as a mathematical value.
pub open spec fn obj_hit(o: HittableObject, rv: RayV, tmin: int, tmax: int) -> Option<HitInfo> {
    match o {
        HittableObject::Sphere(s) => sph_hit(s, rv, tmin, tmax),
    }
}

/// The record the running code returns carries exactly the mathematical hit.
pub open spec fn hit_corresponds(r: Option<HitRecord>, h: Option<HitInfo>) -> bool {
    match (r, h) {
        (Some(rec), Some(hi)) => rec.t == hi.t && rec.p@ == hi.p && rec.normal@ == hi.normal
            && rec.front_face == hi.front && rec.material == hi.mat,
        (None, None) => true,
        _ => false,
    }
}

/// The mathematical value of a returned record.
pub open spec fn rec_info(r: Option<HitRecord>) -> Option<HitInfo> {
    match r {
        Some(rec) => Some(
            HitInfo {
                t: rec.t as int,
                p: rec.p@,
                normal: rec.normal@,
                front: rec.front_face,
                mat: rec.material,
            },
        ),
        None => None,
    }
}

impl Hittable for HittableObject {
    open spec fn wf(&self) -> bool {
        match *self {
            HittableObject::Sphere(s) => s.wf(),
        }
    }

    open spec fn spec_hit(&self, rv: RayV, tmin: int, tmax: int) -> Option<HitInfo> {
        obj_hit(*self, rv, tmin, tmax)
    }

    fn hit(&self, ray: &Ray, ray_t: Interval) -> (r: Option<HitRecord>) {
        match self {
            HittableObject::Sphere(s) => s.hit(ray, ray_t),
        }
    }
}

pub struct HittableList {
    pub list: Vec<HittableObject>,
}

impl HittableList {
    pub fn new() -> (r: Self)
        ensures
            r.list@.len() == 0,
    {
        Self { list: Vec::new() }
    }

    /// Adds an object at the back of the scene.
    pub fn push(&mut self, obj: HittableObject)
        ensures
            final(self).list@ == old(self).list@.push(obj),
    {
        self.list.push(obj);
    }
}

/// The closest hit over a scene fragment: objects are scanned in order
/// and the window's upper end shrinks to each hit found, so the hit
/// kept is the one with the smallest parameter.
pub open spec fn list_hit(objs: Seq<HittableObject>, rv: RayV, tmin: int, tmax: int) -> Option<
    HitInfo,
>
    decreases objs.len(),
{
    if objs.len() == 0 {
        None
    } else {
        match obj_hit(objs[0], rv, tmin, tmax) {
            Some(hi) => match list_hit(objs.drop_first(), rv, tmin, hi.t) {
                Some(h2) => Some(h2),
                None => Some(hi),
            },
            None => list_hit(objs.drop_first(), rv, tmin, tmax),
        }
    }
}

/// The later result where there is one, else the earlier.
pub open spec fn combine_hit(best: Option<HitInfo>, rest: Option<HitInfo>) -> Option<HitInfo> {
    match rest {
        Some(h) => Some(h),
        None => best,
    }
}

/// A hit of a single object always lies strictly inside the window it
/// was searched in.
pub proof fn lemma_obj_hit_in_window(o: HittableObject, rv: RayV, tmin: int, tmax: int)
    requires
        obj_hit(o, rv, tmin, tmax) is Some,
    ensures
        tmin < obj_hit(o, rv, tmin, tmax)->Some_0.t < tmax,
{
    match o {
        HittableObject::Sphere(s) => {
        },
    }
}

/// Shrinking the window past a hit that still fits does not change it.
pub proof fn lemma_obj_hit_shrink(o: HittableObject, rv: RayV, tmin: int, tmax: int, cur: int)
    requires
        obj_hit(o, rv, tmin, tmax) is Some,
        obj_hit(o, rv, tmin, tmax)->Some_0.t < cur,
        tmin < cur <= tmax,
    ensures
        obj_hit(o, rv, tmin, cur) == obj_hit(o, rv, tmin, tmax),
{
    match o {
        HittableObject::Sphere(s) => {
        },
    }
}

/// A hit of the scene always lies strictly inside the window it was
/// searched in.
pub proof fn lemma_list_hit_in_window(objs: Seq<HittableObject>, rv: RayV, tmin: int, tmax: int)
    requires
        list_hit(objs, rv, tmin, tmax) is Some,
    ensures
        tmin < list_hit(objs, rv, tmin, tmax)->Some_0.t < tmax,
    decreases objs.len(),
{
    if objs.len() > 0 {
        match obj_hit(objs[0], rv, tmin, tmax) {
            Some(hi) => {
                lemma_obj_hit_in_window(objs[0], rv, tmin, tmax);
                if list_hit(objs.drop_first(), rv, tmin, hi.t) is Some {
                    lemma_list_hit_in_window(objs.drop_first(), rv, tmin, hi.t);
                }
            },
            None => {
                lemma_list_hit_in_window(objs.drop_first(), rv, tmin, tmax);
            },
        }
    }
}

/// The closest-hit law: whenever any single object of the scene is hit
/// inside the window, the scene's hit exists and is no farther than
/// that object's hit.
pub proof fn lemma_closest_hit(
    objs: Seq<HittableObject>,
    rv: RayV,
    tmin: int,
    tmax: int,
    i: int,
)
    requires
        0 <= i < objs.len(),
        obj_hit(objs[i], rv, tmin, tmax) is Some,
    ensures
        list_hit(objs, rv, tmin, tmax) is Some,
        list_hit(objs, rv, tmin, tmax)->Some_0.t <= obj_hit(objs[i], rv, tmin, tmax)->Some_0.t,
    decreases objs.len(),
{
    let hi = obj_hit(objs[i], rv, tmin, tmax)->Some_0;
    if i == 0 {
        match list_hit(objs.drop_first(), rv, tmin, hi.t) {
            Some(h2) => {
                lemma_list_hit_in_window(objs.drop_first(), rv, tmin, hi.t);
            },
            None => {
            },
        }
    } else {
        assert(objs.drop_first()[i - 1] == objs[i]);
        match obj_hit(objs[0], rv, tmin, tmax) {
            None => {
                lemma_closest_hit(objs.drop_first(), rv, tmin, tmax, i - 1);
            },
            Some(h0) => {
                lemma_obj_hit_in_window(objs[0], rv, tmin, tmax);
                if hi.t < h0.t {
                    lemma_obj_hit_shrink(objs[i], rv, tmin, tmax, h0.t);
                    lemma_closest_hit(objs.drop_first(), rv, tmin, h0.t, i - 1);
                    lemma_list_hit_in_window(objs.drop_first(), rv, tmin, h0.t);
                } else {
                    match list_hit(objs.drop_first(), rv, tmin, h0.t) {
                        Some(h2) => {
                            lemma_list_hit_in_window(objs.drop_first(), rv, tmin, h0.t);
                        },
                        None => {
                        },
                    }
                }
            },
        }
    }
}

impl Hittable for HittableList {
    open spec fn wf(&self) -> bool {
        forall|i: int| 0 <= i < self.list@.len() ==> (#[trigger] self.list@[i]).wf()
    }

    open spec fn spec_hit(&self, rv: RayV, tmin: int, tmax: int) -> Option<HitInfo> {
        list_hit(self.list@, rv, tmin, tmax)
    }

    fn hit(&self, ray: &Ray, ray_t: Interval) -> (r: Option<HitRecord>) {
        let ghost full = list_hit(self.list@, ray@, ray_t.min as int, ray_t.max as int);
        proof {
            assert(self.list@.skip(0) =~= self.list@);
        }
        let mut hit_rec: Option<HitRecord> = None;
        let mut closest_so_far = ray_t.max;
        let mut i: usize = 0;
        while i < self.list.len()
            invariant
                0 <= i <= self.list@.len(),
                self.wf(),
                ray_wf(ray@),
                full == list_hit(self.list@, ray@, ray_t.min as int, ray_t.max as int),
                (match hit_rec {
                    Some(rec) => rec.wf() && ray_t.min < rec.t < ray_t.max && v_dot(
                        ray@.direction,
                        rec.normal@,
                    ) <= 0 && closest_so_far == rec.t,
                    None => closest_so_far == ray_t.max,
                }),
                full == combine_hit(
                    rec_info(hit_rec),
                    list_hit(
                        self.list@.skip(i as int),
                        ray@,
                        ray_t.min as int,
                        closest_so_far as int,
                    ),
                ),
            decreases self.list@.len() - i,
        {
            let obj = &self.list[i];
            let tr = obj.hit(ray, Interval::new(ray_t.min, closest_so_far));
            proof {
                assert(self.list@.skip(i as int)[0] == self.list@[i as int]);
                assert(self.list@.skip(i as int).drop_first() =~= self.list@.skip(i as int + 1));
                assert(self.list@.skip(i as int).len() > 0);
            }
            match tr {
                Some(temp_rec) => {
                    closest_so_far = temp_rec.t;
                    hit_rec = Some(temp_rec);
                },
                None => {},
            }
            i = i + 1;
        }
        proof {
            assert(self.list@.skip(i as int) =~= Seq::<HittableObject>::empty());
        }
        hit_rec
    }
}

} // verus!
