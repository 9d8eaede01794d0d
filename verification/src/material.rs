//! Surface materials: the closed set of scattering models.
//!
//! A scatter consumes an incoming ray and a hit record and yields an
//! attenuation color together with the scattered ray, or nothing when
//! the path is absorbed.

use vstd::prelude::*;
use vstd::math::abs;
use crate::fixed::{
    SCALE, fmul, fdiv, sqrt_floor, mul_fix, div_fix, sqrt_fix, lemma_fmul_le, lemma_tdiv_abs,
    lemma_tdiv_le, lemma_abs_mul,
};
use crate::vector3::{
    Vector3, Color, Vec3, v_add, v_neg, v_smul, v_dot, v_lensq, v_unit, v_near_zero, v_in_range,
    v_quasi_unit, v_reflect, v_refract, lemma_fmul_sq_nonneg,
};
use crate::ray::{Ray, ray_wf};
use crate::hittable::HitRecord;

verus! {

/// A color whose channels all lie in `[0, 1]` world units.
pub open spec fn color_unit(c: Vec3) -> bool {
    0 <= c.x <= SCALE as int && 0 <= c.y <= SCALE as int && 0 <= c.z <= SCALE as int
}

/// A draw of the unit-sphere sampler: a quasi-unit vector whose squared
/// length is one unit within the sampler's tolerance band.
pub open spec fn unit_sample(u: Vec3) -> bool {
    v_quasi_unit(u) && v_in_range(u) && (SCALE as int) - 15 <= v_lensq(u) <= (SCALE as int) + 17
}

/// The Lambertian scatter direction for a given unit sample: the normal
/// perturbed by the sample, or the bare normal when the sum degenerates
/// to nearly zero.
pub open spec fn lambertian_direction(normal: Vec3, u: Vec3) -> Vec3 {
    if v_near_zero(v_add(normal, u)) {
        normal
    } else {
        v_add(normal, u)
    }
}

/// What every Lambertian scatter yields: the albedo as attenuation and a
/// ray from the hit point along the normal perturbed by some unit
/// sample.
pub open spec fn lambertian_post(l: Lambertian, rec: HitRecord, r: Option<(Color, Ray)>) -> bool {
    match r {
        Some((att, sc)) => att@ == l.albedo@ && sc@.origin == rec.p@ && v_in_range(sc@.direction)
            && !v_near_zero(sc@.direction) && (exists|u: Vec3|
            unit_sample(u) && sc@.direction == #[trigger] lambertian_direction(rec.normal@, u)),
        None => false,
    }
}

/// The Metal scatter direction for a given unit sample: the normalized
/// mirror reflection perturbed by the fuzz-scaled sample.
pub open spec fn metal_direction(vdir: Vec3, n: Vec3, fuzz: int, u: Vec3) -> Vec3 {
    v_add(v_unit(v_reflect(vdir, n)), v_smul(u, fuzz))
}

/// What every Metal scatter yields for incoming direction `vdir`: the
/// albedo as attenuation and a fuzzed mirror direction that still points
/// away from the surface; absorption only when the mirror reflection
/// degenerates, or when the drawn fuzzed direction would dive beneath
/// the surface.
pub open spec fn metal_post(m: Metal, rec: HitRecord, vdir: Vec3, r: Option<(Color, Ray)>) -> bool {
    let refl = v_reflect(vdir, rec.normal@);
    match r {
        Some((att, sc)) => att@ == m.albedo@ && sc@.origin == rec.p@ && v_in_range(sc@.direction)
            && v_dot(sc@.direction, rec.normal@) > 0 && v_in_range(refl) && v_lensq(refl) >= 1 && (
        exists|u: Vec3|
            unit_sample(u) && sc@.direction == #[trigger] metal_direction(
                vdir,
                rec.normal@,
                m.fuzz as int,
                u,
            )),
        None => !v_in_range(refl) || v_lensq(refl) < 1 || (exists|u: Vec3|
            unit_sample(u) && v_dot(
                #[trigger] metal_direction(vdir, rec.normal@, m.fuzz as int, u),
                rec.normal@,
            ) <= 0),
    }
}

/// The refraction ratio a dielectric applies: inverted when the ray
/// enters the medium from outside.
pub open spec fn dielectric_ratio(d: Dielectric, front_face: bool) -> int {
    if front_face {
        fdiv(SCALE as int, d.refraction_index as int)
    } else {
        d.refraction_index as int
    }
}

/// The cosine a dielectric sees between the reversed unit direction and
/// the normal, capped at one.
pub open spec fn dielectric_cos(uv: Vec3, n: Vec3) -> int {
    vstd::math::min(SCALE as int, v_dot(v_neg(uv), n))
}

/// The matching sine, floored at zero before the square root.
pub open spec fn dielectric_sin(uv: Vec3, n: Vec3) -> int {
    sqrt_floor(
        vstd::math::max(0, (SCALE as int) - fmul(dielectric_cos(uv, n), dielectric_cos(uv, n))) * (
        SCALE as int),
    )
}

/// Past the critical angle no refraction exists and reflection is forced.
pub open spec fn dielectric_cannot_refract(d: Dielectric, front_face: bool, uv: Vec3, n: Vec3) -> bool {
    fmul(dielectric_ratio(d, front_face), dielectric_sin(uv, n)) > SCALE as int
}

/// The direction a dielectric takes for the uniform draw `xi`: forced
/// mirror reflection past the critical angle, otherwise Schlick's
/// reflectance against the draw decides between reflection and Snell
/// refraction.
pub open spec fn dielectric_choice(d: Dielectric, front_face: bool, uv: Vec3, n: Vec3, xi: int) -> Vec3 {
    if dielectric_cannot_refract(d, front_face, uv, n) || spec_reflectance(
        dielectric_cos(uv, n),
        d.refraction_index as int,
    ) > xi {
        v_reflect(uv, n)
    } else {
        v_refract(uv, n, dielectric_ratio(d, front_face))
    }
}

/// What every Dielectric scatter yields: full transmission and the
/// direction the drawn value selects; absorption only when that
/// direction leaves the representable range.
pub open spec fn dielectric_post(d: Dielectric, rec: HitRecord, uv: Vec3, r: Option<
    (Color, Ray),
>) -> bool {
    match r {
        Some((att, sc)) => att@ == (Vec3 { x: SCALE as int, y: SCALE as int, z: SCALE as int })
            && sc@.origin == rec.p@ && v_in_range(sc@.direction) && (exists|xi: int|
            0 <= xi < SCALE as int && sc@.direction == #[trigger] dielectric_choice(
                d,
                rec.front_face,
                uv,
                rec.normal@,
                xi,
            )),
        None => exists|xi: int|
            0 <= xi < SCALE as int && !v_in_range(
                #[trigger] dielectric_choice(d, rec.front_face, uv, rec.normal@, xi),
            ),
    }
}

/// The whole contract of a dielectric scatter: full transmission
/// whenever anything comes back; absorption exactly for a degenerate
/// incoming direction or a chosen direction past the representable
/// range.
pub open spec fn dielectric_full_post(d: Dielectric, rec: HitRecord, dir: Vec3, r: Option<
    (Color, Ray),
>) -> bool {
    &&& (match r {
        Some((att, sc)) => att@ == (Vec3 { x: SCALE as int, y: SCALE as int, z: SCALE as int })
            && sc@.origin == rec.p@ && v_in_range(sc@.direction),
        None => true,
    })
    &&& (v_lensq(dir) < 1 ==> (r is None))
    &&& (v_lensq(dir) >= 1 ==> dielectric_post(d, rec, v_unit(dir), r))
}

/// The attenuation each material owes whenever it scatters.
pub open spec fn mat_attenuation(m: MaterialType, att: Vec3) -> bool {
    match m {
        MaterialType::Lambertian(l) => att == l.albedo@,
        MaterialType::Metal(mm) => att == mm.albedo@,
        MaterialType::Dielectric(d) => att == (Vec3 {
            x: SCALE as int,
            y: SCALE as int,
            z: SCALE as int,
        }),
    }
}

/// Well-formedness of a material's parameters, independent of the
/// scattering contract.
pub open spec fn mat_wf(m: MaterialType) -> bool {
    match m {
        MaterialType::Metal(mm) => color_unit(mm.albedo@) && 0 <= mm.fuzz <= SCALE,
        MaterialType::Lambertian(l) => color_unit(l.albedo@),
        MaterialType::Dielectric(d) => 16384 <= d.refraction_index <= 262144,
    }
}

pub trait Material {
    spec fn wf(&self) -> bool;

    fn scatter(&self, r_in: &Ray, rec: &HitRecord) -> (r: Option<(Color, Ray)>)
        requires
            self.wf(),
            ray_wf(r_in@),
            rec.wf(),
        ensures
            (match r {
                Some((att, sc)) => color_unit(att@) && sc@.origin == rec.p@ && v_in_range(
                    sc@.direction,
                ) && v_in_range(sc@.origin),
                None => true,
            }),
    ;
}

#[derive(Clone, Copy)]
pub enum MaterialType {
    Metal(Metal),
    Lambertian(Lambertian),
    Dielectric(Dielectric),
}

impl Material for MaterialType {
    open spec fn wf(&self) -> bool {
        mat_wf(*self)
    }

    fn scatter(&self, r_in: &Ray, rec: &HitRecord) -> (r: Option<(Color, Ray)>)
        ensures
            (match *self {
                MaterialType::Metal(m) => metal_post(m, *rec, r_in@.direction, r),
                MaterialType::Lambertian(l) => lambertian_post(l, *rec, r),
                MaterialType::Dielectric(d) => dielectric_full_post(d, *rec, r_in@.direction, r),
            }),
    {
        match self {
            MaterialType::Metal(m) => m.scatter(r_in, rec),
            MaterialType::Lambertian(l) => l.scatter(r_in, rec),
            MaterialType::Dielectric(d) => d.scatter(r_in, rec),
        }
    }
}

/// One color channel forced into the unit energy band.
pub open spec fn spec_clamp_channel(x: int) -> int {
    if x < 0 {
        0
    } else if x <= SCALE as int {
        x
    } else {
        SCALE as int
    }
}

/// A color forced channelwise into the unit energy band.
pub open spec fn spec_clamp_color(c: Vec3) -> Vec3 {
    Vec3 {
        x: spec_clamp_channel(c.x),
        y: spec_clamp_channel(c.y),
        z: spec_clamp_channel(c.z),
    }
}

#[derive(Clone, Copy)]
pub struct Lambertian {
    pub albedo: Color,
}

impl Lambertian {
    /// Builds the material.  Each albedo channel is clamped into
    /// `[0, 1]`: the stored albedo is a per-bounce energy fraction, and
    /// the bounded range of the radiance recursion rests on it — a
    /// channel above one would let radiance grow past the representable
    /// band.
    pub fn new(albedo: Color) -> (r: Self)
        ensures
            r.wf(),
            r.albedo@ == spec_clamp_color(albedo@),
    {
        Self { albedo: clamp_color(albedo) }
    }
}

impl Material for Lambertian {
    open spec fn wf(&self) -> bool {
        color_unit(self.albedo@)
    }

    fn scatter(&self, r_in: &Ray, rec: &HitRecord) -> (r: Option<(Color, Ray)>)
        ensures
            lambertian_post(*self, *rec, r),
    {
        let u = Vector3::random_unit_vector();
        let mut scattered_direction = rec.normal.add(u);
        if scattered_direction.near_zero() {
            scattered_direction = rec.normal;
        }
        proof {
            assert(scattered_direction@ == lambertian_direction(rec.normal@, u@));
        }
        let scattered = Ray::new(rec.p, scattered_direction);
        let attenuation = self.albedo;
        Some((attenuation, scattered))
    }
}

#[derive(Clone, Copy)]
pub struct Metal {
    pub albedo: Color,
    pub fuzz: i64,
}

impl Metal {
    /// Builds the material.  The fuzz is clamped into `[0, 1]`, and so
    /// is each albedo channel: the stored albedo is a per-bounce energy
    /// fraction, and the bounded range of the radiance recursion rests
    /// on it.
    pub fn new(albedo: Color, fuzz: i64) -> (r: Self)
        ensures
            r.wf(),
            r.albedo@ == spec_clamp_color(albedo@),
            r.fuzz == spec_clamp_channel(fuzz as int),
    {
        let f = if fuzz < 0 {
            0
        } else if fuzz < SCALE {
            fuzz
        } else {
            SCALE
        };
        Self { albedo: clamp_color(albedo), fuzz: f }
    }
}

impl Material for Metal {
    open spec fn wf(&self) -> bool {
        color_unit(self.albedo@) && 0 <= self.fuzz <= SCALE
    }

    fn scatter(&self, r_in: &Ray, rec: &HitRecord) -> (r: Option<(Color, Ray)>)
        ensures
            metal_post(*self, *rec, r_in@.direction, r),
            (self.fuzz == 0 && v_in_range(v_reflect(r_in@.direction, rec.normal@)) && v_lensq(
                v_reflect(r_in@.direction, rec.normal@),
            ) >= 1 && v_dot(v_unit(v_reflect(r_in@.direction, rec.normal@)), rec.normal@) > 0)
                ==> (match r {
                Some((att, sc)) => sc@.direction == v_unit(
                    v_reflect(r_in@.direction, rec.normal@),
                ),
                None => false,
            }),
    {
        let reflected = Vector3::reflect(r_in.direction, rec.normal);
        if !reflected.in_range() {
            return None;
        }
        let lsq = reflected.length_squared();
        if lsq < 1 {
            return None;
        }
        let unit_r = Vector3::unit_vector(&reflected);
        let u = Vector3::random_unit_vector();
        proof {
            lemma_fmul_le(u@.x, self.fuzz as int, 2 * (SCALE as int), SCALE as int);
            lemma_fmul_le(u@.y, self.fuzz as int, 2 * (SCALE as int), SCALE as int);
            lemma_fmul_le(u@.z, self.fuzz as int, 2 * (SCALE as int), SCALE as int);
        }
        proof {
            if self.fuzz == 0 {
                crate::fixed::lemma_fmul_zero(u@.x);
                crate::fixed::lemma_fmul_zero(u@.y);
                crate::fixed::lemma_fmul_zero(u@.z);
            }
        }
        let fuzzed = unit_r.add(u.scale(self.fuzz));
        proof {
            assert(fuzzed@ == metal_direction(
                r_in@.direction,
                rec.normal@,
                self.fuzz as int,
                u@,
            ));
        }
        let scattered = Ray::new(rec.p, fuzzed);
        let attenuation = self.albedo;
        if Vector3::dot(scattered.direction, rec.normal) > 0 {
            Some((attenuation, scattered))
        } else {
            None
        }
    }
}

#[derive(Clone, Copy)]
pub struct Dielectric {
    pub refraction_index: i64,
}

impl Dielectric {
    /// Builds the material, clamping the refraction index into the band
    /// `[1/4, 4]` that the refraction arithmetic accepts.
    pub fn new(refraction_index: i64) -> (r: Self)
        ensures
            r.wf(),
            16384 <= refraction_index <= 262144 ==> r.refraction_index == refraction_index,
    {
        let ri = if refraction_index < 16384 {
            16384
        } else if refraction_index <= 262144 {
            refraction_index
        } else {
            262144
        };
        Self { refraction_index: ri }
    }

    /// Schlick's approximation of the Fresnel reflectance.
    pub fn reflectance(cosine: i64, refraction_index: i64) -> (r: i64)
        requires
            16384 <= refraction_index <= 262144,
            -(13 * SCALE) <= cosine <= SCALE,
        ensures
            r == spec_reflectance(cosine as int, refraction_index as int),
            cosine == SCALE ==> r == spec_r0sq(refraction_index as int),
    {
        let s = SCALE;
        let num = s - refraction_index;
        let den = s + refraction_index;
        proof {
            lemma_tdiv_le((num as int) * (s as int), den as int, 12884901888int);
            lemma_abs_mul(num as int, s as int);
            vstd::arithmetic::div_mod::lemma_div_is_ordered(
                abs((num as int) * (s as int)) as int,
                12884901888int,
                81920,
            );
            vstd::arithmetic::div_mod::lemma_div_is_ordered_by_denominator(
                abs((num as int) * (s as int)) as int,
                81920,
                den as int,
            );
        }
        let r0 = div_fix(num, den);
        proof {
            lemma_fmul_le(r0 as int, r0 as int, 157287, 157287);
        }
        let r0sq = mul_fix(r0, r0);
        let q = s - cosine;
        proof {
            lemma_fmul_le(q as int, q as int, 917504, 917504);
            lemma_fmul_le(fmul(q as int, q as int), fmul(q as int, q as int), 12845056, 12845056);
            lemma_fmul_le(
                fmul(fmul(q as int, q as int), fmul(q as int, q as int)),
                q as int,
                2517630976,
                917504,
            );
            lemma_fmul_le(
                (s - r0sq) as int,
                fmul(fmul(fmul(q as int, q as int), fmul(q as int, q as int)), q as int),
                443209,
                35246833664,
            );
        }
        let q2 = mul_fix(q, q);
        let q4 = mul_fix(q2, q2);
        let q5 = mul_fix(q4, q);
        let r = r0sq + mul_fix(s - r0sq, q5);
        proof {
            if cosine == SCALE {
                crate::fixed::lemma_fmul_zero(0);
                crate::fixed::lemma_fmul_zero((SCALE as int) - spec_r0sq(refraction_index as int));
            }
        }
        r
    }
}

/// Fresnel reflectance at normal incidence.
pub open spec fn spec_r0sq(ri: int) -> int {
    let r0 = fdiv((SCALE as int) - ri, (SCALE as int) + ri);
    fmul(r0, r0)
}

/// Schlick's approximation in fixed point: reflectance at normal
/// incidence plus the grazing-angle term.
pub open spec fn spec_reflectance(cosine: int, ri: int) -> int {
    let r0sq = spec_r0sq(ri);
    let q = (SCALE as int) - cosine;
    let q5 = fmul(fmul(fmul(q, q), fmul(q, q)), q);
    r0sq + fmul((SCALE as int) - r0sq, q5)
}

impl Material for Dielectric {
    open spec fn wf(&self) -> bool {
        16384 <= self.refraction_index <= 262144
    }

    fn scatter(&self, r_in: &Ray, rec: &HitRecord) -> (r: Option<(Color, Ray)>)
        ensures
            dielectric_full_post(*self, *rec, r_in@.direction, r),
            (v_lensq(r_in@.direction) >= 1 && dielectric_cannot_refract(
                *self,
                rec.front_face,
                v_unit(r_in@.direction),
                rec.normal@,
            )) ==> (match r {
                Some((att, sc)) => sc@.direction == v_reflect(
                    v_unit(r_in@.direction),
                    rec.normal@,
                ),
                None => true,
            }),
            (v_lensq(r_in@.direction) >= 1 && v_in_range(
                v_reflect(v_unit(r_in@.direction), rec.normal@),
            ) && v_in_range(
                v_refract(
                    v_unit(r_in@.direction),
                    rec.normal@,
                    dielectric_ratio(*self, rec.front_face),
                ),
            )) ==> (r is Some),
    {
        let attenuation = Color::new(SCALE, SCALE, SCALE);
        let ri = if rec.front_face {
            proof {
                lemma_tdiv_le((SCALE as int) * (SCALE as int), self.refraction_index as int, 4294967296);
                lemma_abs_mul(SCALE as int, SCALE as int);
                vstd::arithmetic::div_mod::lemma_div_is_ordered_by_denominator(
                    4294967296,
                    16384,
                    self.refraction_index as int,
                );
                lemma_tdiv_abs((SCALE as int) * (SCALE as int), self.refraction_index as int);
                vstd::arithmetic::div_mod::lemma_div_is_ordered_by_denominator(
                    4294967296,
                    self.refraction_index as int,
                    262144,
                );
            }
            div_fix(SCALE, self.refraction_index)
        } else {
            self.refraction_index
        };
        let dlsq = r_in.direction.length_squared();
        if dlsq < 1 {
            return None;
        }
        let unit_direction = Vector3::unit_vector(&r_in.direction);
        let minus_unit = unit_direction.neg();
        let cos_raw = Vector3::dot(minus_unit, rec.normal);
        proof {
            lemma_fmul_le(v_neg(v_unit(r_in@.direction)).x, rec.normal@.x, 2 * (SCALE as int), 2 * (
            SCALE as int));
            lemma_fmul_le(v_neg(v_unit(r_in@.direction)).y, rec.normal@.y, 2 * (SCALE as int), 2 * (
            SCALE as int));
            lemma_fmul_le(v_neg(v_unit(r_in@.direction)).z, rec.normal@.z, 2 * (SCALE as int), 2 * (
            SCALE as int));
        }
        let cos_theta = if cos_raw > SCALE {
            SCALE
        } else {
            cos_raw
        };
        proof {
            lemma_fmul_le(cos_theta as int, cos_theta as int, 786432, 786432);
        }
        proof {
            lemma_fmul_sq_nonneg(cos_theta as int);
        }
        let sin_arg = SCALE - mul_fix(cos_theta, cos_theta);
        let sin_theta = sqrt_fix(
            if sin_arg >= 0 {
                sin_arg
            } else {
                0
            },
        );
        proof {
            assert((sin_theta as int) <= 786432) by (nonlinear_arith)
                requires
                    (sin_theta as int) * (sin_theta as int) <= 4294967296,
                    sin_theta >= 0;
            lemma_fmul_le(ri as int, sin_theta as int, 262144, 786432);
        }
        let cannot_refract = mul_fix(ri, sin_theta) > SCALE;
        let xi = crate::rng::random_range_i64(0, SCALE);
        let reflect_choice = cannot_refract || Dielectric::reflectance(
            cos_theta,
            self.refraction_index,
        ) > xi;
        proof {
            let uv = v_unit(r_in@.direction);
            assert(cos_theta == dielectric_cos(uv, rec.normal@));
            assert(sin_theta == dielectric_sin(uv, rec.normal@));
            assert(ri == dielectric_ratio(*self, rec.front_face));
            assert(cannot_refract == dielectric_cannot_refract(
                *self,
                rec.front_face,
                uv,
                rec.normal@,
            ));
        }
        let direction = if reflect_choice {
            Vector3::reflect(unit_direction, rec.normal)
        } else {
            Vector3::refract(unit_direction, rec.normal, ri)
        };
        proof {
            assert(direction@ == dielectric_choice(
                *self,
                rec.front_face,
                v_unit(r_in@.direction),
                rec.normal@,
                xi as int,
            ));
        }
        if !direction.in_range() {
            return None;
        }
        let scattered = Ray::new(rec.p, direction);
        Some((attenuation, scattered))
    }
}

/// The energy law: no scatter amplifies light.  Lambertian and Metal
/// attenuate by exactly the albedo, never more than the material's own
/// color, and a Dielectric transmits in full.
pub proof fn lemma_scatter_energy(
    m: MaterialType,
    rec: HitRecord,
    dir: Vec3,
    r: Option<(Color, Ray)>,
)
    requires
        mat_wf(m),
        (match m {
            MaterialType::Lambertian(l) => lambertian_post(l, rec, r),
            MaterialType::Metal(mm) => metal_post(mm, rec, dir, r),
            MaterialType::Dielectric(d) => dielectric_full_post(d, rec, dir, r),
        }),
    ensures
        (match r {
            Some((att, sc)) => match m {
                MaterialType::Lambertian(l) => att@.x <= l.albedo@.x && att@.y <= l.albedo@.y
                    && att@.z <= l.albedo@.z && color_unit(att@),
                MaterialType::Metal(mm) => att@.x <= mm.albedo@.x && att@.y <= mm.albedo@.y
                    && att@.z <= mm.albedo@.z && color_unit(att@),
                MaterialType::Dielectric(d) => att@ == (Vec3 {
                    x: SCALE as int,
                    y: SCALE as int,
                    z: SCALE as int,
                }),
            },
            None => true,
        }),
{
}

/// Clamp each channel of a color into `[0, 1]`.
fn clamp_color(c: Color) -> (r: Color)
    ensures
        color_unit(r@),
        r@ == spec_clamp_color(c@),
{
    Color {
        x: clamp_channel(c.x),
        y: clamp_channel(c.y),
        z: clamp_channel(c.z),
    }
}

fn clamp_channel(x: i64) -> (r: i64)
    ensures
        0 <= r <= SCALE,
        r == spec_clamp_channel(x as int),
{
    if x < 0 {
        0
    } else if x <= SCALE {
        x
    } else {
        SCALE
    }
}

} // verus!
