//! Three-component fixed-point vectors: the shared representation of
//! points, directions and linear RGB colors.

use vstd::prelude::*;
use vstd::math::abs;
use crate::fixed::{
    SCALE, FMAX, DMAX, fmul, fdiv, sqrt_floor, is_sqrt_floor, mul_fix, div_fix, sqrt_fix,
    lemma_fmul_le, lemma_tdiv_abs, lemma_tdiv_le, lemma_abs_mul, lemma_sqrt_floor_is,
    lemma_fmul_neg, lemma_sqrt_floor_exists, lemma_fmul_zero,
};
use crate::rng::random_range_i64;

verus! {

/// Largest coordinate magnitude of a well-formed vector.
pub const VMAX: i64 = 50_000_000;

/// Largest coordinate magnitude the plain vector sums accept.
pub const AMAX: i64 = 2_000_000_000_000_000_000;

/// Mathematical view of a vector: three unbounded fixed-point coordinates.
pub struct Vec3 {
    pub x: int,
    pub y: int,
    pub z: int,
}

pub open spec fn v_add(a: Vec3, b: Vec3) -> Vec3 {
    Vec3 { x: a.x + b.x, y: a.y + b.y, z: a.z + b.z }
}

pub open spec fn v_sub(a: Vec3, b: Vec3) -> Vec3 {
    Vec3 { x: a.x - b.x, y: a.y - b.y, z: a.z - b.z }
}

pub open spec fn v_neg(a: Vec3) -> Vec3 {
    Vec3 { x: -a.x, y: -a.y, z: -a.z }
}

/// Componentwise product, as colors filter colors.
pub open spec fn v_cmul(a: Vec3, b: Vec3) -> Vec3 {
    Vec3 { x: fmul(a.x, b.x), y: fmul(a.y, b.y), z: fmul(a.z, b.z) }
}

/// Product with a fixed-point scalar.
pub open spec fn v_smul(a: Vec3, k: int) -> Vec3 {
    Vec3 { x: fmul(a.x, k), y: fmul(a.y, k), z: fmul(a.z, k) }
}

/// Quotient by a fixed-point scalar.
pub open spec fn v_sdiv(a: Vec3, k: int) -> Vec3 {
    Vec3 { x: fdiv(a.x, k), y: fdiv(a.y, k), z: fdiv(a.z, k) }
}

pub open spec fn v_dot(a: Vec3, b: Vec3) -> int {
    fmul(a.x, b.x) + fmul(a.y, b.y) + fmul(a.z, b.z)
}

pub open spec fn v_cross(a: Vec3, b: Vec3) -> Vec3 {
    Vec3 {
        x: fmul(a.y, b.z) - fmul(a.z, b.y),
        y: fmul(a.z, b.x) - fmul(a.x, b.z),
        z: fmul(a.x, b.y) - fmul(a.y, b.x),
    }
}

pub open spec fn v_lensq(a: Vec3) -> int {
    v_dot(a, a)
}

/// Fixed-point length: the floor square root of the squared length,
/// rescaled back to fixed point.
pub open spec fn v_len(a: Vec3) -> int {
    sqrt_floor(v_lensq(a) * (SCALE as int))
}

pub open spec fn v_unit(a: Vec3) -> Vec3 {
    v_sdiv(a, v_len(a))
}

/// All coordinates below the degeneracy threshold of 1/256 world unit.
pub open spec fn v_near_zero(a: Vec3) -> bool {
    abs(a.x) < 256 && abs(a.y) < 256 && abs(a.z) < 256
}

/// Every coordinate within the given magnitude.
pub open spec fn comp_bound(a: Vec3, m: int) -> bool {
    abs(a.x) <= m && abs(a.y) <= m && abs(a.z) <= m
}

/// Well-formed coordinates: small enough for every product the
/// intersection and shading arithmetic forms.
pub open spec fn v_in_range(a: Vec3) -> bool {
    abs(a.x) <= VMAX as int && abs(a.y) <= VMAX as int && abs(a.z) <= VMAX as int
}

/// The loose bound that normalized vectors satisfy: within two units.
pub open spec fn v_quasi_unit(a: Vec3) -> bool {
    abs(a.x) <= 2 * (SCALE as int) && abs(a.y) <= 2 * (SCALE as int) && abs(a.z) <= 2 * (
    SCALE as int)
}

/// Mirror reflection of `v` about the normal `n`.
pub open spec fn v_reflect(v: Vec3, n: Vec3) -> Vec3 {
    Vec3 {
        x: v.x - 2 * fmul(n.x, v_dot(v, n)),
        y: v.y - 2 * fmul(n.y, v_dot(v, n)),
        z: v.z - 2 * fmul(n.z, v_dot(v, n)),
    }
}

/// Snell refraction of the unit direction `uv` at the normal `n`,
/// split into components perpendicular and parallel to the surface.
pub open spec fn v_refract(uv: Vec3, n: Vec3, etai_over_etat: int) -> Vec3 {
    let cos_theta = vstd::math::min(SCALE as int, v_dot(v_neg(uv), n));
    let r_out_perp = v_smul(v_add(uv, v_smul(n, cos_theta)), etai_over_etat);
    let s = sqrt_floor(abs((SCALE as int) - v_lensq(r_out_perp)) * (SCALE as int));
    v_add(r_out_perp, v_smul(n, -s))
}

/// A nonnegative squared quantity.
pub proof fn lemma_fmul_sq_nonneg(a: int)
    ensures
        fmul(a, a) >= 0,
{
    assert(a * a >= 0) by (nonlinear_arith);
    lemma_tdiv_abs(a * a, SCALE as int);
}

/// Scaling commutes: `k * v` and `v * k` agree in every coordinate.
pub proof fn lemma_smul_commutes(a: Vec3, k: int)
    ensures
        v_smul(a, k) == (Vec3 { x: fmul(k, a.x), y: fmul(k, a.y), z: fmul(k, a.z) }),
{
}

/// A coordinate of a normalized vector stays within two units.
proof fn lemma_unit_comp_bound(vc: int, lensq: int, l: int)
    requires
        fmul(vc, vc) <= lensq,
        1 <= lensq,
        is_sqrt_floor(lensq * (SCALE as int), l),
    ensures
        l >= 256,
        abs(fdiv(vc, l)) <= 2 * (SCALE as int),
        abs(vc) <= 2 * l - 1,
{
    let s = SCALE as int;
    assert(lensq * s >= 65536) by (nonlinear_arith)
        requires
            lensq >= 1,
            s == 65536;
    assert(l >= 256) by (nonlinear_arith)
        requires
            l >= 0,
            lensq * s < (l + 1) * (l + 1),
            lensq * s >= 65536;
    // floor bound: vc * vc <= fmul(vc, vc) * s + s - 1
    lemma_tdiv_abs(vc * vc, s);
    assert(vc * vc >= 0) by (nonlinear_arith);
    vstd::arithmetic::div_mod::lemma_fundamental_div_mod(vc * vc, s);
    assert(vc * vc <= fmul(vc, vc) * s + s - 1) by {
        assert(vc * vc == s * ((vc * vc) / s) + (vc * vc) % s);
        assert((vc * vc) % s < s);
        assert(s * ((vc * vc) / s) == ((vc * vc) / s) * s) by (nonlinear_arith);
    }
    let m = abs(vc) as int;
    assert(m * m == vc * vc) by (nonlinear_arith)
        requires
            m == abs(vc);
    assert(m * m <= lensq * s + s - 1);
    assert(m <= 2 * l - 1) by (nonlinear_arith)
        requires
            m >= 0,
            l >= 256,
            m * m <= lensq * s + s - 1,
            lensq * s < (l + 1) * (l + 1),
            s == 65536;
    lemma_abs_mul(vc, s);
    lemma_tdiv_le(vc * s, l, m * s);
    assert(m * s <= (2 * l - 1) * s) by (nonlinear_arith)
        requires
            m <= 2 * l - 1,
            s > 0;
    vstd::arithmetic::div_mod::lemma_div_is_ordered(m * s, (2 * l - 1) * s, l);
    assert((2 * l - 1) * s / l <= 2 * s) by {
        assert((2 * l - 1) * s <= l * (2 * s)) by (nonlinear_arith)
            requires
                l >= 1,
                s > 0;
        vstd::arithmetic::div_mod::lemma_div_is_ordered((2 * l - 1) * s, l * (2 * s), l);
        vstd::arithmetic::div_mod::lemma_div_multiples_vanish(2 * s, l);
    }
}

/// The fixed-point square of a coordinate brackets the exact square
/// within one rescaling step.
proof fn lemma_sq_floor(vc: int)
    ensures
        0 <= fmul(vc, vc),
        fmul(vc, vc) * (SCALE as int) <= (abs(vc) as int) * (abs(vc) as int),
        (abs(vc) as int) * (abs(vc) as int) < fmul(vc, vc) * (SCALE as int) + (SCALE as int),
{
    let s = SCALE as int;
    let m = abs(vc) as int;
    lemma_fmul_sq_nonneg(vc);
    assert(vc * vc == m * m) by (nonlinear_arith)
        requires
            m == abs(vc);
    lemma_tdiv_abs(vc * vc, s);
    vstd::arithmetic::div_mod::lemma_fundamental_div_mod(m * m, s);
    assert(m * m >= 0) by (nonlinear_arith);
    assert(s * ((m * m) / s) == ((m * m) / s) * s) by (nonlinear_arith);
}

/// Per-coordinate facts behind the normalization law: the squared
/// normalized coordinate, scaled back by `l`, brackets the exact ratio.
proof fn lemma_unit_comp_sq(vc: int, l: int)
    requires
        l >= 1,
    ensures
        0 <= fmul(fdiv(vc, l), fdiv(vc, l)),
        fmul(fdiv(vc, l), fdiv(vc, l)) * (l * l) <= ((abs(vc) as int) * (abs(vc) as int)) * (
        SCALE as int),
        fmul(fdiv(vc, l), fdiv(vc, l)) * (l * l) >= ((abs(vc) as int) * (abs(vc) as int)) * (
        SCALE as int) - 2 * ((abs(vc) as int) * l) - (l * l),
{
    let s = SCALE as int;
    let m = abs(vc) as int;
    let u = fdiv(vc, l);
    let f = abs(u) as int;
    let g = fmul(u, u);
    lemma_tdiv_abs(vc * s, l);
    lemma_abs_mul(vc, s);
    assert(f == (m * s) / l);
    vstd::arithmetic::div_mod::lemma_fundamental_div_mod(m * s, l);
    assert(l * ((m * s) / l) == ((m * s) / l) * l) by (nonlinear_arith);
    assert(f * l <= m * s);
    assert(m * s < f * l + l);
    assert(m * s >= 0) by (nonlinear_arith)
        requires
            m >= 0,
            s >= 0;
    vstd::arithmetic::div_mod::lemma_div_pos_is_pos(m * s, l);
    if u >= 0 {
        assert(f == u);
    } else {
        assert(f == -u);
    }
    assert(u * u == f * f) by (nonlinear_arith)
        requires
            f == u || f == -u;
    lemma_fmul_sq_nonneg(u);
    lemma_tdiv_abs(u * u, s);
    assert(f * f >= 0) by (nonlinear_arith);
    vstd::arithmetic::div_mod::lemma_fundamental_div_mod(f * f, s);
    assert(s * ((f * f) / s) == ((f * f) / s) * s) by (nonlinear_arith);
    assert(g * s <= f * f);
    assert(f * f < g * s + s);
    // upper: (f l)^2 <= (m s)^2, then cancel one factor of s
    assert(f * f * (l * l) <= (m * m) * (s * s)) by (nonlinear_arith)
        requires
            0 <= f * l,
            f * l <= m * s;
    assert(g * s * (l * l) <= f * f * (l * l)) by (nonlinear_arith)
        requires
            g * s <= f * f,
            l * l >= 0;
    assert(g * (l * l) <= (m * m) * s) by (nonlinear_arith)
        requires
            g * s * (l * l) <= (m * m) * (s * s),
            s > 0;
    // lower: (f l)^2 >= (m s)^2 - 2 m s l, in both magnitude cases
    assert(f * f * (l * l) >= (m * m) * (s * s) - 2 * ((m * l) * s)) by (nonlinear_arith)
        requires
            f * l > m * s - l,
            f >= 0,
            l >= 1,
            m * s >= 0;
    assert(g * s * (l * l) >= f * f * (l * l) - s * (l * l)) by (nonlinear_arith)
        requires
            g * s > f * f - s,
            l * l >= 0;
    assert(g * (l * l) >= (m * m) * s - 2 * (m * l) - (l * l)) by (nonlinear_arith)
        requires
            g * s * (l * l) >= (m * m) * (s * s) - 2 * ((m * l) * s) - s * (l * l),
            s > 0;
}

/// The normalization law: a vector at least half a unit long
/// normalizes to one whose squared length and length are one unit,
/// within a tolerance of a few rescaling steps.
pub proof fn lemma_unit_vector_length(v: Vec3)
    requires
        v_in_range(v),
        v_lensq(v) >= 16384,
    ensures
        (SCALE as int) - 15 <= v_lensq(v_unit(v)) <= (SCALE as int) + 17,
        (SCALE as int) - 8 <= v_len(v_unit(v)) <= (SCALE as int) + 8,
{
    let s = SCALE as int;
    let q = v_lensq(v);
    lemma_fmul_sq_nonneg(v.x);
    lemma_fmul_sq_nonneg(v.y);
    lemma_fmul_sq_nonneg(v.z);
    lemma_sqrt_floor_exists(q * s);
    let l = sqrt_floor(q * s);
    assert(q * s >= 1073741824);
    assert(l >= 32768) by (nonlinear_arith)
        requires
            l >= 0,
            q * s < (l + 1) * (l + 1),
            q * s >= 1073741824;
    lemma_unit_comp_bound(v.x, q, l);
    lemma_unit_comp_bound(v.y, q, l);
    lemma_unit_comp_bound(v.z, q, l);
    lemma_unit_comp_sq(v.x, l);
    lemma_unit_comp_sq(v.y, l);
    lemma_unit_comp_sq(v.z, l);
    lemma_sq_floor(v.x);
    lemma_sq_floor(v.y);
    lemma_sq_floor(v.z);
    let mx = abs(v.x) as int;
    let my = abs(v.y) as int;
    let mz = abs(v.z) as int;
    let gx = fmul(fdiv(v.x, l), fdiv(v.x, l));
    let gy = fmul(fdiv(v.y, l), fdiv(v.y, l));
    let gz = fmul(fdiv(v.z, l), fdiv(v.z, l));
    let sg = gx + gy + gz;
    assert(v_len(v) == l);
    assert(v_lensq(v_unit(v)) == sg);
    assert((l + 1) * (l + 1) == l * l + 2 * l + 1) by (nonlinear_arith);
    // distribute the sums so only linear combination remains
    assert(sg * (l * l) == gx * (l * l) + gy * (l * l) + gz * (l * l)) by (nonlinear_arith)
        requires
            sg == gx + gy + gz;
    let sm2 = (mx * mx) + (my * my) + (mz * mz);
    assert(sm2 * s == (mx * mx) * s + (my * my) * s + (mz * mz) * s) by (nonlinear_arith)
        requires
            sm2 == (mx * mx) + (my * my) + (mz * mz);
    // the exact squared coordinates bracket q * s within three steps
    assert(sm2 <= q * s + 3 * s - 3);
    assert(sm2 >= q * s);
    // upper bound on the normalized squared length
    assert(sg * (l * l) <= sm2 * s);
    assert(sm2 * s <= (l * l + 2 * l + 3 * s - 3) * s) by (nonlinear_arith)
        requires
            sm2 <= q * s + 3 * s - 3,
            q * s <= l * l + 2 * l,
            s >= 0;
    assert(sg <= s + 17) by (nonlinear_arith)
        requires
            sg * (l * l) <= (l * l + 2 * l + 3 * 65536 - 3) * 65536,
            l >= 32768,
            s == 65536;
    // lower bound on the normalized squared length
    let sm = mx + my + mz;
    assert(2 * (sm * l) == 2 * (mx * l) + 2 * (my * l) + 2 * (mz * l)) by (nonlinear_arith)
        requires
            sm == mx + my + mz;
    assert(sg * (l * l) >= sm2 * s - 2 * (sm * l) - 3 * (l * l));
    assert(sm2 * s >= (l * l) * s) by (nonlinear_arith)
        requires
            sm2 >= q * s,
            q * s >= l * l,
            s >= 0;
    assert(sm <= 6 * l - 3);
    assert(2 * (sm * l) <= 12 * (l * l)) by (nonlinear_arith)
        requires
            sm <= 6 * l - 3,
            sm >= 0,
            l >= 1;
    assert(sg * (l * l) >= (l * l) * s - 15 * (l * l));
    assert(sg >= s - 15) by (nonlinear_arith)
        requires
            sg * (l * l) >= (l * l) * s - 15 * (l * l),
            l >= 1,
            s == 65536;
    // the length itself
    assert(sg * s >= 0) by (nonlinear_arith)
        requires
            sg >= 0,
            s >= 0;
    lemma_sqrt_floor_exists(sg * s);
    let lu = sqrt_floor(sg * s);
    assert(s - 8 <= lu <= s + 8) by (nonlinear_arith)
        requires
            lu >= 0,
            lu * lu <= sg * s,
            sg * s < (lu + 1) * (lu + 1),
            65521 <= sg <= 65553,
            s == 65536;
    assert(v_len(v_unit(v)) == lu);
}

#[derive(Clone, Copy, Debug, PartialEq, Eq, Structural)]
pub struct Vector3 {
    pub x: i64,
    pub y: i64,
    pub z: i64,
}

pub type Color = Vector3;

pub type Point = Vector3;

impl View for Vector3 {
    type V = Vec3;

    open spec fn view(&self) -> Vec3 {
        Vec3 { x: self.x as int, y: self.y as int, z: self.z as int }
    }
}

impl Vector3 {
    pub fn new(x: i64, y: i64, z: i64) -> (r: Self)
        ensures
            r@ == (Vec3 { x: x as int, y: y as int, z: z as int }),
    {
        Self { x, y, z }
    }

    pub fn add(self, rhs: Self) -> (r: Self)
        requires
            abs(self.x as int) <= AMAX as int && abs(self.y as int) <= AMAX as int && abs(
            self.z as int) <= AMAX as int,
            abs(rhs.x as int) <= AMAX as int && abs(rhs.y as int) <= AMAX as int && abs(
            rhs.z as int) <= AMAX as int,
        ensures
            r@ == v_add(self@, rhs@),
    {
        Self { x: self.x + rhs.x, y: self.y + rhs.y, z: self.z + rhs.z }
    }

    pub fn sub(self, rhs: Self) -> (r: Self)
        requires
            abs(self.x as int) <= AMAX as int && abs(self.y as int) <= AMAX as int && abs(
            self.z as int) <= AMAX as int,
            abs(rhs.x as int) <= AMAX as int && abs(rhs.y as int) <= AMAX as int && abs(
            rhs.z as int) <= AMAX as int,
        ensures
            r@ == v_sub(self@, rhs@),
    {
        Self { x: self.x - rhs.x, y: self.y - rhs.y, z: self.z - rhs.z }
    }

    pub fn neg(self) -> (r: Self)
        requires
            abs(self.x as int) <= AMAX as int && abs(self.y as int) <= AMAX as int && abs(
            self.z as int) <= AMAX as int,
        ensures
            r@ == v_neg(self@),
    {
        Self { x: -self.x, y: -self.y, z: -self.z }
    }

    /// Componentwise product of two colors.
    pub fn mul(self, rhs: Self) -> (r: Self)
        requires
            abs(self.x as int) <= FMAX as int && abs(self.y as int) <= FMAX as int && abs(
            self.z as int) <= FMAX as int,
            abs(rhs.x as int) <= FMAX as int && abs(rhs.y as int) <= FMAX as int && abs(
            rhs.z as int) <= FMAX as int,
        ensures
            r@ == v_cmul(self@, rhs@),
    {
        Self {
            x: mul_fix(self.x, rhs.x),
            y: mul_fix(self.y, rhs.y),
            z: mul_fix(self.z, rhs.z),
        }
    }

    /// Product with a fixed-point scalar.
    pub fn scale(self, k: i64) -> (r: Self)
        requires
            abs(self.x as int) <= FMAX as int && abs(self.y as int) <= FMAX as int && abs(
            self.z as int) <= FMAX as int,
            abs(k as int) <= FMAX as int,
        ensures
            r@ == v_smul(self@, k as int),
    {
        Self { x: mul_fix(self.x, k), y: mul_fix(self.y, k), z: mul_fix(self.z, k) }
    }

    /// Quotient by a fixed-point scalar.
    pub fn div(self, k: i64) -> (r: Self)
        requires
            abs(self.x as int) <= DMAX as int && abs(self.y as int) <= DMAX as int && abs(
            self.z as int) <= DMAX as int,
            k != 0,
        ensures
            r@ == v_sdiv(self@, k as int),
    {
        Self { x: div_fix(self.x, k), y: div_fix(self.y, k), z: div_fix(self.z, k) }
    }

    pub fn add_assign(&mut self, rhs: Self)
        requires
            abs(old(self).x as int) <= AMAX as int && abs(old(self).y as int) <= AMAX as int && abs(
            old(self).z as int) <= AMAX as int,
            abs(rhs.x as int) <= AMAX as int && abs(rhs.y as int) <= AMAX as int && abs(
            rhs.z as int) <= AMAX as int,
        ensures
            final(self)@ == v_add(old(self)@, rhs@),
    {
        self.x = self.x + rhs.x;
        self.y = self.y + rhs.y;
        self.z = self.z + rhs.z;
    }

    pub fn mul_assign(&mut self, rhs: Self)
        requires
            abs(old(self).x as int) <= FMAX as int && abs(old(self).y as int) <= FMAX as int && abs(
            old(self).z as int) <= FMAX as int,
            abs(rhs.x as int) <= FMAX as int && abs(rhs.y as int) <= FMAX as int && abs(
            rhs.z as int) <= FMAX as int,
        ensures
            final(self)@ == v_cmul(old(self)@, rhs@),
    {
        self.x = mul_fix(self.x, rhs.x);
        self.y = mul_fix(self.y, rhs.y);
        self.z = mul_fix(self.z, rhs.z);
    }

    pub fn div_assign(&mut self, k: i64)
        requires
            abs(old(self).x as int) <= DMAX as int && abs(old(self).y as int) <= DMAX as int && abs(
            old(self).z as int) <= DMAX as int,
            k != 0,
        ensures
            final(self)@ == v_sdiv(old(self)@, k as int),
    {
        self.x = div_fix(self.x, k);
        self.y = div_fix(self.y, k);
        self.z = div_fix(self.z, k);
    }

    pub fn dot(left: Self, right: Self) -> (r: i64)
        requires
            abs(left.x as int) <= 100_000_000 && abs(left.y as int) <= 100_000_000 && abs(
            left.z as int) <= 100_000_000,
            abs(right.x as int) <= 100_000_000 && abs(right.y as int) <= 100_000_000 && abs(
            right.z as int) <= 100_000_000,
        ensures
            r == v_dot(left@, right@),
            abs(r as int) <= 457763671875,
    {
        proof {
            lemma_fmul_le(left@.x, right@.x, 100_000_000, 100_000_000);
            lemma_fmul_le(left@.y, right@.y, 100_000_000, 100_000_000);
            lemma_fmul_le(left@.z, right@.z, 100_000_000, 100_000_000);
        }
        mul_fix(left.x, right.x) + mul_fix(left.y, right.y) + mul_fix(left.z, right.z)
    }

    pub fn cross(left: Self, right: Self) -> (r: Self)
        requires
            v_in_range(left@),
            v_in_range(right@),
        ensures
            r@ == v_cross(left@, right@),
    {
        proof {
            lemma_fmul_le(left@.y, right@.z, VMAX as int, VMAX as int);
            lemma_fmul_le(left@.z, right@.y, VMAX as int, VMAX as int);
            lemma_fmul_le(left@.z, right@.x, VMAX as int, VMAX as int);
            lemma_fmul_le(left@.x, right@.z, VMAX as int, VMAX as int);
            lemma_fmul_le(left@.x, right@.y, VMAX as int, VMAX as int);
            lemma_fmul_le(left@.y, right@.x, VMAX as int, VMAX as int);
        }
        Self {
            x: mul_fix(left.y, right.z) - mul_fix(left.z, right.y),
            y: mul_fix(left.z, right.x) - mul_fix(left.x, right.z),
            z: mul_fix(left.x, right.y) - mul_fix(left.y, right.x),
        }
    }

    pub fn length_squared(&self) -> (r: i64)
        requires
            abs(self.x as int) <= 100_000_000 && abs(self.y as int) <= 100_000_000 && abs(
            self.z as int) <= 100_000_000,
        ensures
            r == v_lensq(self@),
            0 <= r <= 457763671875,
    {
        proof {
            lemma_fmul_sq_nonneg(self@.x);
            lemma_fmul_sq_nonneg(self@.y);
            lemma_fmul_sq_nonneg(self@.z);
        }
        Self::dot(*self, *self)
    }

    pub fn length(&self) -> (r: i64)
        requires
            abs(self.x as int) <= 100_000_000 && abs(self.y as int) <= 100_000_000 && abs(
            self.z as int) <= 100_000_000,
        ensures
            r == v_len(self@),
            r >= 0,
            is_sqrt_floor(v_lensq(self@) * (SCALE as int), r as int),
    {
        let sq = self.length_squared();
        let r = sqrt_fix(sq);
        proof {
            lemma_sqrt_floor_is((sq as int) * (SCALE as int), r as int);
        }
        r
    }

    pub fn unit_vector(v: &Self) -> (r: Self)
        requires
            v_in_range(v@),
            v_lensq(v@) >= 1,
        ensures
            r@ == v_unit(v@),
            v_quasi_unit(r@),
            v_in_range(r@),
    {
        let l = v.length();
        proof {
            lemma_fmul_sq_nonneg(v@.x);
            lemma_fmul_sq_nonneg(v@.y);
            lemma_fmul_sq_nonneg(v@.z);
            lemma_unit_comp_bound(v@.x, v_lensq(v@), l as int);
            lemma_unit_comp_bound(v@.y, v_lensq(v@), l as int);
            lemma_unit_comp_bound(v@.z, v_lensq(v@), l as int);
        }
        v.div(l)
    }

    pub fn reflect(v: Self, n: Self) -> (r: Self)
        requires
            v_in_range(v@),
            v_quasi_unit(n@),
        ensures
            r@ == v_reflect(v@, n@),
    {
        let d = Self::dot(v, n);
        proof {
            lemma_fmul_le(v@.x, n@.x, VMAX as int, 131072);
            lemma_fmul_le(v@.y, n@.y, VMAX as int, 131072);
            lemma_fmul_le(v@.z, n@.z, VMAX as int, 131072);
            lemma_fmul_le(n@.x, d as int, 131072, 300000000);
            lemma_fmul_le(n@.y, d as int, 131072, 300000000);
            lemma_fmul_le(n@.z, d as int, 131072, 300000000);
        }
        Self {
            x: v.x - 2 * mul_fix(n.x, d),
            y: v.y - 2 * mul_fix(n.y, d),
            z: v.z - 2 * mul_fix(n.z, d),
        }
    }

    pub fn refract(uv: Self, n: Self, etai_over_etat: i64) -> (r: Self)
        requires
            v_quasi_unit(uv@),
            v_quasi_unit(n@),
            1 <= etai_over_etat <= 8 * SCALE,
        ensures
            r@ == v_refract(uv@, n@, etai_over_etat as int),
    {
        let minus_uv = uv.neg();
        let cos_raw = Self::dot(minus_uv, n);
        proof {
            lemma_fmul_le(v_neg(uv@).x, n@.x, 2 * (SCALE as int), 2 * (SCALE as int));
            lemma_fmul_le(v_neg(uv@).y, n@.y, 2 * (SCALE as int), 2 * (SCALE as int));
            lemma_fmul_le(v_neg(uv@).z, n@.z, 2 * (SCALE as int), 2 * (SCALE as int));
        }
        let cos_theta = if cos_raw > SCALE {
            SCALE
        } else {
            cos_raw
        };
        proof {
            lemma_fmul_le(n@.x, cos_theta as int, 2 * (SCALE as int), 786432);
            lemma_fmul_le(n@.y, cos_theta as int, 2 * (SCALE as int), 786432);
            lemma_fmul_le(n@.z, cos_theta as int, 2 * (SCALE as int), 786432);
        }
        let inner = uv.add(n.scale(cos_theta));
        proof {
            lemma_fmul_le(inner@.x, etai_over_etat as int, 1703936, 524288);
            lemma_fmul_le(inner@.y, etai_over_etat as int, 1703936, 524288);
            lemma_fmul_le(inner@.z, etai_over_etat as int, 1703936, 524288);
        }
        let r_out_perp = inner.scale(etai_over_etat);
        proof {
            lemma_fmul_le(r_out_perp@.x, r_out_perp@.x, 13631488, 13631488);
            lemma_fmul_le(r_out_perp@.y, r_out_perp@.y, 13631488, 13631488);
            lemma_fmul_le(r_out_perp@.z, r_out_perp@.z, 13631488, 13631488);
        }
        let pl = r_out_perp.length_squared();
        let diff = if SCALE - pl >= 0 {
            SCALE - pl
        } else {
            -(SCALE - pl)
        };
        let s = sqrt_fix(diff);
        proof {
            assert((s as int) <= 24000000) by (nonlinear_arith)
                requires
                    (s as int) * (s as int) <= (diff as int) * 65536,
                    0 <= diff as int <= 8506048512,
                    s >= 0;
            lemma_fmul_le(n@.x, -(s as int), 2 * (SCALE as int), 24000000);
            lemma_fmul_le(n@.y, -(s as int), 2 * (SCALE as int), 24000000);
            lemma_fmul_le(n@.z, -(s as int), 2 * (SCALE as int), 24000000);
        }
        let r_out_parallel = n.scale(-s);
        r_out_perp.add(r_out_parallel)
    }

    pub fn random() -> (r: Self)
        ensures
            0 <= r@.x < SCALE as int,
            0 <= r@.y < SCALE as int,
            0 <= r@.z < SCALE as int,
            v_in_range(r@),
    {
        Self {
            x: random_range_i64(0, SCALE),
            y: random_range_i64(0, SCALE),
            z: random_range_i64(0, SCALE),
        }
    }

    pub fn random_in(min: i64, max: i64) -> (r: Self)
        requires
            -VMAX <= min < max <= VMAX,
        ensures
            min as int <= r@.x < max as int,
            min as int <= r@.y < max as int,
            min as int <= r@.z < max as int,
            v_in_range(r@),
    {
        Self {
            x: random_range_i64(min, max),
            y: random_range_i64(min, max),
            z: random_range_i64(min, max),
        }
    }

    /// A vector of length close to one unit, drawn by rejection from the
    /// cube, with a fixed fallback direction should every draw land in
    /// the degenerate corner region.
    pub fn random_unit_vector() -> (r: Self)
        ensures
            v_quasi_unit(r@),
            v_in_range(r@),
            (SCALE as int) - 15 <= v_lensq(r@) <= (SCALE as int) + 17,
    {
        let mut tries: u32 = 0;
        while tries < 64
            decreases 64 - tries,
        {
            let p = Self::random_in(-SCALE, SCALE);
            let lensq = p.length_squared();
            if 16384 <= lensq && lensq <= SCALE {
                proof {
                    lemma_unit_vector_length(p@);
                }
                return Self::unit_vector(&p);
            }
            tries = tries + 1;
        }
        proof {
            lemma_fmul_zero(0);
            assert(fmul(SCALE as int, SCALE as int) == SCALE as int) by {
                lemma_tdiv_abs((SCALE as int) * (SCALE as int), SCALE as int);
            }
        }
        Self { x: SCALE, y: 0, z: 0 }
    }

    pub fn random_on_hemishpere(normal: Vector3) -> (r: Self)
        requires
            v_in_range(normal@),
        ensures
            v_quasi_unit(r@),
            v_in_range(r@),
            v_dot(r@, normal@) >= 0,
            (SCALE as int) - 15 <= v_lensq(r@) <= (SCALE as int) + 17,
    {
        let on_unit_sphere = Self::random_unit_vector();
        let d = Self::dot(on_unit_sphere, normal);
        if d > 0 {
            on_unit_sphere
        } else {
            proof {
                lemma_fmul_neg(on_unit_sphere@.x, normal@.x);
                lemma_fmul_neg(on_unit_sphere@.y, normal@.y);
                lemma_fmul_neg(on_unit_sphere@.z, normal@.z);
                // negation flips the sign of each coordinate twice in the
                // squared length, so the sampler's band carries over
                lemma_fmul_neg(on_unit_sphere@.x, -on_unit_sphere@.x);
                lemma_fmul_neg(on_unit_sphere@.x, on_unit_sphere@.x);
                lemma_fmul_neg(on_unit_sphere@.y, -on_unit_sphere@.y);
                lemma_fmul_neg(on_unit_sphere@.y, on_unit_sphere@.y);
                lemma_fmul_neg(on_unit_sphere@.z, -on_unit_sphere@.z);
                lemma_fmul_neg(on_unit_sphere@.z, on_unit_sphere@.z);
            }
            on_unit_sphere.neg()
        }
    }

    /// A point of the open unit disk in the xy-plane, drawn by rejection,
    /// with the disk center as fallback.
    pub fn random_in_unit_disk() -> (r: Self)
        ensures
            r@.z == 0,
            v_lensq(r@) < SCALE as int,
            v_in_range(r@),
            abs(r@.x) <= SCALE as int,
            abs(r@.y) <= SCALE as int,
    {
        let mut tries: u32 = 0;
        while tries < 64
            decreases 64 - tries,
        {
            let p = Self {
                x: random_range_i64(-SCALE, SCALE),
                y: random_range_i64(-SCALE, SCALE),
                z: 0,
            };
            let lensq = p.length_squared();
            if lensq < SCALE {
                return p;
            }
            tries = tries + 1;
        }
        proof {
            lemma_tdiv_abs(0, SCALE as int);
        }
        Self { x: 0, y: 0, z: 0 }
    }

    pub fn in_range(&self) -> (r: bool)
        ensures
            r == v_in_range(self@),
    {
        -VMAX <= self.x && self.x <= VMAX && -VMAX <= self.y && self.y <= VMAX && -VMAX <= self.z
            && self.z <= VMAX
    }

    pub fn quasi_unit(&self) -> (r: bool)
        ensures
            r == v_quasi_unit(self@),
    {
        -131072 <= self.x && self.x <= 131072 && -131072 <= self.y && self.y <= 131072 && -131072
            <= self.z && self.z <= 131072
    }

    pub fn near_zero(&self) -> (r: bool)
        requires
            v_in_range(self@),
        ensures
            r == v_near_zero(self@),
    {
        -256 < self.x && self.x < 256 && -256 < self.y && self.y < 256 && -256 < self.z && self.z
            < 256
    }
}

} // verus!
