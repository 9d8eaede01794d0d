//! Fixed-point scalar arithmetic for the renderer.
//!
//! Every real quantity of the pipeline (coordinates, colors, ray
//! parameters, angles) is carried as an `i64` holding the quantity
//! scaled by [`SCALE`], so one world unit is `SCALE` ticks.  All
//! helpers round toward zero and state their exact result over `int`.

use vstd::prelude::*;
use vstd::arithmetic::div_mod::{
    lemma_div_is_ordered, lemma_div_pos_is_pos, lemma_div_nonincreasing,
    lemma_fundamental_div_mod, lemma_div_multiples_vanish, lemma_div_is_ordered_by_denominator,
};
use vstd::arithmetic::mul::{lemma_mul_inequality, lemma_mul_upper_bound};
use vstd::math::abs;

verus! {

/// Number of ticks in one world unit.
pub const SCALE: i64 = 65536;

/// Largest magnitude the fixed-point multiplier accepts; the product of
/// two such numbers, rescaled, still fits an `i64`.
pub const FMAX: i64 = 700_000_000_000;

/// Largest magnitude the fixed-point divider accepts for its numerator.
pub const DMAX: i64 = 2_000_000_000_000;

/// Division rounding toward zero, the rounding of every exec helper here.
pub open spec fn tdiv(n: int, d: int) -> int {
    let q = abs(n) / abs(d);
    if (n >= 0) == (d >= 0) {
        q as int
    } else {
        -(q as int)
    }
}

/// Fixed-point product: the exact product, rescaled, rounded toward zero.
pub open spec fn fmul(a: int, b: int) -> int {
    tdiv(a * b, SCALE as int)
}

/// Fixed-point quotient `a / b` in world units, rounded toward zero.
pub open spec fn fdiv(a: int, b: int) -> int {
    tdiv(a * (SCALE as int), b)
}

/// `|a|` as an unsigned machine word.
pub fn abs_u64(a: i64) -> (r: u64)
    ensures
        r == abs(a as int),
{
    if a >= 0 {
        a as u64
    } else {
        (-(a as i128)) as u64
    }
}

/// `tdiv` is the quotient of magnitudes with the sign of `n * d`.
pub proof fn lemma_tdiv_abs(n: int, d: int)
    requires
        d != 0,
    ensures
        abs(tdiv(n, d)) == abs(n) / abs(d),
        abs(tdiv(n, d)) <= abs(n),
        n >= 0 && d > 0 ==> tdiv(n, d) >= 0 && tdiv(n, d) == n / d,
{
    lemma_div_pos_is_pos(abs(n) as int, abs(d) as int);
    lemma_div_nonincreasing(abs(n) as int, abs(d) as int);
    if n >= 0 && d > 0 {
        assert(abs(n) == n && abs(d) == d);
    }
}

/// A bound on the numerator gives a bound on the truncated quotient.
pub proof fn lemma_tdiv_le(n: int, d: int, m: int)
    requires
        d > 0,
        abs(n) <= m,
    ensures
        abs(tdiv(n, d)) <= m / d,
        abs(tdiv(n, d)) <= m,
{
    lemma_tdiv_abs(n, d);
    lemma_div_is_ordered(abs(n) as int, m, d);
    lemma_div_nonincreasing(m, d);
    lemma_div_pos_is_pos(m, d);
}

/// Magnitudes of products multiply.
pub proof fn lemma_abs_mul(a: int, b: int)
    ensures
        abs(a * b) == abs(a) * abs(b),
{
    assert(abs(a * b) == abs(a) * abs(b)) by (nonlinear_arith);
}

/// Bounds on both factors bound the fixed-point product.
pub proof fn lemma_fmul_le(a: int, b: int, aa: int, bb: int)
    requires
        abs(a) <= aa,
        abs(b) <= bb,
    ensures
        abs(fmul(a, b)) <= aa * bb / (SCALE as int),
        abs(fmul(a, b)) * (SCALE as int) <= aa * bb,
{
    lemma_abs_mul(a, b);
    lemma_mul_upper_bound(abs(a) as int, aa, abs(b) as int, bb);
    lemma_tdiv_le(a * b, SCALE as int, aa * bb);
    lemma_fundamental_div_mod(aa * bb, SCALE as int);
    lemma_mul_inequality(abs(fmul(a, b)) as int, aa * bb / (SCALE as int), SCALE as int);
    assert((aa * bb / (SCALE as int)) * (SCALE as int) <= aa * bb) by {
        assert(aa * bb == (SCALE as int) * (aa * bb / (SCALE as int)) + (aa * bb) % (
        SCALE as int));
        assert((aa * bb) % (SCALE as int) >= 0);
        assert((SCALE as int) * (aa * bb / (SCALE as int)) == (aa * bb / (SCALE as int)) * (
        SCALE as int)) by (nonlinear_arith);
    }
}

/// Fixed-point multiply, exact w.r.t. `fmul`.
pub fn mul_fix(a: i64, b: i64) -> (r: i64)
    requires
        -FMAX <= a <= FMAX,
        -FMAX <= b <= FMAX,
    ensures
        r == fmul(a as int, b as int),
{
    proof {
        lemma_abs_mul(a as int, b as int);
        lemma_mul_upper_bound(abs(a as int) as int, FMAX as int, abs(b as int) as int, FMAX as int);
        lemma_tdiv_le(a as int * b as int, SCALE as int, FMAX as int * FMAX as int);
        assert(FMAX as int * FMAX as int == 490000000000000000000000) by (nonlinear_arith);
        assert(490000000000000000000000int / 65536int == 7476806640625000000);
    }
    let an = abs_u64(a);
    let bn = abs_u64(b);
    let p: u128 = (an as u128) * (bn as u128);
    let q: u128 = p / 65536;
    let qi = q as i64;
    if (a < 0) != (b < 0) {
        proof {
            if a as int * b as int >= 0 {
                assert(a as int * b as int == 0) by (nonlinear_arith)
                    requires
                        (a < 0) != (b < 0),
                        a as int * b as int >= 0;
            }
        }
        -qi
    } else {
        proof {
            if (a as int) * (b as int) < 0 {
                assert(false) by (nonlinear_arith)
                    requires
                        (a < 0) == (b < 0),
                        (a as int) * (b as int) < 0;
            }
        }
        qi
    }
}

/// Truncating integer division of plain (unscaled) values.
pub fn div_i64(a: i64, b: i64) -> (r: i64)
    requires
        b != 0,
        a > i64::MIN,
    ensures
        r == tdiv(a as int, b as int),
{
    let an = abs_u64(a);
    let bn = abs_u64(b);
    let q: u64 = an / bn;
    proof {
        lemma_div_nonincreasing(an as int, bn as int);
        lemma_div_pos_is_pos(an as int, bn as int);
    }
    let qi = q as i64;
    if (a < 0) != (b < 0) {
        -qi
    } else {
        proof {
            if !((a as int >= 0) == (b as int >= 0)) {
                assert(a == 0);
            }
        }
        qi
    }
}

/// `r` is the floor of the square root of `n`.
pub open spec fn is_sqrt_floor(n: int, r: int) -> bool {
    r >= 0 && r * r <= n && n < (r + 1) * (r + 1)
}

/// Floor of the square root of a nonnegative value.
pub open spec fn sqrt_floor(n: int) -> int {
    choose|r: int| is_sqrt_floor(n, r)
}

/// The floor square root is unique, so a witness pins `sqrt_floor` down.
pub proof fn lemma_sqrt_floor_is(n: int, r: int)
    requires
        is_sqrt_floor(n, r),
    ensures
        sqrt_floor(n) == r,
        is_sqrt_floor(n, sqrt_floor(n)),
{
    assert(exists|x: int| is_sqrt_floor(n, x));
    let s = sqrt_floor(n);
    assert(is_sqrt_floor(n, s));
    assert(s == r) by (nonlinear_arith)
        requires
            s >= 0 && s * s <= n && n < (s + 1) * (s + 1),
            r >= 0 && r * r <= n && n < (r + 1) * (r + 1);
}

/// Every nonnegative value has a floor square root.
pub proof fn lemma_sqrt_floor_exists(n: int)
    requires
        n >= 0,
    ensures
        is_sqrt_floor(n, sqrt_floor(n)),
    decreases n,
{
    if n == 0 {
        lemma_sqrt_floor_is(0, 0);
    } else {
        lemma_sqrt_floor_exists(n - 1);
        let r = sqrt_floor(n - 1);
        if (r + 1) * (r + 1) <= n {
            assert(n < (r + 2) * (r + 2)) by (nonlinear_arith)
                requires
                    n - 1 < (r + 1) * (r + 1),
                    r >= 0;
            lemma_sqrt_floor_is(n, r + 1);
        } else {
            lemma_sqrt_floor_is(n, r);
        }
    }
}

/// Integer square root by bisection.
fn isqrt_u128(n: u128) -> (r: u128)
    requires
        n < 1267650600228229401496703205376,
    ensures
        is_sqrt_floor(n as int, r as int),
{
    let mut lo: u128 = 0;
    let mut hi: u128 = 1125899906842624;
    proof {
        assert(1125899906842624int * 1125899906842624int == 1267650600228229401496703205376int)
            by (nonlinear_arith);
    }
    while lo + 1 < hi
        invariant
            lo < hi <= 1125899906842624,
            (lo as int) * (lo as int) <= n as int,
            (n as int) < (hi as int) * (hi as int),
        decreases hi - lo,
    {
        let mid = lo + (hi - lo) / 2;
        proof {
            assert((mid as int) * (mid as int) < 1267650600228229401496703205377) by (nonlinear_arith)
                requires
                    0 <= mid <= 1125899906842624;
        }
        if mid * mid <= n {
            lo = mid;
        } else {
            hi = mid;
        }
    }
    lo
}

/// Fixed-point square root: the floor square root of `x` rescaled so the
/// result is again a fixed-point number.
pub fn sqrt_fix(x: i64) -> (r: i64)
    requires
        0 <= x,
    ensures
        r == sqrt_floor((x as int) * (SCALE as int)),
        r >= 0,
        (r as int) * (r as int) <= (x as int) * (SCALE as int),
        (x as int) * (SCALE as int) < (r + 1) * (r + 1),
{
    let n: u128 = (x as u128) * 65536;
    let s = isqrt_u128(n);
    proof {
        lemma_sqrt_floor_is(n as int, s as int);
        assert((s as int) < 1099511627776) by (nonlinear_arith)
            requires
                (s as int) * (s as int) <= n as int,
                n as int <= 604462909807314587353088,
                s as int >= 0;
    }
    s as i64
}

/// A factor of at most one unit never amplifies a nonnegative value.
pub proof fn lemma_fmul_unit(a: int, b: int)
    requires
        0 <= a,
        0 <= b <= SCALE as int,
    ensures
        0 <= fmul(a, b) <= a,
{
    lemma_abs_mul(a, b);
    lemma_mul_upper_bound(a, a, b, SCALE as int);
    lemma_tdiv_abs(a * b, SCALE as int);
    assert(a * b >= 0) by (nonlinear_arith)
        requires
            a >= 0 && b >= 0;
    lemma_div_is_ordered(a * b, a * (SCALE as int), SCALE as int);
    lemma_div_multiples_vanish(a, SCALE as int);
}

/// Zero annihilates the fixed-point product.
pub proof fn lemma_fmul_zero(a: int)
    ensures
        fmul(a, 0) == 0,
        fmul(0, a) == 0,
{
    assert(a * 0 == 0) by (nonlinear_arith);
    assert(0 * a == 0) by (nonlinear_arith);
    vstd::arithmetic::div_mod::lemma_div_of0(SCALE as int);
    assert(abs(0int) == 0);
}

/// Negating either factor negates the fixed-point product.
pub proof fn lemma_fmul_neg(a: int, b: int)
    ensures
        fmul(-a, b) == -fmul(a, b),
        fmul(a, -b) == -fmul(a, b),
{
    assert((-a) * b == -(a * b)) by (nonlinear_arith);
    assert(a * (-b) == -(a * b)) by (nonlinear_arith);
    assert(abs(-(a * b)) == abs(a * b));
    if a * b == 0 {
    }
}

/// Fixed-point divide, exact w.r.t. `fdiv`.
pub fn div_fix(a: i64, b: i64) -> (r: i64)
    requires
        -DMAX <= a <= DMAX,
        b != 0,
    ensures
        r == fdiv(a as int, b as int),
{
    let an = abs_u64(a);
    let bn = abs_u64(b);
    let p: u128 = (an as u128) * 65536;
    let q: u128 = p / (bn as u128);
    proof {
        lemma_abs_mul(a as int, SCALE as int);
        lemma_tdiv_le(a as int * SCALE as int, bn as int, DMAX as int * SCALE as int);
        lemma_div_is_ordered(p as int, DMAX as int * SCALE as int, bn as int);
        lemma_div_nonincreasing(DMAX as int * SCALE as int, bn as int);
        lemma_div_pos_is_pos(p as int, bn as int);
        assert(abs(a as int * SCALE as int) == an as int * 65536);
    }
    let qi = q as i64;
    if (a < 0) != (b < 0) {
        proof {
            if a as int * SCALE as int >= 0 && b > 0 {
                assert(a == 0);
            }
        }
        -qi
    } else {
        proof {
            if !((a as int * SCALE as int >= 0) == (b as int >= 0)) {
                assert(a == 0);
            }
        }
        qi
    }
}

/// A product of nonnegative factors stays nonnegative.
pub proof fn lemma_fmul_nonneg(a: int, b: int)
    requires
        0 <= a,
        0 <= b,
    ensures
        0 <= fmul(a, b),
{
    assert(a * b >= 0) by (nonlinear_arith)
        requires
            a >= 0 && b >= 0;
    lemma_tdiv_abs(a * b, SCALE as int);
}

/// Scaling `a` down by `n` units cannot give back more than `a` split
/// `n` ways: the quotient times `n` stays within `a`.
pub proof fn lemma_fdiv_scaled_bound(a: int, n: int)
    requires
        n >= 1,
    ensures
        n * abs(fdiv(a, n * (SCALE as int))) <= abs(a),
{
    let s = SCALE as int;
    let d = n * s;
    assert(n * 65536 >= 65536) by (nonlinear_arith)
        requires
            n >= 1;
    lemma_tdiv_abs(a * s, d);
    lemma_abs_mul(a, s);
    let q = abs(tdiv(a * s, d)) as int;
    lemma_fundamental_div_mod((abs(a) * s) as int, d);
    assert(abs(a) * s == d * q + (abs(a) * s) % d);
    assert((abs(a) * s) % d >= 0);
    assert(d * q == (n * q) * s) by (nonlinear_arith)
        requires
            d == n * s;
    assert((n * q) * s <= abs(a) * s);
    assert(n * q <= abs(a)) by (nonlinear_arith)
        requires
            (n * q) * s <= abs(a) * s,
            s > 0;
}

/// A factor bounded by `n` units scales the other factor by at most `n`.
pub proof fn lemma_fmul_scaled_bound(c: int, d: int, n: int)
    requires
        abs(c) <= n * (SCALE as int),
        n >= 0,
    ensures
        abs(fmul(c, d)) <= n * abs(d),
        abs(fmul(d, c)) <= n * abs(d),
{
    vstd::arithmetic::mul::lemma_mul_is_commutative(c, d);
    assert(fmul(d, c) == fmul(c, d));
    let s = SCALE as int;
    lemma_abs_mul(c, d);
    lemma_mul_upper_bound(abs(c) as int, n * s, abs(d) as int, abs(d) as int);
    lemma_tdiv_le(c * d, s, (n * s) * (abs(d) as int));
    assert((n * s) * (abs(d) as int) == s * (n * (abs(d) as int))) by (nonlinear_arith);
    lemma_div_multiples_vanish(n * (abs(d) as int), s);
}

/// Taylor approximation of sine in fixed point, for small angles.
#[verifier::opaque]
pub open spec fn sin_taylor(x: int) -> int {
    let x2 = fmul(x, x);
    let x3 = fmul(x2, x);
    let x5 = fmul(x3, x2);
    let x7 = fmul(x5, x2);
    let x9 = fmul(x7, x2);
    x - tdiv(x3, 6) + tdiv(x5, 120) - tdiv(x7, 5040) + tdiv(x9, 362880)
}

/// Taylor approximation of cosine in fixed point, for small angles.
#[verifier::opaque]
pub open spec fn cos_taylor(x: int) -> int {
    let x2 = fmul(x, x);
    let x4 = fmul(x2, x2);
    let x6 = fmul(x4, x2);
    let x8 = fmul(x6, x2);
    (SCALE as int) - tdiv(x2, 2) + tdiv(x4, 24) - tdiv(x6, 720) + tdiv(x8, 40320)
}

/// The tangent the renderer uses: the quotient of the two Taylor sums.
#[verifier::opaque]
pub open spec fn tan_approx(x: int) -> int {
    fdiv(sin_taylor(x), cos_taylor(x))
}

/// Sine for angles up to an eighth of a turn.
pub fn sine_fix(x: i64) -> (r: i64)
    requires
        0 <= x <= 51500,
    ensures
        r == sin_taylor(x as int),
        0 <= r <= 51700,
{
    proof {
        reveal(sin_taylor);
        lemma_fmul_le(x as int, x as int, 51500, 51500);
        lemma_fmul_nonneg(x as int, x as int);
        lemma_fmul_le(fmul(x as int, x as int), x as int, 40470, 51500);
        lemma_fmul_nonneg(fmul(x as int, x as int), x as int);
        lemma_fmul_le(
            fmul(fmul(x as int, x as int), x as int),
            fmul(x as int, x as int),
            31802,
            40470,
        );
        lemma_fmul_nonneg(fmul(fmul(x as int, x as int), x as int), fmul(x as int, x as int));
        lemma_fmul_le(
            fmul(fmul(fmul(x as int, x as int), x as int), fmul(x as int, x as int)),
            fmul(x as int, x as int),
            19638,
            40470,
        );
        lemma_fmul_nonneg(
            fmul(fmul(fmul(x as int, x as int), x as int), fmul(x as int, x as int)),
            fmul(x as int, x as int),
        );
        lemma_fmul_le(
            fmul(
                fmul(fmul(fmul(x as int, x as int), x as int), fmul(x as int, x as int)),
                fmul(x as int, x as int),
            ),
            fmul(x as int, x as int),
            12126,
            40470,
        );
        lemma_fmul_nonneg(
            fmul(
                fmul(fmul(fmul(x as int, x as int), x as int), fmul(x as int, x as int)),
                fmul(x as int, x as int),
            ),
            fmul(x as int, x as int),
        );
    }
    let x2 = mul_fix(x, x);
    let x3 = mul_fix(x2, x);
    let x5 = mul_fix(x3, x2);
    let x7 = mul_fix(x5, x2);
    let x9 = mul_fix(x7, x2);
    let t3 = div_i64(x3, 6);
    let t5 = div_i64(x5, 120);
    let t7 = div_i64(x7, 5040);
    let t9 = div_i64(x9, 362880);
    proof {
        lemma_tdiv_le(x3 as int, 6, 31802);
        lemma_tdiv_le(x5 as int, 120, 19638);
        lemma_tdiv_le(x7 as int, 5040, 12126);
        lemma_tdiv_le(x9 as int, 362880, 7488);
        lemma_tdiv_abs(x3 as int, 6);
        lemma_tdiv_abs(x5 as int, 120);
        lemma_tdiv_abs(x7 as int, 5040);
        lemma_tdiv_abs(x9 as int, 362880);
        lemma_fmul_unit(x as int, x2 as int);
        vstd::arithmetic::mul::lemma_mul_is_commutative(x2 as int, x as int);
        lemma_fmul_unit(x3 as int, x2 as int);
        lemma_fmul_unit(x5 as int, x2 as int);
        lemma_fmul_unit(x7 as int, x2 as int);
        lemma_tdiv_le(x3 as int, 6, x as int);
        lemma_tdiv_le(x7 as int, 5040, x as int);
        lemma_fundamental_div_mod(x as int, 6);
        lemma_div_is_ordered_by_denominator(x as int, 6, 5040);
        lemma_div_pos_is_pos(x as int, 6);
        lemma_div_pos_is_pos(x as int, 5040);
    }
    x - t3 + t5 - t7 + t9
}

/// Cosine for angles up to an eighth of a turn; bounded well away from
/// zero so the tangent's divisor is safe.
pub fn cosine_fix(x: i64) -> (r: i64)
    requires
        0 <= x <= 51500,
    ensures
        r == cos_taylor(x as int),
        45000 <= r <= 66600,
{
    proof {
        reveal(cos_taylor);
        lemma_fmul_le(x as int, x as int, 51500, 51500);
        lemma_fmul_nonneg(x as int, x as int);
        lemma_fmul_le(fmul(x as int, x as int), fmul(x as int, x as int), 40470, 40470);
        lemma_fmul_nonneg(fmul(x as int, x as int), fmul(x as int, x as int));
        lemma_fmul_le(
            fmul(fmul(x as int, x as int), fmul(x as int, x as int)),
            fmul(x as int, x as int),
            24991,
            40470,
        );
        lemma_fmul_nonneg(
            fmul(fmul(x as int, x as int), fmul(x as int, x as int)),
            fmul(x as int, x as int),
        );
        lemma_fmul_le(
            fmul(fmul(fmul(x as int, x as int), fmul(x as int, x as int)), fmul(x as int, x as int)),
            fmul(x as int, x as int),
            15432,
            40470,
        );
        lemma_fmul_nonneg(
            fmul(fmul(fmul(x as int, x as int), fmul(x as int, x as int)), fmul(x as int, x as int)),
            fmul(x as int, x as int),
        );
    }
    let x2 = mul_fix(x, x);
    let x4 = mul_fix(x2, x2);
    let x6 = mul_fix(x4, x2);
    let x8 = mul_fix(x6, x2);
    let t2 = div_i64(x2, 2);
    let t4 = div_i64(x4, 24);
    let t6 = div_i64(x6, 720);
    let t8 = div_i64(x8, 40320);
    proof {
        lemma_tdiv_le(x2 as int, 2, 40470);
        lemma_tdiv_le(x4 as int, 24, 24991);
        lemma_tdiv_le(x6 as int, 720, 15432);
        lemma_tdiv_le(x8 as int, 40320, 9529);
        lemma_tdiv_abs(x2 as int, 2);
        lemma_tdiv_abs(x4 as int, 24);
        lemma_tdiv_abs(x6 as int, 720);
        lemma_tdiv_abs(x8 as int, 40320);
    }
    SCALE - t2 + t4 - t6 + t8
}

/// Tangent for angles up to an eighth of a turn.
pub fn tan_fix(x: i64) -> (r: i64)
    requires
        0 <= x <= 51500,
    ensures
        r == tan_approx(x as int),
        0 <= r <= 76000,
{
    let sine = sine_fix(x);
    let cosine = cosine_fix(x);
    proof {
        reveal(tan_approx);
        lemma_abs_mul(sine as int, SCALE as int);
        lemma_tdiv_abs((sine as int) * (SCALE as int), cosine as int);
        lemma_tdiv_le((sine as int) * (SCALE as int), cosine as int, 3388211200);
        lemma_div_is_ordered_by_denominator(3388211200, 45000, cosine as int);
        lemma_div_pos_is_pos((sine as int) * (SCALE as int), cosine as int);
        assert((sine as int) * (SCALE as int) >= 0) by (nonlinear_arith)
            requires
                sine >= 0;
        assert((sine as int) * (SCALE as int) <= 3388211200) by (nonlinear_arith)
            requires
                0 <= sine as int <= 51700;
    }
    div_fix(sine, cosine)
}

} // verus!
