//! How far a rounded result lies from the exact one: by at most one part in
//! 2^24 of it, and by half a unit of 2^-149 where the result is smaller
//! than the normal numbers.

use vstd::prelude::*;
use vstd::arithmetic::power2::{pow2, lemma_pow2_adds, lemma_pow2_pos};
use vstd::arithmetic::div_mod::lemma_fundamental_div_mod;
use crate::ieee::layout::{
    magnitude, is_negative, is_finite, is_zero, significand, scale, exponent_field, grid_magnitude,
    grid_value,
};
use crate::ieee::exact::{spacing, rounded_significand, rounded, rounded_bits};
use crate::ieee::arith::{sum, product, quotient, distance_from_zero};
use crate::ieee::root::{
    root, root_bits, floor_sqrt, rounded_root_significand, lemma_floor_sqrt_bounds,
};
use crate::ieee::laws::{
    lemma_spacing_bounds, lemma_round_half_even_nearest, lemma_rounded_bits_value, lemma_zero_value,
};
use crate::ieee::order::lemma_grid_monotone;
use crate::ieee::lemmas::{lemma_pow2_values, lemma_pow2_monotone, lemma_scale_lt};

verus! {

/// The rounded value lies within one part in 2^24 of the ratio, or within
/// half a unit of it.
pub proof fn lemma_rounding_error(num: nat, den: nat)
    requires
        den > 0,
    ensures
        0x100_0000 * distance_from_zero(rounded(num, den) * den - num) <= num + 0x80_0000 * den,
        num >= 0x80_0000 * den ==> 0x100_0000 * distance_from_zero(rounded(num, den) * den - num)
            <= num,
        den == 1 ==> 0x100_0000 * distance_from_zero(rounded(num, den) * den - num) <= num,
{
    lemma_pow2_values();
    let k = spacing(num, den);
    let unit = pow2(k);
    let q = rounded_significand(num, den);
    let wide = den * unit;
    lemma_pow2_pos(k);
    lemma_spacing_bounds(num, den);
    assert(wide > 0) by (nonlinear_arith)
        requires
            wide == den * unit,
            den > 0,
            unit > 0,
    ;
    lemma_round_half_even_nearest(num, wide, 0);
    assert((q * unit) * den == q * wide) by (nonlinear_arith)
        requires
            wide == den * unit,
    ;
    if k == 0 {
        assert(wide == den) by (nonlinear_arith)
            requires
                wide == den * unit,
                unit == 1,
        ;
    } else {
        lemma_pow2_adds(23, k);
        assert(pow2(23 + k) * den == 0x80_0000 * wide) by (nonlinear_arith)
            requires
                pow2(23 + k) == 0x80_0000 * unit,
                wide == den * unit,
        ;
    }
}

/// The product of finite numbers, where it is finite, lies within one part
/// in 2^24 of the exact product, or within half a unit of it. Values are
/// counted in units of 2^-298.
pub proof fn lemma_product_error(a: u32, b: u32)
    requires
        is_finite(a),
        is_finite(b),
        is_finite(product(a, b)),
    ensures
        0x100_0000 * distance_from_zero(
            grid_magnitude(product(a, b)) * pow2(149) - grid_magnitude(a) * grid_magnitude(b),
        ) <= grid_magnitude(a) * grid_magnitude(b) + 0x80_0000 * pow2(149),
        grid_magnitude(a) * grid_magnitude(b) >= 0x80_0000 * pow2(149) ==> 0x100_0000
            * distance_from_zero(
            grid_magnitude(product(a, b)) * pow2(149) - grid_magnitude(a) * grid_magnitude(b),
        ) <= grid_magnitude(a) * grid_magnitude(b),
{
    reveal(product);
    lemma_pow2_pos(149);
    let exact = grid_magnitude(a) * grid_magnitude(b);
    lemma_rounded_bits_value(exact, pow2(149));
    lemma_rounding_error(exact, pow2(149));
    assert(magnitude(product(a, b)) == rounded_bits(exact, pow2(149)));
    assert(grid_magnitude(product(a, b)) == grid_magnitude(rounded_bits(exact, pow2(149))));
}

/// The quotient of finite numbers, where it is finite, lies within one part
/// in 2^24 of the exact quotient, or within half a unit of it.
pub proof fn lemma_quotient_error(a: u32, b: u32)
    requires
        is_finite(a),
        is_finite(b),
        !is_zero(b),
        is_finite(quotient(a, b)),
    ensures
        0x100_0000 * distance_from_zero(
            grid_magnitude(quotient(a, b)) * grid_magnitude(b) - grid_magnitude(a) * pow2(149),
        ) <= grid_magnitude(a) * pow2(149) + 0x80_0000 * grid_magnitude(b),
        grid_magnitude(a) * pow2(149) >= 0x80_0000 * grid_magnitude(b) ==> 0x100_0000
            * distance_from_zero(
            grid_magnitude(quotient(a, b)) * grid_magnitude(b) - grid_magnitude(a) * pow2(149),
        ) <= grid_magnitude(a) * pow2(149),
{
    reveal(quotient);
    lemma_zero_value(b);
    let num = grid_magnitude(a) * pow2(149);
    let den = grid_magnitude(b);
    lemma_rounded_bits_value(num, den);
    lemma_rounding_error(num, den);
    assert(magnitude(quotient(a, b)) == rounded_bits(num, den));
    assert(grid_magnitude(quotient(a, b)) == grid_magnitude(rounded_bits(num, den)));
}

/// The sum of finite numbers, where it is finite, lies within one part in
/// 2^24 of the exact sum, on the same side of zero.
pub proof fn lemma_sum_error(a: u32, b: u32)
    requires
        is_finite(a),
        is_finite(b),
        is_finite(sum(a, b)),
    ensures
        0x100_0000 * distance_from_zero(grid_value(sum(a, b)) - (grid_value(a) + grid_value(b)))
            <= distance_from_zero(grid_value(a) + grid_value(b)),
        grid_value(a) + grid_value(b) >= 0 ==> grid_value(sum(a, b)) >= 0,
        grid_value(a) + grid_value(b) <= 0 ==> grid_value(sum(a, b)) <= 0,
{
    reveal(sum);
    let exact = grid_value(a) + grid_value(b);
    let size = distance_from_zero(exact);
    lemma_zero_value(0);
    lemma_zero_value(0x8000_0000);
    if exact != 0 {
        lemma_rounded_bits_value(size, 1);
        lemma_rounding_error(size, 1);
        assert(magnitude(sum(a, b)) == rounded_bits(size, 1));
        assert(grid_magnitude(sum(a, b)) == grid_magnitude(rounded_bits(size, 1)));
        assert(rounded(size, 1) * 1 == rounded(size, 1)) by (nonlinear_arith);
    }
}

/// The magnitude bits `k * 2^23 + sig` stand for `sig * 2^k`, for a
/// significand between 2^23 and 2^24, both included.
pub proof fn lemma_packed_value(k: nat, sig: nat)
    requires
        0x80_0000 <= sig <= 0x100_0000,
        k * 0x80_0000 + sig < 0x7f80_0000,
    ensures
        grid_magnitude((k * 0x80_0000 + sig) as u32) == sig * pow2(k),
{
    lemma_pow2_values();
    let bits = (k * 0x80_0000 + sig) as u32;
    assert(magnitude(bits) == k * 0x80_0000 + sig);
    if sig == 0x100_0000 {
        assert(exponent_field(bits) == k + 2);
        assert(significand(bits) == 0x80_0000);
        assert(scale(bits) == k + 1);
        lemma_pow2_adds(k, 1);
        assert(grid_magnitude(bits) == sig * pow2(k)) by (nonlinear_arith)
            requires
                grid_magnitude(bits) == 0x80_0000 * pow2(k + 1),
                pow2(k + 1) == pow2(k) * 2,
                sig == 0x100_0000,
        ;
    } else if k == 0 {
        assert(exponent_field(bits) == 1);
        assert(significand(bits) == sig);
        assert(scale(bits) == 0);
    } else {
        assert(exponent_field(bits) == k + 1);
        assert(significand(bits) == sig);
        assert(scale(bits) == k);
    }
}

/// The square root of a finite number above zero is finite, and its square
/// lies within two parts in 2^24 of the number: between `(1 - 2^-24)^2` and
/// `(1 + 2^-24)^2` of it lies the number, which the two long constants
/// state times 2^48. Values are counted in units of 2^-298.
pub proof fn lemma_root_error(a: u32)
    requires
        is_finite(a),
        !is_zero(a),
        !is_negative(a),
    ensures
        is_finite(root(a)),
        !is_negative(root(a)),
        grid_magnitude(root(a)) >= pow2(74),
        0xffff_fe00_0001 * (grid_magnitude(root(a)) * grid_magnitude(root(a)))
            <= 0x1_0000_0000_0000 * (grid_magnitude(a) * pow2(149)),
        0x1_0000_0000_0000 * (grid_magnitude(a) * pow2(149)) <= 0x1_0000_0200_0001 * (
        grid_magnitude(root(a)) * grid_magnitude(root(a))),
{
    reveal(root);
    lemma_pow2_values();
    lemma_zero_value(a);
    let g = grid_magnitude(a);
    let t = (g * pow2(149)) as int;
    let f = floor_sqrt(t as nat) as int;
    let k = spacing(f as nat, 1);
    let w = pow2(k) as int;
    let ww = w * w;
    let q = floor_sqrt((t / ww) as nat) as int;
    let sig = rounded_root_significand(t as nat, w as nat) as int;
    lemma_pow2_pos(k);
    lemma_pow2_pos(149);
    // the number is at least one unit, so its root has at least 75 bits
    lemma_pow2_adds(74, 75);
    lemma_pow2_adds(74, 74);
    lemma_pow2_adds(148, 1);
    assert(t >= pow2(149)) by (nonlinear_arith)
        requires
            t == g * pow2(149),
            g >= 1,
    ;
    assert(pow2(74) * pow2(74) <= t);
    lemma_floor_sqrt_bounds(t as nat);
    if f < pow2(74) {
        assert((f + 1) * (f + 1) <= pow2(74) * pow2(74)) by (nonlinear_arith)
            requires
                0 <= f + 1 <= pow2(74),
        ;
    }
    assert(f >= pow2(74));
    lemma_pow2_monotone(24, 74);
    lemma_spacing_bounds(f as nat, 1);
    assert(k > 0);
    lemma_pow2_adds(23, k);
    lemma_pow2_adds(24, k);
    let low = 0x80_0000 * w;
    let high = 0x100_0000 * w;
    assert(low <= f < high);
    // the whole number of spacings under the root
    assert(ww > 0) by (nonlinear_arith)
        requires
            ww == w * w,
            w > 0,
    ;
    lemma_fundamental_div_mod(t, ww);
    let v = t / ww;
    lemma_floor_sqrt_bounds(v as nat);
    assert(low * low <= t) by (nonlinear_arith)
        requires
            0 <= low <= f,
            f * f <= t,
    ;
    assert(t < high * high) by (nonlinear_arith)
        requires
            0 <= f + 1 <= high,
            t < (f + 1) * (f + 1),
    ;
    assert(0x4000_0000_0000 * ww <= t < 0x1_0000_0000_0000 * ww) by (nonlinear_arith)
        requires
            low * low <= t,
            t < high * high,
            low == 0x80_0000 * w,
            high == 0x100_0000 * w,
            ww == w * w,
    ;
    assert(0x4000_0000_0000 <= v < 0x1_0000_0000_0000) by (nonlinear_arith)
        requires
            0x4000_0000_0000 * ww <= t,
            t < 0x1_0000_0000_0000 * ww,
            t == ww * v + t % ww,
            0 <= t % ww < ww,
            ww > 0,
    ;
    assert(0x80_0000 <= q < 0x100_0000) by (nonlinear_arith)
        requires
            q * q <= v,
            v < (q + 1) * (q + 1),
            0x4000_0000_0000 <= v,
            v < 0x1_0000_0000_0000,
            q >= 0,
    ;
    assert(q * q * ww <= t && t < (q + 1) * (q + 1) * ww) by (nonlinear_arith)
        requires
            q * q <= v,
            v < (q + 1) * (q + 1),
            t == ww * v + t % ww,
            0 <= t % ww < ww,
            ww > 0,
    ;
    assert(q <= sig <= q + 1);
    // the bits stand for sig * 2^k
    let bits = root_bits(g);
    assert(root(a) == bits);
    lemma_grid_monotone(a, 0x7f80_0000);
    lemma_pow2_adds(23, 254);
    assert(scale(0x7f80_0000) == 254 && significand(0x7f80_0000) == 0x80_0000);
    lemma_root_scale(g, k);
    lemma_packed_value(k, sig as nat);
    let r = sig * w;
    assert(grid_magnitude(bits) == r);
    if k < 51 {
        lemma_pow2_monotone(24 + k, 74);
    }
    lemma_pow2_monotone(74, 23 + k);
    assert(r >= low) by (nonlinear_arith)
        requires
            r == sig * w,
            sig >= 0x80_0000,
            low == 0x80_0000 * w,
            w > 0,
    ;
    // between the squares of the neighbouring midpoints
    let mid = (2 * q + 1) * w;
    let rr = r * r;
    assert(rr >= 0) by (nonlinear_arith)
        requires
            rr == r * r,
    ;
    if sig == q {
        assert(4 * t <= mid * mid);
        assert(rr <= t) by (nonlinear_arith)
            requires
                r == q * w,
                rr == r * r,
                q * q * ww <= t,
                ww == w * w,
        ;
        assert(0x1_0000_0000_0000 * (4 * t) <= 4 * 0x1_0000_0200_0001 * rr)
            by (nonlinear_arith)
            requires
                4 * t <= mid * mid,
                mid == (2 * q + 1) * w,
                r == q * w,
                rr == r * r,
                q >= 0x80_0000,
                w > 0,
        ;
        assert(0xffff_fe00_0001 * rr <= 0x1_0000_0000_0000 * t) by (nonlinear_arith)
            requires
                rr <= t,
                rr >= 0,
        ;
        assert(0x1_0000_0000_0000 * t <= 0x1_0000_0200_0001 * rr) by (nonlinear_arith)
            requires
                0x1_0000_0000_0000 * (4 * t) <= 4 * 0x1_0000_0200_0001 * rr,
        ;
    } else {
        assert(4 * t >= mid * mid);
        assert(t < rr) by (nonlinear_arith)
            requires
                r == (q + 1) * w,
                rr == r * r,
                t < (q + 1) * (q + 1) * ww,
                ww == w * w,
        ;
        assert(4 * 0xffff_fe00_0001 * rr <= 0x1_0000_0000_0000 * (4 * t))
            by (nonlinear_arith)
            requires
                4 * t >= mid * mid,
                mid == (2 * q + 1) * w,
                r == (q + 1) * w,
                rr == r * r,
                q >= 0x80_0000,
                w > 0,
        ;
        assert(0x1_0000_0000_0000 * t <= 0x1_0000_0200_0001 * rr) by (nonlinear_arith)
            requires
                t < rr,
                rr >= 0,
        ;
        assert(0xffff_fe00_0001 * rr <= 0x1_0000_0000_0000 * t) by (nonlinear_arith)
            requires
                4 * 0xffff_fe00_0001 * rr <= 0x1_0000_0000_0000 * (4 * t),
        ;
    }
    let gr = grid_magnitude(root(a));
    assert(gr == r);
    assert(gr * gr == rr) by (nonlinear_arith)
        requires
            gr == r,
            rr == r * r,
    ;
    assert(g * pow2(149) == t);
    assert(0xffff_fe00_0001 * rr <= 0x1_0000_0000_0000 * t);
    assert(0x1_0000_0000_0000 * t <= 0x1_0000_0200_0001 * rr);
}

/// The spacing around the root of a finite number is far from the largest.
proof fn lemma_root_scale(g: nat, k: nat)
    requires
        0 < g < pow2(277),
        k == spacing(floor_sqrt(g * pow2(149)), 1),
    ensures
        k <= 200,
{
    lemma_pow2_values();
    let t = g * pow2(149);
    let f = floor_sqrt(t);
    lemma_floor_sqrt_bounds(t);
    lemma_spacing_bounds(f, 1);
    lemma_pow2_adds(277, 149);
    lemma_pow2_adds(213, 213);
    lemma_pow2_pos(149);
    lemma_scale_lt(g as int, pow2(277) as int, pow2(149) as int);
    if k > 200 {
        lemma_pow2_monotone(213, 23 + k);
        let low = pow2(23 + k) as int;
        let edge = pow2(213) as int;
        assert(edge * edge <= (f as int) * (f as int)) by (nonlinear_arith)
            requires
                0 <= edge <= low,
                low <= f,
        ;
        assert(false);
    }
}

/// What lies below 2^276 units rounds to a finite number.
pub proof fn lemma_rounded_finite(num: nat, den: nat)
    requires
        den > 0,
        num < pow2(276) * den,
    ensures
        rounded_bits(num, den) < 0x7f80_0000,
{
    lemma_pow2_values();
    lemma_pow2_adds(276, 1);
    lemma_pow2_pos(276);
    lemma_rounded_bits_value(num, den);
    lemma_rounding_error(num, den);
    let r = rounded(num, den) as int;
    let d = den as int;
    let n = num as int;
    let top = pow2(276) as int;
    if r >= 2 * top {
        assert(false) by (nonlinear_arith)
            requires
                r >= 2 * top,
                0x100_0000 * (r * d - n) <= n + 0x80_0000 * d,
                n < top * d,
                d > 0,
                top >= 1,
        ;
    }
}

/// The product of finite numbers that is not too large: it is finite, and
/// within one part in 2^24 of the exact product, or half a unit.
pub proof fn lemma_product_bounds(a: u32, b: u32)
    requires
        is_finite(a),
        is_finite(b),
        grid_magnitude(a) * grid_magnitude(b) < pow2(276) * pow2(149),
    ensures
        is_finite(product(a, b)),
        is_negative(product(a, b)) == (is_negative(a) != is_negative(b)),
        0x100_0000 * (grid_magnitude(product(a, b)) * pow2(149) - grid_magnitude(a)
            * grid_magnitude(b)) <= grid_magnitude(a) * grid_magnitude(b) + 0x80_0000 * pow2(149),
        0x100_0000 * (grid_magnitude(a) * grid_magnitude(b) - grid_magnitude(product(a, b))
            * pow2(149)) <= grid_magnitude(a) * grid_magnitude(b) + 0x80_0000 * pow2(149),
{
    lemma_pow2_pos(149);
    lemma_rounded_finite(grid_magnitude(a) * grid_magnitude(b), pow2(149));
    assert(is_finite(product(a, b)) && is_negative(product(a, b)) == (is_negative(a)
        != is_negative(b))) by {
        reveal(product);
    }
    lemma_product_error(a, b);
}

/// The quotient of finite numbers that is not too large: it is finite, and
/// within one part in 2^24 of the exact quotient, or half a unit.
pub proof fn lemma_quotient_bounds(a: u32, b: u32)
    requires
        is_finite(a),
        is_finite(b),
        !is_zero(b),
        grid_magnitude(a) * pow2(149) < pow2(276) * grid_magnitude(b),
    ensures
        is_finite(quotient(a, b)),
        is_negative(quotient(a, b)) == (is_negative(a) != is_negative(b)),
        0x100_0000 * (grid_magnitude(quotient(a, b)) * grid_magnitude(b) - grid_magnitude(a)
            * pow2(149)) <= grid_magnitude(a) * pow2(149) + 0x80_0000 * grid_magnitude(b),
        0x100_0000 * (grid_magnitude(a) * pow2(149) - grid_magnitude(quotient(a, b))
            * grid_magnitude(b)) <= grid_magnitude(a) * pow2(149) + 0x80_0000 * grid_magnitude(b),
{
    lemma_zero_value(b);
    lemma_rounded_finite(grid_magnitude(a) * pow2(149), grid_magnitude(b));
    assert(is_finite(quotient(a, b)) && is_negative(quotient(a, b)) == (is_negative(a)
        != is_negative(b))) by {
        reveal(quotient);
    }
    lemma_quotient_error(a, b);
}

/// The sum of finite numbers that are not negative and not too large: it
/// is finite and not negative, and within one part in 2^24 of the exact
/// sum.
pub proof fn lemma_sum_bounds(a: u32, b: u32)
    requires
        is_finite(a),
        is_finite(b),
        !is_negative(a),
        !is_negative(b),
        grid_magnitude(a) + grid_magnitude(b) < pow2(276),
    ensures
        is_finite(sum(a, b)),
        !is_negative(sum(a, b)),
        0x100_0000 * (grid_magnitude(sum(a, b)) - (grid_magnitude(a) + grid_magnitude(b)))
            <= grid_magnitude(a) + grid_magnitude(b),
        0x100_0000 * (grid_magnitude(a) + grid_magnitude(b) - grid_magnitude(sum(a, b)))
            <= grid_magnitude(a) + grid_magnitude(b),
{
    let exact = grid_magnitude(a) + grid_magnitude(b);
    assert(pow2(276) * 1 == pow2(276)) by (nonlinear_arith);
    lemma_rounded_finite(exact, 1);
    assert(is_finite(sum(a, b)) && !is_negative(sum(a, b))) by {
        reveal(sum);
    }
    lemma_sum_error(a, b);
}


/// `p` lies within `n` parts in 2^24 of `q`.
pub open spec fn near_parts(p: int, q: int, n: int) -> bool {
    (0x100_0000 - n) * q <= 0x100_0000 * p && 0x100_0000 * p <= (0x100_0000 + n) * q
}

/// The product of finite numbers that is neither too large nor too small
/// for a normal number: it is finite, and within one part in 2^24 of the
/// exact product.
pub proof fn lemma_product_normal(a: u32, b: u32)
    requires
        is_finite(a),
        is_finite(b),
        grid_magnitude(a) * grid_magnitude(b) < pow2(276) * pow2(149),
        grid_magnitude(a) * grid_magnitude(b) >= 0x80_0000 * pow2(149),
    ensures
        is_finite(product(a, b)),
        is_negative(product(a, b)) == (is_negative(a) != is_negative(b)),
        near_parts(
            (grid_magnitude(product(a, b)) * pow2(149)) as int,
            (grid_magnitude(a) * grid_magnitude(b)) as int,
            1,
        ),
{
    lemma_product_bounds(a, b);
    lemma_product_error(a, b);
    let found = (grid_magnitude(product(a, b)) * pow2(149)) as int;
    let exact = (grid_magnitude(a) * grid_magnitude(b)) as int;
    assert(near_parts(found, exact, 1)) by (nonlinear_arith)
        requires
            0x100_0000 * (found - exact) <= exact,
            0x100_0000 * (exact - found) <= exact,
    ;
}

/// The quotient of finite numbers that is neither too large nor too small
/// for a normal number: it is finite, and within one part in 2^24 of the
/// exact quotient.
pub proof fn lemma_quotient_normal(a: u32, b: u32)
    requires
        is_finite(a),
        is_finite(b),
        !is_zero(b),
        grid_magnitude(a) * pow2(149) < pow2(276) * grid_magnitude(b),
        grid_magnitude(a) * pow2(149) >= 0x80_0000 * grid_magnitude(b),
    ensures
        is_finite(quotient(a, b)),
        is_negative(quotient(a, b)) == (is_negative(a) != is_negative(b)),
        near_parts(
            (grid_magnitude(quotient(a, b)) * grid_magnitude(b)) as int,
            (grid_magnitude(a) * pow2(149)) as int,
            1,
        ),
{
    lemma_quotient_bounds(a, b);
    lemma_quotient_error(a, b);
    let found = (grid_magnitude(quotient(a, b)) * grid_magnitude(b)) as int;
    let exact = (grid_magnitude(a) * pow2(149)) as int;
    assert(near_parts(found, exact, 1)) by (nonlinear_arith)
        requires
            0x100_0000 * (found - exact) <= exact,
            0x100_0000 * (exact - found) <= exact,
    ;
}

/// The sum of finite numbers that is not too large is finite.
pub proof fn lemma_sum_finite(a: u32, b: u32)
    requires
        is_finite(a),
        is_finite(b),
        distance_from_zero(grid_value(a) + grid_value(b)) < pow2(276),
    ensures
        is_finite(sum(a, b)),
{
    let exact = distance_from_zero(grid_value(a) + grid_value(b));
    assert(pow2(276) * 1 == pow2(276)) by (nonlinear_arith);
    lemma_rounded_finite(exact, 1);
    reveal(sum);
}

/// Being near goes over to multiples.
pub proof fn lemma_near_scaled(p: int, q: int, n: int, c: int)
    by (nonlinear_arith)
    requires
        near_parts(p, q, n),
        c >= 0,
    ensures
        near_parts(p * c, q * c, n),
        near_parts(c * p, c * q, n),
{
}

/// Being near can be read off multiples.
pub proof fn lemma_near_cancelled(p: int, q: int, n: int, c: int)
    by (nonlinear_arith)
    requires
        near_parts(p * c, q * c, n),
        c > 0,
    ensures
        near_parts(p, q, n),
{
}

/// What is near something that is near a third is near the third.
pub proof fn lemma_near_chained(p: int, q: int, r: int, n: int, m: int)
    by (nonlinear_arith)
    requires
        near_parts(p, q, n),
        near_parts(q, r, m),
        0 <= n <= 64,
        0 <= m <= 64,
        r >= 0,
    ensures
        near_parts(p, r, n + m + 1),
{
}

/// Being near goes both ways, but for one part more.
pub proof fn lemma_near_turned(p: int, q: int, n: int)
    by (nonlinear_arith)
    requires
        near_parts(p, q, n),
        0 <= n <= 64,
        p >= 0,
    ensures
        near_parts(q, p, n + 1),
{
}

} // verus!
