//! What the rounding and the operations have been proved to do: the laws
//! that say they are the textbook ones.

use vstd::prelude::*;
use vstd::arithmetic::power2::{pow2, lemma_pow2_adds, lemma_pow2_pos};
use vstd::arithmetic::div_mod::lemma_fundamental_div_mod;
use crate::ieee::layout::{
    magnitude, is_negative, is_nan, is_finite, is_zero, significand, scale, exponent_field,
    grid_magnitude, grid_value,
};
use crate::ieee::exact::{spacing, round_half_even, rounded_significand, rounded, rounded_bits};
use crate::ieee::arith::{
    sum, difference, product, quotient, negation, distance_from_zero,
    lemma_rounding_keeps_representable,
};
use crate::ieee::order::{same, lemma_grid_monotone};
use crate::ieee::convert::from_whole;
use crate::ieee::lemmas::{
    lemma_round_half_even_is, lemma_pow2_values, lemma_pow2_monotone, lemma_spacing_is,
    lemma_round_half_even_scaled, lemma_scale_le, lemma_scale_lt,
};

verus! {

/// The spacing exponent puts the ratio into its binade: below 2^24 for
/// zero, and between `2^(23+k)` and `2^(24+k)` for a `k` above.
pub proof fn lemma_spacing_bounds(num: nat, den: nat)
    requires
        den > 0,
    ensures
        spacing(num, den) == 0 ==> num < 0x100_0000 * den,
        spacing(num, den) > 0 ==> pow2(23 + spacing(num, den)) * den <= num < pow2(
            24 + spacing(num, den),
        ) * den,
    decreases num,
{
    lemma_pow2_values();
    if num >= 0x100_0000 * den {
        lemma_spacing_bounds(num / 2, den);
        let k = spacing(num / 2, den);
        let low = pow2(23 + k);
        let high = pow2(24 + k);
        lemma_pow2_adds(23 + k, 1);
        lemma_pow2_adds(24 + k, 1);
        assert(pow2(23 + (k + 1)) * den == 2 * (low * den)) by (nonlinear_arith)
            requires
                pow2(23 + (k + 1)) == low * 2,
        ;
        assert(pow2(24 + (k + 1)) * den == 2 * (high * den)) by (nonlinear_arith)
            requires
                pow2(24 + (k + 1)) == high * 2,
        ;
        if k == 0 {
            assert(low * den == 0x80_0000 * den);
            assert(high * den == 0x100_0000 * den);
        }
    }
}

/// The spacing does not depend on how the ratio is written.
pub proof fn lemma_spacing_scaled(num: nat, den: nat, c: nat)
    requires
        den > 0,
        c > 0,
    ensures
        spacing(num * c, den * c) == spacing(num, den),
{
    lemma_spacing_bounds(num, den);
    let k = spacing(num, den);
    assert(den * c > 0) by (nonlinear_arith)
        requires
            den > 0,
            c > 0,
    ;
    if k == 0 {
        lemma_scale_lt(num as int, (0x100_0000 * den) as int, c as int);
        assert((0x100_0000 * den) * c == 0x100_0000 * (den * c)) by (nonlinear_arith);
    } else {
        let low = pow2(23 + k);
        let high = pow2(24 + k);
        lemma_scale_le((low * den) as int, num as int, c as int);
        lemma_scale_lt(num as int, (high * den) as int, c as int);
        assert((low * den) * c == low * (den * c)) by (nonlinear_arith);
        assert((high * den) * c == high * (den * c)) by (nonlinear_arith);
    }
    lemma_spacing_is(num * c, den * c, k);
}

/// The rounded bits do not depend on how the ratio is written.
pub proof fn lemma_rounded_bits_scaled(num: nat, den: nat, c: nat)
    requires
        den > 0,
        c > 0,
    ensures
        rounded_bits(num * c, den * c) == rounded_bits(num, den),
{
    lemma_spacing_scaled(num, den, c);
    let unit = pow2(spacing(num, den));
    lemma_pow2_pos(spacing(num, den));
    assert(den * unit > 0) by (nonlinear_arith)
        requires
            den > 0,
            unit > 0,
    ;
    lemma_round_half_even_scaled(num, den * unit, c);
    assert((den * unit) * c == (den * c) * unit) by (nonlinear_arith);
}

/// No integer is nearer to `num / den` than `round_half_even(num, den)`.
pub proof fn lemma_round_half_even_nearest(num: nat, den: nat, other: nat)
    requires
        den > 0,
    ensures
        distance_from_zero(round_half_even(num, den) * den - num) <= distance_from_zero(
            other * den - num,
        ),
        2 * distance_from_zero(round_half_even(num, den) * den - num) <= den,
{
    let q = (num / den) as int;
    let r = (num % den) as int;
    let d = den as int;
    let m = other as int;
    lemma_fundamental_div_mod(num as int, den as int);
    assert((q + 1) * d == q * d + d) by (nonlinear_arith);
    assert(d * q == q * d) by (nonlinear_arith);
    if m <= q {
        lemma_scale_le(m, q, d);
    } else {
        lemma_scale_le(q + 1, m, d);
    }
}

/// A finite number of at least `2^(23+k)` units is a whole number of
/// spacings `2^k`: the lemma returns that number.
proof fn lemma_representable_multiple(bits: u32, k: nat) -> (m: nat)
    requires
        is_finite(bits),
        grid_magnitude(bits) >= pow2(23 + k),
    ensures
        grid_magnitude(bits) == m * pow2(k),
{
    lemma_pow2_values();
    let s = scale(bits);
    let sig = significand(bits);
    lemma_pow2_pos(s);
    lemma_pow2_pos(k);
    if s < k {
        lemma_pow2_adds(24, s);
        lemma_pow2_monotone(24 + s, 23 + k);
        lemma_scale_lt(sig as int, 0x100_0000, pow2(s) as int);
        assert(false);
    }
    lemma_pow2_adds((s - k) as nat, k);
    let m = sig * pow2((s - k) as nat);
    assert(grid_magnitude(bits) == m * pow2(k)) by (nonlinear_arith)
        requires
            grid_magnitude(bits) == sig * pow2(s),
            pow2(s) == pow2((s - k) as nat) * pow2(k),
            m == sig * pow2((s - k) as nat),
    ;
    m
}

/// Rounding is to the nearest: no finite number is nearer to `num / den`
/// than `rounded(num, den)`.
pub proof fn law_rounded_is_nearest(num: nat, den: nat, bits: u32)
    requires
        den > 0,
        is_finite(bits),
    ensures
        distance_from_zero(rounded(num, den) * den - num) <= distance_from_zero(
            grid_magnitude(bits) * den - num,
        ),
{
    lemma_pow2_values();
    let k = spacing(num, den);
    let unit = pow2(k) as int;
    let d = den as int;
    let n = num as int;
    let v = grid_magnitude(bits) as int;
    let q = rounded_significand(num, den) as int;
    lemma_pow2_pos(k);
    lemma_spacing_bounds(num, den);
    assert(d * unit > 0) by (nonlinear_arith)
        requires
            d > 0,
            unit > 0,
    ;
    assert((q * unit) * d == q * (d * unit)) by (nonlinear_arith);
    if k == 0 || v >= pow2(23 + k) {
        // the other value is a whole number of spacings as well
        let m: nat;
        if k == 0 {
            m = v as nat;
            assert(v == m * unit);
        } else {
            m = lemma_representable_multiple(bits, k);
        }
        lemma_round_half_even_nearest(num, (d * unit) as nat, m);
        assert((m * unit) * d == m * (d * unit)) by (nonlinear_arith);
    } else {
        // the other value lies below the binade, whose lower end is a whole
        // number of spacings itself
        let edge = pow2(23) as int;
        lemma_pow2_adds(23, k);
        lemma_round_half_even_nearest(num, (d * unit) as nat, edge as nat);
        assert((edge * unit) * d == edge * (d * unit)) by (nonlinear_arith);
        lemma_scale_lt(v, edge * unit, d);
        assert(v * d < (edge * unit) * d);
        assert((edge * unit) * d <= n);
    }
}

/// The rounded bits stand for the rounded value, and are the infinity
/// exactly where that value lies beyond every finite one.
pub proof fn lemma_rounded_bits_value(num: nat, den: nat)
    requires
        den > 0,
    ensures
        rounded_bits(num, den) <= 0x7f80_0000,
        rounded_bits(num, den) < 0x7f80_0000 ==> grid_magnitude(rounded_bits(num, den)) == rounded(
            num,
            den,
        ),
        rounded_bits(num, den) == 0x7f80_0000 <==> rounded(num, den) >= pow2(277),
        rounded_significand(num, den) <= 0x100_0000,
        spacing(num, den) > 0 ==> rounded_significand(num, den) >= 0x80_0000,
{
    lemma_pow2_values();
    let k = spacing(num, den);
    let unit = pow2(k);
    let q = rounded_significand(num, den);
    let d = den * unit;
    lemma_pow2_pos(k);
    lemma_spacing_bounds(num, den);
    assert(d > 0) by (nonlinear_arith)
        requires
            d == den * unit,
            den > 0,
            unit > 0,
    ;
    // the significand lies between 2^23 (above the first binade) and 2^24
    lemma_fundamental_div_mod(num as int, d as int);
    let whole = num / d;
    assert(d * whole == whole * d) by (nonlinear_arith);
    if k == 0 {
        assert(d == den) by (nonlinear_arith)
            requires
                d == den * unit,
                unit == 1,
        ;
        assert(whole < 0x100_0000) by (nonlinear_arith)
            requires
                num == d * whole + num % d,
                num % d >= 0,
                num < 0x100_0000 * d,
                d > 0,
        ;
    } else {
        lemma_pow2_adds(23, k);
        lemma_pow2_adds(24, k);
        assert(pow2(23 + k) * den == 0x80_0000 * d && pow2(24 + k) * den == 0x100_0000 * d)
            by (nonlinear_arith)
            requires
                pow2(23 + k) == 0x80_0000 * unit,
                pow2(24 + k) == 0x100_0000 * unit,
                d == den * unit,
        ;
        assert(0x80_0000 <= whole < 0x100_0000) by (nonlinear_arith)
            requires
                num == d * whole + num % d,
                0 <= num % d < d,
                0x80_0000 * d <= num,
                num < 0x100_0000 * d,
                d > 0,
        ;
    }
    assert(whole <= q <= whole + 1);
    let packed = k * 0x80_0000 + q;
    let bits = rounded_bits(num, den);
    lemma_pow2_adds(23, 254);
    if packed < 0x7f80_0000 {
        assert(bits == packed);
        assert(magnitude(bits) == packed);
        if q == 0x100_0000 {
            assert(exponent_field(bits) == k + 2);
            assert(significand(bits) == 0x80_0000);
            assert(scale(bits) == k + 1);
            lemma_pow2_adds(k, 1);
            assert(grid_magnitude(bits) == q * unit) by (nonlinear_arith)
                requires
                    grid_magnitude(bits) == 0x80_0000 * pow2(k + 1),
                    pow2(k + 1) == unit * 2,
                    q == 0x100_0000,
            ;
        } else if k == 0 {
            assert(significand(bits) == q);
            assert(scale(bits) == 0);
        } else {
            assert(exponent_field(bits) == k + 1);
            assert(significand(bits) == q);
            assert(scale(bits) == k);
        }
        assert(grid_magnitude(bits) == rounded(num, den));
        lemma_grid_monotone(bits, 0x7f80_0000);
        assert(grid_magnitude(0x7f80_0000) == pow2(277)) by {
            assert(scale(0x7f80_0000) == 254 && significand(0x7f80_0000) == 0x80_0000);
        }
    } else {
        // q * 2^k is at least 2^277
        assert(k >= 253);
        lemma_pow2_adds(24, 253);
        lemma_pow2_monotone(253, k);
        if k == 253 {
            assert(q == 0x100_0000);
            assert(q * unit == pow2(277));
        } else {
            lemma_pow2_monotone(254, k);
            assert(q >= 0x80_0000);
            assert(q * unit >= pow2(277)) by (nonlinear_arith)
                requires
                    q >= 0x80_0000,
                    unit >= pow2(254),
                    pow2(277) == 0x80_0000 * pow2(254),
            ;
        }
    }
}

/// A ratio that is a finite number's value rounds to that number.
pub proof fn lemma_rounded_bits_exact(bits: u32, den: nat)
    requires
        is_finite(bits),
        den > 0,
    ensures
        rounded_bits(grid_magnitude(bits) * den, den) == magnitude(bits),
{
    lemma_rounding_keeps_representable(significand(bits), scale(bits));
    lemma_rounded_bits_scaled(grid_magnitude(bits), 1, den);
    assert(1 * den == den);
    assert(magnitude(bits) == scale(bits) * 0x80_0000 + significand(bits));
}

/// The value of a pattern depends on its sign and magnitude bits alone, and
/// negation gives the opposite value.
pub proof fn lemma_negation_value(a: u32)
    ensures
        magnitude(negation(a)) == magnitude(a),
        is_negative(negation(a)) == !is_negative(a),
        grid_magnitude(negation(a)) == grid_magnitude(a),
        grid_value(negation(a)) == -grid_value(a),
        negation(negation(a)) == a,
{
}

/// The bits of 1 stand for 2^149 units, those of the zeros for none.
pub proof fn lemma_unit_values()
    ensures
        grid_value(0x3f80_0000) == pow2(149),
        grid_value(0) == 0,
        grid_value(0x8000_0000) == 0,
{
    lemma_pow2_values();
    lemma_pow2_adds(23, 126);
    assert(scale(0x3f80_0000) == 126 && significand(0x3f80_0000) == 0x80_0000);
    assert(scale(0) == 0 && significand(0) == 0);
    assert(scale(0x8000_0000) == 0 && significand(0x8000_0000) == 0);
}

/// A finite number is zero exactly where its value is.
pub proof fn lemma_zero_value(a: u32)
    requires
        is_finite(a),
    ensures
        is_zero(a) <==> grid_value(a) == 0,
{
    if magnitude(a) > 0 {
        lemma_grid_monotone(0, a);
    }
    assert(scale(0) == 0 && significand(0) == 0);
    assert(grid_magnitude(0) == 0) by (nonlinear_arith)
        requires
            grid_magnitude(0) == 0 * pow2(0),
    ;
    if magnitude(a) == 0 {
        assert(grid_magnitude(a) == grid_magnitude(0));
    }
}

/// A sum that a finite number can hold is exact: where the values of `a`
/// and `b` add up to the value of `c`, the sum is `c`, but for the sign of
/// a zero.
pub proof fn law_sum_exact(a: u32, b: u32, c: u32)
    requires
        is_finite(a),
        is_finite(b),
        is_finite(c),
        grid_value(a) + grid_value(b) == grid_value(c),
    ensures
        magnitude(sum(a, b)) == magnitude(c),
        !is_zero(c) ==> sum(a, b) == c,
        grid_value(sum(a, b)) == grid_value(c),
{
    reveal(sum);
    let exact = grid_value(a) + grid_value(b);
    lemma_zero_value(c);
    if exact != 0 {
        lemma_rounded_bits_exact(c, 1);
        assert(grid_magnitude(c) * 1 == grid_magnitude(c)) by (nonlinear_arith);
        assert(distance_from_zero(exact) == grid_magnitude(c));
    }
}

/// The sum does not depend on the order of the operands.
pub proof fn law_sum_commutes(a: u32, b: u32)
    ensures
        sum(a, b) == sum(b, a),
{
    reveal(sum);
}

/// The product does not depend on the order of the operands.
pub proof fn law_product_commutes(a: u32, b: u32)
    ensures
        product(a, b) == product(b, a),
{
    reveal(product);
    assert(grid_magnitude(a) * grid_magnitude(b) == grid_magnitude(b) * grid_magnitude(a))
        by (nonlinear_arith);
}

/// A product that a finite number can hold is exact: where the values of
/// `a` and `b` multiply to that of `c`, counted in units of 2^-298, the
/// product has the magnitude of `c`.
pub proof fn law_product_exact(a: u32, b: u32, c: u32)
    requires
        is_finite(a),
        is_finite(b),
        is_finite(c),
        grid_magnitude(a) * grid_magnitude(b) == grid_magnitude(c) * pow2(149),
    ensures
        magnitude(product(a, b)) == magnitude(c),
        is_negative(product(a, b)) == (is_negative(a) != is_negative(b)),
{
    reveal(product);
    lemma_pow2_pos(149);
    lemma_rounded_bits_exact(c, pow2(149));
}

/// A quotient that a finite number can hold is exact: where the value of
/// `a` is that of `c` times that of `b`, the quotient has the magnitude of
/// `c`.
pub proof fn law_quotient_exact(a: u32, b: u32, c: u32)
    requires
        is_finite(a),
        is_finite(b),
        is_finite(c),
        !is_zero(b),
        grid_magnitude(a) * pow2(149) == grid_magnitude(c) * grid_magnitude(b),
    ensures
        magnitude(quotient(a, b)) == magnitude(c),
        is_negative(quotient(a, b)) == (is_negative(a) != is_negative(b)),
{
    reveal(quotient);
    lemma_zero_value(b);
    lemma_rounded_bits_exact(c, grid_magnitude(b));
}

/// One is neutral: a finite number times one is the number itself.
pub proof fn law_times_one(a: u32)
    requires
        is_finite(a),
    ensures
        product(a, 0x3f80_0000) == a,
        product(0x3f80_0000, a) == a,
{
    lemma_unit_values();
    law_product_commutes(a, 0x3f80_0000);
    law_product_exact(a, 0x3f80_0000, a);
}

/// A finite number times a zero is a zero.
pub proof fn law_times_zero(a: u32, zero: u32)
    requires
        is_finite(a),
        is_zero(zero),
    ensures
        is_zero(product(a, zero)),
        is_zero(product(zero, a)),
{
    law_product_commutes(a, zero);
    lemma_zero_value(zero);
    assert(scale(0) == 0 && significand(0) == 0);
    assert(grid_magnitude(a) * grid_magnitude(zero) == grid_magnitude(0) * pow2(149))
        by (nonlinear_arith)
        requires
            grid_magnitude(zero) == 0,
            grid_magnitude(0) == 0 * pow2(0),
    ;
    law_product_exact(a, zero, 0);
}

/// A finite number less itself is zero.
pub proof fn law_difference_of_equals(a: u32)
    requires
        is_finite(a),
    ensures
        is_zero(difference(a, a)),
{
    lemma_negation_value(a);
    lemma_unit_values();
    law_sum_exact(a, negation(a), 0);
}

/// The exact product by values: where the values of `a` and `b` multiply to
/// that of `c`, counted in units of 2^-298, the product is finite and has
/// the value of `c`.
pub proof fn lemma_product_value(a: u32, b: u32, c: u32)
    requires
        is_finite(a),
        is_finite(b),
        is_finite(c),
        grid_value(a) * grid_value(b) == grid_value(c) * pow2(149),
    ensures
        is_finite(product(a, b)),
        grid_value(product(a, b)) == grid_value(c),
{
    let ga = grid_magnitude(a) as int;
    let gb = grid_magnitude(b) as int;
    let gc = grid_magnitude(c) as int;
    let u = pow2(149) as int;
    let va = grid_value(a);
    let vb = grid_value(b);
    let vc = grid_value(c);
    lemma_pow2_pos(149);
    assert(ga * gb == gc * u && (vc != 0 ==> va != 0 && vb != 0 && (vc < 0 <==> (va < 0) != (vb
        < 0)))) by (nonlinear_arith)
        requires
            va * vb == vc * u,
            u > 0,
            ga >= 0,
            gb >= 0,
            gc >= 0,
            va == ga || va == -ga,
            vb == gb || vb == -gb,
            vc == gc || vc == -gc,
            va < 0 ==> va == -ga,
            vb < 0 ==> vb == -gb,
            vc < 0 ==> vc == -gc,
            va >= 0 ==> va == ga,
            vb >= 0 ==> vb == gb,
            vc >= 0 ==> vc == gc,
    ;
    law_product_exact(a, b, c);
    let p = product(a, b);
    assert(grid_magnitude(p) == grid_magnitude(c));
}

/// The exact sum by values: where the values of `a` and `b` add up to that
/// of `c`, the sum is finite and has the value of `c`.
pub proof fn lemma_sum_value(a: u32, b: u32, c: u32)
    requires
        is_finite(a),
        is_finite(b),
        is_finite(c),
        grid_value(a) + grid_value(b) == grid_value(c),
    ensures
        is_finite(sum(a, b)),
        grid_value(sum(a, b)) == grid_value(c),
{
    law_sum_exact(a, b, c);
}

/// A square is not negative, and neither is a sum of what is not negative.
pub proof fn lemma_signs_of_squares_and_sums(a: u32, b: u32)
    ensures
        !is_negative(product(a, a)),
        !is_negative(a) && !is_negative(b) ==> !is_negative(sum(a, b)),
        is_nan(sum(a, b)) ==> sum(a, b) == 0x7fc0_0000,
        is_nan(product(a, b)) ==> product(a, b) == 0x7fc0_0000,
{
    reveal(sum);
    reveal(product);
}

/// Adding a zero to what is not negative changes nothing.
pub proof fn lemma_plus_zero(a: u32, zero: u32)
    requires
        is_zero(zero),
        !is_negative(a),
        is_nan(a) ==> a == 0x7fc0_0000,
    ensures
        !is_negative(zero) ==> sum(a, zero) == a,
        !is_zero(a) ==> sum(a, zero) == a,
{
    reveal(sum);
    lemma_zero_value(zero);
    if is_finite(a) {
        lemma_zero_value(a);
        if !is_zero(a) {
            law_sum_exact(a, zero, a);
        }
    }
}

/// Zero is neutral: a number plus a zero is the number, but for the sign of
/// a zero.
pub proof fn law_zero_is_neutral(a: u32, zero: u32)
    requires
        !is_nan(a),
        is_zero(zero),
    ensures
        same(sum(a, zero), a),
        same(sum(zero, a), a),
{
    law_sum_commutes(a, zero);
    lemma_zero_value(zero);
    if is_finite(a) {
        law_sum_exact(a, zero, a);
    } else {
        reveal(sum);
    }
}

/// A whole number of at most 2^24 is a binary32 number: it is not rounded.
pub proof fn law_whole_is_exact(n: u32)
    requires
        n <= 0x100_0000,
    ensures
        is_finite(from_whole(n)),
        grid_magnitude(from_whole(n)) == n * pow2(149),
{
    lemma_pow2_values();
    lemma_pow2_pos(149);
    let u = pow2(149) as int;
    let num = n as nat * pow2(149);
    lemma_rounded_bits_value(num, 1);
    lemma_spacing_bounds(num, 1);
    let k = spacing(num, 1);
    lemma_pow2_pos(k);
    lemma_pow2_adds(24, 149);
    lemma_pow2_monotone(174, 277);
    lemma_pow2_adds(173, 1);
    lemma_scale_le(n as int, 0x100_0000, u);
    assert(num < pow2(277));
    assert(rounded(num, 1) == num) by {
        if n == 0 {
            assert(num == 0) by (nonlinear_arith)
                requires
                    num == n * u,
                    n == 0,
            ;
            assert(k == 0);
            let den = 1 * pow2(0);
            assert(den == 1 && 0 == 0 * den + 0 && 0 * pow2(0) == 0) by (nonlinear_arith)
                requires
                    den == 1 * pow2(0),
                    pow2(0) == 1,
            ;
            lemma_round_half_even_is(0, den, 0, 0);
        } else {
            lemma_pow2_monotone(24, 149);
            lemma_scale_le(1, n as int, u);
            assert(k > 0);
            if k > 150 {
                lemma_pow2_monotone(174, 23 + k);
            }
            // the spacing divides the number
            let q: nat = if k == 150 {
                0x80_0000
            } else {
                n as nat * pow2((149 - k) as nat)
            };
            if k == 150 {
                lemma_pow2_adds(23, 150);
                assert(n == 0x100_0000) by {
                    if n < 0x100_0000 {
                        lemma_scale_le(n as int, 0xff_ffff, u);
                    }
                }
                lemma_pow2_adds(149, 1);
                assert(num == q * (1 * pow2(k)) + 0) by (nonlinear_arith)
                    requires
                        num == 0x100_0000 * pow2(149),
                        pow2(k) == pow2(149) * 2,
                        q == 0x80_0000,
                ;
            } else {
                lemma_pow2_adds((149 - k) as nat, k);
                assert(num == q * (1 * pow2(k)) + 0) by (nonlinear_arith)
                    requires
                        num == n * pow2(149),
                        pow2(149) == pow2((149 - k) as nat) * pow2(k),
                        q == n * pow2((149 - k) as nat),
                ;
            }
            assert(1 * pow2(k) > 0);
            lemma_round_half_even_is(num, 1 * pow2(k), q, 0);
            assert(rounded(num, 1) == num) by (nonlinear_arith)
                requires
                    rounded(num, 1) == q * pow2(k),
                    num == q * (1 * pow2(k)) + 0,
            ;
        }
    }
}

} // verus!
