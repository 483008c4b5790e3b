//! Rounding keeps the order: what is larger before is not smaller after.

use vstd::prelude::*;
use vstd::arithmetic::power2::{pow2, lemma_pow2_pos};
use vstd::arithmetic::div_mod::lemma_fundamental_div_mod;
use crate::ieee::layout::{
    magnitude, is_negative, is_nan, is_infinite, is_finite, is_zero, grid_magnitude, grid_value,
    with_sign,
};
use crate::ieee::exact::{spacing, round_half_even, rounded_bits};
use crate::ieee::arith::{sum, quotient, distance_from_zero};
use crate::ieee::order::{less_or_same, lemma_order_by_bits, lemma_zero_by_bits};
use crate::ieee::laws::{lemma_spacing_bounds, lemma_rounded_bits_value, lemma_zero_value};
use crate::ieee::lemmas::{lemma_pow2_values, lemma_pow2_monotone, lemma_scale_le};

verus! {

/// Rounding to the nearest integer keeps the order.
proof fn lemma_round_half_even_monotone(n1: nat, n2: nat, den: nat)
    requires
        den > 0,
        n1 <= n2,
    ensures
        round_half_even(n1, den) <= round_half_even(n2, den),
{
    let q1 = (n1 / den) as int;
    let q2 = (n2 / den) as int;
    let d = den as int;
    lemma_fundamental_div_mod(n1 as int, d);
    lemma_fundamental_div_mod(n2 as int, d);
    assert(d * q1 == q1 * d && d * q2 == q2 * d && (q2 + 1) * d == q2 * d + d)
        by (nonlinear_arith);
    if q1 > q2 {
        lemma_scale_le(q2 + 1, q1, d);
    }
}

/// The spacing grows with the ratio.
proof fn lemma_spacing_monotone(n1: nat, n2: nat, den: nat)
    requires
        den > 0,
        n1 <= n2,
    ensures
        spacing(n1, den) <= spacing(n2, den),
{
    let k1 = spacing(n1, den);
    let k2 = spacing(n2, den);
    lemma_spacing_bounds(n1, den);
    lemma_spacing_bounds(n2, den);
    lemma_pow2_values();
    if k1 > k2 {
        lemma_pow2_monotone(24 + k2, 23 + k1);
        lemma_scale_le(pow2(24 + k2) as int, pow2(23 + k1) as int, den as int);
    }
}

/// Rounding keeps the order: of two ratios over the same denominator, the
/// larger has the larger or the same rounded bits.
pub proof fn law_rounding_is_monotone(n1: nat, n2: nat, den: nat)
    requires
        den > 0,
        n1 <= n2,
    ensures
        rounded_bits(n1, den) <= rounded_bits(n2, den),
{
    let k1 = spacing(n1, den);
    let k2 = spacing(n2, den);
    lemma_spacing_monotone(n1, n2, den);
    lemma_rounded_bits_value(n1, den);
    lemma_rounded_bits_value(n2, den);
    if k1 == k2 {
        lemma_pow2_pos(k1);
        assert(den * pow2(k1) > 0) by (nonlinear_arith)
            requires
                den > 0,
                pow2(k1) > 0,
        ;
        lemma_round_half_even_monotone(n1, n2, den * pow2(k1));
    }
}

/// The value of a number by sign and magnitude bits: larger magnitude bits
/// lie farther from zero, on the side of the sign.
proof fn lemma_value_by_bits(a: u32, b: u32)
    requires
        !is_nan(a),
        !is_nan(b),
    ensures
        !is_negative(a) && !is_negative(b) && magnitude(a) <= magnitude(b) ==> grid_value(a)
            <= grid_value(b),
        is_negative(a) && is_negative(b) && magnitude(a) >= magnitude(b) ==> grid_value(a)
            <= grid_value(b),
        is_negative(a) && !is_negative(b) ==> grid_value(a) <= grid_value(b),
        magnitude(a) == 0 && magnitude(b) == 0 ==> grid_value(a) == grid_value(b),
{
    lemma_order_by_bits(a, b);
    lemma_zero_by_bits(a);
    lemma_zero_by_bits(b);
}

/// Two patterns given by sign and magnitude bits are in order where the
/// signs and the bits say so.
proof fn lemma_signed_order(n1: bool, m1: u32, n2: bool, m2: u32)
    requires
        m1 <= 0x7f80_0000,
        m2 <= 0x7f80_0000,
        (!n1 && !n2 && m1 <= m2) || (n1 && n2 && m1 >= m2) || (n1 && !n2) || (m1 == 0 && m2 == 0),
    ensures
        less_or_same(with_sign(n1, m1), with_sign(n2, m2)),
{
    let a = with_sign(n1, m1);
    let b = with_sign(n2, m2);
    assert(magnitude(a) == m1 && is_negative(a) == n1);
    assert(magnitude(b) == m2 && is_negative(b) == n2);
    lemma_value_by_bits(a, b);
}

/// The sum of finite numbers by sign and magnitude bits.
proof fn lemma_sum_parts(a: u32, b: u32) -> (parts: (bool, u32))
    requires
        is_finite(a),
        is_finite(b),
    ensures
        sum(a, b) == with_sign(parts.0, parts.1),
        parts.1 <= 0x7f80_0000,
        grid_value(a) + grid_value(b) == 0 ==> parts.1 == 0,
        grid_value(a) + grid_value(b) != 0 ==> parts.0 == (grid_value(a) + grid_value(b) < 0)
            && parts.1 == rounded_bits(distance_from_zero(grid_value(a) + grid_value(b)), 1),
{
    reveal(sum);
    let exact = grid_value(a) + grid_value(b);
    if exact == 0 {
        (is_negative(a) && is_negative(b), 0u32)
    } else {
        (exact < 0, rounded_bits(distance_from_zero(exact), 1))
    }
}

/// The sum keeps the order: where one exact sum of finite numbers is at
/// most another, so are the rounded sums.
pub proof fn law_sum_is_monotone(a: u32, b: u32, c: u32, d: u32)
    requires
        is_finite(a),
        is_finite(b),
        is_finite(c),
        is_finite(d),
        grid_value(a) + grid_value(b) <= grid_value(c) + grid_value(d),
    ensures
        less_or_same(sum(a, b), sum(c, d)),
{
    let e1 = grid_value(a) + grid_value(b);
    let e2 = grid_value(c) + grid_value(d);
    let first = lemma_sum_parts(a, b);
    let second = lemma_sum_parts(c, d);
    if 0 < e1 {
        law_rounding_is_monotone(distance_from_zero(e1), distance_from_zero(e2), 1);
    } else if e2 < 0 {
        law_rounding_is_monotone(distance_from_zero(e2), distance_from_zero(e1), 1);
    }
    lemma_signed_order(first.0, first.1, second.0, second.1);
}

/// The quotient by a finite number above zero, by sign and magnitude bits.
proof fn lemma_quotient_parts(a: u32, d: u32) -> (bits: u32)
    requires
        !is_nan(a),
        is_finite(d),
        !is_zero(d),
        !is_negative(d),
    ensures
        quotient(a, d) == with_sign(is_negative(a), bits),
        bits <= 0x7f80_0000,
        is_infinite(a) ==> bits == 0x7f80_0000,
        is_finite(a) ==> bits == rounded_bits(grid_magnitude(a) * pow2(149), grid_magnitude(d)),
{
    reveal(quotient);
    if is_infinite(a) {
        0x7f80_0000u32
    } else {
        rounded_bits(grid_magnitude(a) * pow2(149), grid_magnitude(d))
    }
}

/// The quotient by a finite number above zero keeps the order.
pub proof fn law_quotient_is_monotone(a: u32, b: u32, d: u32)
    requires
        !is_nan(a),
        !is_nan(b),
        is_finite(d),
        !is_zero(d),
        !is_negative(d),
        less_or_same(a, b),
    ensures
        less_or_same(quotient(a, d), quotient(b, d)),
{
    let ma = lemma_quotient_parts(a, d);
    let mb = lemma_quotient_parts(b, d);
    let ga = grid_magnitude(a);
    let gb = grid_magnitude(b);
    let den = grid_magnitude(d);
    lemma_zero_value(d);
    lemma_order_by_bits(a, b);
    lemma_zero_by_bits(a);
    lemma_zero_by_bits(b);
    if is_negative(a) == is_negative(b) {
        if is_finite(a) && is_finite(b) {
            if !is_negative(a) {
                lemma_scale_le(ga as int, gb as int, pow2(149) as int);
                law_rounding_is_monotone(ga * pow2(149), gb * pow2(149), den);
            } else {
                lemma_scale_le(gb as int, ga as int, pow2(149) as int);
                law_rounding_is_monotone(gb * pow2(149), ga * pow2(149), den);
            }
        }
    } else if !is_negative(a) {
        // both are zeros
        assert(ga == 0 && gb == 0);
        assert(ga * pow2(149) == 0 && gb * pow2(149) == 0) by (nonlinear_arith)
            requires
                ga == 0,
                gb == 0,
        ;
        lemma_rounds_nothing_to_zero(den);
    }
    lemma_signed_order(is_negative(a), ma, is_negative(b), mb);
}

/// Nothing rounds to zero.
proof fn lemma_rounds_nothing_to_zero(den: nat)
    requires
        den > 0,
    ensures
        rounded_bits(0, den) == 0,
{
    lemma_pow2_values();
    crate::ieee::lemmas::lemma_spacing_is(0, den, 0);
    assert(den * pow2(0) == den) by (nonlinear_arith)
        requires
            pow2(0) == 1,
    ;
    crate::ieee::lemmas::lemma_round_half_even_is(0, den, 0, 0);
}

} // verus!
