//! Negation, product, quotient, sum and difference.

use vstd::prelude::*;
use vstd::arithmetic::power2::{pow2, lemma_pow2_adds, lemma_pow2_pos};
use crate::ieee::layout::{
    magnitude, is_negative, is_nan, is_infinite, is_finite, is_zero, significand, scale,
    grid_magnitude, grid_value, with_sign, take_apart, magnitude_of, sign_of, attach_sign, Parts,
    INFINITY, NAN, SIGN,
};
use crate::ieee::exact::{rounded_bits, spacing, rounded_significand};
use crate::ieee::round::{round_pack, power_of_two};
use crate::ieee::lemmas::{
    lemma_pow2_values, lemma_pow2_monotone, lemma_spacing_is, lemma_round_half_even_is,
    lemma_scale_le, lemma_scale_lt,
};

verus! {

/// The pattern with the other sign. It is defined on every pattern, also
/// where the pattern is not a number.
pub open spec fn negation(a: u32) -> u32 {
    if is_negative(a) {
        (a - SIGN) as u32
    } else {
        (a + SIGN) as u32
    }
}

/// The pattern with the sign cleared.
pub open spec fn absolute(a: u32) -> u32 {
    magnitude(a) as u32
}

/// The product: not a number where an operand is none or where zero meets
/// an infinity; an infinity where one operand is; else the exact product of
/// the two values, which is counted in units of 2^-298, rounded. The sign is
/// negative where the operands' signs differ.
#[verifier::opaque]
pub open spec fn product(a: u32, b: u32) -> u32 {
    let negative = is_negative(a) != is_negative(b);
    if is_nan(a) || is_nan(b) {
        NAN
    } else if is_infinite(a) || is_infinite(b) {
        if is_zero(a) || is_zero(b) {
            NAN
        } else {
            with_sign(negative, INFINITY)
        }
    } else {
        with_sign(negative, rounded_bits(grid_magnitude(a) * grid_magnitude(b), pow2(149)))
    }
}

/// The quotient: not a number where an operand is none, for an infinity by
/// an infinity and for zero by zero; an infinity where the dividend is one
/// or the divisor is zero; zero where the divisor is an infinity; else the
/// exact quotient of the two values, rounded. The sign is negative where the
/// operands' signs differ.
#[verifier::opaque]
pub open spec fn quotient(a: u32, b: u32) -> u32 {
    let negative = is_negative(a) != is_negative(b);
    if is_nan(a) || is_nan(b) {
        NAN
    } else if is_infinite(a) {
        if is_infinite(b) {
            NAN
        } else {
            with_sign(negative, INFINITY)
        }
    } else if is_infinite(b) {
        with_sign(negative, 0)
    } else if is_zero(b) {
        if is_zero(a) {
            NAN
        } else {
            with_sign(negative, INFINITY)
        }
    } else {
        with_sign(negative, rounded_bits(grid_magnitude(a) * pow2(149), grid_magnitude(b)))
    }
}

/// The absolute value of an integer, as a natural number.
pub open spec fn distance_from_zero(v: int) -> nat {
    if v < 0 {
        (-v) as nat
    } else {
        v as nat
    }
}

/// The sum: not a number where an operand is none or where the two are
/// infinities of opposite sign; an infinity where one operand is; else the
/// exact sum of the two values, rounded. An exact sum of zero is positive,
/// unless both operands are negative zeros.
#[verifier::opaque]
pub open spec fn sum(a: u32, b: u32) -> u32 {
    if is_nan(a) || is_nan(b) {
        NAN
    } else if is_infinite(a) {
        if is_infinite(b) && is_negative(a) != is_negative(b) {
            NAN
        } else {
            a
        }
    } else if is_infinite(b) {
        b
    } else {
        let exact = grid_value(a) + grid_value(b);
        if exact == 0 {
            with_sign(is_negative(a) && is_negative(b), 0)
        } else {
            with_sign(exact < 0, rounded_bits(distance_from_zero(exact), 1))
        }
    }
}

/// The difference: the sum with the second operand negated.
pub open spec fn difference(a: u32, b: u32) -> u32 {
    sum(a, negation(b))
}

/// `-a`, for every pattern.
pub fn negate(a: u32) -> (r: u32)
    ensures
        r == negation(a),
{
    if a >= SIGN {
        a - SIGN
    } else {
        a + SIGN
    }
}

/// `|a|`, for every pattern.
pub fn abs(a: u32) -> (r: u32)
    ensures
        r == absolute(a),
{
    a % SIGN
}

/// `a * b`, rounded.
pub fn multiply(a: u32, b: u32) -> (r: u32)
    ensures
        r == product(a, b),
{
    reveal(product);
    let ma = magnitude_of(a);
    let mb = magnitude_of(b);
    let negative = sign_of(a) != sign_of(b);
    if ma > INFINITY || mb > INFINITY {
        return NAN;
    }
    if ma == INFINITY || mb == INFINITY {
        if ma == 0 || mb == 0 {
            return NAN;
        }
        return attach_sign(negative, INFINITY);
    }
    let pa = take_apart(a);
    let pb = take_apart(b);
    assert((pa.significand as u64) * (pb.significand as u64) < 0x1_0000_0000_0000)
        by (nonlinear_arith)
        requires
            pa.significand < 0x100_0000,
            pb.significand < 0x100_0000,
    ;
    let n: u64 = (pa.significand as u64) * (pb.significand as u64);
    let eu: u32 = pa.scale + pb.scale;
    let m = round_pack(n, eu, 1, 149);
    proof {
        let sa = pa.significand as int;
        let sb = pb.significand as int;
        let ka = pow2(pa.scale as nat) as int;
        let kb = pow2(pb.scale as nat) as int;
        lemma_pow2_adds(pa.scale as nat, pb.scale as nat);
        assert((sa * sb) * (ka * kb) == (sa * ka) * (sb * kb)) by (nonlinear_arith);
        assert(1 * pow2(149) == pow2(149));
    }
    attach_sign(negative, m)
}

/// `a / b`, rounded.
pub fn divide(a: u32, b: u32) -> (r: u32)
    ensures
        r == quotient(a, b),
{
    reveal(quotient);
    let ma = magnitude_of(a);
    let mb = magnitude_of(b);
    let negative = sign_of(a) != sign_of(b);
    if ma > INFINITY || mb > INFINITY {
        return NAN;
    }
    if ma == INFINITY {
        if mb == INFINITY {
            return NAN;
        }
        return attach_sign(negative, INFINITY);
    }
    if mb == INFINITY {
        return attach_sign(negative, 0);
    }
    if mb == 0 {
        if ma == 0 {
            return NAN;
        }
        return attach_sign(negative, INFINITY);
    }
    let pa = take_apart(a);
    let pb = take_apart(b);
    let m = round_pack(pa.significand as u64, pa.scale + 149, pb.significand, pb.scale);
    proof {
        let sa = pa.significand as int;
        let ka = pow2(pa.scale as nat) as int;
        let c = pow2(149) as int;
        lemma_pow2_adds(pa.scale as nat, 149);
        assert(sa * (ka * c) == (sa * ka) * c) by (nonlinear_arith);
    }
    attach_sign(negative, m)
}

/// A value that is representable rounds to itself: `m * 2^k` with `m` below
/// 2^24, and at least 2^23 where `k` is not zero, has the magnitude bits
/// `k * 2^23 + m`.
pub proof fn lemma_rounding_keeps_representable(m: nat, k: nat)
    requires
        m < 0x100_0000,
        k > 0 ==> m >= 0x80_0000,
        k <= 253,
    ensures
        rounded_bits(m * pow2(k), 1) == k * 0x80_0000 + m,
        spacing(m * pow2(k), 1) == k,
        rounded_significand(m * pow2(k), 1) == m,
{
    lemma_pow2_values();
    lemma_pow2_pos(k);
    let unit = pow2(k);
    let num = m * unit;
    if k > 0 {
        lemma_pow2_adds(23, k);
        lemma_pow2_adds(24, k);
        lemma_scale_le(0x80_0000, m as int, unit as int);
        lemma_scale_lt(m as int, 0x100_0000, unit as int);
        assert(pow2(23 + k) * 1 <= num < pow2(24 + k) * 1);
    } else {
        assert(num == m) by (nonlinear_arith)
            requires
                num == m * unit,
                unit == 1,
        ;
    }
    lemma_spacing_is(num, 1, k);
    assert(1 * unit == unit);
    lemma_round_half_even_is(num, unit, m, 0);
}

/// A value keeps its bits when something far below its last place is added
/// or taken away: for a normal significand `m` at scale `k`, anything below
/// a quarter of the spacing of the binade underneath is lost in rounding.
pub proof fn lemma_rounding_absorbs(m: nat, k: nat, delta: nat)
    requires
        0x80_0000 <= m < 0x100_0000,
        3 <= k <= 253,
        delta < pow2((k - 3) as nat),
    ensures
        rounded_bits(m * pow2(k) + delta, 1) == k * 0x80_0000 + m,
        rounded_bits((m * pow2(k) - delta) as nat, 1) == k * 0x80_0000 + m,
        m * pow2(k) > delta,
{
    lemma_pow2_values();
    lemma_pow2_pos(k);
    let unit = pow2(k);
    let below = pow2((k - 1) as nat);
    lemma_pow2_adds((k - 1) as nat, 1);
    lemma_pow2_adds((k - 3) as nat, 2);
    lemma_pow2_adds(2, 0);
    assert(pow2(2) == 4) by {
        lemma_pow2_adds(1, 1);
    }
    assert(unit == 2 * below);
    assert(below == 4 * pow2((k - 3) as nat));
    assert(4 * delta < below);
    lemma_pow2_adds(23, k);
    lemma_pow2_adds(24, k);
    lemma_pow2_adds(23, (k - 1) as nat);
    lemma_pow2_adds(24, (k - 1) as nat);
    lemma_scale_le(0x80_0000, m as int, unit as int);
    lemma_scale_lt(m as int, 0x100_0000, unit as int);
    assert(1 * unit == unit);
    assert(1 * below == below);
    // adding
    let up = m * unit + delta;
    assert((m + 1) * unit == m * unit + unit) by (nonlinear_arith);
    lemma_scale_le((m + 1) as int, 0x100_0000, unit as int);
    assert(pow2(23 + k) * 1 <= up < pow2(24 + k) * 1);
    lemma_spacing_is(up, 1, k);
    lemma_round_half_even_is(up, unit, m, delta);
    // taking away
    let down = (m * unit - delta) as nat;
    if delta == 0 {
    } else if m > 0x80_0000 {
        assert((m - 1) * unit == m * unit - unit) by (nonlinear_arith);
        lemma_scale_le(0x80_0000, (m - 1) as int, unit as int);
        assert(pow2(23 + k) * 1 <= down < pow2(24 + k) * 1);
        lemma_spacing_is(down, 1, k);
        lemma_round_half_even_is(down, unit, (m - 1) as nat, (unit - delta) as nat);
    } else {
        assert(m * unit == 0x100_0000 * below) by (nonlinear_arith)
            requires
                m == 0x80_0000,
                unit == 2 * below,
        ;
        assert(0xff_ffff * below == 0x100_0000 * below - below) by (nonlinear_arith);
        assert(down == 0xff_ffff * below + (below - delta));
        lemma_scale_le(0x80_0000, 0xff_ffff, below as int);
        assert(pow2((23 + k - 1) as nat) * 1 <= down < pow2((24 + k - 1) as nat) * 1);
        lemma_spacing_is(down, 1, (k - 1) as nat);
        lemma_round_half_even_is(down, below, 0xff_ffff, (below - delta) as nat);
    }
}

/// The sum of two finite numbers of which the first has the larger scale.
fn add_ordered(hi: u32, lo: u32, ph: Parts, pl: Parts) -> (r: u32)
    requires
        is_finite(hi),
        is_finite(lo),
        ph.negative == is_negative(hi),
        ph.significand == significand(hi),
        ph.scale == scale(hi),
        pl.negative == is_negative(lo),
        pl.significand == significand(lo),
        pl.scale == scale(lo),
        ph.scale >= pl.scale,
    ensures
        r == sum(hi, lo),
{
    reveal(sum);
    let gap: u32 = ph.scale - pl.scale;
    proof {
        lemma_pow2_values();
        lemma_pow2_pos(pl.scale as nat);
        lemma_pow2_pos(gap as nat);
        lemma_pow2_adds(gap as nat, pl.scale as nat);
        assert(magnitude(hi) == scale(hi) * 0x80_0000 + significand(hi));
        assert(magnitude(lo) == scale(lo) * 0x80_0000 + significand(lo));
    }
    if gap >= 40 {
        proof {
            let k = ph.scale as nat;
            let m = ph.significand as nat;
            let delta = grid_magnitude(lo);
            lemma_pow2_adds(24, pl.scale as nat);
            lemma_pow2_monotone(24 + pl.scale as nat, (k - 3) as nat);
            lemma_scale_lt(pl.significand as int, 0x100_0000, pow2(pl.scale as nat) as int);
            assert(delta < pow2((k - 3) as nat));
            lemma_rounding_absorbs(m, k, delta);
            assert(grid_magnitude(hi) == m * pow2(k));
        }
        return hi;
    }
    let shift: u64 = power_of_two(gap) as u64;
    proof {
        lemma_pow2_monotone(gap as nat, 39);
        lemma_pow2_adds(32, 7);
        assert(pow2(7) == 128) by {
            lemma_pow2_adds(4, 3);
            vstd::arithmetic::power2::lemma2_to64();
        }
        assert(shift <= 0x80_0000_0000);
        assert((ph.significand as u64) * shift < 0x8000_0000_0000_0000) by (nonlinear_arith)
            requires
                ph.significand < 0x100_0000,
                shift <= 0x80_0000_0000,
        ;
    }
    let big: u64 = (ph.significand as u64) * shift;
    let small: u64 = pl.significand as u64;
    let negative: bool;
    let n: u64;
    if ph.negative == pl.negative {
        n = big + small;
        negative = ph.negative;
    } else if big >= small {
        n = big - small;
        negative = ph.negative;
    } else {
        n = small - big;
        negative = pl.negative;
    }
    proof {
        let unit = pow2(pl.scale as nat) as int;
        let b = big as int;
        let s = small as int;
        assert(grid_magnitude(hi) == b * unit) by (nonlinear_arith)
            requires
                grid_magnitude(hi) == ph.significand * pow2(ph.scale as nat),
                pow2(ph.scale as nat) == pow2(gap as nat) * unit,
                b == ph.significand * pow2(gap as nat),
        ;
        assert(grid_magnitude(lo) == s * unit);
        assert((b + s) * unit == b * unit + s * unit) by (nonlinear_arith);
        assert((b - s) * unit == b * unit - s * unit) by (nonlinear_arith);
        assert((s - b) * unit == s * unit - b * unit) by (nonlinear_arith);
        let exact = grid_value(hi) + grid_value(lo);
        assert(distance_from_zero(exact) == n * unit && (n == 0 <==> exact == 0) && (n != 0 ==> (
        negative <==> exact < 0))) by (nonlinear_arith)
            requires
                unit > 0,
                exact == (if ph.negative {
                    -(b * unit)
                } else {
                    b * unit
                }) + (if pl.negative {
                    -(s * unit)
                } else {
                    s * unit
                }),
                (b + s) * unit == b * unit + s * unit,
                (b - s) * unit == b * unit - s * unit,
                (s - b) * unit == s * unit - b * unit,
                b >= 0,
                s >= 0,
                n == (if ph.negative == pl.negative {
                    b + s
                } else if b >= s {
                    b - s
                } else {
                    s - b
                }),
                negative == (if ph.negative == pl.negative {
                    ph.negative
                } else if b >= s {
                    ph.negative
                } else {
                    pl.negative
                }),
        ;
        assert(1 * pow2(0) == 1);
    }
    if n == 0 {
        return attach_sign(ph.negative && pl.negative, 0);
    }
    let m = round_pack(n, pl.scale, 1, 0);
    attach_sign(negative, m)
}

/// `a + b`, rounded.
pub fn add(a: u32, b: u32) -> (r: u32)
    ensures
        r == sum(a, b),
{
    reveal(sum);
    let ma = magnitude_of(a);
    let mb = magnitude_of(b);
    if ma > INFINITY || mb > INFINITY {
        return NAN;
    }
    if ma == INFINITY {
        if mb == INFINITY && sign_of(a) != sign_of(b) {
            return NAN;
        }
        return a;
    }
    if mb == INFINITY {
        return b;
    }
    let pa = take_apart(a);
    let pb = take_apart(b);
    if pa.scale >= pb.scale {
        add_ordered(a, b, pa, pb)
    } else {
        add_ordered(b, a, pb, pa)
    }
}

/// `a - b`, rounded.
pub fn subtract(a: u32, b: u32) -> (r: u32)
    ensures
        r == difference(a, b),
{
    self::add(a, negate(b))
}

} // verus!
