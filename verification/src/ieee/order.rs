//! Comparing two patterns by the values they stand for.

use vstd::prelude::*;
use vstd::arithmetic::power2::{pow2, lemma_pow2_adds, lemma_pow2_pos};
use crate::ieee::layout::{
    magnitude, is_negative, is_nan, significand, scale, grid_magnitude, grid_value, magnitude_of,
    sign_of, INFINITY,
};
use crate::ieee::lemmas::{lemma_pow2_values, lemma_pow2_monotone, lemma_scale_le, lemma_scale_lt};

verus! {

/// `a < b`: both are numbers and the first stands for the smaller value. The
/// formula for the value gives an infinity 2^277 units, one step beyond the
/// largest finite value, so the infinities take their places at the ends.
pub open spec fn less(a: u32, b: u32) -> bool {
    !is_nan(a) && !is_nan(b) && grid_value(a) < grid_value(b)
}

/// `a == b` as numbers: both are numbers and stand for the same value. The
/// two zeros are the same; what is not a number is the same as nothing.
pub open spec fn same(a: u32, b: u32) -> bool {
    !is_nan(a) && !is_nan(b) && grid_value(a) == grid_value(b)
}

/// `a <= b`.
pub open spec fn less_or_same(a: u32, b: u32) -> bool {
    less(a, b) || same(a, b)
}

/// Between patterns that are numbers, the larger magnitude bits stand for
/// the larger absolute value.
pub proof fn lemma_grid_monotone(x: u32, y: u32)
    requires
        magnitude(x) < magnitude(y),
        !is_nan(y),
    ensures
        grid_magnitude(x) < grid_magnitude(y),
{
    lemma_pow2_values();
    let sx = scale(x);
    let sy = scale(y);
    let mx = significand(x);
    let my = significand(y);
    assert(magnitude(x) == sx * 0x80_0000 + mx);
    assert(magnitude(y) == sy * 0x80_0000 + my);
    lemma_pow2_pos(sx);
    lemma_pow2_pos(sy);
    if sx == sy {
        lemma_scale_lt(mx as int, my as int, pow2(sx) as int);
    } else {
        assert(sx < sy);
        lemma_scale_lt(mx as int, 0x100_0000, pow2(sx) as int);
        lemma_pow2_adds(sx, 1);
        lemma_pow2_monotone(sx + 1, sy);
        lemma_scale_le(0x80_0000, my as int, pow2(sy) as int);
        assert(0x100_0000 * pow2(sx) == 0x80_0000 * pow2(sx + 1));
        lemma_scale_le(pow2(sx + 1) as int, pow2(sy) as int, 0x80_0000);
    }
}

/// The magnitude bits with the sign in front: an integer that is ordered as
/// the values are.
fn signed_magnitude(a: u32) -> (key: i64)
    ensures
        key == (if is_negative(a) {
            -(magnitude(a) as int)
        } else {
            magnitude(a) as int
        }),
{
    let m = magnitude_of(a);
    if sign_of(a) {
        -(m as i64)
    } else {
        m as i64
    }
}

/// Between numbers, the magnitude bits are ordered as the absolute values.
pub proof fn lemma_order_by_bits(a: u32, b: u32)
    requires
        !is_nan(a),
        !is_nan(b),
    ensures
        magnitude(a) < magnitude(b) <==> grid_magnitude(a) < grid_magnitude(b),
        magnitude(a) == magnitude(b) <==> grid_magnitude(a) == grid_magnitude(b),
{
    if magnitude(a) < magnitude(b) {
        lemma_grid_monotone(a, b);
    } else if magnitude(b) < magnitude(a) {
        lemma_grid_monotone(b, a);
    }
}

/// A number has no magnitude bits exactly where its value is zero.
pub proof fn lemma_zero_by_bits(a: u32)
    requires
        !is_nan(a),
    ensures
        magnitude(a) == 0 <==> grid_magnitude(a) == 0,
{
    lemma_order_by_bits(a, 0);
    assert(grid_magnitude(0) == 0) by (nonlinear_arith)
        requires
            grid_magnitude(0) == 0 * pow2(0),
    ;
}

/// `a < b`.
pub fn less_than(a: u32, b: u32) -> (r: bool)
    ensures
        r == less(a, b),
{
    if magnitude_of(a) > INFINITY || magnitude_of(b) > INFINITY {
        return false;
    }
    proof {
        lemma_order_by_bits(a, b);
        lemma_zero_by_bits(a);
        lemma_zero_by_bits(b);
    }
    signed_magnitude(a) < signed_magnitude(b)
}

/// `a == b` as numbers.
pub fn equal(a: u32, b: u32) -> (r: bool)
    ensures
        r == same(a, b),
{
    if magnitude_of(a) > INFINITY || magnitude_of(b) > INFINITY {
        return false;
    }
    proof {
        lemma_order_by_bits(a, b);
        lemma_zero_by_bits(a);
        lemma_zero_by_bits(b);
    }
    signed_magnitude(a) == signed_magnitude(b)
}

/// `a <= b`.
pub fn less_or_equal(a: u32, b: u32) -> (r: bool)
    ensures
        r == less_or_same(a, b),
{
    less_than(a, b) || equal(a, b)
}

} // verus!
