//! Between patterns and whole numbers.

use vstd::prelude::*;
use vstd::arithmetic::power2::{pow2, lemma_pow2_adds, lemma_pow2_pos};
use vstd::arithmetic::div_mod::{lemma_fundamental_div_mod, lemma_fundamental_div_mod_converse};
use crate::ieee::layout::{
    is_negative, is_nan, significand, scale, grid_magnitude, take_apart, magnitude_of, sign_of,
    INFINITY,
};
use crate::ieee::exact::rounded_bits;
use crate::ieee::round::{power_of_two, round_pack};
use crate::ieee::lemmas::{lemma_pow2_values, lemma_pow2_monotone, lemma_scale_le, lemma_scale_lt};

verus! {

/// The value cut down to a byte: its whole part, but 0 for what is below
/// zero or not a number and 255 for what is above.
pub open spec fn byte_of(a: u32) -> u8 {
    if is_nan(a) || is_negative(a) {
        0
    } else {
        let whole = grid_magnitude(a) / pow2(149);
        if whole >= 255 {
            255
        } else {
            whole as u8
        }
    }
}

/// The value cut down to a byte, as a cast of the number to `u8` gives it.
pub fn to_byte(a: u32) -> (r: u8)
    ensures
        r == byte_of(a),
{
    let m = magnitude_of(a);
    if m > INFINITY || sign_of(a) {
        return 0;
    }
    proof {
        lemma_pow2_values();
        lemma_pow2_pos(149);
    }
    if m == INFINITY {
        proof {
            lemma_pow2_adds(149, 105);
            lemma_pow2_pos(105);
            lemma_pow2_monotone(23, 105);
            let c = pow2(149) as int;
            let g = grid_magnitude(a) as int;
            assert(scale(a) == 254 && significand(a) == 0x80_0000);
            assert(g == (0x80_0000 * pow2(105)) * c) by (nonlinear_arith)
                requires
                    g == 0x80_0000 * pow2(254),
                    pow2(254) == c * pow2(105),
            ;
            lemma_fundamental_div_mod_converse(g, c, (0x80_0000 * pow2(105)) as int, 0);
        }
        return 255;
    }
    let p = take_apart(a);
    if p.scale >= 149 {
        proof {
            let over = (p.scale - 149) as nat;
            let c = pow2(149) as int;
            let g = grid_magnitude(a) as int;
            lemma_pow2_adds(149, over);
            lemma_pow2_pos(over);
            assert(g == (p.significand * pow2(over)) * c) by (nonlinear_arith)
                requires
                    g == p.significand * pow2(p.scale as nat),
                    pow2(p.scale as nat) == c * pow2(over),
            ;
            lemma_fundamental_div_mod_converse(g, c, (p.significand * pow2(over)) as int, 0);
            lemma_scale_le(1, pow2(over) as int, p.significand as int);
        }
        return 255;
    }
    let shift: u32 = 149 - p.scale;
    if shift >= 24 {
        proof {
            let g = grid_magnitude(a) as int;
            let unit = pow2(p.scale as nat) as int;
            lemma_pow2_pos(p.scale as nat);
            lemma_pow2_adds(24, p.scale as nat);
            lemma_pow2_monotone(24 + p.scale as nat, 149);
            lemma_scale_lt(p.significand as int, 0x100_0000, unit);
            lemma_fundamental_div_mod_converse(g, pow2(149) as int, 0, g);
        }
        return 0;
    }
    let wide_unit: u128 = power_of_two(shift);
    proof {
        lemma_pow2_monotone(shift as nat, 23);
    }
    let unit: u32 = wide_unit as u32;
    let whole: u32 = p.significand / unit;
    proof {
        let g = grid_magnitude(a) as int;
        let ke = pow2(p.scale as nat) as int;
        let rest = (p.significand % unit) as int;
        lemma_pow2_pos(p.scale as nat);
        lemma_pow2_adds(shift as nat, p.scale as nat);
        lemma_pow2_monotone(shift as nat, 23);
        lemma_fundamental_div_mod(p.significand as int, unit as int);
        assert(g == whole * pow2(149) + rest * ke) by (nonlinear_arith)
            requires
                g == p.significand * ke,
                p.significand == unit * whole + rest,
                pow2(149) == unit * ke,
        ;
        lemma_scale_lt(rest, unit as int, ke);
        assert(rest * ke >= 0) by (nonlinear_arith)
            requires
                rest >= 0,
                ke > 0,
        ;
        lemma_fundamental_div_mod_converse(g, pow2(149) as int, whole as int, rest * ke);
    }
    if whole >= 255 {
        255
    } else {
        whole as u8
    }
}


/// The whole number `n` as a pattern: `n` itself up to 2^24, and the nearest
/// number beyond.
pub open spec fn from_whole(n: u32) -> u32 {
    rounded_bits(n as nat * pow2(149), 1)
}

/// The number nearest to `n`, as a cast of `n` to binary32 gives it.
pub fn from_u32(n: u32) -> (r: u32)
    ensures
        r == from_whole(n),
{
    proof {
        lemma_pow2_values();
        assert(1 * pow2(0) == 1) by (nonlinear_arith)
            requires
                pow2(0) == 1,
        ;
    }
    round_pack(n as u64, 149, 1, 0)
}

} // verus!
