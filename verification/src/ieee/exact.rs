//! Rounding to nearest, ties to even, stated on exact ratios.
//!
//! A non-negative real number is given as a ratio `num / den` of naturals,
//! in units of 2^-149. Around a number below 2^24 such units the
//! representable values are one unit apart; in each binade above, twice as
//! far as in the one below it.

use vstd::prelude::*;
use crate::ieee::layout::INFINITY;
use vstd::arithmetic::power2::pow2;

verus! {

/// The exponent `k` of the distance `2^k` between neighbouring representable
/// values around `num / den`: zero below 2^24, and one more for each
/// doubling from there.
pub open spec fn spacing(num: nat, den: nat) -> nat
    decreases num,
{
    if den == 0 || num < 0x100_0000 * den {
        0
    } else {
        1 + spacing(num / 2, den)
    }
}

/// `num / den` rounded to the nearest integer, a tie to the even one.
pub open spec fn round_half_even(num: nat, den: nat) -> nat {
    let q = num / den;
    let r = num % den;
    if 2 * r < den || (2 * r == den && q % 2 == 0) {
        q
    } else {
        q + 1
    }
}

/// The significand of the representable value nearest to `num / den`: the
/// number of whole spacings, after rounding. It is at most 2^24.
pub open spec fn rounded_significand(num: nat, den: nat) -> nat {
    round_half_even(num, den * pow2(spacing(num, den)))
}

/// The representable value nearest to `num / den`, in units of 2^-149. It
/// may be 2^277, one step beyond the largest finite value.
pub open spec fn rounded(num: nat, den: nat) -> nat {
    rounded_significand(num, den) * pow2(spacing(num, den))
}

/// The magnitude bits of `num / den` rounded. Scale and significand add up
/// as in `magnitude == scale * 2^23 + significand`, so a significand that
/// rounding carried to 2^24 lands in the next binade by itself; what would
/// lie beyond the largest finite value is the infinity.
pub open spec fn rounded_bits(num: nat, den: nat) -> u32 {
    let packed = spacing(num, den) * 0x80_0000 + rounded_significand(num, den);
    if packed >= INFINITY {
        INFINITY
    } else {
        packed as u32
    }
}

} // verus!
