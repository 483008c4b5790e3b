//! The fields of a binary32 pattern and the exact value it stands for.

use vstd::prelude::*;
use vstd::arithmetic::power2::pow2;

verus! {

/// The sign bit, which is also 2^31.
pub const SIGN: u32 = 0x8000_0000;

/// The magnitude bits of an infinity: exponent field all ones, fraction zero.
pub const INFINITY: u32 = 0x7f80_0000;

/// The pattern that every operation returns when its result is not a number.
pub const NAN: u32 = 0x7fc0_0000;

/// The low 31 bits: everything but the sign.
pub open spec fn magnitude(bits: u32) -> nat {
    (bits % SIGN) as nat
}

/// The sign bit is set. It may be set on a zero and on what is not a number.
pub open spec fn is_negative(bits: u32) -> bool {
    bits >= SIGN
}

/// The pattern stands for no number: exponent field all ones, fraction not
/// zero.
pub open spec fn is_nan(bits: u32) -> bool {
    magnitude(bits) > INFINITY
}

/// The pattern stands for an infinity.
pub open spec fn is_infinite(bits: u32) -> bool {
    magnitude(bits) == INFINITY
}

/// The pattern stands for a finite number: a zero, a subnormal or a normal
/// one.
pub open spec fn is_finite(bits: u32) -> bool {
    magnitude(bits) < INFINITY
}

/// The pattern stands for zero, of either sign.
pub open spec fn is_zero(bits: u32) -> bool {
    magnitude(bits) == 0
}

/// The biased exponent, 0 to 255.
pub open spec fn exponent_field(bits: u32) -> nat {
    magnitude(bits) / 0x80_0000
}

/// The 23 stored bits of the significand.
pub open spec fn fraction_field(bits: u32) -> nat {
    magnitude(bits) % 0x80_0000
}

/// The integer significand: the fraction, with the hidden bit for a normal
/// number.
pub open spec fn significand(bits: u32) -> nat {
    if exponent_field(bits) == 0 {
        fraction_field(bits)
    } else {
        0x80_0000 + fraction_field(bits)
    }
}

/// The power of two by which the significand is scaled, counted from the
/// smallest one: a finite pattern stands for
/// `significand * 2^scale * 2^-149`.
pub open spec fn scale(bits: u32) -> nat {
    if exponent_field(bits) == 0 {
        0
    } else {
        (exponent_field(bits) - 1) as nat
    }
}

/// The absolute value of a finite pattern in units of 2^-149.
pub open spec fn grid_magnitude(bits: u32) -> nat {
    significand(bits) * pow2(scale(bits))
}

/// The value of a finite pattern in units of 2^-149.
pub open spec fn grid_value(bits: u32) -> int {
    if is_negative(bits) {
        -(grid_magnitude(bits) as int)
    } else {
        grid_magnitude(bits) as int
    }
}

/// The pattern with the given sign and magnitude bits.
pub open spec fn with_sign(negative: bool, magnitude_bits: u32) -> u32 {
    if negative && magnitude_bits < SIGN {
        (magnitude_bits + SIGN) as u32
    } else {
        magnitude_bits
    }
}

/// A finite pattern taken apart.
#[derive(Clone, Copy, Debug)]
pub struct Parts {
    pub negative: bool,
    pub significand: u32,
    pub scale: u32,
}

/// The low 31 bits.
pub fn magnitude_of(bits: u32) -> (m: u32)
    ensures
        m == magnitude(bits),
        m < SIGN,
{
    bits % SIGN
}

/// Whether the sign bit is set.
pub fn sign_of(bits: u32) -> (negative: bool)
    ensures
        negative == is_negative(bits),
{
    bits >= SIGN
}

/// The pattern with the given sign and magnitude bits.
pub fn attach_sign(negative: bool, magnitude_bits: u32) -> (bits: u32)
    requires
        magnitude_bits < SIGN,
    ensures
        bits == with_sign(negative, magnitude_bits),
        magnitude(bits) == magnitude_bits,
        is_negative(bits) == negative,
{
    if negative {
        magnitude_bits + SIGN
    } else {
        magnitude_bits
    }
}

/// Splits a finite pattern into sign, significand and scale.
pub fn take_apart(bits: u32) -> (p: Parts)
    requires
        is_finite(bits),
    ensures
        p.negative == is_negative(bits),
        p.significand == significand(bits),
        p.scale == scale(bits),
        p.significand < 0x100_0000,
        p.scale <= 253,
        p.scale > 0 ==> p.significand >= 0x80_0000,
        magnitude(bits) == p.scale * 0x80_0000 + p.significand,
{
    let m: u32 = bits % SIGN;
    let e: u32 = m / 0x80_0000;
    let f: u32 = m % 0x80_0000;
    if e == 0 {
        Parts { negative: bits >= SIGN, significand: f, scale: 0 }
    } else {
        Parts { negative: bits >= SIGN, significand: 0x80_0000 + f, scale: e - 1 }
    }
}

} // verus!
