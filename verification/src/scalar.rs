//! The numbers of the library.

use vstd::prelude::*;
use vstd::std_specs::cmp::PartialEqSpecImpl;
use crate::ieee::arith::{
    sum, difference, product, quotient, negation, absolute, subtract, multiply, divide, negate, abs,
};
use crate::ieee::layout::{is_nan, is_finite, grid_value, grid_magnitude};
use crate::ieee::order::{less, same, less_or_same, less_than, less_or_equal, equal};
use crate::ieee::root::{root, square_root};
use crate::ieee::convert::{byte_of, to_byte, from_whole, from_u32};

verus! {

/// The bits of 0.
pub const ZERO: u32 = 0;

/// The bits of 1.
pub const ONE: u32 = 0x3f80_0000;

/// The bits of 2.
pub const TWO: u32 = 0x4000_0000;

/// The bits of 4.
pub const FOUR: u32 = 0x4080_0000;

/// The bits of 255.
pub const BYTE_MAX: u32 = 0x437f_0000;

/// The bits of 2^-23, the distance from 1 to the next number.
pub const EPSILON: u32 = 0x3400_0000;

/// A binary32 number, held as its 32 bits.
///
/// It stands for the exact value `self.value()` in units of 2^-149, for an
/// infinity, or for nothing. Each operation below returns what the exact
/// operation on the values gives, rounded to the nearest number, ties to
/// even; the functions of `crate::ieee` say so in full.
#[derive(Clone, Copy, Debug)]
pub struct Scalar {
    pub bits: u32,
}

impl PartialEq for Scalar {
    /// Equality of the values: the two zeros are equal, and what is not a
    /// number equals nothing.
    fn eq(&self, other: &Scalar) -> (r: bool) {
        equal(self.bits, other.bits)
    }
}

impl PartialEqSpecImpl for Scalar {
    open spec fn obeys_eq_spec() -> bool {
        true
    }

    open spec fn eq_spec(&self, other: &Scalar) -> bool {
        same(self.bits, other.bits)
    }
}

impl Scalar {
    /// The exact value in units of 2^-149, of a finite number.
    pub open spec fn value(self) -> int {
        grid_value(self.bits)
    }

    /// The absolute value in units of 2^-149, of a finite number.
    pub open spec fn size(self) -> nat {
        grid_magnitude(self.bits)
    }

    /// It stands for a number, finite or infinite.
    pub open spec fn is_number(self) -> bool {
        !is_nan(self.bits)
    }

    /// It stands for a finite number.
    pub open spec fn is_finite(self) -> bool {
        is_finite(self.bits)
    }

    /// `self + other`, rounded.
    pub open spec fn plus(self, other: Scalar) -> Scalar {
        Scalar { bits: sum(self.bits, other.bits) }
    }

    /// `self - other`, rounded.
    pub open spec fn minus(self, other: Scalar) -> Scalar {
        Scalar { bits: difference(self.bits, other.bits) }
    }

    /// `self * other`, rounded.
    pub open spec fn times(self, other: Scalar) -> Scalar {
        Scalar { bits: product(self.bits, other.bits) }
    }

    /// `self / other`, rounded.
    pub open spec fn over(self, other: Scalar) -> Scalar {
        Scalar { bits: quotient(self.bits, other.bits) }
    }

    /// `-self`.
    pub open spec fn negated(self) -> Scalar {
        Scalar { bits: negation(self.bits) }
    }

    /// `|self|`.
    pub open spec fn absolute(self) -> Scalar {
        Scalar { bits: absolute(self.bits) }
    }

    /// The square root, rounded.
    pub open spec fn root(self) -> Scalar {
        Scalar { bits: root(self.bits) }
    }

    /// `self < other`.
    pub open spec fn below(self, other: Scalar) -> bool {
        less(self.bits, other.bits)
    }

    /// `self <= other`.
    pub open spec fn at_most(self, other: Scalar) -> bool {
        less_or_same(self.bits, other.bits)
    }

    /// `self == other` as numbers.
    pub open spec fn equals(self, other: Scalar) -> bool {
        same(self.bits, other.bits)
    }

    /// `self < 0`.
    pub open spec fn is_below_zero(self) -> bool {
        less(self.bits, 0)
    }

    /// `self > 0`.
    pub open spec fn is_above_zero(self) -> bool {
        less(0, self.bits)
    }

    /// The whole part as a byte, 0 below zero and 255 above 255.
    pub open spec fn byte(self) -> u8 {
        byte_of(self.bits)
    }

    /// The number nearest to the whole number `n`.
    pub open spec fn whole(n: u32) -> Scalar {
        Scalar { bits: from_whole(n) }
    }

    /// The number nearest to `n`: `n` itself up to 2^24.
    pub fn from_u32(n: u32) -> (r: Scalar)
        ensures
            r == Scalar::whole(n),
    {
        Scalar { bits: from_u32(n) }
    }

    /// The number with the given bits.
    pub fn from_bits(bits: u32) -> (r: Scalar)
        ensures
            r.bits == bits,
    {
        Scalar { bits }
    }

    /// The bits of the number.
    pub fn to_bits(self) -> (bits: u32)
        ensures
            bits == self.bits,
    {
        self.bits
    }

    /// `self + other`, rounded.
    pub fn add(self, other: Scalar) -> (r: Scalar)
        ensures
            r == self.plus(other),
    {
        Scalar { bits: crate::ieee::arith::add(self.bits, other.bits) }
    }

    /// `self - other`, rounded.
    pub fn sub(self, other: Scalar) -> (r: Scalar)
        ensures
            r == self.minus(other),
    {
        Scalar { bits: subtract(self.bits, other.bits) }
    }

    /// `self * other`, rounded.
    pub fn mul(self, other: Scalar) -> (r: Scalar)
        ensures
            r == self.times(other),
    {
        Scalar { bits: multiply(self.bits, other.bits) }
    }

    /// `self / other`, rounded.
    pub fn div(self, other: Scalar) -> (r: Scalar)
        ensures
            r == self.over(other),
    {
        Scalar { bits: divide(self.bits, other.bits) }
    }

    /// `-self`.
    pub fn neg(self) -> (r: Scalar)
        ensures
            r == self.negated(),
    {
        Scalar { bits: negate(self.bits) }
    }

    /// `|self|`.
    pub fn abs(self) -> (r: Scalar)
        ensures
            r == self.absolute(),
    {
        Scalar { bits: abs(self.bits) }
    }

    /// The square root, rounded.
    pub fn sqrt(self) -> (r: Scalar)
        ensures
            r == self.root(),
    {
        Scalar { bits: square_root(self.bits) }
    }

    /// `self < other`.
    pub fn lt(self, other: Scalar) -> (r: bool)
        ensures
            r == self.below(other),
    {
        less_than(self.bits, other.bits)
    }

    /// `self <= other`.
    pub fn le(self, other: Scalar) -> (r: bool)
        ensures
            r == self.at_most(other),
    {
        less_or_equal(self.bits, other.bits)
    }

    /// `self > other`.
    pub fn gt(self, other: Scalar) -> (r: bool)
        ensures
            r == other.below(self),
    {
        less_than(other.bits, self.bits)
    }

    /// `self >= other`.
    pub fn ge(self, other: Scalar) -> (r: bool)
        ensures
            r == other.at_most(self),
    {
        less_or_equal(other.bits, self.bits)
    }

    /// The whole part as a byte, 0 below zero and 255 above 255.
    pub fn to_byte(self) -> (r: u8)
        ensures
            r == self.byte(),
    {
        to_byte(self.bits)
    }
}

} // verus!
