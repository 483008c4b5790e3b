//! Linear RGB, not clamped.

use vstd::prelude::*;
use vstd::std_specs::cmp::PartialEqSpecImpl;
use crate::scalar::{Scalar, ZERO, EPSILON};

verus! {

/// Red, green and blue, each of any size.
#[derive(Clone, Copy, Debug)]
pub struct Color {
    pub r: Scalar,
    pub g: Scalar,
    pub b: Scalar,
}

impl PartialEq for Color {
    /// Equality of the three channels as numbers.
    fn eq(&self, other: &Color) -> (r: bool) {
        self.r == other.r && self.g == other.g && self.b == other.b
    }
}

impl PartialEqSpecImpl for Color {
    open spec fn obeys_eq_spec() -> bool {
        true
    }

    open spec fn eq_spec(&self, other: &Color) -> bool {
        self.equals(*other)
    }
}

impl Color {
    /// The three channels are equal as numbers.
    pub open spec fn equals(self, other: Color) -> bool {
        self.r.equals(other.r) && self.g.equals(other.g) && self.b.equals(other.b)
    }

    /// No light at all.
    pub open spec fn dark() -> Color {
        Color { r: Scalar { bits: ZERO }, g: Scalar { bits: ZERO }, b: Scalar { bits: ZERO } }
    }

    /// Channel by channel, `self + other`.
    pub open spec fn plus(self, other: Color) -> Color {
        Color { r: self.r.plus(other.r), g: self.g.plus(other.g), b: self.b.plus(other.b) }
    }

    /// Channel by channel, `self - other`.
    pub open spec fn minus(self, other: Color) -> Color {
        Color { r: self.r.minus(other.r), g: self.g.minus(other.g), b: self.b.minus(other.b) }
    }

    /// Each channel times `k`.
    pub open spec fn times(self, k: Scalar) -> Color {
        Color { r: self.r.times(k), g: self.g.times(k), b: self.b.times(k) }
    }

    /// Channel by channel, `self * other`.
    pub open spec fn blended(self, other: Color) -> Color {
        Color { r: self.r.times(other.r), g: self.g.times(other.g), b: self.b.times(other.b) }
    }

    /// Each channel lies within `epsilon` of the other's.
    pub open spec fn near(self, other: Color, epsilon: Scalar) -> bool {
        self.r.minus(other.r).absolute().at_most(epsilon) && self.g.minus(
            other.g,
        ).absolute().at_most(epsilon) && self.b.minus(other.b).absolute().at_most(epsilon)
    }

    /// The color with the given channels.
    pub fn new(r: Scalar, g: Scalar, b: Scalar) -> (c: Color)
        ensures
            c == (Color { r, g, b }),
    {
        Color { r: r, g: g, b: b }
    }

    /// The color of no light: all channels zero.
    pub fn black() -> (c: Color)
        ensures
            c == Color::dark(),
    {
        Color::new(Scalar { bits: ZERO }, Scalar { bits: ZERO }, Scalar { bits: ZERO })
    }

    /// The tolerance that `abs_diff_eq` is called with by default: 2^-23.
    pub fn default_epsilon() -> (r: Scalar)
        ensures
            r.bits == EPSILON,
    {
        Scalar { bits: EPSILON }
    }

    /// Whether each channel differs from the other's by at most `epsilon`.
    pub fn abs_diff_eq(&self, other: &Self, epsilon: Scalar) -> (r: bool)
        ensures
            r == self.near(*other, epsilon),
    {
        self.r.sub(other.r).abs().le(epsilon) && self.g.sub(other.g).abs().le(epsilon)
            && self.b.sub(other.b).abs().le(epsilon)
    }
}

/// Channel by channel, `a + b`.
pub fn add(a: Color, b: Color) -> (c: Color)
    ensures
        c == a.plus(b),
{
    Color { r: a.r.add(b.r), g: a.g.add(b.g), b: a.b.add(b.b) }
}

/// Channel by channel, `a - b`.
pub fn sub(a: Color, b: Color) -> (c: Color)
    ensures
        c == a.minus(b),
{
    Color { r: a.r.sub(b.r), g: a.g.sub(b.g), b: a.b.sub(b.b) }
}

/// Each channel of `a` times `b`.
pub fn multiply(a: &Color, b: Scalar) -> (c: Color)
    ensures
        c == a.times(b),
{
    Color { r: a.r.mul(b), g: a.g.mul(b), b: a.b.mul(b) }
}

/// Channel by channel, `a * b`: one color seen in the light of the other.
pub fn hadamard_product(a: &Color, b: &Color) -> (c: Color)
    ensures
        c == a.blended(*b),
{
    Color { r: a.r.mul(b.r), g: a.g.mul(b.g), b: a.b.mul(b.b) }
}

} // verus!
