//! Homogeneous four-component values: points with `w` 1, vectors with `w` 0.

use vstd::prelude::*;
use vstd::std_specs::cmp::PartialEqSpecImpl;
use crate::scalar::{Scalar, ZERO, ONE, TWO, EPSILON};
use crate::transformations::Transformation;

verus! {

/// A point or a vector in homogeneous coordinates.
#[derive(Clone, Copy, Debug)]
pub struct Tuple {
    pub x: Scalar,
    pub y: Scalar,
    pub z: Scalar,
    pub w: Scalar,
}

impl PartialEq for Tuple {
    /// Equality of the four components as numbers.
    fn eq(&self, other: &Tuple) -> (r: bool) {
        self.x == other.x && self.y == other.y && self.z == other.z && self.w == other.w
    }
}

impl PartialEqSpecImpl for Tuple {
    open spec fn obeys_eq_spec() -> bool {
        true
    }

    open spec fn eq_spec(&self, other: &Tuple) -> bool {
        self.equals(*other)
    }
}

impl Tuple {
    /// The four components are equal as numbers.
    pub open spec fn equals(self, other: Tuple) -> bool {
        self.x.equals(other.x) && self.y.equals(other.y) && self.z.equals(other.z)
            && self.w.equals(other.w)
    }

    /// The component with the given index, `w` for 3 and beyond.
    pub open spec fn component(self, i: int) -> Scalar {
        if i == 0 {
            self.x
        } else if i == 1 {
            self.y
        } else if i == 2 {
            self.z
        } else {
            self.w
        }
    }

    /// Component by component, `self + other`.
    pub open spec fn plus(self, other: Tuple) -> Tuple {
        Tuple {
            x: self.x.plus(other.x),
            y: self.y.plus(other.y),
            z: self.z.plus(other.z),
            w: self.w.plus(other.w),
        }
    }

    /// Component by component, `self - other`.
    pub open spec fn minus(self, other: Tuple) -> Tuple {
        Tuple {
            x: self.x.minus(other.x),
            y: self.y.minus(other.y),
            z: self.z.minus(other.z),
            w: self.w.minus(other.w),
        }
    }

    /// Each component negated.
    pub open spec fn negated(self) -> Tuple {
        Tuple {
            x: self.x.negated(),
            y: self.y.negated(),
            z: self.z.negated(),
            w: self.w.negated(),
        }
    }

    /// Each component times `k`.
    pub open spec fn times(self, k: Scalar) -> Tuple {
        Tuple { x: self.x.times(k), y: self.y.times(k), z: self.z.times(k), w: self.w.times(k) }
    }

    /// Each component over `k`.
    pub open spec fn over(self, k: Scalar) -> Tuple {
        Tuple { x: self.x.over(k), y: self.y.over(k), z: self.z.over(k), w: self.w.over(k) }
    }

    /// The dot product over all four components, summed from the left.
    pub open spec fn dot(self, other: Tuple) -> Scalar {
        self.x.times(other.x).plus(self.y.times(other.y)).plus(self.z.times(other.z)).plus(
            self.w.times(other.w),
        )
    }

    /// The cross product of the first three components, a vector.
    pub open spec fn cross(self, other: Tuple) -> Tuple {
        Tuple {
            x: self.y.times(other.z).minus(self.z.times(other.y)),
            y: self.z.times(other.x).minus(self.x.times(other.z)),
            z: self.x.times(other.y).minus(self.y.times(other.x)),
            w: Scalar { bits: ZERO },
        }
    }

    /// The sum of the squares of the first three components, from the left.
    pub open spec fn square_sum(self) -> Scalar {
        self.x.times(self.x).plus(self.y.times(self.y)).plus(self.z.times(self.z))
    }

    /// The length of the first three components.
    pub open spec fn length(self) -> Scalar {
        self.square_sum().root()
    }

    /// All four components over the length.
    pub open spec fn unit(self) -> Tuple {
        self.over(self.length())
    }

    /// `self - n * dot(self, n) * 2`: `self` mirrored at the plane with the
    /// normal `n`.
    pub open spec fn reflected(self, n: Tuple) -> Tuple {
        self.minus(n.times(self.dot(n)).times(Scalar { bits: TWO }))
    }

    /// The matrix-vector product with `self` as the column: each row times
    /// `self` as a dot product, the fourth row giving `w`.
    pub open spec fn moved_by(self, transformation: Transformation) -> Tuple {
        Tuple {
            x: transformation.r0.dot(self),
            y: transformation.r1.dot(self),
            z: transformation.r2.dot(self),
            w: transformation.r3.dot(self),
        }
    }

    /// Each component lies within `epsilon` of the other's.
    pub open spec fn near(self, other: Tuple, epsilon: Scalar) -> bool {
        self.x.minus(other.x).absolute().at_most(epsilon) && self.y.minus(
            other.y,
        ).absolute().at_most(epsilon) && self.z.minus(other.z).absolute().at_most(epsilon)
            && self.w.minus(other.w).absolute().at_most(epsilon)
    }

    /// The first component.
    pub fn x(self: &Self) -> (r: Scalar)
        ensures
            r == self.x,
    {
        self.x
    }

    /// The second component.
    pub fn y(self: &Self) -> (r: Scalar)
        ensures
            r == self.y,
    {
        self.y
    }

    /// The third component.
    pub fn z(self: &Self) -> (r: Scalar)
        ensures
            r == self.z,
    {
        self.z
    }

    /// The fourth component: 1 for a point, 0 for a vector.
    pub fn w(self: &Self) -> (r: Scalar)
        ensures
            r == self.w,
    {
        self.w
    }

    /// Applies a transformation: the matrix times `self` as a column.
    pub fn transform(self: &Self, transformation: Transformation) -> (r: Tuple)
        ensures
            r == self.moved_by(transformation),
    {
        Tuple {
            x: dot(&transformation.r0, self),
            y: dot(&transformation.r1, self),
            z: dot(&transformation.r2, self),
            w: dot(&transformation.r3, self),
        }
    }

    /// The tolerance that `abs_diff_eq` is called with by default: 2^-23.
    pub fn default_epsilon() -> (r: Scalar)
        ensures
            r.bits == EPSILON,
    {
        Scalar { bits: EPSILON }
    }

    /// Whether each component differs from the other's by at most
    /// `epsilon`.
    pub fn abs_diff_eq(&self, other: &Self, epsilon: Scalar) -> (r: bool)
        ensures
            r == self.near(*other, epsilon),
    {
        self.x.sub(other.x).abs().le(epsilon) && self.y.sub(other.y).abs().le(epsilon)
            && self.z.sub(other.z).abs().le(epsilon) && self.w.sub(other.w).abs().le(epsilon)
    }
}

/// The vector `(x, y, z)`: `w` is 0.
pub fn vector(x: Scalar, y: Scalar, z: Scalar) -> (r: Tuple)
    ensures
        r == (Tuple { x, y, z, w: Scalar { bits: ZERO } }),
{
    Tuple { x: x, y: y, z: z, w: Scalar { bits: ZERO } }
}

/// The point `(x, y, z)`: `w` is 1.
pub fn point(x: Scalar, y: Scalar, z: Scalar) -> (r: Tuple)
    ensures
        r == (Tuple { x, y, z, w: Scalar { bits: ONE } }),
{
    Tuple { x: x, y: y, z: z, w: Scalar { bits: ONE } }
}

/// Component by component, `a + b`.
pub fn add(a: &Tuple, b: &Tuple) -> (r: Tuple)
    ensures
        r == a.plus(*b),
{
    Tuple { x: a.x.add(b.x), y: a.y.add(b.y), z: a.z.add(b.z), w: a.w.add(b.w) }
}

/// Component by component, `a - b`.
pub fn sub(a: &Tuple, b: &Tuple) -> (r: Tuple)
    ensures
        r == a.minus(*b),
{
    Tuple { x: a.x.sub(b.x), y: a.y.sub(b.y), z: a.z.sub(b.z), w: a.w.sub(b.w) }
}

/// Each component negated.
pub fn negate(a: &Tuple) -> (r: Tuple)
    ensures
        r == a.negated(),
{
    Tuple { x: a.x.neg(), y: a.y.neg(), z: a.z.neg(), w: a.w.neg() }
}

/// Each component times `b`.
pub fn mul(a: &Tuple, b: Scalar) -> (r: Tuple)
    ensures
        r == a.times(b),
{
    Tuple { x: a.x.mul(b), y: a.y.mul(b), z: a.z.mul(b), w: a.w.mul(b) }
}

/// Each component over `b`.
pub fn div(a: &Tuple, b: Scalar) -> (r: Tuple)
    ensures
        r == a.over(b),
{
    Tuple { x: a.x.div(b), y: a.y.div(b), z: a.z.div(b), w: a.w.div(b) }
}

/// The length of the first three components; `w` does not count.
pub fn magnitude(a: &Tuple) -> (r: Scalar)
    ensures
        r == a.length(),
{
    let component_squares = a.x.mul(a.x).add(a.y.mul(a.y)).add(a.z.mul(a.z));
    component_squares.sqrt()
}

/// The tuple over its length.
pub fn normalize(a: &Tuple) -> (r: Tuple)
    ensures
        r == a.unit(),
{
    div(a, magnitude(a))
}

/// The dot product over all four components.
pub fn dot(a: &Tuple, b: &Tuple) -> (r: Scalar)
    ensures
        r == a.dot(*b),
{
    a.x.mul(b.x).add(a.y.mul(b.y)).add(a.z.mul(b.z)).add(a.w.mul(b.w))
}

/// The cross product of the first three components, as a vector.
pub fn cross(a: &Tuple, b: &Tuple) -> (r: Tuple)
    ensures
        r == a.cross(*b),
{
    vector(
        a.y.mul(b.z).sub(a.z.mul(b.y)),
        a.z.mul(b.x).sub(a.x.mul(b.z)),
        a.x.mul(b.y).sub(a.y.mul(b.x)),
    )
}

/// `v` mirrored at the plane with the normal `n`.
pub fn reflect(v: &Tuple, n: &Tuple) -> (r: Tuple)
    ensures
        r == v.reflected(*n),
{
    let a = dot(v, n);
    self::sub(v, &self::mul(&self::mul(n, a), Scalar { bits: TWO }))
}

} // verus!
