//! Rays: a point to start from and a direction.

use vstd::prelude::*;
use vstd::std_specs::cmp::PartialEqSpecImpl;
use crate::scalar::Scalar;
use crate::transformations::Transformation;
use crate::tuples::Tuple;

verus! {

/// A ray: the point it starts from and the direction it runs in.
#[derive(Clone, Copy, Debug)]
pub struct Ray {
    pub origin: Tuple,
    pub direction: Tuple,
}

impl PartialEq for Ray {
    fn eq(&self, other: &Ray) -> (r: bool) {
        self.origin == other.origin && self.direction == other.direction
    }
}

impl PartialEqSpecImpl for Ray {
    open spec fn obeys_eq_spec() -> bool {
        true
    }

    open spec fn eq_spec(&self, other: &Ray) -> bool {
        self.equals(*other)
    }
}

impl Ray {
    /// Origin and direction are equal as numbers.
    pub open spec fn equals(self, other: Ray) -> bool {
        self.origin.equals(other.origin) && self.direction.equals(other.direction)
    }

    /// `origin + direction * t`.
    pub open spec fn at(self, t: Scalar) -> Tuple {
        self.origin.plus(self.direction.times(t))
    }

    /// Origin and direction, each moved by the transformation.
    pub open spec fn moved_by(self, transformation: Transformation) -> Ray {
        Ray {
            origin: self.origin.moved_by(transformation),
            direction: self.direction.moved_by(transformation),
        }
    }

    /// The point at the distance `r` along the ray.
    pub fn position(self: &Self, r: Scalar) -> (p: Tuple)
        ensures
            p == self.at(r),
    {
        crate::tuples::add(&self.origin, &crate::tuples::mul(&self.direction, r))
    }

    /// The ray in another frame: a new ray, this one stays as it is.
    pub fn transform(self: &Self, transformation: Transformation) -> (r: Ray)
        ensures
            r == self.moved_by(transformation),
    {
        Ray {
            origin: self.origin.transform(transformation),
            direction: self.direction.transform(transformation),
        }
    }
}

} // verus!
