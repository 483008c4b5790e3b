//! The light source.

use vstd::prelude::*;
use vstd::std_specs::cmp::PartialEqSpecImpl;
use crate::colors::Color;
use crate::tuples::Tuple;

verus! {

/// A point light: where it is and what it gives off.
#[derive(Clone, Copy, Debug)]
pub struct Light {
    pub position: Tuple,
    pub intensity: Color,
}

impl PartialEq for Light {
    fn eq(&self, other: &Light) -> (r: bool) {
        self.position == other.position && self.intensity == other.intensity
    }
}

impl PartialEqSpecImpl for Light {
    open spec fn obeys_eq_spec() -> bool {
        true
    }

    open spec fn eq_spec(&self, other: &Light) -> bool {
        self.equals(*other)
    }
}

impl Light {
    /// Position and intensity are equal as numbers.
    pub open spec fn equals(self, other: Light) -> bool {
        self.position.equals(other.position) && self.intensity.equals(other.intensity)
    }
}

} // verus!
