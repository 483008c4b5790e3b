//! Laws of rays: the point at the distance zero, and the order of the roots
//! that a ray and a sphere give.

use vstd::prelude::*;
use crate::ieee::layout::{is_zero, is_finite};
use crate::ieee::error::lemma_root_error;
use crate::ieee::laws::{
    lemma_zero_value, lemma_unit_values, lemma_negation_value, law_times_zero, law_zero_is_neutral,
};
use crate::laws::exact::all_finite;
use crate::scalar::Scalar;
use crate::ieee::monotone::{law_sum_is_monotone, law_quotient_is_monotone};
use crate::rays::Ray;
use crate::spheres::{discriminant, quadratic_b, quadratic_divisor, near_root, far_root};

verus! {

/// A ray starts at its origin: for finite coordinates, the point at the
/// distance zero equals the origin.
pub proof fn law_position_at_zero(ray: Ray, zero: Scalar)
    requires
        all_finite(ray.origin),
        all_finite(ray.direction),
        is_zero(zero.bits),
    ensures
        ray.at(zero).equals(ray.origin),
{
    law_times_zero(ray.direction.x.bits, zero.bits);
    law_times_zero(ray.direction.y.bits, zero.bits);
    law_times_zero(ray.direction.z.bits, zero.bits);
    law_times_zero(ray.direction.w.bits, zero.bits);
    law_zero_is_neutral(ray.origin.x.bits, ray.direction.x.times(zero).bits);
    law_zero_is_neutral(ray.origin.y.bits, ray.direction.y.times(zero).bits);
    law_zero_is_neutral(ray.origin.z.bits, ray.direction.z.times(zero).bits);
    law_zero_is_neutral(ray.origin.w.bits, ray.direction.w.times(zero).bits);
}

/// The two roots come in order: for a ray in the sphere's frame whose
/// quadratic has a finite `b`, a finite `2 * a` above zero and a finite
/// discriminant that is not below zero, the near root is at most the far
/// one.
pub proof fn law_roots_are_ordered(ray: Ray)
    requires
        quadratic_b(ray).is_finite(),
        discriminant(ray).is_finite(),
        !discriminant(ray).is_below_zero(),
        quadratic_divisor(ray).is_finite(),
        quadratic_divisor(ray).is_above_zero(),
    ensures
        near_root(ray).at_most(far_root(ray)),
{
    let nb = quadratic_b(ray).negated();
    let disc = discriminant(ray);
    let rt = disc.root();
    let d = quadratic_divisor(ray);
    lemma_unit_values();
    lemma_negation_value(quadratic_b(ray).bits);
    lemma_zero_value(disc.bits);
    lemma_zero_value(d.bits);
    if is_zero(disc.bits) {
        reveal(crate::ieee::root::root);
        assert(rt == disc);
    } else {
        lemma_root_error(disc.bits);
    }
    assert(rt.is_finite() && rt.value() >= 0);
    lemma_negation_value(rt.bits);
    law_sum_is_monotone(nb.bits, rt.negated().bits, nb.bits, rt.bits);
    law_quotient_is_monotone(nb.minus(rt).bits, nb.plus(rt).bits, d.bits);
}

} // verus!
