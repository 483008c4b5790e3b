//! Laws of shading and reflection.

use vstd::prelude::*;
use crate::colors::Color;
use crate::ieee::layout::is_zero;
use crate::ieee::laws::{law_zero_is_neutral, law_times_zero, lemma_negation_value};
use crate::laws::exact::all_finite;
use crate::scalar::TWO;
use crate::lights::Light;
use crate::materials::{Material, is_lit, ambient_part, shade};
use crate::scalar::Scalar;
use crate::tuples::Tuple;

verus! {

/// All three channels are numbers.
pub open spec fn all_numbers(c: Color) -> bool {
    c.r.is_number() && c.g.is_number() && c.b.is_number()
}

/// A surface that faces away from the light shows its ambient light alone,
/// whatever the eye and the factor of the highlight are.
pub proof fn law_unlit_is_ambient(
    material: Material,
    light: Light,
    point: Tuple,
    eye: Tuple,
    normal: Tuple,
    factor: Scalar,
)
    requires
        !is_lit(light, point, normal),
        all_numbers(ambient_part(material, light)),
    ensures
        shade(material, light, point, eye, normal, factor).equals(ambient_part(material, light)),
{
    let a = ambient_part(material, light);
    law_zero_is_neutral(a.r.bits, 0);
    law_zero_is_neutral(a.g.bits, 0);
    law_zero_is_neutral(a.b.bits, 0);
    law_zero_is_neutral(a.r.plus(Color::dark().r).bits, 0);
    law_zero_is_neutral(a.g.plus(Color::dark().g).bits, 0);
    law_zero_is_neutral(a.b.plus(Color::dark().b).bits, 0);
}


/// What lies in the surface is not changed by reflection: a tuple of finite
/// numbers whose dot product with the finite normal is zero comes back as
/// it went in.
pub proof fn law_reflection_keeps_what_lies_in_the_surface(v: Tuple, n: Tuple)
    requires
        all_finite(v),
        all_finite(n),
        is_zero(v.dot(n).bits),
    ensures
        v.reflected(n).equals(v),
{
    let none = v.dot(n);
    let two = Scalar { bits: TWO };
    law_times_zero(n.x.bits, none.bits);
    law_times_zero(n.y.bits, none.bits);
    law_times_zero(n.z.bits, none.bits);
    law_times_zero(n.w.bits, none.bits);
    law_times_zero(two.bits, n.x.times(none).bits);
    law_times_zero(two.bits, n.y.times(none).bits);
    law_times_zero(two.bits, n.z.times(none).bits);
    law_times_zero(two.bits, n.w.times(none).bits);
    let back = n.times(none).times(two);
    lemma_negation_value(back.x.bits);
    lemma_negation_value(back.y.bits);
    lemma_negation_value(back.z.bits);
    lemma_negation_value(back.w.bits);
    law_zero_is_neutral(v.x.bits, back.x.negated().bits);
    law_zero_is_neutral(v.y.bits, back.y.negated().bits);
    law_zero_is_neutral(v.z.bits, back.z.negated().bits);
    law_zero_is_neutral(v.w.bits, back.w.negated().bits);
}

} // verus!
