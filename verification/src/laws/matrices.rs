//! Laws of matrices: the identity, translations and their inverses.

use vstd::prelude::*;
use vstd::arithmetic::power2::{pow2, lemma_pow2_pos};
use crate::ieee::layout::is_finite;
use crate::ieee::laws::{
    lemma_zero_value, lemma_product_value, lemma_unit_values, lemma_negation_value,
};
use crate::scalar::{Scalar, ZERO, ONE};
use crate::transformations::{Transformation, translation_matrix, identity_matrix, det2};
use crate::tuples::Tuple;
use crate::laws::exact::{
    all_finite, is_one, is_nought, is_basis, is_unitlike, pick, lemma_dot_value, lemma_dot_picks,
    lemma_times_pick, lemma_plus_minus_nought, lemma_over_one,
};

verus! {

/// All sixteen entries are finite numbers.
pub open spec fn all_entries_finite(m: Transformation) -> bool {
    all_finite(m.r0) && all_finite(m.r1) && all_finite(m.r2) && all_finite(m.r3)
}

/// The identity moves nothing: a tuple of finite numbers comes out as it
/// went in.
pub proof fn law_identity_moves_nothing(p: Tuple)
    requires
        all_finite(p),
    ensures
        p.moved_by(identity_matrix()).equals(p),
{
    lemma_unit_values();
    let id = identity_matrix();
    lemma_dot_picks(id.r0, p, 0);
    lemma_dot_picks(id.r1, p, 1);
    lemma_dot_picks(id.r2, p, 2);
    lemma_dot_picks(id.r3, p, 3);
}

/// The identity is neutral on the left of a matrix product.
pub proof fn law_identity_is_neutral_on_the_left(m: Transformation)
    requires
        all_entries_finite(m),
    ensures
        identity_matrix().composed(m).equals(m),
{
    lemma_unit_values();
    let id = identity_matrix();
    lemma_dot_picks(id.r0, m.column(0), 0);
    lemma_dot_picks(id.r0, m.column(1), 0);
    lemma_dot_picks(id.r0, m.column(2), 0);
    lemma_dot_picks(id.r0, m.column(3), 0);
    lemma_dot_picks(id.r1, m.column(0), 1);
    lemma_dot_picks(id.r1, m.column(1), 1);
    lemma_dot_picks(id.r1, m.column(2), 1);
    lemma_dot_picks(id.r1, m.column(3), 1);
    lemma_dot_picks(id.r2, m.column(0), 2);
    lemma_dot_picks(id.r2, m.column(1), 2);
    lemma_dot_picks(id.r2, m.column(2), 2);
    lemma_dot_picks(id.r2, m.column(3), 2);
    lemma_dot_picks(id.r3, m.column(0), 3);
    lemma_dot_picks(id.r3, m.column(1), 3);
    lemma_dot_picks(id.r3, m.column(2), 3);
    lemma_dot_picks(id.r3, m.column(3), 3);
}

/// The identity is neutral on the right of a matrix product.
pub proof fn law_identity_is_neutral_on_the_right(m: Transformation)
    requires
        all_entries_finite(m),
    ensures
        m.composed(identity_matrix()).equals(m),
{
    lemma_unit_values();
    let id = identity_matrix();
    lemma_dot_picks(m.r0, id.column(0), 0);
    lemma_dot_picks(m.r0, id.column(1), 1);
    lemma_dot_picks(m.r0, id.column(2), 2);
    lemma_dot_picks(m.r0, id.column(3), 3);
    lemma_dot_picks(m.r1, id.column(0), 0);
    lemma_dot_picks(m.r1, id.column(1), 1);
    lemma_dot_picks(m.r1, id.column(2), 2);
    lemma_dot_picks(m.r1, id.column(3), 3);
    lemma_dot_picks(m.r2, id.column(0), 0);
    lemma_dot_picks(m.r2, id.column(1), 1);
    lemma_dot_picks(m.r2, id.column(2), 2);
    lemma_dot_picks(m.r2, id.column(3), 3);
    lemma_dot_picks(m.r3, id.column(0), 0);
    lemma_dot_picks(m.r3, id.column(1), 1);
    lemma_dot_picks(m.r3, id.column(2), 2);
    lemma_dot_picks(m.r3, id.column(3), 3);
}

/// A translation followed by the translation back, composed as matrices,
/// moves no point: for finite offsets and a point with finite coordinates,
/// what comes out equals what went in.
pub proof fn law_translation_round_trip(a: Scalar, b: Scalar, c: Scalar, p: Tuple)
    requires
        a.is_finite(),
        b.is_finite(),
        c.is_finite(),
        all_finite(p),
    ensures
        p.moved_by(
            translation_matrix(a, b, c).composed(
                translation_matrix(a.negated(), b.negated(), c.negated()),
            ),
        ).equals(p),
{
    let there = translation_matrix(a, b, c);
    let back = translation_matrix(a.negated(), b.negated(), c.negated());
    let both = there.composed(back);
    lemma_unit_values();
    lemma_negation_value(a.bits);
    lemma_negation_value(b.bits);
    lemma_negation_value(c.bits);
    let zero = Scalar { bits: ZERO };
    let one = Scalar { bits: ONE };
    // the first three columns of the way back are basis tuples
    lemma_dot_picks(there.r0, back.column(0), 0);
    lemma_dot_picks(there.r0, back.column(1), 1);
    lemma_dot_picks(there.r0, back.column(2), 2);
    lemma_dot_picks(there.r1, back.column(0), 0);
    lemma_dot_picks(there.r1, back.column(1), 1);
    lemma_dot_picks(there.r1, back.column(2), 2);
    lemma_dot_picks(there.r2, back.column(0), 0);
    lemma_dot_picks(there.r2, back.column(1), 1);
    lemma_dot_picks(there.r2, back.column(2), 2);
    lemma_dot_picks(there.r3, back.column(0), 0);
    lemma_dot_picks(there.r3, back.column(1), 1);
    lemma_dot_picks(there.r3, back.column(2), 2);
    lemma_dot_picks(there.r3, back.column(3), 3);
    // in the last column the two offsets cancel
    let na = a.negated();
    let nb = b.negated();
    let nc = c.negated();
    lemma_dot_value(there.r0, back.column(3), na, zero, zero, a, na, na, zero);
    lemma_dot_value(there.r1, back.column(3), zero, nb, zero, b, nb, nb, zero);
    lemma_dot_value(there.r2, back.column(3), zero, zero, nc, c, zero, nc, zero);
    assert(is_basis(both.r0, 0));
    assert(is_basis(both.r1, 1));
    assert(is_basis(both.r2, 2));
    assert(is_basis(both.r3, 3));
    lemma_dot_picks(both.r0, p, 0);
    lemma_dot_picks(both.r1, p, 1);
    lemma_dot_picks(both.r2, p, 2);
    lemma_dot_picks(both.r3, p, 3);
}

/// The first two of three columns hold values nought and one only, and at
/// most one one each.
pub open spec fn has_unit_columns(
    a: Scalar,
    b: Scalar,
    d: Scalar,
    e: Scalar,
    g: Scalar,
    h: Scalar,
) -> bool {
    &&& is_unitlike(a) && is_unitlike(d) && is_unitlike(g)
    &&& is_unitlike(b) && is_unitlike(e) && is_unitlike(h)
    &&& !(is_one(a) && is_one(d)) && !(is_one(a) && is_one(g)) && !(is_one(d) && is_one(g))
    &&& !(is_one(b) && is_one(e)) && !(is_one(b) && is_one(h)) && !(is_one(e) && is_one(h))
}

/// The determinant of three rows, expanded along the first as `minor`
/// does.
pub open spec fn det3(
    a: Scalar,
    b: Scalar,
    c: Scalar,
    d: Scalar,
    e: Scalar,
    f: Scalar,
    g: Scalar,
    h: Scalar,
    k: Scalar,
) -> Scalar {
    a.times(det2(e, f, h, k)).minus(b.times(det2(d, f, g, k))).plus(c.times(det2(d, e, g, h)))
}

/// The exact value of such a determinant where the first two columns are
/// unit columns.
pub open spec fn det3_value(
    a: Scalar,
    b: Scalar,
    c: Scalar,
    d: Scalar,
    e: Scalar,
    f: Scalar,
    g: Scalar,
    h: Scalar,
    k: Scalar,
) -> int {
    pick(a, pick(e, k.value()) - pick(h, f.value())) - pick(b, pick(d, k.value()) - pick(
        g,
        f.value(),
    )) + (if is_one(d) && is_one(h) {
        c.value()
    } else if is_one(e) && is_one(g) {
        -c.value()
    } else {
        0
    })
}

/// A determinant of three rows whose first two columns are unit columns is
/// computed exactly.
proof fn lemma_det3_value(
    a: Scalar,
    b: Scalar,
    c: Scalar,
    d: Scalar,
    e: Scalar,
    f: Scalar,
    g: Scalar,
    h: Scalar,
    k: Scalar,
)
    requires
        a.is_finite() && b.is_finite() && c.is_finite(),
        d.is_finite() && e.is_finite() && f.is_finite(),
        g.is_finite() && h.is_finite() && k.is_finite(),
        has_unit_columns(a, b, d, e, g, h),
    ensures
        det3(a, b, c, d, e, f, g, h, k).is_finite(),
        det3(a, b, c, d, e, f, g, h, k).value() == det3_value(a, b, c, d, e, f, g, h, k),
{
    lemma_unit_values();
    lemma_pow2_pos(149);
    let u = pow2(149) as int;
    // e * k - f * h
    lemma_times_pick(e, k);
    lemma_times_pick(f, h);
    lemma_plus_minus_nought(e.times(k), f.times(h));
    let d1 = det2(e, f, h, k);
    // d * k - f * g
    lemma_times_pick(d, k);
    lemma_times_pick(f, g);
    lemma_plus_minus_nought(d.times(k), f.times(g));
    let d2 = det2(d, f, g, k);
    // d * h - e * g
    lemma_times_pick(d, h);
    lemma_times_pick(e, g);
    lemma_plus_minus_nought(d.times(h), e.times(g));
    let d3 = det2(d, e, g, h);
    assert(d3.value() == (if is_one(d) && is_one(h) {
        u
    } else if is_one(e) && is_one(g) {
        -u
    } else {
        0
    }));
    lemma_times_pick(a, d1);
    lemma_times_pick(b, d2);
    // c * d3, where d3 is one, nought or one negated
    let t3 = c.times(d3);
    lemma_negation_value(c.bits);
    let w3 = if is_one(d) && is_one(h) {
        c
    } else if is_one(e) && is_one(g) {
        c.negated()
    } else {
        Scalar { bits: ZERO }
    };
    assert(c.value() * d3.value() == w3.value() * u) by (nonlinear_arith)
        requires
            (d3.value() == u && w3.value() == c.value()) || (d3.value() == -u && w3.value()
                == -c.value()) || (d3.value() == 0 && w3.value() == 0),
    ;
    lemma_product_value(c.bits, d3.bits, w3.bits);
    let t1 = a.times(d1);
    let t2 = b.times(d2);
    lemma_plus_minus_nought(t1, t2);
    lemma_plus_minus_nought(t1.minus(t2), t3);
}

/// The matrix of a translation by its values: ones on the diagonal, the
/// offsets `x`, `y` and `z` in the last column, nought elsewhere.
pub open spec fn is_translation_like(m: Transformation, x: int, y: int, z: int) -> bool {
    &&& is_one(m.r0.x) && is_nought(m.r0.y) && is_nought(m.r0.z)
    &&& m.r0.w.is_finite() && m.r0.w.value() == x
    &&& is_nought(m.r1.x) && is_one(m.r1.y) && is_nought(m.r1.z)
    &&& m.r1.w.is_finite() && m.r1.w.value() == y
    &&& is_nought(m.r2.x) && is_nought(m.r2.y) && is_one(m.r2.z)
    &&& m.r2.w.is_finite() && m.r2.w.value() == z
    &&& is_nought(m.r3.x) && is_nought(m.r3.y) && is_nought(m.r3.z) && is_one(m.r3.w)
}

/// The minor of a translation at `(i, j)`, computed exactly.
proof fn lemma_minor_of_translation(m: Transformation, x: int, y: int, z: int, i: int, j: int)
    requires
        is_translation_like(m, x, y, z),
        0 <= i < 4,
        0 <= j < 4,
    ensures
        m.minor(i, j).is_finite(),
        m.minor(i, j).value() == det3_value(
            m.rest(i, j, 0, 0),
            m.rest(i, j, 0, 1),
            m.rest(i, j, 0, 2),
            m.rest(i, j, 1, 0),
            m.rest(i, j, 1, 1),
            m.rest(i, j, 1, 2),
            m.rest(i, j, 2, 0),
            m.rest(i, j, 2, 1),
            m.rest(i, j, 2, 2),
        ),
{
    lemma_pow2_pos(149);
    lemma_det3_value(
        m.rest(i, j, 0, 0),
        m.rest(i, j, 0, 1),
        m.rest(i, j, 0, 2),
        m.rest(i, j, 1, 0),
        m.rest(i, j, 1, 1),
        m.rest(i, j, 1, 2),
        m.rest(i, j, 2, 0),
        m.rest(i, j, 2, 1),
        m.rest(i, j, 2, 2),
    );
}

/// The matrix that `translation` builds from finite offsets is a
/// translation by their values.
pub proof fn law_translation_is_translation_like(a: Scalar, b: Scalar, c: Scalar)
    requires
        a.is_finite(),
        b.is_finite(),
        c.is_finite(),
    ensures
        is_translation_like(translation_matrix(a, b, c), a.value(), b.value(), c.value()),
{
    lemma_unit_values();
}

/// The inverse of a translation is the translation back: for finite
/// offsets the determinant is one, the inverse exists, and it has the
/// offsets negated.
pub proof fn law_inverse_of_translation(m: Transformation, x: int, y: int, z: int)
    requires
        is_translation_like(m, x, y, z),
    ensures
        !m.is_singular(),
        is_translation_like(m.inverted(), -x, -y, -z),
{
    lemma_unit_values();
    lemma_pow2_pos(149);
    let u = pow2(149) as int;
    lemma_minor_of_translation(m, x, y, z, 0, 0);
    lemma_minor_of_translation(m, x, y, z, 0, 1);
    lemma_minor_of_translation(m, x, y, z, 0, 2);
    lemma_minor_of_translation(m, x, y, z, 0, 3);
    lemma_minor_of_translation(m, x, y, z, 1, 0);
    lemma_minor_of_translation(m, x, y, z, 1, 1);
    lemma_minor_of_translation(m, x, y, z, 1, 2);
    lemma_minor_of_translation(m, x, y, z, 1, 3);
    lemma_minor_of_translation(m, x, y, z, 2, 0);
    lemma_minor_of_translation(m, x, y, z, 2, 1);
    lemma_minor_of_translation(m, x, y, z, 2, 2);
    lemma_minor_of_translation(m, x, y, z, 2, 3);
    lemma_minor_of_translation(m, x, y, z, 3, 0);
    lemma_minor_of_translation(m, x, y, z, 3, 1);
    lemma_minor_of_translation(m, x, y, z, 3, 2);
    lemma_minor_of_translation(m, x, y, z, 3, 3);
    lemma_negation_value(m.minor(0, 1).bits);
    lemma_negation_value(m.minor(0, 3).bits);
    lemma_negation_value(m.minor(1, 0).bits);
    lemma_negation_value(m.minor(1, 2).bits);
    lemma_negation_value(m.minor(2, 1).bits);
    lemma_negation_value(m.minor(2, 3).bits);
    lemma_negation_value(m.minor(3, 0).bits);
    lemma_negation_value(m.minor(3, 2).bits);
    // the determinant is one
    let c0 = m.cofactor(0, 0);
    let c1 = m.cofactor(0, 1);
    let c2 = m.cofactor(0, 2);
    let c3 = m.cofactor(0, 3);
    assert(is_one(c0) && is_nought(c1) && is_nought(c2) && is_nought(c3));
    lemma_times_pick(m.r0.x, c0);
    lemma_times_pick(m.r0.y, c1);
    lemma_times_pick(m.r0.z, c2);
    lemma_times_pick(m.r0.w, c3);
    let t0 = m.r0.x.times(c0);
    let t1 = m.r0.y.times(c1);
    let t2 = m.r0.z.times(c2);
    let t3 = m.r0.w.times(c3);
    lemma_plus_minus_nought(t0, t1);
    lemma_plus_minus_nought(t0.plus(t1), t2);
    lemma_plus_minus_nought(t0.plus(t1).plus(t2), t3);
    let det = m.determinant_value();
    assert(is_one(det));
    lemma_zero_value(det.bits);
    // each entry of the inverse is a cofactor over one
    lemma_over_one(m.cofactor(0, 0), det);
    lemma_over_one(m.cofactor(1, 0), det);
    lemma_over_one(m.cofactor(2, 0), det);
    lemma_over_one(m.cofactor(3, 0), det);
    lemma_over_one(m.cofactor(0, 1), det);
    lemma_over_one(m.cofactor(1, 1), det);
    lemma_over_one(m.cofactor(2, 1), det);
    lemma_over_one(m.cofactor(3, 1), det);
    lemma_over_one(m.cofactor(0, 2), det);
    lemma_over_one(m.cofactor(1, 2), det);
    lemma_over_one(m.cofactor(2, 2), det);
    lemma_over_one(m.cofactor(3, 2), det);
    lemma_over_one(m.cofactor(0, 3), det);
    lemma_over_one(m.cofactor(1, 3), det);
    lemma_over_one(m.cofactor(2, 3), det);
    lemma_over_one(m.cofactor(3, 3), det);
}

/// Inverting a translation twice gives the translation back: both
/// inverses exist, and the second equals the matrix that was inverted
/// first.
pub proof fn law_inverse_twice_of_translation(m: Transformation, x: int, y: int, z: int)
    requires
        is_translation_like(m, x, y, z),
    ensures
        !m.is_singular(),
        !m.inverted().is_singular(),
        m.inverted().inverted().equals(m),
{
    law_inverse_of_translation(m, x, y, z);
    law_inverse_of_translation(m.inverted(), -x, -y, -z);
}

} // verus!
