//! Evaluating by values: where every step of a computation is exact, the
//! value of the result is that of plain arithmetic.

use vstd::prelude::*;
use vstd::arithmetic::power2::{pow2, lemma_pow2_pos};
use crate::ieee::layout::is_finite;
use crate::ieee::laws::{
    law_quotient_exact, lemma_zero_value, lemma_product_value, lemma_sum_value, lemma_unit_values,
    lemma_negation_value,
};
use crate::scalar::{Scalar, ZERO};
use crate::tuples::Tuple;

verus! {

/// All four components are finite numbers.
pub open spec fn all_finite(t: Tuple) -> bool {
    t.x.is_finite() && t.y.is_finite() && t.z.is_finite() && t.w.is_finite()
}

/// The value of one is `2^149` units, and that of zero none.
pub open spec fn is_one(s: Scalar) -> bool {
    s.is_finite() && s.value() == pow2(149)
}

/// The value is zero: the number is a zero of either sign.
pub open spec fn is_nought(s: Scalar) -> bool {
    s.is_finite() && s.value() == 0
}

/// `r` has the value one at the place `j` and nought elsewhere.
pub open spec fn is_basis(r: Tuple, j: int) -> bool {
    &&& (if j == 0 {
        is_one(r.x)
    } else {
        is_nought(r.x)
    })
    &&& (if j == 1 {
        is_one(r.y)
    } else {
        is_nought(r.y)
    })
    &&& (if j == 2 {
        is_one(r.z)
    } else {
        is_nought(r.z)
    })
    &&& (if j == 3 {
        is_one(r.w)
    } else {
        is_nought(r.w)
    })
}

/// The value is nought or one.
pub open spec fn is_unitlike(s: Scalar) -> bool {
    is_nought(s) || is_one(s)
}

/// `v` where `s` is one, else nothing.
pub open spec fn pick(s: Scalar, v: int) -> int {
    if is_one(s) {
        v
    } else {
        0
    }
}

/// The dot product of finite tuples, where every step is exact: `w0` to
/// `w3` hold the four products and `s1` to `s3` the sums from the left.
pub proof fn lemma_dot_value(
    r: Tuple,
    c: Tuple,
    w0: Scalar,
    w1: Scalar,
    w2: Scalar,
    w3: Scalar,
    s1: Scalar,
    s2: Scalar,
    s3: Scalar,
)
    requires
        all_finite(r),
        all_finite(c),
        w0.is_finite() && w1.is_finite() && w2.is_finite() && w3.is_finite(),
        s1.is_finite() && s2.is_finite() && s3.is_finite(),
        r.x.value() * c.x.value() == w0.value() * pow2(149),
        r.y.value() * c.y.value() == w1.value() * pow2(149),
        r.z.value() * c.z.value() == w2.value() * pow2(149),
        r.w.value() * c.w.value() == w3.value() * pow2(149),
        w0.value() + w1.value() == s1.value(),
        s1.value() + w2.value() == s2.value(),
        s2.value() + w3.value() == s3.value(),
    ensures
        r.dot(c).is_finite(),
        r.dot(c).value() == s3.value(),
{
    lemma_product_value(r.x.bits, c.x.bits, w0.bits);
    lemma_product_value(r.y.bits, c.y.bits, w1.bits);
    lemma_product_value(r.z.bits, c.z.bits, w2.bits);
    lemma_product_value(r.w.bits, c.w.bits, w3.bits);
    let t0 = r.x.times(c.x);
    let t1 = r.y.times(c.y);
    let t2 = r.z.times(c.z);
    let t3 = r.w.times(c.w);
    lemma_sum_value(t0.bits, t1.bits, s1.bits);
    lemma_sum_value(t0.plus(t1).bits, t2.bits, s2.bits);
    lemma_sum_value(t0.plus(t1).plus(t2).bits, t3.bits, s3.bits);
}

/// A dot product with a basis tuple picks a component.
pub proof fn lemma_dot_picks(r: Tuple, c: Tuple, j: int)
    requires
        0 <= j < 4,
        all_finite(r),
        all_finite(c),
        is_basis(r, j) || is_basis(c, j),
    ensures
        r.dot(c).is_finite(),
        is_basis(r, j) ==> r.dot(c).value() == c.component(j).value(),
        is_basis(c, j) ==> r.dot(c).value() == r.component(j).value(),
{
    lemma_unit_values();
    let zero = Scalar { bits: ZERO };
    let picked = if is_basis(r, j) {
        c.component(j)
    } else {
        r.component(j)
    };
    let w0 = if j == 0 {
        picked
    } else {
        zero
    };
    let w1 = if j == 1 {
        picked
    } else {
        zero
    };
    let w2 = if j == 2 {
        picked
    } else {
        zero
    };
    let w3 = if j == 3 {
        picked
    } else {
        zero
    };
    let s1 = if j <= 1 {
        picked
    } else {
        zero
    };
    let s2 = if j <= 2 {
        picked
    } else {
        zero
    };
    let u = pow2(149) as int;
    assert(r.x.value() * c.x.value() == w0.value() * u) by (nonlinear_arith)
        requires
            (r.x.value() == 0 || c.x.value() == 0) && w0.value() == 0 || (r.x.value() == u
                && w0.value() == c.x.value()) || (c.x.value() == u && w0.value() == r.x.value()),
    ;
    assert(r.y.value() * c.y.value() == w1.value() * u) by (nonlinear_arith)
        requires
            (r.y.value() == 0 || c.y.value() == 0) && w1.value() == 0 || (r.y.value() == u
                && w1.value() == c.y.value()) || (c.y.value() == u && w1.value() == r.y.value()),
    ;
    assert(r.z.value() * c.z.value() == w2.value() * u) by (nonlinear_arith)
        requires
            (r.z.value() == 0 || c.z.value() == 0) && w2.value() == 0 || (r.z.value() == u
                && w2.value() == c.z.value()) || (c.z.value() == u && w2.value() == r.z.value()),
    ;
    assert(r.w.value() * c.w.value() == w3.value() * u) by (nonlinear_arith)
        requires
            (r.w.value() == 0 || c.w.value() == 0) && w3.value() == 0 || (r.w.value() == u
                && w3.value() == c.w.value()) || (c.w.value() == u && w3.value() == r.w.value()),
    ;
    lemma_dot_value(r, c, w0, w1, w2, w3, s1, s2, picked);
}

/// A product with a factor of value nought or one is exact.
pub proof fn lemma_times_pick(x: Scalar, y: Scalar)
    requires
        x.is_finite(),
        y.is_finite(),
        is_unitlike(x) || is_unitlike(y),
    ensures
        x.times(y).is_finite(),
        is_unitlike(x) ==> x.times(y).value() == pick(x, y.value()),
        is_unitlike(y) ==> x.times(y).value() == pick(y, x.value()),
{
    lemma_unit_values();
    let zero = Scalar { bits: ZERO };
    let u = pow2(149) as int;
    let c = if is_unitlike(x) {
        if is_one(x) {
            y
        } else {
            zero
        }
    } else {
        if is_one(y) {
            x
        } else {
            zero
        }
    };
    assert(x.value() * y.value() == c.value() * u) by (nonlinear_arith)
        requires
            (x.value() == 0 || y.value() == 0) && c.value() == 0 || (x.value() == u && c.value()
                == y.value()) || (y.value() == u && c.value() == x.value()),
    ;
    lemma_product_value(x.bits, y.bits, c.bits);
}

/// A difference or a sum of which one side has the value nought is exact.
pub proof fn lemma_plus_minus_nought(x: Scalar, y: Scalar)
    requires
        x.is_finite(),
        y.is_finite(),
        is_nought(x) || is_nought(y),
    ensures
        x.minus(y).is_finite(),
        x.minus(y).value() == x.value() - y.value(),
        x.plus(y).is_finite(),
        x.plus(y).value() == x.value() + y.value(),
{
    lemma_negation_value(y.bits);
    let c = if is_nought(y) {
        x
    } else {
        y
    };
    lemma_sum_value(x.bits, y.bits, c.bits);
    let n = if is_nought(y) {
        x
    } else {
        y.negated()
    };
    lemma_sum_value(x.bits, y.negated().bits, n.bits);
}

/// A quotient by a number of value one is exact.
pub proof fn lemma_over_one(x: Scalar, d: Scalar)
    requires
        x.is_finite(),
        is_one(d),
    ensures
        x.over(d).is_finite(),
        x.over(d).value() == x.value(),
{
    lemma_zero_value(d.bits);
    lemma_pow2_pos(149);
    assert(x.size() * pow2(149) == x.size() * d.size()) by (nonlinear_arith)
        requires
            d.size() == pow2(149),
    ;
    law_quotient_exact(x.bits, d.bits, x.bits);
    lemma_zero_value(x.bits);
    lemma_zero_value(x.over(d).bits);
}

} // verus!
