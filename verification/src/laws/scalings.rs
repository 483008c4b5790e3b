//! Laws of scalings: the inverse of a scaling, and the inverse of that.
//!
//! A scaling by factors of moderate size is inverted within a few parts in
//! 2^24: on badly conditioned matrices the inverse by cofactors loses more.

use vstd::prelude::*;
use vstd::arithmetic::power2::{pow2, lemma_pow2_pos, lemma_pow2_adds};
use crate::ieee::layout::{is_finite, grid_magnitude};
use crate::ieee::arith::distance_from_zero;
use crate::ieee::error::{
    near_parts, lemma_product_bounds, lemma_product_normal, lemma_quotient_normal, lemma_sum_finite,
    lemma_sum_error, lemma_near_scaled, lemma_near_cancelled, lemma_near_chained, lemma_near_turned,
};
use crate::ieee::laws::{
    law_times_zero, law_quotient_exact, lemma_zero_value, lemma_negation_value, lemma_unit_values,
};
use crate::ieee::lemmas::{lemma_pow2_values, lemma_pow2_monotone, lemma_cancel_le, lemma_scale_le};
use crate::ieee::order::lemma_order_by_bits;
use crate::laws::exact::{is_one, is_nought, lemma_times_pick, lemma_plus_minus_nought};
use crate::laws::matrices::det3;
use crate::scalar::Scalar;
use crate::transformations::{Transformation, det2, scale_matrix};

verus! {

/// A finite number of at most 2^41 in size.
pub open spec fn is_tame(s: Scalar) -> bool {
    s.is_finite() && s.size() <= pow2(190)
}

/// Finite numbers of the same value that is not zero have the same bits.
proof fn lemma_same_bits(a: Scalar, b: Scalar)
    requires
        a.is_finite(),
        b.is_finite(),
        a.value() == b.value(),
        a.value() != 0,
    ensures
        a == b,
{
    lemma_order_by_bits(a.bits, b.bits);
    lemma_zero_value(a.bits);
}

/// The product of two tame numbers is finite and below 2^83 in size, and
/// nought where a factor is.
proof fn lemma_tame_product(a: Scalar, b: Scalar)
    requires
        is_tame(a),
        is_tame(b),
    ensures
        a.times(b).is_finite(),
        a.times(b).size() <= pow2(232),
        is_nought(a) || is_nought(b) ==> is_nought(a.times(b)),
{
    lemma_pow2_values();
    lemma_pow2_pos(149);
    let x = a.size() as int;
    let y = b.size() as int;
    let u = pow2(149) as int;
    let top = pow2(190) as int;
    let low = pow2(380) as int;
    lemma_pow2_adds(190, 190);
    lemma_pow2_adds(276, 149);
    lemma_pow2_adds(232, 149);
    lemma_pow2_adds(380, 1);
    lemma_pow2_monotone(149, 380);
    vstd::arithmetic::power2::lemma_pow2_strictly_increases(380, 425);
    assert(x * y <= top * top) by (nonlinear_arith)
        requires
            0 <= x <= top,
            0 <= y <= top,
    ;
    lemma_product_bounds(a.bits, b.bits);
    let big = a.times(b).size() as int;
    assert(big * u <= pow2(232) * u);
    lemma_cancel_le(big, pow2(232) as int, u);
    if is_nought(a) {
        lemma_zero_value(a.bits);
        law_times_zero(b.bits, a.bits);
        lemma_zero_value(a.times(b).bits);
    }
    if is_nought(b) {
        lemma_zero_value(b.bits);
        law_times_zero(a.bits, b.bits);
        lemma_zero_value(a.times(b).bits);
    }
}

/// A determinant of two rows of tame numbers is finite and below 2^85 in
/// size; it is one product where the other has a factor nought, and nought
/// where both have.
proof fn lemma_tame_det2(p: Scalar, q: Scalar, r: Scalar, s: Scalar)
    requires
        is_tame(p),
        is_tame(q),
        is_tame(r),
        is_tame(s),
    ensures
        det2(p, q, r, s).is_finite(),
        det2(p, q, r, s).size() <= pow2(234),
        is_nought(q) || is_nought(r) ==> det2(p, q, r, s).value() == p.times(s).value(),
        (is_nought(p) || is_nought(s)) && (is_nought(q) || is_nought(r)) ==> is_nought(
            det2(p, q, r, s),
        ),
{
    lemma_pow2_values();
    let a = p.times(s);
    let b = q.times(r);
    lemma_tame_product(p, s);
    lemma_tame_product(q, r);
    lemma_negation_value(b.bits);
    lemma_pow2_adds(232, 1);
    lemma_pow2_adds(233, 1);
    lemma_pow2_monotone(233, 276);
    vstd::arithmetic::power2::lemma_pow2_strictly_increases(233, 276);
    lemma_sum_finite(a.bits, b.negated().bits);
    lemma_sum_error(a.bits, b.negated().bits);
    if is_nought(q) || is_nought(r) {
        lemma_plus_minus_nought(a, b);
    }
}

/// A determinant of three rows of tame numbers, expanded along the first:
/// each of its three terms is finite, and where the second and the third
/// term have a factor nought it is the first term.
proof fn lemma_tame_det3(
    a: Scalar,
    b: Scalar,
    c: Scalar,
    d: Scalar,
    e: Scalar,
    f: Scalar,
    g: Scalar,
    h: Scalar,
    k: Scalar,
)
    requires
        is_tame(a) && is_tame(b) && is_tame(c),
        is_tame(d) && is_tame(e) && is_tame(f),
        is_tame(g) && is_tame(h) && is_tame(k),
        is_nought(b) || ((is_nought(d) || is_nought(k)) && (is_nought(f) || is_nought(g))),
        is_nought(c) || ((is_nought(d) || is_nought(h)) && (is_nought(e) || is_nought(g))),
    ensures
        det2(e, f, h, k).is_finite(),
        det2(e, f, h, k).size() <= pow2(234),
        is_nought(f) || is_nought(h) ==> det2(e, f, h, k).value() == e.times(k).value(),
        a.times(det2(e, f, h, k)).is_finite(),
        det3(a, b, c, d, e, f, g, h, k).is_finite(),
        det3(a, b, c, d, e, f, g, h, k).value() == a.times(det2(e, f, h, k)).value(),
        is_nought(a) || ((is_nought(e) || is_nought(k)) && (is_nought(f) || is_nought(h)))
            ==> is_nought(det3(a, b, c, d, e, f, g, h, k)),
{
    lemma_pow2_values();
    lemma_pow2_pos(149);
    let d1 = det2(e, f, h, k);
    let d2 = det2(d, f, g, k);
    let d3 = det2(d, e, g, h);
    lemma_tame_det2(e, f, h, k);
    lemma_tame_det2(d, f, g, k);
    lemma_tame_det2(d, e, g, h);
    lemma_term(a, d1);
    lemma_term(b, d2);
    lemma_term(c, d3);
    let t1 = a.times(d1);
    let t2 = b.times(d2);
    let t3 = c.times(d3);
    lemma_plus_minus_nought(t1, t2);
    lemma_plus_minus_nought(t1.minus(t2), t3);
}

/// A term of such a determinant: a tame number times a determinant of two
/// rows is finite, and nought where a factor is.
proof fn lemma_term(a: Scalar, d: Scalar)
    requires
        is_tame(a),
        d.is_finite(),
        d.size() <= pow2(234),
    ensures
        a.times(d).is_finite(),
        is_nought(a) || is_nought(d) ==> is_nought(a.times(d)),
{
    lemma_pow2_pos(149);
    let x = a.size() as int;
    let y = d.size() as int;
    lemma_pow2_adds(190, 234);
    lemma_pow2_adds(276, 149);
    vstd::arithmetic::power2::lemma_pow2_strictly_increases(424, 425);
    assert(x * y <= pow2(190) * pow2(234)) by (nonlinear_arith)
        requires
            0 <= x <= pow2(190),
            0 <= y <= pow2(234),
    ;
    lemma_product_bounds(a.bits, d.bits);
    if is_nought(a) {
        lemma_zero_value(a.bits);
        law_times_zero(d.bits, a.bits);
        lemma_zero_value(a.times(d).bits);
    }
    if is_nought(d) {
        lemma_zero_value(d.bits);
        law_times_zero(a.bits, d.bits);
        lemma_zero_value(a.times(d).bits);
    }
}

/// The matrix of a scaling by its values: the factors `x`, `y` and `z` and
/// a one on the diagonal, nought elsewhere.
pub open spec fn is_scaling_like(m: Transformation, x: int, y: int, z: int) -> bool {
    &&& m.r0.x.is_finite() && m.r0.x.value() == x
    &&& is_nought(m.r0.y) && is_nought(m.r0.z) && is_nought(m.r0.w)
    &&& m.r1.y.is_finite() && m.r1.y.value() == y
    &&& is_nought(m.r1.x) && is_nought(m.r1.z) && is_nought(m.r1.w)
    &&& m.r2.z.is_finite() && m.r2.z.value() == z
    &&& is_nought(m.r2.x) && is_nought(m.r2.y) && is_nought(m.r2.w)
    &&& is_nought(m.r3.x) && is_nought(m.r3.y) && is_nought(m.r3.z) && is_one(m.r3.w)
}

/// The size of `v` lies between `2^low` and `2^high` units.
pub open spec fn in_range(v: int, low: nat, high: nat) -> bool {
    pow2(low) <= distance_from_zero(v) <= pow2(high)
}

/// The three factors are between 2^-30 and 2^30 in size.
pub open spec fn is_wide(x: int, y: int, z: int) -> bool {
    in_range(x, 119, 179) && in_range(y, 119, 179) && in_range(z, 119, 179)
}

/// The first entry of what is left when row `i` and column `j` are struck
/// out, and the determinant under it: the first term of the minor.
pub open spec fn under(m: Transformation, i: int, j: int) -> Scalar {
    det2(m.rest(i, j, 1, 1), m.rest(i, j, 1, 2), m.rest(i, j, 2, 1), m.rest(i, j, 2, 2))
}

/// A minor of a scaling: it is its first term, and nought off the
/// diagonal.
proof fn lemma_minor_of_scaling(m: Transformation, x: int, y: int, z: int, i: int, j: int)
    requires
        is_scaling_like(m, x, y, z),
        is_wide(x, y, z),
        0 <= i < 4,
        0 <= j < 4,
    ensures
        m.minor(i, j).is_finite(),
        under(m, i, j).is_finite(),
        m.minor(i, j).value() == m.rest(i, j, 0, 0).times(under(m, i, j)).value(),
        i == j ==> under(m, i, j).value() == m.rest(i, j, 1, 1).times(m.rest(i, j, 2, 2)).value(),
        i != j ==> is_nought(m.minor(i, j)),
{
    lemma_pow2_values();
    lemma_pow2_monotone(179, 190);
    lemma_pow2_monotone(149, 190);
    lemma_pow2_pos(190);
    lemma_tame_det3(
        m.rest(i, j, 0, 0),
        m.rest(i, j, 0, 1),
        m.rest(i, j, 0, 2),
        m.rest(i, j, 1, 0),
        m.rest(i, j, 1, 1),
        m.rest(i, j, 1, 2),
        m.rest(i, j, 2, 0),
        m.rest(i, j, 2, 1),
        m.rest(i, j, 2, 2),
    );
}

/// The rule of the reciprocal. With `t` the product of the three factors:
/// where the determinant times the unit's square is near `t`, a cofactor
/// times the unit and its factor `xi` is near `t`, and the quotient `q`
/// times the determinant is near the cofactor times the unit, there `q`
/// times `xi` is near the unit's square.
proof fn lemma_reciprocal(q: int, det: int, cof: int, xi: int, t: int, u: int)
    requires
        q >= 0,
        det >= 0,
        cof >= 0,
        xi >= 0,
        t > 0,
        u > 0,
        near_parts(det * (u * u), t, 3),
        near_parts((cof * u) * xi, t, 1),
        near_parts(q * det, cof * u, 1),
    ensures
        near_parts(q * xi, u * u, 8),
{
    let uu = u * u;
    assert(uu > 0) by (nonlinear_arith)
        requires
            uu == u * u,
            u > 0,
    ;
    // q * det * uu is near cof * u * uu
    lemma_near_scaled(q * det, cof * u, 1, uu);
    // q * t is near q * det * uu
    lemma_near_scaled(det * uu, t, 3, q);
    assert(q * (det * uu) == (q * det) * uu) by (nonlinear_arith);
    assert(q * (det * uu) >= 0) by (nonlinear_arith)
        requires
            q >= 0,
            det >= 0,
            uu > 0,
    ;
    lemma_near_turned(q * (det * uu), q * t, 3);
    assert((cof * u) * uu >= 0) by (nonlinear_arith)
        requires
            cof >= 0,
            u > 0,
            uu > 0,
    ;
    lemma_near_chained(q * t, (q * det) * uu, (cof * u) * uu, 4, 1);
    // times xi
    lemma_near_scaled(q * t, (cof * u) * uu, 6, xi);
    lemma_near_scaled((cof * u) * xi, t, 1, uu);
    assert(((cof * u) * uu) * xi == ((cof * u) * xi) * uu) by (nonlinear_arith);
    assert(t * uu >= 0) by (nonlinear_arith)
        requires
            t > 0,
            uu > 0,
    ;
    lemma_near_chained((q * t) * xi, ((cof * u) * xi) * uu, t * uu, 6, 1);
    assert((q * t) * xi == (q * xi) * t && t * uu == uu * t) by (nonlinear_arith);
    lemma_near_cancelled(q * xi, uu, 8, t);
}

/// The quotient of a cofactor by the determinant is a normal number: with
/// the premises of the rule of the reciprocal, and a factor `xi` that is
/// neither too small nor too large, the cofactor times the unit lies
/// between 2^23 and `top` times the determinant.
proof fn lemma_quotient_range(cof: int, det: int, xi: int, t: int, u: int, top: int)
    requires
        det >= 0,
        cof >= 0,
        xi > 0,
        t > 0,
        u > 0,
        near_parts(det * (u * u), t, 3),
        near_parts((cof * u) * xi, t, 1),
        4 * (u * u) < top * xi,
        0x2000_0000 * xi <= u * u,
    ensures
        cof * u < top * det,
        cof * u >= 0x80_0000 * det,
        det > 0,
        cof > 0,
{
    let uu = u * u;
    let a = cof * u;
    let axi = a * xi;
    let duu = det * uu;
    assert(uu > 0 && a >= 0) by (nonlinear_arith)
        requires
            uu == u * u,
            a == cof * u,
            cof >= 0,
            u > 0,
    ;
    assert(axi <= 2 * t && 2 * axi >= t && duu <= 2 * t && 2 * duu >= t) by (nonlinear_arith)
        requires
            near_parts(duu, t, 3),
            near_parts(axi, t, 1),
            t > 0,
    ;
    assert(det > 0 && cof > 0) by (nonlinear_arith)
        requires
            2 * duu >= t,
            2 * axi >= t,
            t > 0,
            duu == det * uu,
            axi == (cof * u) * xi,
            det >= 0,
            cof >= 0,
            xi > 0,
            u > 0,
            uu > 0,
    ;
    let both = axi * uu;
    assert(both == (a * uu) * xi && both <= 2 * (t * uu) && 2 * both >= t * uu)
        by (nonlinear_arith)
        requires
            both == axi * uu,
            axi == a * xi,
            axi <= 2 * t,
            2 * axi >= t,
            uu > 0,
    ;
    if a >= top * det {
        // then a * xi * uu would be at least top * xi * (det * uu)
        assert(both >= (top * xi) * duu) by (nonlinear_arith)
            requires
                both == (a * uu) * xi,
                a >= top * det,
                duu == det * uu,
                uu > 0,
                xi > 0,
        ;
        assert((top * xi) * duu > 2 * (t * uu)) by (nonlinear_arith)
            requires
                4 * uu < top * xi,
                2 * duu >= t,
                t > 0,
                uu > 0,
        ;
        assert(false);
    }
    if a < 0x80_0000 * det {
        assert(both <= (0x80_0000 * xi) * duu) by (nonlinear_arith)
            requires
                both == (a * uu) * xi,
                a < 0x80_0000 * det,
                duu == det * uu,
                uu > 0,
                xi > 0,
        ;
        assert(4 * ((0x80_0000 * xi) * duu) < t * uu) by (nonlinear_arith)
            requires
                0x2000_0000 * xi <= uu,
                duu <= 2 * t,
                duu >= 0,
                t > 0,
                xi > 0,
        ;
        assert(false);
    }
}

/// The product of two numbers whose sizes lie between powers of two, far
/// from the largest and the smallest numbers: it is finite and within one
/// part in 2^24 of the exact product, and its size lies between powers of
/// two again.
proof fn lemma_wide_product(a: Scalar, b: Scalar, la: nat, ha: nat, lb: nat, hb: nat)
    requires
        a.is_finite(),
        b.is_finite(),
        pow2(la) <= a.size() <= pow2(ha),
        pow2(lb) <= b.size() <= pow2(hb),
        la <= ha,
        lb <= hb,
        la + lb >= 172,
        ha + hb <= 424,
    ensures
        a.times(b).is_finite(),
        (a.times(b).value() < 0) == ((a.value() < 0) != (b.value() < 0)),
        a.times(b).value() != 0,
        near_parts((a.times(b).size() * pow2(149)) as int, (a.size() * b.size()) as int, 1),
        pow2((la + lb - 150) as nat) <= a.times(b).size() <= pow2((ha + hb - 148) as nat),
{
    lemma_pow2_values();
    lemma_pow2_pos(149);
    lemma_pow2_pos(la);
    lemma_pow2_pos(lb);
    let x = a.size() as int;
    let y = b.size() as int;
    let u = pow2(149) as int;
    let exact = x * y;
    lemma_pow2_adds(la, lb);
    lemma_pow2_adds(ha, hb);
    lemma_pow2_adds(23, 149);
    lemma_pow2_adds(276, 149);
    lemma_pow2_monotone(172, la + lb);
    lemma_pow2_monotone(ha + hb, 424);
    vstd::arithmetic::power2::lemma_pow2_strictly_increases(424, 425);
    assert(pow2(la) * pow2(lb) <= exact && exact <= pow2(ha) * pow2(hb)) by (nonlinear_arith)
        requires
            0 < pow2(la) <= x,
            x <= pow2(ha),
            0 < pow2(lb) <= y,
            y <= pow2(hb),
            exact == x * y,
    ;
    lemma_product_normal(a.bits, b.bits);
    let found = a.times(b).size() as int;
    // the size of the product
    lemma_pow2_adds((la + lb - 150) as nat, 149);
    lemma_pow2_adds((la + lb - 150) as nat, 150);
    lemma_pow2_adds(149, 1);
    lemma_pow2_adds((ha + hb - 148) as nat, 149);
    lemma_pow2_adds(ha + hb, 1);
    let low = pow2((la + lb - 150) as nat) as int;
    let high = pow2((ha + hb - 148) as nat) as int;
    assert(low * u <= found * u && found * u <= high * u) by (nonlinear_arith)
        requires
            near_parts(found * u, exact, 1),
            pow2(la + lb) <= exact,
            exact <= pow2(ha + hb),
            pow2(la + lb) == low * (u * 2),
            high * u == pow2(ha + hb) * 2,
            u > 0,
            low >= 0,
    ;
    lemma_cancel_le(low, found, u);
    lemma_cancel_le(found, high, u);
    lemma_pow2_pos((la + lb - 150) as nat);
    lemma_zero_value(a.bits);
    lemma_zero_value(b.bits);
    lemma_zero_value(a.times(b).bits);
}

/// A cofactor of a scaling off the diagonal is nought.
proof fn lemma_cofactor_off_diagonal(m: Transformation, x: int, y: int, z: int, i: int, j: int)
    requires
        is_scaling_like(m, x, y, z),
        is_wide(x, y, z),
        0 <= i < 4,
        0 <= j < 4,
        i != j,
    ensures
        is_nought(m.cofactor(i, j)),
{
    lemma_minor_of_scaling(m, x, y, z, i, j);
    lemma_negation_value(m.minor(i, j).bits);
}

/// The first cofactor of a scaling on the diagonal.
proof fn lemma_cofactor_first(m: Transformation, x: int, y: int, z: int)
    requires
        is_scaling_like(m, x, y, z),
        is_wide(x, y, z),
    ensures
        m.cofactor(0, 0) == m.r1.y.times(m.r2.z),
{
    let yz = m.r1.y.times(m.r2.z);
    lemma_wide_product(m.r1.y, m.r2.z, 119, 179, 119, 179);
    lemma_times_pick(m.r2.z, m.r3.w);
    lemma_pow2_pos(119);
    lemma_minor_of_scaling(m, x, y, z, 0, 0);
    assert(m.rest(0, 0, 0, 0) == m.r1.y);
    assert(m.rest(0, 0, 1, 1) == m.r2.z);
    assert(m.rest(0, 0, 2, 2) == m.r3.w);
    lemma_same_bits(under(m, 0, 0), m.r2.z);
    lemma_same_bits(m.minor(0, 0), yz);
}

/// The second cofactor of a scaling on the diagonal.
proof fn lemma_cofactor_second(m: Transformation, x: int, y: int, z: int)
    requires
        is_scaling_like(m, x, y, z),
        is_wide(x, y, z),
    ensures
        m.cofactor(1, 1) == m.r0.x.times(m.r2.z),
{
    let xz = m.r0.x.times(m.r2.z);
    lemma_wide_product(m.r0.x, m.r2.z, 119, 179, 119, 179);
    lemma_times_pick(m.r2.z, m.r3.w);
    lemma_pow2_pos(119);
    lemma_minor_of_scaling(m, x, y, z, 1, 1);
    assert(m.rest(1, 1, 0, 0) == m.r0.x);
    assert(m.rest(1, 1, 1, 1) == m.r2.z);
    assert(m.rest(1, 1, 2, 2) == m.r3.w);
    lemma_same_bits(under(m, 1, 1), m.r2.z);
    lemma_same_bits(m.minor(1, 1), xz);
}

/// The third cofactor of a scaling on the diagonal.
proof fn lemma_cofactor_third(m: Transformation, x: int, y: int, z: int)
    requires
        is_scaling_like(m, x, y, z),
        is_wide(x, y, z),
    ensures
        m.cofactor(2, 2) == m.r0.x.times(m.r1.y),
{
    let xy = m.r0.x.times(m.r1.y);
    lemma_wide_product(m.r0.x, m.r1.y, 119, 179, 119, 179);
    lemma_times_pick(m.r1.y, m.r3.w);
    lemma_pow2_pos(119);
    lemma_minor_of_scaling(m, x, y, z, 2, 2);
    assert(m.rest(2, 2, 0, 0) == m.r0.x);
    assert(m.rest(2, 2, 1, 1) == m.r1.y);
    assert(m.rest(2, 2, 2, 2) == m.r3.w);
    lemma_same_bits(under(m, 2, 2), m.r1.y);
    lemma_same_bits(m.minor(2, 2), xy);
}

/// The fourth cofactor of a scaling on the diagonal.
proof fn lemma_cofactor_fourth(m: Transformation, x: int, y: int, z: int)
    requires
        is_scaling_like(m, x, y, z),
        is_wide(x, y, z),
    ensures
        m.cofactor(3, 3) == m.r0.x.times(m.r1.y.times(m.r2.z)),
{
    let yz = m.r1.y.times(m.r2.z);
    lemma_wide_product(m.r1.y, m.r2.z, 119, 179, 119, 179);
    lemma_wide_product(m.r0.x, yz, 119, 179, 88, 210);
    lemma_minor_of_scaling(m, x, y, z, 3, 3);
    assert(m.rest(3, 3, 0, 0) == m.r0.x);
    assert(m.rest(3, 3, 1, 1) == m.r1.y);
    assert(m.rest(3, 3, 2, 2) == m.r2.z);
    lemma_same_bits(under(m, 3, 3), yz);
    lemma_same_bits(m.minor(3, 3), m.r0.x.times(yz));
}

/// The cofactors of a scaling on the diagonal: each is the product of the
/// other factors.
proof fn lemma_cofactors_on_diagonal(m: Transformation, x: int, y: int, z: int)
    requires
        is_scaling_like(m, x, y, z),
        is_wide(x, y, z),
    ensures
        m.cofactor(0, 0) == m.r1.y.times(m.r2.z),
        m.cofactor(1, 1) == m.r0.x.times(m.r2.z),
        m.cofactor(2, 2) == m.r0.x.times(m.r1.y),
        m.cofactor(3, 3) == m.r0.x.times(m.r1.y.times(m.r2.z)),
{
    lemma_cofactor_first(m, x, y, z);
    lemma_cofactor_second(m, x, y, z);
    lemma_cofactor_third(m, x, y, z);
    lemma_cofactor_fourth(m, x, y, z);
}

/// The determinant of a scaling is the product of the three factors.
proof fn lemma_determinant_of_scaling(m: Transformation, x: int, y: int, z: int)
    requires
        is_scaling_like(m, x, y, z),
        is_wide(x, y, z),
    ensures
        m.determinant_value() == m.r0.x.times(m.r1.y.times(m.r2.z)),
{
    let ex = m.r0.x;
    let yz = m.r1.y.times(m.r2.z);
    let xyz = ex.times(yz);
    lemma_cofactors_on_diagonal(m, x, y, z);
    lemma_cofactor_off_diagonal(m, x, y, z, 0, 1);
    lemma_cofactor_off_diagonal(m, x, y, z, 0, 2);
    lemma_cofactor_off_diagonal(m, x, y, z, 0, 3);
    lemma_wide_product(m.r1.y, m.r2.z, 119, 179, 119, 179);
    lemma_wide_product(ex, yz, 119, 179, 88, 210);
    let c1 = m.cofactor(0, 1);
    let c2 = m.cofactor(0, 2);
    let c3 = m.cofactor(0, 3);
    lemma_times_pick(m.r0.y, c1);
    lemma_times_pick(m.r0.z, c2);
    lemma_times_pick(m.r0.w, c3);
    let t1 = m.r0.y.times(c1);
    let t2 = m.r0.z.times(c2);
    let t3 = m.r0.w.times(c3);
    lemma_plus_minus_nought(xyz, t1);
    lemma_plus_minus_nought(xyz.plus(t1), t2);
    lemma_plus_minus_nought(xyz.plus(t1).plus(t2), t3);
    lemma_same_bits(m.determinant_value(), xyz);
}

/// `a` is the reciprocal of `x` within eight parts in 2^24: it has the sign
/// of `x`, and the two sizes multiply to the square of the unit within eight
/// parts in 2^24.
pub open spec fn is_reciprocal(a: int, x: int) -> bool {
    (a < 0) == (x < 0) && near_parts(
        (distance_from_zero(a) * distance_from_zero(x)) as int,
        (pow2(149) * pow2(149)) as int,
        8,
    )
}

/// `a` is `b` within eighteen parts in 2^24, and has its sign.
pub open spec fn is_close(a: int, b: int) -> bool {
    (a < 0) == (b < 0) && near_parts(
        distance_from_zero(a) as int,
        distance_from_zero(b) as int,
        18,
    )
}

/// A nought over a finite number that is not zero is nought.
proof fn lemma_nought_over(n: Scalar, d: Scalar)
    requires
        is_nought(n),
        d.is_finite(),
        d.value() != 0,
    ensures
        is_nought(n.over(d)),
{
    lemma_zero_value(n.bits);
    lemma_zero_value(d.bits);
    lemma_unit_values();
    assert(n.size() * pow2(149) == grid_magnitude(0) * d.size()) by (nonlinear_arith)
        requires
            n.size() == 0,
            grid_magnitude(0) == 0,
    ;
    law_quotient_exact(n.bits, d.bits, 0);
    lemma_zero_value(n.over(d).bits);
}

/// A finite number that is not zero, over itself, is one.
proof fn lemma_over_itself(d: Scalar)
    requires
        d.is_finite(),
        d.value() != 0,
    ensures
        is_one(d.over(d)),
{
    lemma_zero_value(d.bits);
    lemma_unit_values();
    assert(d.size() * pow2(149) == grid_magnitude(0x3f80_0000) * d.size()) by (nonlinear_arith)
        requires
            grid_magnitude(0x3f80_0000) == pow2(149),
    ;
    law_quotient_exact(d.bits, d.bits, 0x3f80_0000);
    lemma_order_by_bits(d.over(d).bits, 0x3f80_0000);
}

/// An entry of the inverse on the diagonal: a cofactor over the
/// determinant is the reciprocal of its factor, of size `xi`.
proof fn lemma_entry_of_inverse(cof: Scalar, det: Scalar, xi: int, t: int)
    requires
        cof.is_finite(),
        det.is_finite(),
        t > 0,
        pow2(119) <= xi <= pow2(179),
        near_parts((det.size() * (pow2(149) * pow2(149))) as int, t, 3),
        near_parts((cof.size() * pow2(149)) * xi, t, 1),
    ensures
        cof.over(det).is_finite(),
        cof.over(det).value() != 0,
        (cof.over(det).value() < 0) == ((cof.value() < 0) != (det.value() < 0)),
        near_parts(cof.over(det).size() * xi, (pow2(149) * pow2(149)) as int, 8),
{
    lemma_pow2_values();
    lemma_pow2_pos(149);
    lemma_pow2_pos(119);
    let u = pow2(149) as int;
    let top = pow2(276) as int;
    let c = cof.size() as int;
    let d = det.size() as int;
    lemma_pow2_adds(149, 149);
    lemma_pow2_adds(276, 119);
    lemma_pow2_adds(298, 2);
    lemma_pow2_adds(29, 179);
    assert(pow2(2) == 4 && pow2(29) == 0x2000_0000) by {
        vstd::arithmetic::power2::lemma2_to64();
    }
    vstd::arithmetic::power2::lemma_pow2_strictly_increases(300, 395);
    lemma_pow2_monotone(208, 298);
    lemma_scale_le(pow2(119) as int, xi, top);
    lemma_scale_le(xi, pow2(179) as int, 0x2000_0000);
    assert(4 * (u * u) < top * xi);
    assert(0x2000_0000 * xi <= u * u);
    lemma_quotient_range(c, d, xi, t, u, top);
    lemma_zero_value(det.bits);
    lemma_zero_value(cof.bits);
    lemma_quotient_normal(cof.bits, det.bits);
    let q = cof.over(det).size() as int;
    lemma_reciprocal(q, d, c, xi, t, u);
    lemma_zero_value(cof.over(det).bits);
    assert(q > 0) by (nonlinear_arith)
        requires
            near_parts(q * xi, u * u, 8),
            u > 0,
            q >= 0,
            xi > 0,
    ;
}

/// The product of all three factors of a scaling.
pub open spec fn product_of_factors(m: Transformation) -> Scalar {
    m.r0.x.times(m.r1.y.times(m.r2.z))
}

/// The determinant of a scaling is the product of its factors, a finite
/// number that is not zero.
proof fn lemma_scaling_is_regular(m: Transformation, x: int, y: int, z: int)
    requires
        is_scaling_like(m, x, y, z),
        is_wide(x, y, z),
    ensures
        !m.is_singular(),
        m.determinant_value() == product_of_factors(m),
        product_of_factors(m).is_finite(),
        product_of_factors(m).value() != 0,
{
    let det = product_of_factors(m);
    lemma_determinant_of_scaling(m, x, y, z);
    assert(det.is_finite() && det.value() != 0) by {
        lemma_wide_product(m.r1.y, m.r2.z, 119, 179, 119, 179);
        lemma_wide_product(m.r0.x, m.r1.y.times(m.r2.z), 119, 179, 88, 210);
    }
    lemma_unit_values();
}

/// The diagonal of the inverse of a scaling holds the products of two
/// factors over the product of all three.
proof fn lemma_diagonal_of_inverse(m: Transformation, x: int, y: int, z: int)
    requires
        is_scaling_like(m, x, y, z),
        is_wide(x, y, z),
        m.determinant_value() == product_of_factors(m),
    ensures
        m.inverted().r0.x == m.r1.y.times(m.r2.z).over(product_of_factors(m)),
        m.inverted().r1.y == m.r0.x.times(m.r2.z).over(product_of_factors(m)),
        m.inverted().r2.z == m.r0.x.times(m.r1.y).over(product_of_factors(m)),
{
    assert(m.inverted().r0.x == m.r1.y.times(m.r2.z).over(product_of_factors(m))) by {
        lemma_cofactor_first(m, x, y, z);
    }
    assert(m.inverted().r1.y == m.r0.x.times(m.r2.z).over(product_of_factors(m))) by {
        lemma_cofactor_second(m, x, y, z);
    }
    assert(m.inverted().r2.z == m.r0.x.times(m.r1.y).over(product_of_factors(m))) by {
        lemma_cofactor_third(m, x, y, z);
    }
}

/// The last entry of the inverse of a scaling is one.
proof fn lemma_last_of_inverse(m: Transformation, x: int, y: int, z: int)
    requires
        is_scaling_like(m, x, y, z),
        is_wide(x, y, z),
        m.determinant_value() == product_of_factors(m),
        product_of_factors(m).is_finite(),
        product_of_factors(m).value() != 0,
    ensures
        is_one(m.inverted().r3.w),
{
    lemma_cofactor_fourth(m, x, y, z);
    lemma_over_itself(product_of_factors(m));
}

/// The first row of the inverse of a scaling, off the diagonal.
proof fn lemma_first_row_of_inverse(m: Transformation, x: int, y: int, z: int)
    requires
        is_scaling_like(m, x, y, z),
        is_wide(x, y, z),
        m.determinant_value() == product_of_factors(m),
        product_of_factors(m).is_finite(),
        product_of_factors(m).value() != 0,
    ensures
        is_nought(m.inverted().r0.y),
        is_nought(m.inverted().r0.z),
        is_nought(m.inverted().r0.w),
{
    let det = product_of_factors(m);
    lemma_cofactor_off_diagonal(m, x, y, z, 1, 0);
    lemma_nought_over(m.cofactor(1, 0), det);
    lemma_cofactor_off_diagonal(m, x, y, z, 2, 0);
    lemma_nought_over(m.cofactor(2, 0), det);
    lemma_cofactor_off_diagonal(m, x, y, z, 3, 0);
    lemma_nought_over(m.cofactor(3, 0), det);
}

/// The second row of the inverse of a scaling, off the diagonal.
proof fn lemma_second_row_of_inverse(m: Transformation, x: int, y: int, z: int)
    requires
        is_scaling_like(m, x, y, z),
        is_wide(x, y, z),
        m.determinant_value() == product_of_factors(m),
        product_of_factors(m).is_finite(),
        product_of_factors(m).value() != 0,
    ensures
        is_nought(m.inverted().r1.x),
        is_nought(m.inverted().r1.z),
        is_nought(m.inverted().r1.w),
{
    let det = product_of_factors(m);
    lemma_cofactor_off_diagonal(m, x, y, z, 0, 1);
    lemma_nought_over(m.cofactor(0, 1), det);
    lemma_cofactor_off_diagonal(m, x, y, z, 2, 1);
    lemma_nought_over(m.cofactor(2, 1), det);
    lemma_cofactor_off_diagonal(m, x, y, z, 3, 1);
    lemma_nought_over(m.cofactor(3, 1), det);
}

/// The third row of the inverse of a scaling, off the diagonal.
proof fn lemma_third_row_of_inverse(m: Transformation, x: int, y: int, z: int)
    requires
        is_scaling_like(m, x, y, z),
        is_wide(x, y, z),
        m.determinant_value() == product_of_factors(m),
        product_of_factors(m).is_finite(),
        product_of_factors(m).value() != 0,
    ensures
        is_nought(m.inverted().r2.x),
        is_nought(m.inverted().r2.y),
        is_nought(m.inverted().r2.w),
{
    let det = product_of_factors(m);
    lemma_cofactor_off_diagonal(m, x, y, z, 0, 2);
    lemma_nought_over(m.cofactor(0, 2), det);
    lemma_cofactor_off_diagonal(m, x, y, z, 1, 2);
    lemma_nought_over(m.cofactor(1, 2), det);
    lemma_cofactor_off_diagonal(m, x, y, z, 3, 2);
    lemma_nought_over(m.cofactor(3, 2), det);
}

/// The fourth row of the inverse of a scaling, off the diagonal.
proof fn lemma_fourth_row_of_inverse(m: Transformation, x: int, y: int, z: int)
    requires
        is_scaling_like(m, x, y, z),
        is_wide(x, y, z),
        m.determinant_value() == product_of_factors(m),
        product_of_factors(m).is_finite(),
        product_of_factors(m).value() != 0,
    ensures
        is_nought(m.inverted().r3.x),
        is_nought(m.inverted().r3.y),
        is_nought(m.inverted().r3.z),
{
    let det = product_of_factors(m);
    lemma_cofactor_off_diagonal(m, x, y, z, 0, 3);
    lemma_nought_over(m.cofactor(0, 3), det);
    lemma_cofactor_off_diagonal(m, x, y, z, 1, 3);
    lemma_nought_over(m.cofactor(1, 3), det);
    lemma_cofactor_off_diagonal(m, x, y, z, 2, 3);
    lemma_nought_over(m.cofactor(2, 3), det);
}

/// The first entry of the inverse of a scaling is the reciprocal of the first
/// factor.
proof fn lemma_first_reciprocal(m: Transformation, x: int, y: int, z: int)
    requires
        is_scaling_like(m, x, y, z),
        is_wide(x, y, z),
    ensures
        m.r1.y.times(m.r2.z).over(product_of_factors(m)).is_finite(),
        is_reciprocal(m.r1.y.times(m.r2.z).over(product_of_factors(m)).value(), x),
{
    let ex = m.r0.x;
    let ey = m.r1.y;
    let ez = m.r2.z;
    let yz = ey.times(ez);
    let two = m.r1.y.times(m.r2.z);
    let det = ex.times(yz);
    lemma_pow2_pos(149);
    lemma_pow2_pos(119);
    let u = pow2(149) as int;
    lemma_wide_product(ey, ez, 119, 179, 119, 179);
    lemma_wide_product(m.r1.y, m.r2.z, 119, 179, 119, 179);
    lemma_wide_product(ex, yz, 119, 179, 88, 210);
    let sx = ex.size() as int;
    let sy = ey.size() as int;
    let sz = ez.size() as int;
    let t = sx * (sy * sz);
    let cyz = yz.size() as int;
    let c = two.size() as int;
    let d = det.size() as int;
    assert(t > 0) by (nonlinear_arith)
        requires
            t == sx * (sy * sz),
            sx > 0,
            sy > 0,
            sz > 0,
    ;
    assert(near_parts(d * (u * u), t, 3)) by {
        lemma_near_scaled(d * u, sx * cyz, 1, u);
        lemma_near_scaled(cyz * u, sy * sz, 1, sx);
        assert((sx * cyz) * u == sx * (cyz * u) && (d * u) * u == d * (u * u))
            by (nonlinear_arith);
        lemma_near_chained((d * u) * u, (sx * cyz) * u, t, 1, 1);
    }
    assert(near_parts((c * u) * sx, t, 1)) by {
        lemma_near_scaled(c * u, sy * sz, 1, sx);
        assert((sy * sz) * sx == t) by (nonlinear_arith)
            requires
                t == sx * (sy * sz),
        ;
    }
    lemma_entry_of_inverse(two, det, sx, t);
}

/// The second entry on the diagonal of the inverse of a scaling is the
/// reciprocal of the second factor.
proof fn lemma_second_reciprocal(m: Transformation, x: int, y: int, z: int)
    requires
        is_scaling_like(m, x, y, z),
        is_wide(x, y, z),
    ensures
        m.r0.x.times(m.r2.z).over(product_of_factors(m)).is_finite(),
        is_reciprocal(m.r0.x.times(m.r2.z).over(product_of_factors(m)).value(), y),
{
    let ex = m.r0.x;
    let ey = m.r1.y;
    let ez = m.r2.z;
    let yz = ey.times(ez);
    let two = m.r0.x.times(m.r2.z);
    let det = ex.times(yz);
    lemma_pow2_pos(149);
    lemma_pow2_pos(119);
    let u = pow2(149) as int;
    lemma_wide_product(ey, ez, 119, 179, 119, 179);
    lemma_wide_product(m.r0.x, m.r2.z, 119, 179, 119, 179);
    lemma_wide_product(ex, yz, 119, 179, 88, 210);
    let sx = ex.size() as int;
    let sy = ey.size() as int;
    let sz = ez.size() as int;
    let t = sx * (sy * sz);
    let cyz = yz.size() as int;
    let c = two.size() as int;
    let d = det.size() as int;
    assert(t > 0) by (nonlinear_arith)
        requires
            t == sx * (sy * sz),
            sx > 0,
            sy > 0,
            sz > 0,
    ;
    assert(near_parts(d * (u * u), t, 3)) by {
        lemma_near_scaled(d * u, sx * cyz, 1, u);
        lemma_near_scaled(cyz * u, sy * sz, 1, sx);
        assert((sx * cyz) * u == sx * (cyz * u) && (d * u) * u == d * (u * u))
            by (nonlinear_arith);
        lemma_near_chained((d * u) * u, (sx * cyz) * u, t, 1, 1);
    }
    assert(near_parts((c * u) * sy, t, 1)) by {
        lemma_near_scaled(c * u, sx * sz, 1, sy);
        assert((sx * sz) * sy == t) by (nonlinear_arith)
            requires
                t == sx * (sy * sz),
        ;
    }
    lemma_entry_of_inverse(two, det, sy, t);
}

/// The third entry on the diagonal of the inverse of a scaling is the
/// reciprocal of the third factor.
proof fn lemma_third_reciprocal(m: Transformation, x: int, y: int, z: int)
    requires
        is_scaling_like(m, x, y, z),
        is_wide(x, y, z),
    ensures
        m.r0.x.times(m.r1.y).over(product_of_factors(m)).is_finite(),
        is_reciprocal(m.r0.x.times(m.r1.y).over(product_of_factors(m)).value(), z),
{
    let ex = m.r0.x;
    let ey = m.r1.y;
    let ez = m.r2.z;
    let yz = ey.times(ez);
    let two = m.r0.x.times(m.r1.y);
    let det = ex.times(yz);
    lemma_pow2_pos(149);
    lemma_pow2_pos(119);
    let u = pow2(149) as int;
    lemma_wide_product(ey, ez, 119, 179, 119, 179);
    lemma_wide_product(m.r0.x, m.r1.y, 119, 179, 119, 179);
    lemma_wide_product(ex, yz, 119, 179, 88, 210);
    let sx = ex.size() as int;
    let sy = ey.size() as int;
    let sz = ez.size() as int;
    let t = sx * (sy * sz);
    let cyz = yz.size() as int;
    let c = two.size() as int;
    let d = det.size() as int;
    assert(t > 0) by (nonlinear_arith)
        requires
            t == sx * (sy * sz),
            sx > 0,
            sy > 0,
            sz > 0,
    ;
    assert(near_parts(d * (u * u), t, 3)) by {
        lemma_near_scaled(d * u, sx * cyz, 1, u);
        lemma_near_scaled(cyz * u, sy * sz, 1, sx);
        assert((sx * cyz) * u == sx * (cyz * u) && (d * u) * u == d * (u * u))
            by (nonlinear_arith);
        lemma_near_chained((d * u) * u, (sx * cyz) * u, t, 1, 1);
    }
    assert(near_parts((c * u) * sz, t, 1)) by {
        lemma_near_scaled(c * u, sx * sy, 1, sz);
        assert((sx * sy) * sz == t) by (nonlinear_arith)
            requires
                t == sx * (sy * sz),
        ;
    }
    lemma_entry_of_inverse(two, det, sz, t);
}

/// The inverse of a scaling is the scaling by the reciprocals: for factors
/// between 2^-30 and 2^30 in size the determinant is not zero, and the
/// inverse is a scaling whose factors are the reciprocals within eight
/// parts in 2^24.
pub proof fn law_inverse_of_scaling(m: Transformation, x: int, y: int, z: int)
    requires
        is_scaling_like(m, x, y, z),
        is_wide(x, y, z),
    ensures
        !m.is_singular(),
        is_scaling_like(
            m.inverted(),
            m.inverted().r0.x.value(),
            m.inverted().r1.y.value(),
            m.inverted().r2.z.value(),
        ),
        is_reciprocal(m.inverted().r0.x.value(), x),
        is_reciprocal(m.inverted().r1.y.value(), y),
        is_reciprocal(m.inverted().r2.z.value(), z),
{
    lemma_scaling_is_regular(m, x, y, z);
    lemma_diagonal_of_inverse(m, x, y, z);
    lemma_last_of_inverse(m, x, y, z);
    lemma_first_row_of_inverse(m, x, y, z);
    lemma_second_row_of_inverse(m, x, y, z);
    lemma_third_row_of_inverse(m, x, y, z);
    lemma_fourth_row_of_inverse(m, x, y, z);
    lemma_first_reciprocal(m, x, y, z);
    lemma_second_reciprocal(m, x, y, z);
    lemma_third_reciprocal(m, x, y, z);
}

/// The three factors are between 2^-20 and 2^20 in size.
pub open spec fn is_moderate(x: int, y: int, z: int) -> bool {
    in_range(x, 129, 169) && in_range(y, 129, 169) && in_range(z, 129, 169)
}

/// The reciprocal of a number between 2^-20 and 2^20 in size lies between
/// 2^-30 and 2^30.
proof fn lemma_reciprocal_is_wide(a: int, x: int)
    requires
        is_reciprocal(a, x),
        in_range(x, 129, 169),
    ensures
        in_range(a, 119, 179),
        a != 0,
{
    let sa = distance_from_zero(a) as int;
    let sx = distance_from_zero(x) as int;
    let u = pow2(149) as int;
    let uu = u * u;
    lemma_pow2_pos(129);
    lemma_pow2_adds(149, 149);
    lemma_pow2_adds(119, 169);
    lemma_pow2_adds(179, 129);
    lemma_pow2_adds(288, 1);
    lemma_pow2_adds(298, 1);
    lemma_pow2_values();
    vstd::arithmetic::power2::lemma_pow2_strictly_increases(289, 298);
    vstd::arithmetic::power2::lemma_pow2_strictly_increases(299, 308);
    let both = sa * sx;
    assert(both <= 2 * uu && 2 * both >= uu) by (nonlinear_arith)
        requires
            near_parts(both, uu, 8),
            uu >= 0,
    ;
    if sa < pow2(119) {
        assert(both <= pow2(119) * pow2(169)) by (nonlinear_arith)
            requires
                both == sa * sx,
                0 <= sa < pow2(119),
                0 <= sx <= pow2(169),
        ;
        assert(false);
    }
    if sa > pow2(179) {
        assert(both >= pow2(179) * pow2(129)) by (nonlinear_arith)
            requires
                both == sa * sx,
                sa > pow2(179),
                sx >= pow2(129),
        ;
        assert(false);
    }
    lemma_pow2_pos(119);
}

/// The reciprocal of the reciprocal is close to the number.
proof fn lemma_close_from_reciprocals(b: int, a: int, x: int)
    requires
        is_reciprocal(b, a),
        is_reciprocal(a, x),
        a != 0,
    ensures
        is_close(b, x),
{
    let sb = distance_from_zero(b) as int;
    let sa = distance_from_zero(a) as int;
    let sx = distance_from_zero(x) as int;
    let u = pow2(149) as int;
    let uu = u * u;
    assert(sa * sx >= 0 && sx * sa == sa * sx) by (nonlinear_arith)
        requires
            sa >= 0,
            sx >= 0,
    ;
    lemma_near_turned(sa * sx, uu, 8);
    lemma_near_chained(sb * sa, uu, sa * sx, 8, 9);
    lemma_near_cancelled(sb, sx, 18, sa);
}

/// Inverting a scaling twice gives the scaling back within eighteen parts
/// in 2^24: for factors between 2^-20 and 2^20 in size both inverses
/// exist, and the second is a scaling whose factors are close to those of
/// the matrix that was inverted first.
pub proof fn law_inverse_twice_of_scaling(m: Transformation, x: int, y: int, z: int)
    requires
        is_scaling_like(m, x, y, z),
        is_moderate(x, y, z),
    ensures
        !m.is_singular(),
        !m.inverted().is_singular(),
        is_scaling_like(
            m.inverted().inverted(),
            m.inverted().inverted().r0.x.value(),
            m.inverted().inverted().r1.y.value(),
            m.inverted().inverted().r2.z.value(),
        ),
        is_close(m.inverted().inverted().r0.x.value(), x),
        is_close(m.inverted().inverted().r1.y.value(), y),
        is_close(m.inverted().inverted().r2.z.value(), z),
{
    lemma_pow2_monotone(119, 129);
    lemma_pow2_monotone(169, 179);
    law_inverse_of_scaling(m, x, y, z);
    let inv = m.inverted();
    let a = inv.r0.x.value();
    let b = inv.r1.y.value();
    let c = inv.r2.z.value();
    lemma_reciprocal_is_wide(a, x);
    lemma_reciprocal_is_wide(b, y);
    lemma_reciprocal_is_wide(c, z);
    law_inverse_of_scaling(inv, a, b, c);
    let back = inv.inverted();
    lemma_close_from_reciprocals(back.r0.x.value(), a, x);
    lemma_close_from_reciprocals(back.r1.y.value(), b, y);
    lemma_close_from_reciprocals(back.r2.z.value(), c, z);
}

/// The matrix that `scale` builds from finite factors is a scaling by their
/// values.
pub proof fn law_scale_is_scaling_like(x: Scalar, y: Scalar, z: Scalar)
    requires
        x.is_finite(),
        y.is_finite(),
        z.is_finite(),
    ensures
        is_scaling_like(scale_matrix(x, y, z), x.value(), y.value(), z.value()),
{
    lemma_unit_values();
}

} // verus!
