//! Laws of lengths: the length against the dot product, and the length of
//! a normalized tuple.

use vstd::prelude::*;
use vstd::arithmetic::power2::{pow2, lemma_pow2_pos, lemma_pow2_adds};
use crate::ieee::layout::{is_zero, is_finite, is_negative};
use crate::ieee::arith::distance_from_zero;
use crate::ieee::error::{
    lemma_product_error, lemma_root_error, lemma_product_bounds, lemma_sum_bounds,
    lemma_quotient_bounds,
};
use crate::ieee::lemmas::{lemma_pow2_values, lemma_pow2_monotone, lemma_cancel_lt, lemma_cancel_le};
use crate::ieee::laws::{
    lemma_zero_value, lemma_signs_of_squares_and_sums, lemma_plus_zero, law_times_zero,
    law_product_commutes, law_quotient_exact, lemma_unit_values,
};
use crate::laws::exact::all_finite;
use crate::scalar::ONE;
use crate::scalar::Scalar;
use crate::tuples::Tuple;

verus! {

/// The length of a vector is the square root of its dot product with
/// itself: what the dot product is the square of.
pub proof fn law_length_is_root_of_dot(v: Tuple)
    requires
        is_zero(v.w.bits),
    ensures
        v.length() == v.dot(v).root(),
{
    let xx = v.x.times(v.x);
    let yy = v.y.times(v.y);
    let zz = v.z.times(v.z);
    let ww = v.w.times(v.w);
    lemma_signs_of_squares_and_sums(v.x.bits, v.x.bits);
    lemma_signs_of_squares_and_sums(v.y.bits, v.y.bits);
    lemma_signs_of_squares_and_sums(v.z.bits, v.z.bits);
    lemma_signs_of_squares_and_sums(v.w.bits, v.w.bits);
    lemma_signs_of_squares_and_sums(xx.bits, yy.bits);
    lemma_signs_of_squares_and_sums(xx.plus(yy).bits, zz.bits);
    law_times_zero(v.w.bits, v.w.bits);
    lemma_plus_zero(v.square_sum().bits, ww.bits);
}

/// The dot product of a vector with itself is the square of its length,
/// within four parts in 2^24 and half a unit of 2^-149: the length is
/// rounded, and so is its square.
pub proof fn law_square_of_length(v: Tuple)
    requires
        is_zero(v.w.bits),
        v.dot(v).is_finite(),
        v.length().times(v.length()).is_finite(),
    ensures
        0x100_0000 * distance_from_zero(v.length().times(v.length()).value() - v.dot(v).value())
            <= 4 * v.dot(v).value() + 0x80_0000,
        v.dot(v).value() >= 0,
{
    law_length_is_root_of_dot(v);
    let s = v.dot(v);
    let m = v.length();
    let m2 = m.times(m);
    let xx = v.x.times(v.x);
    let yy = v.y.times(v.y);
    lemma_signs_of_squares_and_sums(v.x.bits, v.x.bits);
    lemma_signs_of_squares_and_sums(v.y.bits, v.y.bits);
    lemma_signs_of_squares_and_sums(v.z.bits, v.z.bits);
    lemma_signs_of_squares_and_sums(xx.bits, yy.bits);
    lemma_signs_of_squares_and_sums(xx.plus(yy).bits, v.z.times(v.z).bits);
    lemma_signs_of_squares_and_sums(v.w.bits, v.w.bits);
    law_times_zero(v.w.bits, v.w.bits);
    lemma_plus_zero(v.square_sum().bits, v.w.times(v.w).bits);
    assert(s == v.square_sum());
    assert(!is_negative(s.bits));
    lemma_zero_value(s.bits);
    lemma_pow2_pos(149);
    let u = pow2(149) as int;
    let gs = s.value();
    if is_zero(s.bits) {
        reveal(crate::ieee::root::root);
        assert(m.bits == s.bits);
        law_times_zero(m.bits, m.bits);
        lemma_zero_value(m2.bits);
    } else {
        lemma_root_error(s.bits);
        lemma_signs_of_squares_and_sums(m.bits, m.bits);
        lemma_product_error(m.bits, m.bits);
        let r = m.value();
        let rr = r * r;
        let p = m2.value();
        let pu = p * u;
        let su = gs * u;
        assert(0x100_0000 * pu <= 0x100_0004 * su + 0x80_0000 * u && 0x100_0000 * pu + 4 * su
            + 0x80_0000 * u >= 0x100_0000 * su) by (nonlinear_arith)
            requires
                0xffff_fe00_0001 * rr <= 0x1_0000_0000_0000 * su,
                0x1_0000_0000_0000 * su <= 0x1_0000_0200_0001 * rr,
                0x100_0000 * (pu - rr) <= rr + 0x80_0000 * u,
                0x100_0000 * (rr - pu) <= rr + 0x80_0000 * u,
                rr >= 0,
                su >= 0,
                u > 0,
        ;
        assert((0x100_0000 * p) * u <= (0x100_0004 * gs + 0x80_0000) * u && (0x100_0000 * gs) * u
            <= (0x100_0000 * p + 4 * gs + 0x80_0000) * u) by (nonlinear_arith)
            requires
                0x100_0000 * pu <= 0x100_0004 * su + 0x80_0000 * u,
                0x100_0000 * pu + 4 * su + 0x80_0000 * u >= 0x100_0000 * su,
                pu == p * u,
                su == gs * u,
        ;
        lemma_cancel_le(0x100_0000 * p, 0x100_0004 * gs + 0x80_0000, u);
        lemma_cancel_le(0x100_0000 * gs, 0x100_0000 * p + 4 * gs + 0x80_0000, u);
    }
}

/// The sum of the squares of the first three components, exactly: in units
/// of 2^-298.
pub open spec fn exact_square_sum(v: Tuple) -> nat {
    v.x.size() * v.x.size() + v.y.size() * v.y.size() + v.z.size() * v.z.size()
}

/// The first three components are finite and at most 2^60 in size.
pub open spec fn is_moderate(v: Tuple) -> bool {
    &&& v.x.is_finite() && v.x.size() <= pow2(209)
    &&& v.y.is_finite() && v.y.size() <= pow2(209)
    &&& v.z.is_finite() && v.z.size() <= pow2(209)
}

/// The square of a number of at most 2^60 in size: it is finite, not
/// negative and below 2^122, and within one part in 2^24 of the exact
/// square, or half a unit.
proof fn lemma_square_bounds(a: Scalar)
    requires
        a.is_finite(),
        a.size() <= pow2(209),
    ensures
        a.times(a).is_finite(),
        !is_negative(a.times(a).bits),
        a.times(a).size() < pow2(271),
        0x100_0000 * (a.times(a).size() * pow2(149) - a.size() * a.size()) <= a.size() * a.size()
            + 0x80_0000 * pow2(149),
        0x100_0000 * (a.size() * a.size() - a.times(a).size() * pow2(149)) <= a.size() * a.size()
            + 0x80_0000 * pow2(149),
{
    let x = a.size() as int;
    let u = pow2(149) as int;
    let top = pow2(209) as int;
    let low = pow2(418) as int;
    let high = pow2(271) as int;
    lemma_pow2_adds(209, 209);
    lemma_pow2_adds(276, 149);
    lemma_pow2_adds(271, 149);
    lemma_pow2_adds(418, 2);
    lemma_pow2_adds(1, 1);
    lemma_pow2_values();
    vstd::arithmetic::power2::lemma_pow2_strictly_increases(418, 425);
    lemma_pow2_monotone(149, 418);
    lemma_pow2_pos(149);
    assert(x * x <= top * top) by (nonlinear_arith)
        requires
            0 <= x <= top,
    ;
    lemma_product_bounds(a.bits, a.bits);
    let big = a.times(a).size() as int;
    let bu = big * u;
    let xx = x * x;
    assert(bu < 4 * low);
    assert(pow2(2) == 4) by {
        vstd::arithmetic::power2::lemma2_to64();
    }
    assert(pow2(420) == low * 4);
    assert(4 * low == high * u);
    lemma_cancel_lt(big, high, u);
}

/// An inequality between sums of sizes, each term times the unit.
proof fn lemma_times_unit(a: int, b: int, c: int, u: int)
    by (nonlinear_arith)
    requires
        0x100_0000 * (a - (b + c)) <= b + c,
        0x100_0000 * ((b + c) - a) <= b + c,
        u > 0,
        a >= 0,
        b >= 0,
        c >= 0,
    ensures
        0x100_0000 * (a * u - (b * u + c * u)) <= b * u + c * u,
        0x100_0000 * ((b * u + c * u) - a * u) <= b * u + c * u,
        a * u >= 0,
        b * u >= 0,
        c * u >= 0,
{
}

/// The length of a vector of moderate size is finite, and its square lies
/// within seven parts in 2^24, and three units of 2^-149, of the exact sum
/// of the squares of the components.
pub proof fn law_length_error(v: Tuple)
    requires
        is_moderate(v),
    ensures
        v.length().is_finite(),
        !is_negative(v.length().bits),
        v.square_sum().is_finite(),
        0x100_0000 * (v.length().size() * v.length().size()) <= 0x100_0007 * exact_square_sum(v)
            + 0x300_0000 * pow2(149),
        0xff_fff9 * exact_square_sum(v) <= 0x100_0000 * (v.length().size() * v.length().size())
            + 0x300_0000 * pow2(149),
{
    lemma_pow2_values();
    lemma_pow2_pos(149);
    let u = pow2(149) as int;
    let xx = v.x.times(v.x);
    let yy = v.y.times(v.y);
    let zz = v.z.times(v.z);
    lemma_square_bounds(v.x);
    lemma_square_bounds(v.y);
    lemma_square_bounds(v.z);
    lemma_pow2_adds(271, 1);
    lemma_pow2_adds(272, 1);
    lemma_pow2_adds(273, 1);
    lemma_pow2_monotone(274, 276);
    lemma_sum_bounds(xx.bits, yy.bits);
    let t = xx.plus(yy);
    lemma_sum_bounds(t.bits, zz.bits);
    let s = v.square_sum();
    assert(s == t.plus(zz));
    let m = v.length();
    let e0 = (v.x.size() * v.x.size()) as int;
    let e1 = (v.y.size() * v.y.size()) as int;
    let e2 = (v.z.size() * v.z.size()) as int;
    let xu = xx.size() * u;
    let yu = yy.size() * u;
    let zu = zz.size() * u;
    let tu = t.size() * u;
    let su = s.size() * u;
    lemma_times_unit(t.size() as int, xx.size() as int, yy.size() as int, u);
    lemma_times_unit(s.size() as int, t.size() as int, zz.size() as int, u);
    let e = e0 + e1 + e2;
    // the rounded sum of the rounded squares against the exact one
    assert(0x1_0000_0000_0000 * su <= 0x1_0000_0400_0000 * e + 0x2_0000_0000_0000 * u
        && 0xffff_fd00_0000 * e <= 0x1_0000_0000_0000 * su + 0x1_8000_0000_0000 * u)
        by (nonlinear_arith)
        requires
            0x100_0000 * (xu - e0) <= e0 + 0x80_0000 * u,
            0x100_0000 * (e0 - xu) <= e0 + 0x80_0000 * u,
            0x100_0000 * (yu - e1) <= e1 + 0x80_0000 * u,
            0x100_0000 * (e1 - yu) <= e1 + 0x80_0000 * u,
            0x100_0000 * (zu - e2) <= e2 + 0x80_0000 * u,
            0x100_0000 * (e2 - zu) <= e2 + 0x80_0000 * u,
            0x100_0000 * (tu - (xu + yu)) <= xu + yu,
            0x100_0000 * ((xu + yu) - tu) <= xu + yu,
            0x100_0000 * (su - (tu + zu)) <= tu + zu,
            0x100_0000 * ((tu + zu) - su) <= tu + zu,
            e == e0 + e1 + e2,
            e0 >= 0,
            e1 >= 0,
            e2 >= 0,
            u > 0,
            xu >= 0,
            yu >= 0,
            zu >= 0,
            tu >= 0,
            su >= 0,
    ;
    let r = m.size() as int;
    let rr = r * r;
    assert(rr >= 0) by (nonlinear_arith)
        requires
            rr == r * r,
    ;
    if is_zero(s.bits) {
        reveal(crate::ieee::root::root);
        assert(m.bits == s.bits);
        lemma_zero_value(s.bits);
        assert(rr == 0) by (nonlinear_arith)
            requires
                r == 0,
                rr == r * r,
        ;
        assert(su == 0) by (nonlinear_arith)
            requires
                s.size() == 0,
                su == s.size() * u,
        ;
    } else {
        lemma_root_error(s.bits);
        assert(0x100_0000 * rr <= 0x100_0007 * e + 0x300_0000 * u && 0xff_fff9 * e <= 0x100_0000
            * rr + 0x300_0000 * u) by (nonlinear_arith)
            requires
                0xffff_fe00_0001 * rr <= 0x1_0000_0000_0000 * su,
                0x1_0000_0000_0000 * su <= 0x1_0000_0200_0001 * rr,
                0x1_0000_0000_0000 * su <= 0x1_0000_0400_0000 * e + 0x2_0000_0000_0000 * u,
                0xffff_fd00_0000 * e <= 0x1_0000_0000_0000 * su + 0x1_8000_0000_0000 * u,
                e >= 0,
                u > 0,
                rr >= 0,
                su >= 0,
        ;
    }
}

/// What lies within `d` parts in 2^24 of `a` has its square close to that
/// of `a`.
proof fn lemma_square_near(p: int, a: int, d: int)
    by (nonlinear_arith)
    requires
        p >= 0,
        a >= 0,
        d >= 0,
        0x100_0000 * (p - a) <= d,
        0x100_0000 * (a - p) <= d,
    ensures
        0x1_0000_0000_0000 * (p * p) <= 0x1_0000_0000_0000 * (a * a) + 0x200_0000 * (a * d) + d
            * d,
        0x1_0000_0000_0000 * (p * p) + 0x200_0000 * (a * d) >= 0x1_0000_0000_0000 * (a * a),
{
    let big = 0x100_0000 * p;
    let mid = 0x100_0000 * a;
    assert(big * big <= (mid + d) * (mid + d));
    if mid >= d {
        assert(big * big >= (mid - d) * (mid - d));
    } else {
        assert(mid * mid <= mid * d);
    }
}

/// One component of a normalized vector: `q`, the component `x` over the
/// length `r`, has its square times the length's close to the square of
/// the component, in units of `u`.
proof fn lemma_component_near(q: int, x: int, r: int, u: int)
    requires
        q >= 0,
        x >= 0,
        r > 0,
        u > 0,
        x <= 2 * r,
        0x100_0000 * (q * r - x * u) <= x * u + 0x80_0000 * r,
        0x100_0000 * (x * u - q * r) <= x * u + 0x80_0000 * r,
    ensures
        0x1_0000_0000_0000 * ((q * q) * (r * r)) <= 0x1_0000_0200_0001 * ((x * x) * (u * u))
            + 0x2_0000_0200_0000 * (u * (r * r)) + 0x4000_0000_0000 * (r * r),
        0x1_0000_0000_0000 * ((q * q) * (r * r)) + 0x2_0000_0000_0000 * (u * (r * r))
            >= 0xffff_fe00_0000 * ((x * x) * (u * u)),
        q <= 3 * u,
{
    let p = q * r;
    let a = x * u;
    let d = a + 0x80_0000 * r;
    assert(p >= 0 && a >= 0) by (nonlinear_arith)
        requires
            p == q * r,
            a == x * u,
            q >= 0,
            r > 0,
            x >= 0,
            u > 0,
    ;
    lemma_square_near(p, a, d);
    let pp = p * p;
    let aa = a * a;
    let ar = a * r;
    let rr = r * r;
    assert(0x200_0000 * (a * d) + d * d == 0x200_0001 * aa + 0x1_0000_0100_0000 * ar
        + 0x4000_0000_0000 * rr && a * d == aa + 0x80_0000 * ar) by (nonlinear_arith)
        requires
            d == a + 0x80_0000 * r,
            aa == a * a,
            ar == a * r,
            rr == r * r,
    ;
    assert(pp == (q * q) * rr) by (nonlinear_arith)
        requires
            pp == p * p,
            p == q * r,
            rr == r * r,
    ;
    assert(aa == (x * x) * (u * u)) by (nonlinear_arith)
        requires
            aa == a * a,
            a == x * u,
    ;
    assert(0 <= ar <= 2 * (u * rr)) by (nonlinear_arith)
        requires
            ar == a * r,
            a == x * u,
            rr == r * r,
            0 <= x <= 2 * r,
            r > 0,
            u > 0,
    ;
    assert(q * r <= (3 * u) * r) by (nonlinear_arith)
        requires
            0x100_0000 * (q * r - x * u) <= x * u + 0x80_0000 * r,
            0 <= x <= 2 * r,
            r > 0,
            u >= 1,
    ;
    lemma_cancel_le(q, 3 * u, r);
}

/// Normalizing gives a unit vector: for every tuple whose first three
/// components are at most 2^60 in size and whose length is at least 2^-59,
/// the length of the normalized tuple is 1 within 2^-20.
pub proof fn law_normalized_length(v: Tuple)
    requires
        is_moderate(v),
        v.length().size() >= pow2(90),
    ensures
        v.unit().length().is_finite(),
        0x10_0000 * distance_from_zero(v.unit().length().size() - pow2(149)) <= pow2(149),
{
    lemma_pow2_values();
    lemma_pow2_pos(149);
    law_length_error(v);
    let m = v.length();
    let n = v.unit();
    let u = pow2(149) as int;
    let uu = u * u;
    let r = m.size() as int;
    let rr = r * r;
    let x = v.x.size() as int;
    let y = v.y.size() as int;
    let z = v.z.size() as int;
    let e = exact_square_sum(v) as int;
    let xx = x * x;
    let yy = y * y;
    let zz = z * z;
    // sizes: the unit is at least 2^30, and the length's square 2^30 units
    lemma_pow2_adds(90, 90);
    lemma_pow2_adds(30, 149);
    lemma_pow2_monotone(179, 180);
    lemma_pow2_monotone(30, 149);
    lemma_pow2_monotone(151, 209);
    lemma_pow2_pos(90);
    lemma_pow2_adds(2, 149);
    assert(pow2(2) == 4 && pow2(30) == 0x4000_0000) by {
        vstd::arithmetic::power2::lemma2_to64();
    }
    assert(u >= 0x4000_0000);
    assert(rr >= pow2(180)) by (nonlinear_arith)
        requires
            r >= pow2(90),
            rr == r * r,
            pow2(180) == pow2(90) * pow2(90),
    ;
    assert(rr >= 0x4000_0000 * u);
    assert(xx >= 0 && yy >= 0 && zz >= 0) by (nonlinear_arith)
        requires
            xx == x * x,
            yy == y * y,
            zz == z * z,
    ;
    // no component is longer than twice the length
    assert(e <= 4 * rr && xx <= e && yy <= e && zz <= e);
    assert(x <= 2 * r && y <= 2 * r && z <= 2 * r) by (nonlinear_arith)
        requires
            xx <= 4 * rr,
            yy <= 4 * rr,
            zz <= 4 * rr,
            xx == x * x,
            yy == y * y,
            zz == z * z,
            rr == r * r,
            x >= 0,
            y >= 0,
            z >= 0,
            r >= 0,
    ;
    // the components of the normalized tuple
    lemma_zero_value(m.bits);
    lemma_pow2_adds(149, 1);
    vstd::arithmetic::power2::lemma_pow2_strictly_increases(150, 276);
    let top = pow2(276) as int;
    assert(x * u < top * r && y * u < top * r && z * u < top * r) by (nonlinear_arith)
        requires
            0 <= x <= 2 * r,
            0 <= y <= 2 * r,
            0 <= z <= 2 * r,
            r > 0,
            u > 0,
            2 * u < top,
    ;
    lemma_quotient_bounds(v.x.bits, m.bits);
    lemma_quotient_bounds(v.y.bits, m.bits);
    lemma_quotient_bounds(v.z.bits, m.bits);
    let qx = n.x.size() as int;
    let qy = n.y.size() as int;
    let qz = n.z.size() as int;
    lemma_component_near(qx, x, r, u);
    lemma_component_near(qy, y, r, u);
    lemma_component_near(qz, z, r, u);
    assert(is_moderate(n));
    law_length_error(n);
    let e2 = exact_square_sum(n) as int;
    let r2 = n.length().size() as int;
    let rr2 = r2 * r2;
    // the exact square sum of the normalized tuple, times the square of the
    // length, against the square of the unit times the same
    let d = e2 * rr;
    let a = e * uu;
    let b = rr * uu;
    let c = u * rr;
    let w = u * uu;
    assert(d == (qx * qx) * rr + (qy * qy) * rr + (qz * qz) * rr) by (nonlinear_arith)
        requires
            d == e2 * rr,
            e2 == qx * qx + qy * qy + qz * qz,
    ;
    assert(a == xx * uu + yy * uu + zz * uu) by (nonlinear_arith)
        requires
            a == e * uu,
            e == xx + yy + zz,
    ;
    assert(0x1_0000_0000_0000 * d <= 0x1_0000_0200_0001 * a + 0x7_0000_0000_0000 * c
        + 0x1_0000_0000_0000 * rr && 0x1_0000_0000_0000 * d + 0x6_0000_0000_0000 * c
        >= 0xffff_fe00_0000 * a);
    assert(uu >= 0) by (nonlinear_arith)
        requires
            uu == u * u,
    ;
    assert(0x100_0000 * b <= 0x100_0007 * a + 0x300_0000 * w && 0xff_fff9 * a <= 0x100_0000 * b
        + 0x300_0000 * w) by (nonlinear_arith)
        requires
            0x100_0000 * rr <= 0x100_0007 * e + 0x300_0000 * u,
            0xff_fff9 * e <= 0x100_0000 * rr + 0x300_0000 * u,
            a == e * uu,
            b == rr * uu,
            w == u * uu,
            uu >= 0,
    ;
    assert(0x4000_0000 * c <= b && 0x4000_0000 * rr <= b && 0x4000_0000 * w <= b && c >= 0 && w
        >= 0 && b >= 0) by (nonlinear_arith)
        requires
            c == u * rr,
            b == rr * uu,
            w == u * uu,
            uu == u * u,
            u >= 0x4000_0000,
            rr >= 0x4000_0000 * u,
    ;
    assert(0x100_0000 * d <= 0x100_000a * b && 0xff_fff6 * b <= 0x100_0000 * d)
        by (nonlinear_arith)
        requires
            0x1_0000_0000_0000 * d <= 0x1_0000_0200_0001 * a + 0x7_0000_0000_0000 * c
                + 0x1_0000_0000_0000 * rr,
            0x1_0000_0000_0000 * d + 0x6_0000_0000_0000 * c >= 0xffff_fe00_0000 * a,
            0x100_0000 * b <= 0x100_0007 * a + 0x300_0000 * w,
            0xff_fff9 * a <= 0x100_0000 * b + 0x300_0000 * w,
            0x4000_0000 * c <= b,
            0x4000_0000 * rr <= b,
            0x4000_0000 * w <= b,
            c >= 0,
            w >= 0,
            b >= 0,
            rr >= 0,
    ;
    assert((0x100_0000 * e2) * rr <= (0x100_000a * uu) * rr && (0xff_fff6 * uu) * rr <= (0x100_0000
        * e2) * rr) by (nonlinear_arith)
        requires
            0x100_0000 * d <= 0x100_000a * b,
            0xff_fff6 * b <= 0x100_0000 * d,
            d == e2 * rr,
            b == rr * uu,
    ;
    lemma_cancel_le(0x100_0000 * e2, 0x100_000a * uu, rr);
    lemma_cancel_le(0xff_fff6 * uu, 0x100_0000 * e2, rr);
    // the length of the normalized tuple against the unit
    assert(0x4000_0000 * u <= uu) by (nonlinear_arith)
        requires
            uu == u * u,
            u >= 0x4000_0000,
    ;
    assert(0x100_0000 * rr2 <= 0x100_0012 * uu && 0xff_ffee * uu <= 0x100_0000 * rr2)
        by (nonlinear_arith)
        requires
            0x100_0000 * rr2 <= 0x100_0007 * e2 + 0x300_0000 * u,
            0xff_fff9 * e2 <= 0x100_0000 * rr2 + 0x300_0000 * u,
            0x100_0000 * e2 <= 0x100_000a * uu,
            0xff_fff6 * uu <= 0x100_0000 * e2,
            0x4000_0000 * u <= uu,
            u > 0,
    ;
    assert(0x100_0000 * r2 <= 0x100_0009 * u && 0xff_fff6 * u <= 0x100_0000 * r2)
        by (nonlinear_arith)
        requires
            0x100_0000 * rr2 <= 0x100_0012 * uu,
            0xff_ffee * uu <= 0x100_0000 * rr2,
            rr2 == r2 * r2,
            uu == u * u,
            r2 >= 0,
            u > 0,
    ;
}


/// The dot product does not depend on the order of the two tuples.
pub proof fn law_dot_commutes(a: Tuple, b: Tuple)
    ensures
        a.dot(b) == b.dot(a),
{
    law_product_commutes(a.x.bits, b.x.bits);
    law_product_commutes(a.y.bits, b.y.bits);
    law_product_commutes(a.z.bits, b.z.bits);
    law_product_commutes(a.w.bits, b.w.bits);
}

/// The dot product of a tuple with itself is not negative: its sign is not
/// set, and where it is finite its value is not below zero.
pub proof fn law_dot_with_itself_is_not_negative(v: Tuple)
    ensures
        !is_negative(v.dot(v).bits),
        !v.dot(v).is_below_zero(),
        v.dot(v).is_finite() ==> v.dot(v).value() >= 0,
{
    let xx = v.x.times(v.x);
    let yy = v.y.times(v.y);
    let zz = v.z.times(v.z);
    let ww = v.w.times(v.w);
    lemma_signs_of_squares_and_sums(v.x.bits, v.x.bits);
    lemma_signs_of_squares_and_sums(v.y.bits, v.y.bits);
    lemma_signs_of_squares_and_sums(v.z.bits, v.z.bits);
    lemma_signs_of_squares_and_sums(v.w.bits, v.w.bits);
    lemma_signs_of_squares_and_sums(xx.bits, yy.bits);
    lemma_signs_of_squares_and_sums(xx.plus(yy).bits, zz.bits);
    lemma_signs_of_squares_and_sums(xx.plus(yy).plus(zz).bits, ww.bits);
    lemma_unit_values();
}

/// A finite number over one is the number itself.
proof fn lemma_over_one_keeps(c: Scalar, one: Scalar)
    requires
        c.is_finite(),
        one.bits == ONE,
    ensures
        c.over(one) == c,
{
    lemma_unit_values();
    lemma_pow2_pos(149);
    lemma_zero_value(one.bits);
    assert(c.size() * pow2(149) == c.size() * one.size()) by (nonlinear_arith)
        requires
            one.size() == pow2(149),
    ;
    law_quotient_exact(c.bits, one.bits, c.bits);
    let q = c.over(one).bits;
    assert(crate::ieee::layout::magnitude(q) == crate::ieee::layout::magnitude(c.bits));
    assert(is_negative(q) == is_negative(c.bits));
    assert(q == c.bits);
}

/// A tuple of length one is a unit tuple already: normalizing it changes
/// nothing, so the length of what comes out is one.
pub proof fn law_unit_is_kept(v: Tuple)
    requires
        all_finite(v),
        v.length().bits == ONE,
    ensures
        v.unit() == v,
        v.unit().length().bits == ONE,
{
    let one = v.length();
    lemma_over_one_keeps(v.x, one);
    lemma_over_one_keeps(v.y, one);
    lemma_over_one_keeps(v.z, one);
    lemma_over_one_keeps(v.w, one);
}

/// Normalizing a vector gives a vector: where the length is a finite number
/// that is not zero, `w` stays zero.
pub proof fn law_normalized_vector_is_vector(v: Tuple)
    requires
        is_zero(v.w.bits),
        v.length().is_finite(),
        !is_zero(v.length().bits),
    ensures
        is_zero(v.unit().w.bits),
{
    let len = v.length();
    lemma_zero_value(v.w.bits);
    lemma_unit_values();
    assert(v.w.size() * pow2(149) == crate::ieee::layout::grid_magnitude(0) * len.size())
        by (nonlinear_arith)
        requires
            v.w.size() == 0,
            crate::ieee::layout::grid_magnitude(0) == 0,
    ;
    law_quotient_exact(v.w.bits, len.bits, 0);
}

} // verus!
