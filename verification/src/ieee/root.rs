//! The square root.

use vstd::prelude::*;
use vstd::arithmetic::power2::{pow2, lemma_pow2_adds, lemma_pow2_pos};
use vstd::arithmetic::div_mod::{lemma_fundamental_div_mod, lemma_fundamental_div_mod_converse};
use crate::ieee::layout::{
    is_negative, is_nan, is_infinite, is_zero, significand, scale, grid_magnitude, take_apart,
    magnitude_of, sign_of, INFINITY, NAN,
};
use crate::ieee::exact::spacing;
use crate::ieee::round::{power_of_two, bit_length};
use crate::ieee::lemmas::{lemma_pow2_values, lemma_pow2_monotone, lemma_spacing_is, lemma_scale_le};

verus! {

/// `r` is the whole part of the square root of `n`.
pub open spec fn is_floor_sqrt(r: nat, n: nat) -> bool {
    r * r <= n < (r + 1) * (r + 1)
}

/// The whole part of the square root of `n`.
pub open spec fn floor_sqrt(n: nat) -> nat {
    choose|r: nat| is_floor_sqrt(r, n)
}

/// The rounded significand of the square root of `whole`: `q` whole spacings
/// fit under the root, and one more is counted where `whole` lies above the
/// square of the midpoint between `q` and `q + 1` spacings, or on it with
/// `q` odd. `unit` is the spacing.
pub open spec fn rounded_root_significand(whole: nat, unit: nat) -> nat {
    let q = floor_sqrt(whole / (unit * unit));
    let twice_mid = (2 * q + 1) * unit;
    if 4 * whole < twice_mid * twice_mid || (4 * whole == twice_mid * twice_mid && q % 2 == 0) {
        q
    } else {
        q + 1
    }
}

/// The bits of the square root of a positive finite value of `g` units. The
/// root of `g * 2^-149` is the root of `g * 2^149`, counted in units of
/// 2^-149; the spacing is that around its whole part.
pub open spec fn root_bits(g: nat) -> u32 {
    let whole = g * pow2(149);
    let k = spacing(floor_sqrt(whole), 1);
    (k * 0x80_0000 + rounded_root_significand(whole, pow2(k))) as u32
}

/// The square root: not a number for what is none and for a negative value;
/// a zero or the positive infinity for itself; else the nearest
/// representable value to the exact root.
#[verifier::opaque]
pub open spec fn root(a: u32) -> u32 {
    if is_nan(a) {
        NAN
    } else if is_zero(a) {
        a
    } else if is_negative(a) {
        NAN
    } else if is_infinite(a) {
        a
    } else {
        root_bits(grid_magnitude(a))
    }
}

proof fn lemma_square_le(a: int, b: int)
    by (nonlinear_arith)
    requires
        0 <= a <= b,
    ensures
        a * a <= b * b,
{
}

proof fn lemma_square_lt(a: int, b: int)
    by (nonlinear_arith)
    requires
        0 <= a < b,
    ensures
        a * a < b * b,
{
}

/// Every natural number has a whole square root.
pub proof fn lemma_floor_sqrt_bounds(n: nat)
    ensures
        floor_sqrt(n) * floor_sqrt(n) <= n < (floor_sqrt(n) + 1) * (floor_sqrt(n) + 1),
    decreases n,
{
    if n == 0 {
        assert(is_floor_sqrt(0, n)) by (nonlinear_arith)
            requires
                n == 0,
        ;
    } else {
        lemma_floor_sqrt_bounds((n - 1) as nat);
        let p = floor_sqrt((n - 1) as nat);
        if (p + 1) * (p + 1) <= n {
            let r = p + 1;
            lemma_square_lt(r as int, (r + 1) as int);
            assert(is_floor_sqrt(r, n));
        } else {
            assert(is_floor_sqrt(p, n));
        }
    }
}

/// The whole square root lies where the squares around `n` put it.
pub proof fn lemma_floor_sqrt_between(n: nat, a: nat, b: nat)
    requires
        a * a <= n < b * b,
    ensures
        a <= floor_sqrt(n) < b,
{
    lemma_floor_sqrt_bounds(n);
    let f = floor_sqrt(n);
    if f < a {
        lemma_square_le((f + 1) as int, a as int);
    }
    if f >= b {
        lemma_square_le(b as int, f as int);
    }
}

/// The whole square root by a machine search, one bit at a time.
fn integer_root(w: u128) -> (r: u128)
    requires
        w < 0x400_0000_0000_0000_0000_0000,
    ensures
        r * r <= w < (r + 1) * (r + 1),
        r < 0x2000_0000_0000,
{
    let mut r: u128 = 0;
    let mut i: u32 = 45;
    proof {
        lemma_pow2_values();
        lemma_pow2_adds(32, 13);
        assert(pow2(13) == 0x2000) by {
            vstd::arithmetic::power2::lemma2_to64();
        }
        assert(pow2(45) == 0x2000_0000_0000);
    }
    while i > 0
        invariant
            i <= 45,
            r * r <= w,
            w < (r + pow2(i as nat)) * (r + pow2(i as nat)),
            r + pow2(i as nat) <= 0x2000_0000_0000,
        decreases i,
    {
        i = i - 1;
        let b = power_of_two(i);
        proof {
            lemma_pow2_adds(i as nat, 1);
            lemma_pow2_values();
            assert(pow2((i + 1) as nat) == 2 * b);
        }
        let c = r + b;
        assert(c * c <= 0x400_0000_0000_0000_0000_0000) by (nonlinear_arith)
            requires
                c <= 0x2000_0000_0000,
        ;
        if c * c <= w {
            r = c;
        }
    }
    proof {
        lemma_pow2_values();
    }
    r
}

/// The spacing and the rounded significand of the root of `m * 2^(2h)`,
/// from the whole root `r0` of `m * 2^64` split at the rounding position.
proof fn lemma_root_from_quotient(
    m: nat,
    h: nat,
    r0: nat,
    len: nat,
    s: nat,
    q: nat,
    bit: nat,
    low: nat,
)
    requires
        h >= 32,
        r0 * r0 <= m * pow2(64) < (r0 + 1) * (r0 + 1),
        len >= 25,
        pow2((len - 1) as nat) <= r0 < pow2(len),
        s == len - 24,
        r0 == (2 * q + bit) * pow2((s - 1) as nat) + low,
        low < pow2((s - 1) as nat),
        bit <= 1,
    ensures
        spacing(floor_sqrt(m * pow2(2 * h)), 1) == s + h - 32,
        rounded_root_significand(m * pow2(2 * h), pow2((s + h - 32) as nat)) == q + (if bit == 1
            && (low > 0 || r0 * r0 != m * pow2(64) || q % 2 == 1) {
            1nat
        } else {
            0nat
        }),
{
    lemma_pow2_values();
    let j = (h - 32) as nat;
    let k = s + j;
    let jj = pow2(j) as int;
    let ps = pow2(s) as int;
    let half = pow2((s - 1) as nat) as int;
    let unit = pow2(k) as int;
    let w = (m * pow2(64)) as int;
    let whole = (m * pow2(2 * h)) as int;
    let r = r0 as int;
    let qi = q as int;
    lemma_pow2_pos(j);
    lemma_pow2_pos(s);
    lemma_pow2_pos((s - 1) as nat);
    lemma_pow2_adds((s - 1) as nat, 1);
    lemma_pow2_adds(s, j);
    lemma_pow2_adds(j, j);
    lemma_pow2_adds(64, 2 * j);
    assert(ps == 2 * half);
    assert(unit == ps * jj);
    assert(pow2(2 * h) == pow2(64) * (jj * jj));
    assert(whole == w * (jj * jj)) by (nonlinear_arith)
        requires
            whole == m * pow2(2 * h),
            pow2(2 * h) == pow2(64) * (jj * jj),
            w == m * pow2(64),
    ;
    // the whole root of `whole` lies between r0 * 2^j and (r0 + 1) * 2^j
    assert((r * jj) * (r * jj) <= whole && whole < ((r + 1) * jj) * ((r + 1) * jj))
        by (nonlinear_arith)
        requires
            r * r <= w,
            w < (r + 1) * (r + 1),
            whole == w * (jj * jj),
            jj > 0,
    ;
    assert(r * jj >= 0 && (r + 1) * jj >= 0) by (nonlinear_arith)
        requires
            r >= 0,
            jj > 0,
    ;
    lemma_floor_sqrt_between(whole as nat, (r * jj) as nat, ((r + 1) * jj) as nat);
    let f = floor_sqrt(whole as nat) as int;
    lemma_pow2_adds((len - 1) as nat, j);
    lemma_pow2_adds(len, j);
    lemma_scale_le(pow2((len - 1) as nat) as int, r, jj);
    lemma_scale_le(r + 1, pow2(len) as int, jj);
    assert(pow2(23 + k) * 1 <= f < pow2(24 + k) * 1);
    lemma_spacing_is(f as nat, 1, k);
    // the number of whole spacings under the root
    let pp = ps * ps;
    assert(pp > 0) by (nonlinear_arith)
        requires
            pp == ps * ps,
            ps > 0,
    ;
    assert(unit * unit == pp * (jj * jj)) by (nonlinear_arith)
        requires
            unit == ps * jj,
            pp == ps * ps,
    ;
    assert(jj * jj > 0) by (nonlinear_arith)
        requires
            jj > 0,
    ;
    let v = w / pp;
    lemma_fundamental_div_mod(w, pp);
    assert(whole == v * (unit * unit) + (w % pp) * (jj * jj) && 0 <= (w % pp) * (jj * jj) < unit
        * unit) by (nonlinear_arith)
        requires
            whole == w * (jj * jj),
            w == pp * v + w % pp,
            unit * unit == pp * (jj * jj),
            0 <= w % pp < pp,
            jj * jj > 0,
    ;
    lemma_fundamental_div_mod_converse(whole, unit * unit, v, (w % pp) * (jj * jj));
    assert(whole / (unit * unit) == v);
    let rho = bit * half + low;
    assert(r == qi * ps + rho && rho < ps) by (nonlinear_arith)
        requires
            r == (2 * qi + bit) * half + low,
            rho == bit * half + low,
            ps == 2 * half,
            low < half,
            bit <= 1,
    ;
    assert(qi * qi * pp <= w) by (nonlinear_arith)
        requires
            r == qi * ps + rho,
            rho >= 0,
            qi >= 0,
            ps > 0,
            r * r <= w,
            pp == ps * ps,
    ;
    let above = (qi + 1) * ps;
    assert(r + 1 <= above) by (nonlinear_arith)
        requires
            r == qi * ps + rho,
            rho < ps,
            above == (qi + 1) * ps,
    ;
    lemma_square_le(r + 1, above);
    assert(above * above == (qi + 1) * (qi + 1) * pp) by (nonlinear_arith)
        requires
            above == (qi + 1) * ps,
            pp == ps * ps,
    ;
    assert(w < (qi + 1) * (qi + 1) * pp);
    assert(qi * qi <= v && v < (qi + 1) * (qi + 1)) by (nonlinear_arith)
        requires
            qi * qi * pp <= w,
            w < (qi + 1) * (qi + 1) * pp,
            w == pp * v + w % pp,
            0 <= w % pp < pp,
            pp > 0,
    ;
    lemma_floor_sqrt_between(v as nat, q, q + 1);
    assert(floor_sqrt(v as nat) == q);
    // above or below the midpoint
    let mid = (2 * qi + 1) * half;
    let twice_mid = (2 * qi + 1) * unit;
    assert(twice_mid * twice_mid == 4 * (mid * mid) * (jj * jj)) by (nonlinear_arith)
        requires
            twice_mid == (2 * qi + 1) * unit,
            unit == ps * jj,
            ps == 2 * half,
            mid == (2 * qi + 1) * half,
    ;
    assert(4 * whole == 4 * w * (jj * jj)) by (nonlinear_arith)
        requires
            whole == w * (jj * jj),
    ;
    assert((4 * whole < twice_mid * twice_mid <==> w < mid * mid) && (4 * whole == twice_mid
        * twice_mid <==> w == mid * mid)) by (nonlinear_arith)
        requires
            4 * whole == 4 * w * (jj * jj),
            twice_mid * twice_mid == 4 * (mid * mid) * (jj * jj),
            jj * jj > 0,
    ;
    assert(mid >= 0) by (nonlinear_arith)
        requires
            mid == (2 * qi + 1) * half,
            qi >= 0,
            half > 0,
    ;
    if bit == 0 {
        assert(r + 1 <= mid) by (nonlinear_arith)
            requires
                r == (2 * qi + bit) * half + low,
                bit == 0,
                low < half,
                mid == (2 * qi + 1) * half,
        ;
        lemma_square_le(r + 1, mid);
    } else {
        assert(r == mid + low) by (nonlinear_arith)
            requires
                r == (2 * qi + bit) * half + low,
                bit == 1,
                mid == (2 * qi + 1) * half,
        ;
        lemma_square_le(mid, r);
        if low > 0 {
            lemma_square_lt(mid, r);
        }
    }
}

/// The square root of `a`, rounded.
pub fn square_root(a: u32) -> (r: u32)
    ensures
        r == root(a),
{
    reveal(root);
    let ma = magnitude_of(a);
    if ma > INFINITY {
        return NAN;
    }
    if ma == 0 {
        return a;
    }
    if sign_of(a) {
        return NAN;
    }
    if ma == INFINITY {
        return a;
    }
    let p = take_apart(a);
    let e: u32 = p.scale + 149;
    let m: u64;
    let h: u32;
    if e % 2 == 1 {
        m = 2 * (p.significand as u64);
        h = (e - 1) / 2;
    } else {
        m = p.significand as u64;
        h = e / 2;
    }
    proof {
        lemma_pow2_values();
        let g = p.significand as int;
        let ke = pow2(p.scale as nat) as int;
        let c = pow2(149) as int;
        lemma_pow2_adds(p.scale as nat, 149);
        assert((g * ke) * c == g * pow2(e as nat)) by (nonlinear_arith)
            requires
                pow2(e as nat) == ke * c,
        ;
        if e % 2 == 1 {
            lemma_pow2_adds(1, (2 * h) as nat);
            assert(g * pow2(e as nat) == m * pow2((2 * h) as nat)) by (nonlinear_arith)
                requires
                    pow2(e as nat) == 2 * pow2((2 * h) as nat),
                    m == 2 * g,
            ;
        }
        assert(grid_magnitude(a) * pow2(149) == m * pow2((2 * h) as nat));
    }
    let w: u128 = (m as u128) * 0x1_0000_0000_0000_0000u128;
    let r0 = integer_root(w);
    let exact: bool = r0 * r0 == w;
    let len = bit_length(r0);
    proof {
        assert(r0 >= 0x1_0000_0000) by (nonlinear_arith)
            requires
                w < (r0 + 1) * (r0 + 1),
                w >= 0x1_0000_0000_0000_0000,
        ;
        if len <= 32 {
            lemma_pow2_monotone(len as nat, 32);
        }
        if len > 45 {
            lemma_pow2_adds(32, 13);
            assert(pow2(13) == 0x2000) by {
                vstd::arithmetic::power2::lemma2_to64();
            }
            lemma_pow2_monotone(45, (len - 1) as nat);
        }
        assert(33 <= len <= 45);
    }
    let s: u32 = len - 24;
    let half: u128 = power_of_two(s - 1);
    let t: u128 = r0 / half;
    let low: u128 = r0 % half;
    let q: u128 = t / 2;
    let bit: u128 = t % 2;
    proof {
        lemma_fundamental_div_mod(r0 as int, half as int);
        assert(r0 == t * half + low) by (nonlinear_arith)
            requires
                r0 == half * t + low,
        ;
        lemma_pow2_adds((s - 1) as nat, 25);
        assert(t < 0x200_0000) by (nonlinear_arith)
            requires
                r0 == t * half + low,
                r0 < half * 0x200_0000,
                half >= 1,
                low >= 0,
        ;
        lemma_root_from_quotient(
            m as nat,
            h as nat,
            r0 as nat,
            len as nat,
            s as nat,
            q as nat,
            bit as nat,
            low as nat,
        );
    }
    let up: bool = bit == 1 && (low > 0 || !exact || q % 2 == 1);
    let sig: u32 = if up {
        (q + 1) as u32
    } else {
        q as u32
    };
    let k: u32 = s + h - 32;
    k * 0x80_0000 + sig
}

} // verus!
