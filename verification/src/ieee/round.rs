//! Rounding an exact ratio to magnitude bits.

use vstd::prelude::*;
use vstd::arithmetic::power2::{pow2, lemma_pow2_adds, lemma_pow2_pos};
use vstd::arithmetic::div_mod::{lemma_fundamental_div_mod, lemma_fundamental_div_mod_converse};
use crate::ieee::exact::{spacing, round_half_even, rounded_significand, rounded_bits};
use crate::ieee::lemmas::{
    lemma_pow2_monotone, lemma_pow2_values, lemma_cancel_le, lemma_cancel_lt, lemma_spacing_is,
    lemma_round_half_even_is, lemma_round_half_even_scaled,
};

verus! {

/// `2^e` as a machine integer.
pub fn power_of_two(e: u32) -> (p: u128)
    requires
        e <= 127,
    ensures
        p == pow2(e as nat),
        p >= 1,
{
    let mut p: u128 = 1;
    let mut i: u32 = 0;
    proof {
        lemma_pow2_values();
    }
    while i < e
        invariant
            i <= e,
            e <= 127,
            p == pow2(i as nat),
            p >= 1,
        decreases e - i,
    {
        proof {
            lemma_pow2_adds(i as nat, 1);
            lemma_pow2_values();
            lemma_pow2_monotone((i + 1) as nat, 127);
        }
        p = p * 2;
        i = i + 1;
    }
    p
}

/// The number of bits of `v`: the `len` with `2^(len-1) <= v < 2^len`.
pub fn bit_length(v: u128) -> (len: u32)
    ensures
        len <= 128,
        v == 0 <==> len == 0,
        v < pow2(len as nat),
        len > 0 ==> pow2((len - 1) as nat) <= v,
{
    let mut rest: u128 = v;
    let mut len: u32 = 0;
    proof {
        lemma_pow2_values();
    }
    while rest > 0
        invariant
            len <= 128,
            rest as int == v as int / (pow2(len as nat) as int),
            pow2(len as nat) <= 0x1_0000_0000_0000_0000_0000_0000_0000_0000,
            len == 128 ==> rest == 0,
            len > 0 ==> pow2((len - 1) as nat) <= v,
            len == 0 ==> rest == v,
        decreases rest,
    {
        proof {
            let p = pow2(len as nat) as int;
            lemma_pow2_adds(len as nat, 1);
            lemma_pow2_values();
            lemma_pow2_pos(len as nat);
            // rest >= 1 gives p <= v
            lemma_fundamental_div_mod(v as int, p);
            assert(p * (v as int / p) >= p) by (nonlinear_arith)
                requires
                    v as int / p >= 1,
                    p > 0,
            ;
            assert(p <= v);
            if len < 127 {
                lemma_pow2_monotone((len + 1) as nat, 128);
            } else {
                assert(len == 127);
                assert(pow2(128) == 2 * p);
            }
            vstd::arithmetic::div_mod::lemma_div_denominator(v as int, p, 2);
            assert(pow2((len + 1) as nat) == p * 2);
            if len == 127 {
                assert(v < 2 * p);
                assert(v as int / (p * 2) == 0) by {
                    lemma_fundamental_div_mod_converse(v as int, p * 2, 0, v as int);
                }
            }
        }
        rest = rest / 2;
        len = len + 1;
    }
    proof {
        let p = pow2(len as nat) as int;
        lemma_pow2_pos(len as nat);
        if len > 0 {
            lemma_pow2_pos((len - 1) as nat);
        }
        if len < 128 {
            lemma_fundamental_div_mod(v as int, p);
            assert(p * (v as int / p) == 0) by (nonlinear_arith)
                requires
                    v as int / p == 0,
            ;
        } else {
            lemma_pow2_values();
        }
    }
    len
}

/// What is known of a ratio `n * 2^eu / (d * 2^ed)` once `n * 2^64` has been
/// divided by `d`: the quotient's length bounds the ratio from both sides.
proof fn lemma_quotient_bounds(n: nat, eu: nat, d: nat, q0: nat, r0: nat, len: nat)
    requires
        d > 0,
        n * pow2(64) == q0 * d + r0,
        r0 < d,
        len >= 1,
        pow2((len - 1) as nat) <= q0 < pow2(len),
    ensures
        pow2((len - 1) as nat) * (d * pow2(eu)) <= (n * pow2(eu)) * pow2(64),
        (n * pow2(eu)) * pow2(64) < pow2(len) * (d * pow2(eu)),
{
    let c = pow2(64) as int;
    let pu = pow2(eu) as int;
    let lo = pow2((len - 1) as nat) as int;
    let hi = pow2(len) as int;
    let n = n as int;
    let d = d as int;
    let q0 = q0 as int;
    let r0 = r0 as int;
    lemma_pow2_pos(eu);
    assert((n * pu) * c == (q0 * d + r0) * pu) by (nonlinear_arith)
        requires
            n * c == q0 * d + r0,
    ;
    assert(lo * (d * pu) <= (q0 * d + r0) * pu) by (nonlinear_arith)
        requires
            lo <= q0,
            r0 >= 0,
            d > 0,
            pu > 0,
            lo >= 0,
    ;
    assert((q0 * d + r0) * pu < hi * (d * pu)) by (nonlinear_arith)
        requires
            q0 + 1 <= hi,
            r0 < d,
            d > 0,
            pu > 0,
            q0 >= 0,
    ;
}

/// The spacing exponent of the ratio, from the length of the quotient.
proof fn lemma_spacing_from_quotient(
    n: nat,
    eu: nat,
    d: nat,
    ed: nat,
    q0: nat,
    r0: nat,
    len: nat,
    k: nat,
)
    requires
        d > 0,
        n * pow2(64) == q0 * d + r0,
        r0 < d,
        len >= 1,
        pow2((len - 1) as nat) <= q0 < pow2(len),
        k == (if len + eu > 88 + ed {
            len + eu - 88 - ed
        } else {
            0
        }),
    ensures
        spacing(n * pow2(eu), d * pow2(ed)) == k,
{
    lemma_quotient_bounds(n, eu, d, q0, r0, len);
    lemma_pow2_values();
    lemma_pow2_pos(eu);
    lemma_pow2_pos(ed);
    let c = pow2(64) as int;
    let pu = pow2(eu) as int;
    let pd = pow2(ed) as int;
    let lo = pow2((len - 1) as nat) as int;
    let hi = pow2(len) as int;
    let num = (n * pow2(eu)) as int;
    let den = (d * pow2(ed)) as int;
    let di = d as int;
    assert(den > 0) by (nonlinear_arith)
        requires
            den == di * pd,
            di > 0,
            pd > 0,
    ;
    if k > 0 {
        let a = pow2(23 + k) as int;
        let b = pow2(24 + k) as int;
        // a * pd * c == lo * pu and b * pd * c == hi * pu
        lemma_pow2_adds(23 + k, ed);
        lemma_pow2_adds(23 + k + ed, 64);
        lemma_pow2_adds((len - 1) as nat, eu);
        lemma_pow2_adds(24 + k, ed);
        lemma_pow2_adds(24 + k + ed, 64);
        lemma_pow2_adds(len, eu);
        assert((a * pd) * c == lo * pu);
        assert((b * pd) * c == hi * pu);
        assert((a * den) * c == lo * (di * pu)) by (nonlinear_arith)
            requires
                (a * pd) * c == lo * pu,
                den == di * pd,
        ;
        assert((b * den) * c == hi * (di * pu)) by (nonlinear_arith)
            requires
                (b * pd) * c == hi * pu,
                den == di * pd,
        ;
        lemma_cancel_le(a * den, num, c);
        lemma_cancel_lt(num, b * den, c);
        lemma_spacing_is(num as nat, den as nat, k);
    } else {
        let b = pow2(88 + ed) as int;
        lemma_pow2_monotone(len + eu, 88 + ed);
        lemma_pow2_adds(len, eu);
        lemma_pow2_adds(24, ed);
        lemma_pow2_adds(24 + ed, 64);
        assert(hi * pu <= b);
        assert(b == (0x100_0000 * pd) * c);
        assert(hi * (di * pu) <= (0x100_0000 * den) * c) by (nonlinear_arith)
            requires
                hi * pu <= (0x100_0000 * pd) * c,
                den == di * pd,
                di > 0,
        ;
        lemma_cancel_lt(num, 0x100_0000 * den, c);
        lemma_spacing_is(num as nat, den as nat, 0);
    }
}

/// A ratio so small that it rounds to zero.
proof fn lemma_rounds_to_zero(n: nat, eu: nat, d: nat, ed: nat, q0: nat, r0: nat, len: nat)
    requires
        d > 0,
        n * pow2(64) == q0 * d + r0,
        r0 < d,
        len >= 1,
        pow2((len - 1) as nat) <= q0 < pow2(len),
        len + eu + 1 <= ed + 64,
    ensures
        rounded_bits(n * pow2(eu), d * pow2(ed)) == 0,
{
    lemma_quotient_bounds(n, eu, d, q0, r0, len);
    lemma_spacing_from_quotient(n, eu, d, ed, q0, r0, len, 0);
    lemma_pow2_values();
    lemma_pow2_pos(eu);
    lemma_pow2_pos(ed);
    let c = pow2(64) as int;
    let pu = pow2(eu) as int;
    let pd = pow2(ed) as int;
    let hi = pow2(len) as int;
    let num = (n * pow2(eu)) as int;
    let den = (d * pow2(ed)) as int;
    let di = d as int;
    lemma_pow2_adds(len, eu);
    lemma_pow2_adds(len + eu, 1);
    lemma_pow2_adds(ed, 64);
    lemma_pow2_monotone(len + eu + 1, ed + 64);
    assert(2 * (hi * pu) <= pd * c);
    assert(2 * (hi * (di * pu)) <= den * c) by (nonlinear_arith)
        requires
            2 * (hi * pu) <= pd * c,
            den == di * pd,
            di > 0,
    ;
    assert((2 * num) * c == 2 * (num * c)) by (nonlinear_arith);
    lemma_cancel_lt(2 * num, den, c);
    assert(den * 1 == den) by (nonlinear_arith);
    lemma_round_half_even_is(num as nat, den as nat, 0, num as nat);
    assert(den as nat * pow2(0) == den);
}

/// The rounded significand of the ratio, from the quotient split at the
/// rounding position: `q` above it, the bit `bit` just below, `low` further
/// down, and the remainder `r0` of the division below all of them.
proof fn lemma_rounding_from_quotient(
    n: nat,
    eu: nat,
    d: nat,
    ed: nat,
    q0: nat,
    r0: nat,
    k: nat,
    s: nat,
    q: nat,
    bit: nat,
    low: nat,
)
    requires
        d > 0,
        n * pow2(64) == q0 * d + r0,
        r0 < d,
        s >= 1,
        s + eu == k + ed + 64,
        q0 == (2 * q + bit) * pow2((s - 1) as nat) + low,
        low < pow2((s - 1) as nat),
        bit <= 1,
    ensures
        round_half_even(n * pow2(eu), (d * pow2(ed)) * pow2(k)) == q + (if bit == 1 && (low > 0
            || r0 > 0 || q % 2 == 1) {
            1nat
        } else {
            0nat
        }),
{
    let c = pow2(64);
    let pu = pow2(eu);
    let pd = pow2(ed);
    let pk = pow2(k);
    let half = pow2((s - 1) as nat);
    let ps = pow2(s);
    lemma_pow2_pos(64);
    lemma_pow2_pos(eu);
    lemma_pow2_pos(ed);
    lemma_pow2_pos(k);
    lemma_pow2_pos((s - 1) as nat);
    lemma_pow2_adds((s - 1) as nat, 1);
    lemma_pow2_values();
    assert(ps == 2 * half);
    let wide = n * c;
    let d2 = d * ps;
    let rm = (bit * half + low) * d + r0;
    assert(wide == q * d2 + rm) by (nonlinear_arith)
        requires
            wide == q0 * d + r0,
            q0 == (2 * q + bit) * half + low,
            d2 == d * ps,
            ps == 2 * half,
            rm == (bit * half + low) * d + r0,
    ;
    assert(rm < d2 && (bit == 0 ==> 2 * rm < d2) && (bit == 1 ==> 2 * rm >= d2) && (bit == 1 ==> (2
        * rm == d2 <==> low == 0 && r0 == 0))) by (nonlinear_arith)
        requires
            rm == (bit * half + low) * d + r0,
            d2 == d * ps,
            ps == 2 * half,
            low < half,
            r0 < d,
            bit <= 1,
            d > 0,
    ;
    assert(d2 > 0) by (nonlinear_arith)
        requires
            d2 == d * ps,
            d > 0,
            ps > 0,
    ;
    lemma_round_half_even_is(wide, d2, q, rm);
    // both ratios are the same number
    let num = n * pu;
    let den = (d * pd) * pk;
    assert(den > 0) by (nonlinear_arith)
        requires
            den == (d * pd) * pk,
            d > 0,
            pd > 0,
            pk > 0,
    ;
    lemma_round_half_even_scaled(num, den, c);
    lemma_round_half_even_scaled(wide, d2, pu);
    assert(num * c == wide * pu) by (nonlinear_arith)
        requires
            num == n * pu,
            wide == n * c,
    ;
    lemma_pow2_adds(ed, k);
    lemma_pow2_adds(ed + k, 64);
    lemma_pow2_adds(s, eu);
    assert((pd * pk) * c == ps * pu);
    assert(den * c == d2 * pu) by (nonlinear_arith)
        requires
            den == (d * pd) * pk,
            d2 == d * ps,
            (pd * pk) * c == ps * pu,
    ;
}

/// The magnitude bits of the ratio `n * 2^eu / (d * 2^ed)`, rounded to the
/// nearest representable value, ties to even.
pub fn round_pack(n: u64, eu: u32, d: u32, ed: u32) -> (m: u32)
    requires
        d >= 1,
        eu <= 1024,
        ed <= 1024,
    ensures
        m == rounded_bits(n as nat * pow2(eu as nat), d as nat * pow2(ed as nat)),
        m <= 0x7f80_0000,
{
    proof {
        lemma_pow2_values();
        lemma_pow2_pos(eu as nat);
        lemma_pow2_pos(ed as nat);
    }
    if n == 0 {
        proof {
            let den = d as nat * pow2(ed as nat);
            assert(den > 0) by (nonlinear_arith)
                requires
                    den == d as nat * pow2(ed as nat),
                    d >= 1,
                    pow2(ed as nat) > 0,
            ;
            assert(n as nat * pow2(eu as nat) == 0) by (nonlinear_arith)
                requires
                    n == 0,
            ;
            lemma_spacing_is(0, den, 0);
            assert(den * pow2(0) == den) by (nonlinear_arith)
                requires
                    pow2(0) == 1,
            ;
            lemma_round_half_even_is(0, den, 0, 0);
        }
        return 0;
    }
    let wide: u128 = (n as u128) * 0x1_0000_0000_0000_0000u128;
    let q0: u128 = wide / (d as u128);
    let r0: u128 = wide % (d as u128);
    let len: u32 = bit_length(q0);
    proof {
        lemma_fundamental_div_mod(wide as int, d as int);
        assert(wide == q0 * d + r0) by (nonlinear_arith)
            requires
                wide == d * q0 + r0,
        ;
        assert(q0 >= 0x1_0000_0000) by (nonlinear_arith)
            requires
                wide == q0 * d + r0,
                r0 < d,
                d <= 0xffff_ffff,
                wide >= 0x1_0000_0000_0000_0000,
        ;
        if len <= 32 {
            lemma_pow2_monotone(len as nat, 32);
        }
        assert(len >= 33);
        assert(n as nat * pow2(64) == q0 as nat * d as nat + r0 as nat);
    }
    let top: i64 = len as i64 + eu as i64 - ed as i64 - 64;
    let k: i64 = if top > 24 {
        top - 24
    } else {
        0
    };
    let s: i64 = k + 64 + ed as i64 - eu as i64;
    if s > 128 {
        proof {
            lemma_rounds_to_zero(
                n as nat,
                eu as nat,
                d as nat,
                ed as nat,
                q0 as nat,
                r0 as nat,
                len as nat,
            );
        }
        return 0;
    }
    let half: u128 = power_of_two((s - 1) as u32);
    let t: u128 = q0 / half;
    let low: u128 = q0 % half;
    let q: u128 = t / 2;
    let bit: u128 = t % 2;
    proof {
        lemma_fundamental_div_mod(q0 as int, half as int);
        assert(q0 == t * half + low) by (nonlinear_arith)
            requires
                q0 == half * t + low,
        ;
        // t < 2^25
        lemma_pow2_adds((s - 1) as nat, 25);
        lemma_pow2_monotone(len as nat, (s - 1 + 25) as nat);
        assert(q0 < half * 0x200_0000);
        assert(t < 0x200_0000) by (nonlinear_arith)
            requires
                q0 == t * half + low,
                q0 < half * 0x200_0000,
                half >= 1,
                low >= 0,
        ;
        lemma_spacing_from_quotient(
            n as nat,
            eu as nat,
            d as nat,
            ed as nat,
            q0 as nat,
            r0 as nat,
            len as nat,
            k as nat,
        );
        lemma_rounding_from_quotient(
            n as nat,
            eu as nat,
            d as nat,
            ed as nat,
            q0 as nat,
            r0 as nat,
            k as nat,
            s as nat,
            q as nat,
            bit as nat,
            low as nat,
        );
    }
    let up: bool = bit == 1 && (low > 0 || r0 > 0 || q % 2 == 1);
    let sig: u128 = if up {
        q + 1
    } else {
        q
    };
    assert(sig == rounded_significand(
        n as nat * pow2(eu as nat),
        d as nat * pow2(ed as nat),
    ));
    let packed: u64 = (k as u64) * 0x80_0000 + sig as u64;
    if packed >= 0x7f80_0000 {
        0x7f80_0000
    } else {
        packed as u32
    }
}

} // verus!
