//! Arithmetic facts that the proofs of the operations share.

use vstd::prelude::*;
use vstd::arithmetic::power2::{
    pow2, lemma_pow2_adds, lemma_pow2_pos, lemma_pow2_strictly_increases, lemma2_to64,
};
use vstd::arithmetic::div_mod::lemma_fundamental_div_mod_converse;
use crate::ieee::exact::{spacing, round_half_even};

verus! {

/// `2^a <= 2^b` for `a <= b`.
pub proof fn lemma_pow2_monotone(a: nat, b: nat)
    requires
        a <= b,
    ensures
        pow2(a) <= pow2(b),
        pow2(a) > 0,
{
    lemma_pow2_pos(a);
    if a < b {
        lemma_pow2_strictly_increases(a, b);
    }
}

/// A common positive factor can be dropped from `<=`.
pub proof fn lemma_cancel_le(a: int, b: int, c: int)
    by (nonlinear_arith)
    requires
        c > 0,
        a * c <= b * c,
    ensures
        a <= b,
{
}

/// A common positive factor can be dropped from `<`.
pub proof fn lemma_cancel_lt(a: int, b: int, c: int)
    by (nonlinear_arith)
    requires
        c > 0,
        a * c < b * c,
    ensures
        a < b,
{
}

/// A common positive factor can be put into `<=`.
pub proof fn lemma_scale_le(a: int, b: int, c: int)
    by (nonlinear_arith)
    requires
        c >= 0,
        a <= b,
    ensures
        a * c <= b * c,
        c * a <= c * b,
{
}

/// A common positive factor can be put into `<`.
pub proof fn lemma_scale_lt(a: int, b: int, c: int)
    by (nonlinear_arith)
    requires
        c > 0,
        a < b,
    ensures
        a * c < b * c,
        c * a < c * b,
{
}

/// The powers of two that the code names by their digits.
pub proof fn lemma_pow2_values()
    ensures
        pow2(0) == 1,
        pow2(1) == 2,
        pow2(23) == 0x80_0000,
        pow2(24) == 0x100_0000,
        pow2(25) == 0x200_0000,
        pow2(32) == 0x1_0000_0000,
        pow2(64) == 0x1_0000_0000_0000_0000,
        pow2(127) == 0x8000_0000_0000_0000_0000_0000_0000_0000,
        pow2(128) == 0x1_0000_0000_0000_0000_0000_0000_0000_0000,
{
    lemma2_to64();
    lemma_pow2_adds(64, 63);
    lemma_pow2_adds(64, 64);
    assert(pow2(63) == 0x8000_0000_0000_0000) by {
        lemma_pow2_adds(32, 31);
    }
}

/// The spacing exponent is the `k` whose binade holds `num / den`.
pub proof fn lemma_spacing_is(num: nat, den: nat, k: nat)
    requires
        den > 0,
        k == 0 ==> num < 0x100_0000 * den,
        k > 0 ==> pow2(23 + k) * den <= num < pow2(24 + k) * den,
    ensures
        spacing(num, den) == k,
    decreases k,
{
    lemma_pow2_values();
    if k > 0 {
        let low = pow2((22 + k) as nat);
        let high = pow2(23 + k);
        let top = pow2(24 + k);
        lemma_pow2_adds((22 + k) as nat, 1);
        lemma_pow2_adds(23 + k, 1);
        lemma_pow2_monotone(24, 23 + k);
        assert(high == 2 * low);
        assert(top == 2 * high);
        assert(high * den == 2 * (low * den)) by (nonlinear_arith)
            requires
                high == 2 * low,
        ;
        assert(top * den == 2 * (high * den)) by (nonlinear_arith)
            requires
                top == 2 * high,
        ;
        lemma_scale_le(0x100_0000, high as int, den as int);
        assert(num >= 0x100_0000 * den);
        if k == 1 {
            assert(num / 2 < 0x100_0000 * den);
        }
        lemma_spacing_is(num / 2, den, (k - 1) as nat);
    }
}

/// `round_half_even` read off any quotient and remainder.
pub proof fn lemma_round_half_even_is(num: nat, den: nat, q: nat, r: nat)
    requires
        den > 0,
        num == q * den + r,
        r < den,
    ensures
        round_half_even(num, den) == (if 2 * r < den || (2 * r == den && q % 2 == 0) {
            q
        } else {
            q + 1
        }),
{
    lemma_fundamental_div_mod_converse(num as int, den as int, q as int, r as int);
}

/// Rounding a ratio does not depend on how the ratio is written.
pub proof fn lemma_round_half_even_scaled(num: nat, den: nat, c: nat)
    requires
        den > 0,
        c > 0,
    ensures
        round_half_even(num * c, den * c) == round_half_even(num, den),
{
    let q = num / den;
    let r = num % den;
    vstd::arithmetic::div_mod::lemma_fundamental_div_mod(num as int, den as int);
    assert(num * c == q * (den * c) + r * c) by (nonlinear_arith)
        requires
            num == den * q + r,
    ;
    lemma_scale_lt(r as int, den as int, c as int);
    assert(den * c > 0) by (nonlinear_arith)
        requires
            den > 0,
            c > 0,
    ;
    lemma_round_half_even_is(num * c, den * c, q, r * c);
    assert(2 * (r * c) == (2 * r) * c) by (nonlinear_arith);
    if 2 * r < den {
        lemma_scale_lt(2 * r as int, den as int, c as int);
    } else if 2 * r == den {
    } else {
        lemma_scale_lt(den as int, 2 * r as int, c as int);
    }
}

} // verus!
