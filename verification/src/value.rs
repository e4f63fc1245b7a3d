//! The numbers behind the bit patterns.
//!
//! A pattern that is not NaN stands for `(-1)^sign * scaled * 2^-149`, where
//! `scaled` is an integer.  The comparisons of [`crate::bits`] go by the
//! patterns; here they are shown to go by the numbers.

use vstd::prelude::*;
use vstd::arithmetic::power2::{
    lemma_pow2_pos, lemma_pow2_strictly_increases, lemma_pow2_unfold, pow2,
};
use crate::bits::{gt, lt, magnitude, nan, negative, same, SIGN};

verus! {

/// The exponent field of a pattern.
pub open spec fn exponent(x: u32) -> nat {
    (magnitude(x) as int / 0x80_0000) as nat
}

/// The fraction field of a pattern.
pub open spec fn fraction(x: u32) -> nat {
    (magnitude(x) as int % 0x80_0000) as nat
}

/// `2^149` times the absolute value of the number of a pattern: with the
/// exponent field zero the fraction itself, else the fraction under its
/// hidden bit, doubled once for every exponent above one.  Infinity counts
/// as the power of two after the largest number.
pub open spec fn scaled(x: u32) -> nat {
    if exponent(x) == 0 {
        fraction(x)
    } else {
        (0x80_0000 + fraction(x)) * pow2((exponent(x) - 1) as nat)
    }
}

/// `2^149` times the number of a pattern.
pub open spec fn value(x: u32) -> int {
    if negative(x) {
        -(scaled(x) as int)
    } else {
        scaled(x) as int
    }
}

/// Among patterns without a sign, the greater pattern stands for the
/// greater number.
pub proof fn lemma_scaled_grows(a: u32, b: u32)
    requires
        a < b < SIGN,
    ensures
        scaled(a) < scaled(b),
{
    let ea = exponent(a);
    let eb = exponent(b);
    let fa = fraction(a);
    let fb = fraction(b);
    assert(ea <= eb);
    if ea == eb {
        assert(fa < fb);
        if ea > 0 {
            let p = pow2((ea - 1) as nat);
            lemma_pow2_pos((ea - 1) as nat);
            assert((0x80_0000 + fa) * p < (0x80_0000 + fb) * p) by (nonlinear_arith)
                requires
                    fa < fb,
                    p > 0,
            ;
        }
    } else {
        let q = pow2((eb - 1) as nat);
        lemma_pow2_pos((eb - 1) as nat);
        assert(0x80_0000 * q <= (0x80_0000 + fb) * q) by (nonlinear_arith)
            requires
                q > 0,
                fb >= 0,
        ;
        if ea == 0 {
            assert(0x80_0000 <= 0x80_0000 * q) by (nonlinear_arith)
                requires
                    q > 0,
            ;
        } else {
            let p = pow2((ea - 1) as nat);
            lemma_pow2_pos((ea - 1) as nat);
            lemma_pow2_unfold(ea);
            if ea < eb - 1 {
                lemma_pow2_strictly_increases(ea, (eb - 1) as nat);
            }
            assert(pow2(ea) <= q);
            assert((0x80_0000 + fa) * p < 0x80_0000 * (2 * p)) by (nonlinear_arith)
                requires
                    fa < 0x80_0000,
                    p > 0,
            ;
            assert(0x80_0000 * (2 * p) <= 0x80_0000 * q) by (nonlinear_arith)
                requires
                    2 * p <= q,
            ;
        }
    }
}

/// The order of the patterns is the order of the numbers: of two patterns
/// that are not NaN, one is less than, equal to or greater than the other
/// exactly where its number is.
pub proof fn law_comparisons_go_by_the_numbers(a: u32, b: u32)
    requires
        !nan(a),
        !nan(b),
    ensures
        lt(a, b) <==> value(a) < value(b),
        gt(a, b) <==> value(a) > value(b),
        same(a, b) <==> value(a) == value(b),
{
    let ma = magnitude(a);
    let mb = magnitude(b);
    assert(magnitude(ma) == ma && magnitude(mb) == mb);
    assert(scaled(a) == scaled(ma) && scaled(b) == scaled(mb));
    assert(scaled(0) == 0);
    if ma < mb {
        lemma_scaled_grows(ma, mb);
    } else if mb < ma {
        lemma_scaled_grows(mb, ma);
    }
    if ma > 0 {
        lemma_scaled_grows(0, ma);
    }
    if mb > 0 {
        lemma_scaled_grows(0, mb);
    }
}

} // verus!
