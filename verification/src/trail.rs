//! Trail digits: the 243-letter alphabet that multi-byte sequences spell
//! their lower digits in, and the floor-style divmod that extracts digits
//! from a (possibly negative) difference.

use vstd::prelude::*;
use crate::band::{BOCU1_TRAIL_CONTROLS_COUNT, BOCU1_TRAIL_BYTE_OFFSET, BOCU1_TRAIL_COUNT,
    BOCU1_MAX_TRAIL};

verus! {

/// The byte that carries trail digit `t`.  Digits 20 and up map one-for-one
/// onto the bytes [0x21, 0xff]; the 20 lowest digits are detoured through
/// C0 control bytes that are never used for anything else.
pub open spec fn trail_to_byte(t: int) -> int {
    if t >= BOCU1_TRAIL_CONTROLS_COUNT {
        t + BOCU1_TRAIL_BYTE_OFFSET
    } else if t < 6 {
        t + 1
    } else if t < 16 {
        t + 10
    } else {
        t + 12
    }
}

/// The trail digit carried by byte `b`, or -1 where `b` is no trail byte.
/// Only 20 of the bytes at or below 0x20 carry a digit; every byte above
/// 0x20 does.
pub open spec fn byte_to_trail(b: int) -> int {
    if 1 <= b <= 6 {
        b - 1
    } else if 16 <= b <= 25 {
        b - 10
    } else if 28 <= b <= 31 {
        b - 12
    } else if b > 0x20 {
        b - BOCU1_TRAIL_BYTE_OFFSET
    } else {
        -1
    }
}

/// The two maps invert each other on the digit alphabet, and a digit's byte
/// is never mistakable for anything else: it is nonzero and at most 0xff.
pub proof fn lemma_trail_byte_inverse(t: int)
    requires
        0 <= t < BOCU1_TRAIL_COUNT,
    ensures
        byte_to_trail(trail_to_byte(t)) == t,
        1 <= trail_to_byte(t) <= BOCU1_MAX_TRAIL,
{
}

/// Map trail digit `t` to the byte that carries it.
pub(crate) fn bocu1_trail_to_byte(t: i32) -> (r: i32)
    requires
        0 <= t < BOCU1_TRAIL_COUNT,
    ensures
        r == trail_to_byte(t as int),
{
    if t >= BOCU1_TRAIL_CONTROLS_COUNT {
        t + BOCU1_TRAIL_BYTE_OFFSET
    } else if t < 6 {
        t + 1
    } else if t < 16 {
        t + 10
    } else {
        t + 12
    }
}

/// Map byte `b` to its trail digit, or to -1 where `b` is illegal as a
/// trail byte.
pub(crate) fn bocu1_byte_to_trail(b: i32) -> (r: i32)
    requires
        0 <= b <= 255,
    ensures
        r == byte_to_trail(b as int),
{
    if 1 <= b && b <= 6 {
        b - 1
    } else if 16 <= b && b <= 25 {
        b - 10
    } else if 28 <= b && b <= 31 {
        b - 12
    } else if b > 0x20 {
        b - BOCU1_TRAIL_BYTE_OFFSET
    } else {
        -1
    }
}

/// Quotient and remainder of `n` by `d`, with the remainder always in
/// `[0, d)` even for negative `n`, so that digit extraction is unambiguous.
/// This is exactly the `/` and `%` of specification arithmetic.
pub(crate) fn negdivmod(n: i32, d: i32) -> (r: (i32, i32))
    requires
        0 < d,
        i32::MIN + d < n,
    ensures
        r.0 == n as int / d as int,
        r.1 == n as int % d as int,
{
    let m = n % d;
    let q = n / d;
    proof {
        let ni = n as int;
        let di = d as int;
        if n < 0 {
            // Rust's `/` and `%` truncate toward zero; fold the negated
            // decomposition of -n back into the Euclidean one of n.
            let qe = (-ni) / di;
            let re = (-ni) % di;
            vstd::arithmetic::div_mod::lemma_fundamental_div_mod(-ni, di);
            assert(ni == (-qe) * di + (-re)) by (nonlinear_arith)
                requires
                    -ni == di * qe + re,
            ;
            if m == 0 {
                vstd::arithmetic::div_mod::lemma_fundamental_div_mod_converse(ni, di, -qe, 0);
            } else {
                assert(ni == (-qe - 1) * di + (di - re)) by (nonlinear_arith)
                    requires
                        ni == (-qe) * di + (-re),
                ;
                vstd::arithmetic::div_mod::lemma_fundamental_div_mod_converse(
                    ni,
                    di,
                    -qe - 1,
                    di - re,
                );
            }
        }
    }
    if m >= 0 {
        (q, m)
    } else {
        (q - 1, m + d)
    }
}

} // verus!
