//! The bias function: the rule by which both sides move the rolling
//! reference value ("prev") after every emitted scalar.  Encoder and decoder
//! must compute it identically, or round-tripping breaks.

use vstd::prelude::*;
use crate::band::{BOCU1_ASCII_PREV, BOCU1_REACH_NEG_2, BOCU1_MAX_SCALAR, prev_in_range};

verus! {

/// The reference value in effect: a stored zero stands for "not yet
/// initialized" and reads as the ASCII default.
pub open spec fn eff_prev(p: int) -> int {
    if p == 0 {
        BOCU1_ASCII_PREV as int
    } else {
        p
    }
}

/// The reference value that follows scalar `c`.  Hiragana, CJK Unihan and
/// Hangul get fixed anchors chosen so that offsets within the block stay
/// small; everything else is rounded down to a 128-boundary and offset into
/// the middle of that row.
pub open spec fn next_prev(c: int) -> int {
    if 0x3040 <= c <= 0x309f {
        0x3070
    } else if 0x4e00 <= c <= 0x9fa5 {
        0x4e00 - BOCU1_REACH_NEG_2
    } else if 0xac00 <= c <= 0xd7a3 {
        // the midpoint (0xd7a3 + 0xac00) / 2 of the Hangul block
        0xc1d1
    } else {
        (c / 0x80) * 0x80 + BOCU1_ASCII_PREV
    }
}

/// On valid scalars the bias function never leaves `prev_in_range`; in
/// particular it never returns the sentinel zero.
pub proof fn lemma_next_prev_in_range(c: int)
    requires
        0 <= c <= BOCU1_MAX_SCALAR,
    ensures
        prev_in_range(next_prev(c)),
{
    if !(0x3040 <= c <= 0x309f) && !(0x4e00 <= c <= 0x9fa5) && !(0xac00 <= c <= 0xd7a3) {
        vstd::arithmetic::div_mod::lemma_div_is_ordered(c, BOCU1_MAX_SCALAR as int, 0x80);
        vstd::arithmetic::div_mod::lemma_div_pos_is_pos(c, 0x80);
        assert(0 <= (c / 0x80) * 0x80 <= 0x10ff80) by (nonlinear_arith)
            requires
                0 <= c / 0x80 <= 8703,
        ;
    }
}

/// Compute the reference value that follows scalar `c`.
pub(crate) fn bocu1_prev(c: i32) -> (r: i32)
    requires
        0 <= c <= BOCU1_MAX_SCALAR,
    ensures
        r == next_prev(c as int),
        prev_in_range(r as int),
{
    proof {
        lemma_next_prev_in_range(c as int);
    }
    if 0x3040 <= c && c <= 0x309f {
        0x3070
    } else if 0x4e00 <= c && c <= 0x9fa5 {
        0x4e00 - BOCU1_REACH_NEG_2
    } else if 0xac00 <= c && c <= 0xd7a3 {
        (0xd7a3 + 0xac00) / 2
    } else {
        (c / 0x80) * 0x80 + BOCU1_ASCII_PREV
    }
}

} // verus!
