//! The encoder: packs the difference between each scalar and the rolling
//! reference value into 1-4 bytes, picking the smallest magnitude band that
//! reaches the difference.

use vstd::prelude::*;
use crate::band::{BOCU1_ASCII_PREV, BOCU1_MIDDLE, BOCU1_TRAIL_COUNT, BOCU1_REACH_POS_1,
    BOCU1_REACH_NEG_1, BOCU1_REACH_POS_2, BOCU1_REACH_NEG_2, BOCU1_REACH_POS_3,
    BOCU1_REACH_NEG_3, BOCU1_START_POS_2, BOCU1_START_POS_3, BOCU1_START_POS_4,
    BOCU1_START_NEG_2, BOCU1_START_NEG_3, BOCU1_MAX_SCALAR, prev_in_range};
use crate::trail::{trail_to_byte, bocu1_trail_to_byte, negdivmod, lemma_trail_byte_inverse};
use crate::prev::{eff_prev, next_prev, bocu1_prev};
use crate::error::Bocu1Error;

verus! {

/// The largest difference magnitude a valid scalar and a reachable
/// reference value can produce, with a little room to spare.
pub const BOCU1_DIFF_BOUND: i32 = 0x120000;

/// The packed form of a byte group: for groups of one to three bytes, the
/// length in the topmost byte and the group's bytes, in order, below it;
/// for four-byte groups the lead byte itself sits in the topmost byte
/// (0xfe makes the packed value negative in 32 bits, 0x21 keeps it above
/// any length-tagged value), so the length is always recoverable.
pub open spec fn pack_diff(diff: int) -> int
    recommends
        -BOCU1_DIFF_BOUND <= diff <= BOCU1_DIFF_BOUND,
{
    if diff >= BOCU1_REACH_NEG_1 {
        if diff <= BOCU1_REACH_POS_1 {
            0x01000000 + BOCU1_MIDDLE + diff
        } else if diff <= BOCU1_REACH_POS_2 {
            let d = diff - (BOCU1_REACH_POS_1 + 1);
            0x02000000 + (BOCU1_START_POS_2 + d / 243) * 0x100 + trail_to_byte(d % 243)
        } else if diff <= BOCU1_REACH_POS_3 {
            let d = diff - (BOCU1_REACH_POS_2 + 1);
            0x03000000 + (BOCU1_START_POS_3 + (d / 243) / 243) * 0x10000
                + trail_to_byte((d / 243) % 243) * 0x100 + trail_to_byte(d % 243)
        } else {
            let d = diff - (BOCU1_REACH_POS_3 + 1);
            -0x02000000 + trail_to_byte(((d / 243) / 243) % 243) * 0x10000
                + trail_to_byte((d / 243) % 243) * 0x100 + trail_to_byte(d % 243)
        }
    } else {
        if diff >= BOCU1_REACH_NEG_2 {
            let d = diff - BOCU1_REACH_NEG_1;
            0x02000000 + (BOCU1_START_NEG_2 + d / 243) * 0x100 + trail_to_byte(d % 243)
        } else if diff >= BOCU1_REACH_NEG_3 {
            let d = diff - BOCU1_REACH_NEG_2;
            0x03000000 + (BOCU1_START_NEG_3 + (d / 243) / 243) * 0x10000
                + trail_to_byte((d / 243) % 243) * 0x100 + trail_to_byte(d % 243)
        } else {
            let d = diff - BOCU1_REACH_NEG_3;
            0x21000000 + trail_to_byte(((d / 243) / 243) % 243) * 0x10000
                + trail_to_byte((d / 243) % 243) * 0x100 + trail_to_byte(d % 243)
        }
    }
}

/// The bytes of the group that encodes `diff`, in stream order: the lead
/// byte first, then the trail bytes from the most significant digit down.
pub open spec fn diff_bytes(diff: int) -> Seq<int>
    recommends
        -BOCU1_DIFF_BOUND <= diff <= BOCU1_DIFF_BOUND,
{
    if diff >= BOCU1_REACH_NEG_1 {
        if diff <= BOCU1_REACH_POS_1 {
            seq![BOCU1_MIDDLE + diff]
        } else if diff <= BOCU1_REACH_POS_2 {
            let d = diff - (BOCU1_REACH_POS_1 + 1);
            seq![BOCU1_START_POS_2 + d / 243, trail_to_byte(d % 243)]
        } else if diff <= BOCU1_REACH_POS_3 {
            let d = diff - (BOCU1_REACH_POS_2 + 1);
            seq![
                BOCU1_START_POS_3 + (d / 243) / 243,
                trail_to_byte((d / 243) % 243),
                trail_to_byte(d % 243),
            ]
        } else {
            let d = diff - (BOCU1_REACH_POS_3 + 1);
            seq![
                BOCU1_START_POS_4 as int,
                trail_to_byte(((d / 243) / 243) % 243),
                trail_to_byte((d / 243) % 243),
                trail_to_byte(d % 243),
            ]
        }
    } else {
        if diff >= BOCU1_REACH_NEG_2 {
            let d = diff - BOCU1_REACH_NEG_1;
            seq![BOCU1_START_NEG_2 + d / 243, trail_to_byte(d % 243)]
        } else if diff >= BOCU1_REACH_NEG_3 {
            let d = diff - BOCU1_REACH_NEG_2;
            seq![
                BOCU1_START_NEG_3 + (d / 243) / 243,
                trail_to_byte((d / 243) % 243),
                trail_to_byte(d % 243),
            ]
        } else {
            let d = diff - BOCU1_REACH_NEG_3;
            seq![
                0x21int,
                trail_to_byte(((d / 243) / 243) % 243),
                trail_to_byte((d / 243) % 243),
                trail_to_byte(d % 243),
            ]
        }
    }
}

/// How many bytes a packed value stands for: the topmost byte for
/// length-tagged groups, else four.  The packed value zero (an invalid
/// scalar) has length zero.
pub open spec fn packed_len(p: int) -> int {
    if p < 0 {
        4
    } else if p < 0x04000000 {
        p / 0x1000000
    } else {
        4
    }
}

/// Quotient bounds and the divmod decomposition for the trail-digit radix.
pub(crate) proof fn lemma_quot_bounds(d: int, lo: int, hi: int)
    requires
        lo <= d <= hi,
    ensures
        lo / 243 <= d / 243 <= hi / 243,
        243 * (d / 243) + d % 243 == d,
        0 <= d % 243 < 243,
{
    vstd::arithmetic::div_mod::lemma_div_is_ordered(lo, d, 243);
    vstd::arithmetic::div_mod::lemma_div_is_ordered(d, hi, 243);
    vstd::arithmetic::div_mod::lemma_fundamental_div_mod(d, 243);
    vstd::arithmetic::div_mod::lemma_mod_division_less_than_divisor(d, 243);
}

/// How the bytes of a group sit inside its packed value: the packed length
/// matches the byte count, every byte is in [1, 0xff], and each byte can be
/// recovered from the packed value by the divisions `encode_bocu1_as_vec`
/// performs.
pub proof fn lemma_packed_extract(diff: int)
    requires
        -BOCU1_DIFF_BOUND <= diff <= BOCU1_DIFF_BOUND,
    ensures
        ({
            let p = pack_diff(diff);
            let bs = diff_bytes(diff);
            &&& bs.len() == packed_len(p)
            &&& (forall|i: int| 0 <= i < bs.len() ==> 1 <= #[trigger] bs[i] <= 0xff)
            &&& (bs.len() == 1 ==> p == 0x01000000 + bs[0])
            &&& (bs.len() == 2 ==> ({
                let body = p - 0x02000000;
                &&& 0 <= body < 0x1000000
                &&& body / 0x100 == bs[0]
                &&& body % 0x100 == bs[1]
            }))
            &&& (bs.len() == 3 ==> ({
                let body = p - 0x03000000;
                &&& 0 <= body < 0x1000000
                &&& body / 0x10000 == bs[0]
                &&& (body / 0x100) % 0x100 == bs[1]
                &&& body % 0x100 == bs[2]
            }))
            &&& (bs.len() == 4 ==> ({
                let body = if p < 0 {
                    p + 0x02000000
                } else {
                    p - 0x21000000
                };
                &&& (p < 0 <==> bs[0] == 0xfe)
                &&& (p >= 0x04000000 <==> bs[0] == 0x21)
                &&& 0 <= body < 0x1000000
                &&& body / 0x10000 == bs[1]
                &&& (body / 0x100) % 0x100 == bs[2]
                &&& body % 0x100 == bs[3]
            }))
        }),
{
    let p = pack_diff(diff);
    let bs = diff_bytes(diff);
    if diff >= BOCU1_REACH_NEG_1 && diff <= BOCU1_REACH_POS_1 {
        vstd::arithmetic::div_mod::lemma_fundamental_div_mod_converse(
            p, 0x1000000, 1, BOCU1_MIDDLE + diff);
    } else if BOCU1_REACH_POS_1 < diff <= BOCU1_REACH_POS_2
        || BOCU1_REACH_NEG_2 <= diff < BOCU1_REACH_NEG_1 {
        let d = if diff > 0 {
            diff - (BOCU1_REACH_POS_1 + 1)
        } else {
            diff - BOCU1_REACH_NEG_1
        };
        if diff > 0 {
            lemma_quot_bounds(d, 0, 10448);
        } else {
            lemma_quot_bounds(d, -10449, -1);
        }
        lemma_trail_byte_inverse(d % 243);
        let body = p - 0x02000000;
        vstd::arithmetic::div_mod::lemma_fundamental_div_mod_converse(
            body, 0x100, bs[0], bs[1]);
        vstd::arithmetic::div_mod::lemma_fundamental_div_mod_converse(
            p, 0x1000000, 2, body);
    } else if BOCU1_REACH_POS_2 < diff <= BOCU1_REACH_POS_3
        || BOCU1_REACH_NEG_3 <= diff < BOCU1_REACH_NEG_2 {
        let d = if diff > 0 {
            diff - (BOCU1_REACH_POS_2 + 1)
        } else {
            diff - BOCU1_REACH_NEG_2
        };
        if diff > 0 {
            lemma_quot_bounds(d, 0, 177146);
            lemma_quot_bounds(d / 243, 0, 728);
        } else {
            lemma_quot_bounds(d, -177147, -1);
            lemma_quot_bounds(d / 243, -729, -1);
        }
        lemma_trail_byte_inverse(d % 243);
        lemma_trail_byte_inverse((d / 243) % 243);
        let body = p - 0x03000000;
        vstd::arithmetic::div_mod::lemma_fundamental_div_mod_converse(
            body, 0x10000, bs[0], bs[1] * 0x100 + bs[2]);
        vstd::arithmetic::div_mod::lemma_fundamental_div_mod_converse(
            body, 0x100, bs[0] * 0x100 + bs[1], bs[2]);
        vstd::arithmetic::div_mod::lemma_fundamental_div_mod_converse(
            bs[0] * 0x100 + bs[1], 0x100, bs[0], bs[1]);
        vstd::arithmetic::div_mod::lemma_fundamental_div_mod_converse(
            p, 0x1000000, 3, body);
    } else {
        let d = if diff > 0 {
            diff - (BOCU1_REACH_POS_3 + 1)
        } else {
            diff - BOCU1_REACH_NEG_3
        };
        if diff > 0 {
            lemma_quot_bounds(d, 0, 991988);
            lemma_quot_bounds(d / 243, 0, 4082);
            lemma_quot_bounds((d / 243) / 243, 0, 16);
        } else {
            lemma_quot_bounds(d, -991988, -1);
            lemma_quot_bounds(d / 243, -4083, -1);
            lemma_quot_bounds((d / 243) / 243, -17, -1);
        }
        lemma_trail_byte_inverse(d % 243);
        lemma_trail_byte_inverse((d / 243) % 243);
        lemma_trail_byte_inverse(((d / 243) / 243) % 243);
        let body = if p < 0 {
            p + 0x02000000
        } else {
            p - 0x21000000
        };
        vstd::arithmetic::div_mod::lemma_fundamental_div_mod_converse(
            body, 0x10000, bs[1], bs[2] * 0x100 + bs[3]);
        vstd::arithmetic::div_mod::lemma_fundamental_div_mod_converse(
            body, 0x100, bs[1] * 0x100 + bs[2], bs[3]);
        vstd::arithmetic::div_mod::lemma_fundamental_div_mod_converse(
            bs[1] * 0x100 + bs[2], 0x100, bs[1], bs[2]);
    }
}

/// An encoder state is either the lazily-initialized zero or a value the
/// bias function can produce.
pub open spec fn tx_state_ok(p: int) -> bool {
    p == 0 || prev_in_range(p)
}

/// The reference value after one `encode_bocu1` call: scalars at or below
/// 0x20 reset it (except the space, which leaves it alone); anything else
/// moves it by the bias function.  An invalid scalar changes nothing.
pub open spec fn enc_next(p: int, c: int) -> int {
    if c < 0 || c > BOCU1_MAX_SCALAR {
        p
    } else if c <= 0x20 {
        if c == 0x20 {
            eff_prev(p)
        } else {
            BOCU1_ASCII_PREV as int
        }
    } else {
        next_prev(c)
    }
}

/// The packed value one `encode_bocu1` call returns: zero for an invalid
/// scalar, the scalar itself as a single literal byte at or below 0x20,
/// and the packed difference group otherwise.
pub open spec fn enc_packed(p: int, c: int) -> int {
    if c < 0 || c > BOCU1_MAX_SCALAR {
        0
    } else if c <= 0x20 {
        0x01000000 + c
    } else {
        pack_diff(c - eff_prev(p))
    }
}

/// The bytes one `encode_bocu1` call stands for: none for an invalid
/// scalar, the literal byte for a scalar at or below 0x20, the difference
/// group otherwise.
pub open spec fn enc_bytes(p: int, c: int) -> Seq<int> {
    if c < 0 || c > BOCU1_MAX_SCALAR {
        Seq::empty()
    } else if c <= 0x20 {
        seq![c]
    } else {
        diff_bytes(c - eff_prev(p))
    }
}

/// State for the BOCU-1 encoder.
#[derive(Debug)]
pub struct Bocu1Tx {
    prev: i32,
}

impl View for Bocu1Tx {
    type V = int;

    closed spec fn view(&self) -> int {
        self.prev as int
    }
}

impl Bocu1Tx {
    /// Create an encoder instance; the reference value initializes lazily
    /// on first use.
    pub fn new() -> (r: Self)
        ensures
            r@ == 0,
            tx_state_ok(r@),
    {
        Bocu1Tx { prev: 0 }
    }

    /// Pack a difference into its packed byte-group form, picking the
    /// magnitude band and extracting trail digits with the floor-style
    /// divmod.
    fn encode_pack_diff(&self, diff: i32) -> (r: i32)
        requires
            -BOCU1_DIFF_BOUND <= diff <= BOCU1_DIFF_BOUND,
        ensures
            r == pack_diff(diff as int),
    {
        if diff >= BOCU1_REACH_NEG_1 {
            if diff <= BOCU1_REACH_POS_1 {
                0x01000000 + (BOCU1_MIDDLE + diff)
            } else if diff <= BOCU1_REACH_POS_2 {
                let d = diff - (BOCU1_REACH_POS_1 + 1);
                let (q, m) = negdivmod(d, BOCU1_TRAIL_COUNT);
                0x02000000 + (BOCU1_START_POS_2 + q) * 0x100 + bocu1_trail_to_byte(m)
            } else if diff <= BOCU1_REACH_POS_3 {
                let d = diff - (BOCU1_REACH_POS_2 + 1);
                let (q1, m1) = negdivmod(d, BOCU1_TRAIL_COUNT);
                let (q2, m2) = negdivmod(q1, BOCU1_TRAIL_COUNT);
                0x03000000 + (BOCU1_START_POS_3 + q2) * 0x10000
                    + bocu1_trail_to_byte(m2) * 0x100 + bocu1_trail_to_byte(m1)
            } else {
                let d = diff - (BOCU1_REACH_POS_3 + 1);
                let (q1, m1) = negdivmod(d, BOCU1_TRAIL_COUNT);
                let (q2, m2) = negdivmod(q1, BOCU1_TRAIL_COUNT);
                let (_, m3) = negdivmod(q2, BOCU1_TRAIL_COUNT);
                -0x02000000 + bocu1_trail_to_byte(m3) * 0x10000
                    + bocu1_trail_to_byte(m2) * 0x100 + bocu1_trail_to_byte(m1)
            }
        } else {
            if diff >= BOCU1_REACH_NEG_2 {
                let d = diff - BOCU1_REACH_NEG_1;
                let (q, m) = negdivmod(d, BOCU1_TRAIL_COUNT);
                0x02000000 + (BOCU1_START_NEG_2 + q) * 0x100 + bocu1_trail_to_byte(m)
            } else if diff >= BOCU1_REACH_NEG_3 {
                let d = diff - BOCU1_REACH_NEG_2;
                let (q1, m1) = negdivmod(d, BOCU1_TRAIL_COUNT);
                let (q2, m2) = negdivmod(q1, BOCU1_TRAIL_COUNT);
                0x03000000 + (BOCU1_START_NEG_3 + q2) * 0x10000
                    + bocu1_trail_to_byte(m2) * 0x100 + bocu1_trail_to_byte(m1)
            } else {
                let d = diff - BOCU1_REACH_NEG_3;
                let (q1, m1) = negdivmod(d, BOCU1_TRAIL_COUNT);
                let (q2, m2) = negdivmod(q1, BOCU1_TRAIL_COUNT);
                let (_, m3) = negdivmod(q2, BOCU1_TRAIL_COUNT);
                0x21000000 + bocu1_trail_to_byte(m3) * 0x10000
                    + bocu1_trail_to_byte(m2) * 0x100 + bocu1_trail_to_byte(m1)
            }
        }
    }

    /// Encode one scalar: a value at or below 0x20 passes through as a
    /// literal byte (and, except for the space, resets the reference
    /// value); anything else is packed as a difference from the reference
    /// value, which then moves by the bias function.  An invalid scalar
    /// yields the packed value zero (no bytes) and leaves the state alone.
    pub fn encode_bocu1(&mut self, c: i32) -> (r: i32)
        requires
            tx_state_ok(old(self)@),
        ensures
            tx_state_ok(final(self)@),
            final(self)@ == enc_next(old(self)@, c as int),
            r == enc_packed(old(self)@, c as int),
    {
        if c < 0 || c > BOCU1_MAX_SCALAR {
            return 0;
        }

        let prev = if self.prev == 0 {
            self.prev = BOCU1_ASCII_PREV;
            BOCU1_ASCII_PREV
        } else {
            self.prev
        };

        if c <= 0x20 {
            if c != 0x20 {
                self.prev = BOCU1_ASCII_PREV;
            }
            0x01000000 + c
        } else {
            self.prev = bocu1_prev(c);
            self.encode_pack_diff(c - prev)
        }
    }

    /// Encode one scalar and hand the byte group back as a vector, in
    /// stream order.  An invalid scalar yields an empty vector.
    pub fn encode_bocu1_as_vec(&mut self, c: i32) -> (r: Vec<u8>)
        requires
            tx_state_ok(old(self)@),
        ensures
            tx_state_ok(final(self)@),
            final(self)@ == enc_next(old(self)@, c as int),
            r@.map_values(|b: u8| b as int) == enc_bytes(old(self)@, c as int),
    {
        let ghost p0 = self@;
        let packed = self.encode_bocu1(c);
        let count = bocu1_length_from_packed(packed);
        let ghost bs = enc_bytes(p0, c as int);
        proof {
            if 0x20 < c <= BOCU1_MAX_SCALAR {
                lemma_packed_extract(c - eff_prev(p0));
            } else if 0 <= c <= 0x20 {
                vstd::arithmetic::div_mod::lemma_fundamental_div_mod_converse(
                    packed as int, 0x1000000, 1, c as int);
            }
        }
        let mut v: Vec<u8> = Vec::new();
        if count == 1 {
            v.push((packed - 0x01000000) as u8);
        } else if count == 2 {
            let body = packed - 0x02000000;
            v.push((body / 0x100) as u8);
            v.push((body % 0x100) as u8);
        } else if count == 3 {
            let body = packed - 0x03000000;
            v.push((body / 0x10000) as u8);
            v.push(((body / 0x100) % 0x100) as u8);
            v.push((body % 0x100) as u8);
        } else if count == 4 {
            let body = if packed < 0 {
                v.push(0xfe);
                packed + 0x02000000
            } else {
                v.push(0x21);
                packed - 0x21000000
            };
            v.push((body / 0x10000) as u8);
            v.push(((body / 0x100) % 0x100) as u8);
            v.push((body % 0x100) as u8);
        }
        proof {
            assert(v@.map_values(|b: u8| b as int) =~= bs);
        }
        v
    }
}

/// The reference value an encoder holds after consuming the scalars of `s`
/// from state `p`.
pub open spec fn prev_after(p: int, s: Seq<int>) -> int
    decreases s.len(),
{
    if s.len() == 0 {
        p
    } else {
        prev_after(enc_next(p, s[0]), s.skip(1))
    }
}

/// The byte stream an encoder emits for the scalars of `s`, starting from
/// state `p`.
pub open spec fn encode_all(p: int, s: Seq<int>) -> Seq<int>
    decreases s.len(),
{
    if s.len() == 0 {
        Seq::empty()
    } else {
        enc_bytes(p, s[0]) + encode_all(enc_next(p, s[0]), s.skip(1))
    }
}

/// Encoding distributes over appending one scalar at the end.
pub proof fn lemma_encode_all_push(p: int, s: Seq<int>, c: int)
    ensures
        encode_all(p, s.push(c)) == encode_all(p, s) + enc_bytes(prev_after(p, s), c),
        prev_after(p, s.push(c)) == enc_next(prev_after(p, s), c),
    decreases s.len(),
{
    if s.len() == 0 {
        let x = s.push(c);
        assert(x.len() == 1);
        assert(x[0] == c);
        assert(x.skip(1) =~= Seq::<int>::empty());
        assert(encode_all(p, x) == enc_bytes(p, x[0]) + encode_all(enc_next(p, x[0]), x.skip(1)));
        assert(encode_all(enc_next(p, c), x.skip(1)) =~= Seq::<int>::empty());
        assert(encode_all(p, x) =~= enc_bytes(p, c));
        assert(encode_all(p, s) + enc_bytes(p, c) =~= enc_bytes(p, c));
        assert(prev_after(p, x) == prev_after(enc_next(p, c), x.skip(1)));
        assert(prev_after(enc_next(p, c), x.skip(1)) == enc_next(p, c));
        assert(prev_after(p, s) == p);
    } else {
        assert(s.push(c)[0] == s[0]);
        assert(s.push(c).skip(1) =~= s.skip(1).push(c));
        lemma_encode_all_push(enc_next(p, s[0]), s.skip(1), c);
        assert(encode_all(p, s.push(c)) =~= encode_all(p, s) + enc_bytes(prev_after(p, s), c));
    }
}

/// Encode a whole scalar stream with a fresh encoder; the compute core of
/// the file-to-file driver.  Returns the byte stream, or the error exactly
/// when some scalar lies outside `[0, 0x10ffff]`.
pub fn encode_scalars(scalars: &Vec<i32>) -> (r: Result<Vec<u8>, Bocu1Error>)
    ensures
        ({
            let s = scalars@.map_values(|c: i32| c as int);
            match r {
                Ok(bytes) => {
                    &&& forall|i: int| 0 <= i < s.len() ==> 0 <= #[trigger] s[i] <= BOCU1_MAX_SCALAR
                    &&& bytes@.map_values(|b: u8| b as int) == encode_all(0, s)
                },
                Err(e) => {
                    &&& e == Bocu1Error::InvalidCodePoint
                    &&& exists|i: int| 0 <= i < s.len() && !(0 <= #[trigger] s[i] <= BOCU1_MAX_SCALAR)
                },
            }
        }),
{
    let ghost s = scalars@.map_values(|c: i32| c as int);
    let mut tx = Bocu1Tx::new();
    let mut out: Vec<u8> = Vec::new();
    let mut i: usize = 0;
    while i < scalars.len()
        invariant
            0 <= i <= scalars.len(),
            s == scalars@.map_values(|c: i32| c as int),
            tx_state_ok(tx@),
            tx@ == prev_after(0, s.take(i as int)),
            out@.map_values(|b: u8| b as int) == encode_all(0, s.take(i as int)),
            forall|j: int| 0 <= j < i ==> 0 <= #[trigger] s[j] <= BOCU1_MAX_SCALAR,
        decreases scalars.len() - i,
    {
        let c = scalars[i];
        if c < 0 || c > BOCU1_MAX_SCALAR {
            proof {
                assert(!(0 <= s[i as int] <= BOCU1_MAX_SCALAR));
            }
            return Err(Bocu1Error::InvalidCodePoint);
        }
        let mut group = tx.encode_bocu1_as_vec(c);
        proof {
            lemma_encode_all_push(0, s.take(i as int), c as int);
            assert(s.take(i as int + 1) =~= s.take(i as int).push(c as int));
        }
        out.append(&mut group);
        proof {
            assert(out@.map_values(|b: u8| b as int) =~= encode_all(0, s.take(i as int + 1)));
        }
        i = i + 1;
    }
    proof {
        assert(s.take(scalars.len() as int) =~= s);
    }
    Ok(out)
}

/// Recover the byte count of a packed value: the topmost byte for
/// length-tagged groups (zero for the packed value zero), else four.
pub(crate) fn bocu1_length_from_packed(packed: i32) -> (r: u8)
    ensures
        r == packed_len(packed as int),
{
    if packed >= 0 && packed < 0x04000000 {
        proof {
            vstd::arithmetic::div_mod::lemma_div_pos_is_pos(packed as int, 0x1000000);
            vstd::arithmetic::div_mod::lemma_div_is_ordered(packed as int, 0x03ffffff, 0x1000000);
        }
        (packed / 0x1000000) as u8
    } else {
        4
    }
}

} // verus!
