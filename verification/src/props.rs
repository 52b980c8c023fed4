//! The laws that tie encoder and decoder together, proved over the spec
//! state machines that the executable functions are verified against.

use vstd::prelude::*;
use crate::band::{BOCU1_ASCII_PREV, BOCU1_MAX_SCALAR};
use crate::prev::{eff_prev, lemma_next_prev_in_range};
use crate::trail::{trail_to_byte, lemma_trail_byte_inverse};
use crate::encode::{enc_next, enc_bytes, encode_all, prev_after, tx_state_ok,
    lemma_quot_bounds};
use crate::decode::{DecView, rx_init, rx_state_ok, decode_step, decode_all,
    lemma_decode_all_append};

verus! {

/// An encoder and a decoder that have consumed the same stream: the decoder
/// is idle and both hold the same effective reference value.
pub open spec fn in_sync(p: int, d: DecView) -> bool {
    &&& tx_state_ok(p)
    &&& rx_state_ok(d)
    &&& d.count == 0
    &&& eff_prev(d.prev) == eff_prev(p)
}

/// What one scalar's round trip must deliver: the decoder emits exactly
/// `c` with no error, and both sides are in sync again.
pub open spec fn scalar_round_trip_ok(p: int, d: DecView, c: int) -> bool {
    let run = decode_all(d, enc_bytes(p, c));
    &&& run.out == seq![c]
    &&& run.err is None
    &&& in_sync(enc_next(p, c), run.state)
}

/// Scalars at or below 0x20 pass through as one literal byte on both sides.
proof fn lemma_rt_literal(p: int, d: DecView, c: int)
    requires
        in_sync(p, d),
        0 <= c <= 0x20,
    ensures
        scalar_round_trip_ok(p, d, c),
{
    reveal_with_fuel(decode_all, 2);
    let bs = enc_bytes(p, c);
    assert(bs =~= seq![c]);
    assert(bs.skip(1) =~= Seq::<int>::empty());
    assert(decode_all(d, bs).out =~= seq![c]);
}

/// A difference within the single-byte band round-trips through one byte.
proof fn lemma_rt_single(p: int, d: DecView, c: int)
    requires
        in_sync(p, d),
        0x20 < c <= BOCU1_MAX_SCALAR,
        -64 <= c - eff_prev(p) <= 63,
    ensures
        scalar_round_trip_ok(p, d, c),
{
    reveal_with_fuel(decode_all, 2);
    lemma_next_prev_in_range(c);
    let q = eff_prev(p);
    let diff = c - q;
    let bs = enc_bytes(p, c);
    assert(bs =~= seq![0x90 + diff]);
    assert(bs.skip(1) =~= Seq::<int>::empty());
    let st = decode_step(d, bs[0]);
    assert(st.1 == c);
    assert(decode_all(d, bs).out =~= seq![c]);
}

/// A difference in the two-byte bands round-trips through a lead byte and
/// one trail byte.
proof fn lemma_rt_two(p: int, d: DecView, c: int)
    requires
        in_sync(p, d),
        0x20 < c <= BOCU1_MAX_SCALAR,
        -10513 <= c - eff_prev(p) < -64 || 63 < c - eff_prev(p) <= 10512,
    ensures
        scalar_round_trip_ok(p, d, c),
{
    reveal_with_fuel(decode_all, 3);
    lemma_next_prev_in_range(c);
    let q = eff_prev(p);
    assert(BOCU1_ASCII_PREV <= q <= 0x10ffc0);
    let diff = c - q;
    let bs = enc_bytes(p, c);
    let dd = if diff > 0 {
        diff - 64
    } else {
        diff + 64
    };
    if diff > 0 {
        lemma_quot_bounds(dd, 0, 10448);
    } else {
        lemma_quot_bounds(dd, -10449, -1);
    }
    let q1 = dd / 243;
    let m1 = dd % 243;
    lemma_trail_byte_inverse(m1);
    let lead = if diff > 0 {
        0xd0 + q1
    } else {
        0x50 + q1
    };
    assert(bs =~= seq![lead, trail_to_byte(m1)]);
    assert(bs.skip(1) =~= seq![trail_to_byte(m1)]);
    assert(seq![trail_to_byte(m1)].skip(1) =~= Seq::<int>::empty());
    let st1 = decode_step(d, bs[0]);
    assert(st1.0.count == 1 && st1.0.prev == q);
    assert(st1.0.diff == if diff > 0 {
        q1 * 243 + 64
    } else {
        q1 * 243 - 64
    });
    let st2 = decode_step(st1.0, bs[1]);
    assert(st2.1 == c);
    assert(decode_all(d, bs).out =~= seq![c]);
}

/// A difference in the three-byte bands round-trips through a lead byte
/// and two trail bytes.
#[verifier::rlimit(60)]
proof fn lemma_rt_three(p: int, d: DecView, c: int)
    requires
        in_sync(p, d),
        0x20 < c <= BOCU1_MAX_SCALAR,
        -187660 <= c - eff_prev(p) < -10513 || 10512 < c - eff_prev(p) <= 187659,
    ensures
        scalar_round_trip_ok(p, d, c),
{
    reveal_with_fuel(decode_all, 4);
    lemma_next_prev_in_range(c);
    let q = eff_prev(p);
    assert(BOCU1_ASCII_PREV <= q <= 0x10ffc0);
    let diff = c - q;
    let bs = enc_bytes(p, c);
    let dd = if diff > 0 {
        diff - 10513
    } else {
        diff + 10513
    };
    if diff > 0 {
        lemma_quot_bounds(dd, 0, 177146);
        lemma_quot_bounds(dd / 243, 0, 728);
    } else {
        lemma_quot_bounds(dd, -177147, -1);
        lemma_quot_bounds(dd / 243, -729, -1);
    }
    let q1 = dd / 243;
    let m1 = dd % 243;
    let q2 = q1 / 243;
    let m2 = q1 % 243;
    lemma_trail_byte_inverse(m1);
    lemma_trail_byte_inverse(m2);
    let lead = if diff > 0 {
        0xfb + q2
    } else {
        0x25 + q2
    };
    assert(bs =~= seq![lead, trail_to_byte(m2), trail_to_byte(m1)]);
    assert(bs.skip(1) =~= seq![trail_to_byte(m2), trail_to_byte(m1)]);
    assert(bs.skip(1).skip(1) =~= seq![trail_to_byte(m1)]);
    assert(seq![trail_to_byte(m1)].skip(1) =~= Seq::<int>::empty());
    let base = if diff > 0 {
        q2 * 59049 + 10513
    } else {
        q2 * 59049 - 10513
    };
    let st1 = decode_step(d, bs[0]);
    assert(st1.0.count == 2 && st1.0.prev == q && st1.0.diff == base);
    let st2 = decode_step(st1.0, bs[1]);
    assert(st2.0.count == 1 && st2.0.diff == base + m2 * 243);
    let st3 = decode_step(st2.0, bs[2]);
    assert(dd == 59049 * q2 + 243 * m2 + m1);
    assert(st3.1 == c);
    assert(decode_all(d, bs).out =~= seq![c]);
}

/// A difference above the three-byte bands round-trips through the 0xfe
/// lead byte and three trail bytes.
#[verifier::rlimit(80)]
proof fn lemma_rt_four_pos(p: int, d: DecView, c: int)
    requires
        in_sync(p, d),
        0x20 < c <= BOCU1_MAX_SCALAR,
        187659 < c - eff_prev(p),
    ensures
        scalar_round_trip_ok(p, d, c),
{
    reveal_with_fuel(decode_all, 5);
    lemma_next_prev_in_range(c);
    let q = eff_prev(p);
    assert(BOCU1_ASCII_PREV <= q <= 0x10ffc0);
    let diff = c - q;
    let bs = enc_bytes(p, c);
    let dd = diff - 187660;
    lemma_quot_bounds(dd, 0, 926387);
    lemma_quot_bounds(dd / 243, 0, 3812);
    let q1 = dd / 243;
    let m1 = dd % 243;
    let q2 = q1 / 243;
    let m2 = q1 % 243;
    vstd::arithmetic::div_mod::lemma_fundamental_div_mod_converse(q2, 243, 0, q2);
    let m3 = q2 % 243;
    lemma_trail_byte_inverse(m1);
    lemma_trail_byte_inverse(m2);
    lemma_trail_byte_inverse(m3);
    assert(bs =~= seq![0xfe, trail_to_byte(m3), trail_to_byte(m2), trail_to_byte(m1)]);
    assert(bs.skip(1) =~= seq![trail_to_byte(m3), trail_to_byte(m2), trail_to_byte(m1)]);
    assert(bs.skip(1).skip(1) =~= seq![trail_to_byte(m2), trail_to_byte(m1)]);
    assert(bs.skip(1).skip(1).skip(1) =~= seq![trail_to_byte(m1)]);
    assert(seq![trail_to_byte(m1)].skip(1) =~= Seq::<int>::empty());
    let st1 = decode_step(d, bs[0]);
    assert(st1.0.count == 3 && st1.0.prev == q && st1.0.diff == 187660);
    let st2 = decode_step(st1.0, bs[1]);
    assert(st2.0.count == 2 && st2.0.diff == 187660 + m3 * 59049);
    let st3 = decode_step(st2.0, bs[2]);
    assert(st3.0.count == 1 && st3.0.diff == 187660 + m3 * 59049 + m2 * 243);
    let st4 = decode_step(st3.0, bs[3]);
    assert(dd == 59049 * q2 + 243 * m2 + m1);
    assert(st4.1 == c);
    assert(decode_all(d, bs).out =~= seq![c]);
}

/// A difference below the three-byte bands round-trips through the 0x21
/// lead byte and three trail bytes.
#[verifier::rlimit(80)]
proof fn lemma_rt_four_neg(p: int, d: DecView, c: int)
    requires
        in_sync(p, d),
        0x20 < c <= BOCU1_MAX_SCALAR,
        c - eff_prev(p) < -187660,
    ensures
        scalar_round_trip_ok(p, d, c),
{
    reveal_with_fuel(decode_all, 5);
    lemma_next_prev_in_range(c);
    let q = eff_prev(p);
    assert(BOCU1_ASCII_PREV <= q <= 0x10ffc0);
    let diff = c - q;
    let bs = enc_bytes(p, c);
    let dd = diff + 187660;
    lemma_quot_bounds(dd, -926388, -1);
    lemma_quot_bounds(dd / 243, -3813, -1);
    let q1 = dd / 243;
    let m1 = dd % 243;
    let q2 = q1 / 243;
    let m2 = q1 % 243;
    vstd::arithmetic::div_mod::lemma_fundamental_div_mod_converse(q2, 243, -1, q2 + 243);
    let m3 = q2 % 243;
    lemma_trail_byte_inverse(m1);
    lemma_trail_byte_inverse(m2);
    lemma_trail_byte_inverse(m3);
    assert(bs =~= seq![0x21, trail_to_byte(m3), trail_to_byte(m2), trail_to_byte(m1)]);
    assert(bs.skip(1) =~= seq![trail_to_byte(m3), trail_to_byte(m2), trail_to_byte(m1)]);
    assert(bs.skip(1).skip(1) =~= seq![trail_to_byte(m2), trail_to_byte(m1)]);
    assert(bs.skip(1).skip(1).skip(1) =~= seq![trail_to_byte(m1)]);
    assert(seq![trail_to_byte(m1)].skip(1) =~= Seq::<int>::empty());
    let st1 = decode_step(d, bs[0]);
    assert(st1.0.count == 3 && st1.0.prev == q && st1.0.diff == -14536567);
    let st2 = decode_step(st1.0, bs[1]);
    assert(st2.0.count == 2 && st2.0.diff == -14536567 + m3 * 59049);
    let st3 = decode_step(st2.0, bs[2]);
    assert(st3.0.count == 1 && st3.0.diff == -14536567 + m3 * 59049 + m2 * 243);
    let st4 = decode_step(st3.0, bs[3]);
    assert(dd == 59049 * q2 + 243 * m2 + m1);
    assert(st4.1 == q + (-14536567 + (q2 + 243) * 59049 + m2 * 243) + m1);
    assert(st4.1 == c);
    assert(decode_all(d, bs).out =~= seq![c]);
}

/// Round-trip for one scalar: feeding the byte group that encodes `c` to a
/// decoder in sync with the encoder emits exactly `c`, without error, and
/// leaves the two sides in sync again.
pub proof fn lemma_round_trip_scalar(p: int, d: DecView, c: int)
    requires
        in_sync(p, d),
        0 <= c <= BOCU1_MAX_SCALAR,
    ensures
        scalar_round_trip_ok(p, d, c),
{
    let diff = c - eff_prev(p);
    if c <= 0x20 {
        lemma_rt_literal(p, d, c);
    } else if -64 <= diff <= 63 {
        lemma_rt_single(p, d, c);
    } else if -10513 <= diff < -64 || 63 < diff <= 10512 {
        lemma_rt_two(p, d, c);
    } else if -187660 <= diff < -10513 || 10512 < diff <= 187659 {
        lemma_rt_three(p, d, c);
    } else if c - eff_prev(p) > 187659 {
        lemma_rt_four_pos(p, d, c);
    } else {
        lemma_rt_four_neg(p, d, c);
    }
}

/// Round-trip for a whole stream: a decoder in sync with an encoder
/// reproduces every scalar the encoder consumed, without error, and the
/// two sides end in sync.
pub proof fn lemma_round_trip_stream(p: int, d: DecView, s: Seq<int>)
    requires
        in_sync(p, d),
        forall|i: int| 0 <= i < s.len() ==> 0 <= #[trigger] s[i] <= BOCU1_MAX_SCALAR,
    ensures
        ({
            let run = decode_all(d, encode_all(p, s));
            &&& run.out == s
            &&& run.err is None
            &&& in_sync(prev_after(p, s), run.state)
        }),
    decreases s.len(),
{
    if s.len() == 0 {
        assert(encode_all(p, s) =~= Seq::<int>::empty());
        assert(decode_all(d, encode_all(p, s)).out =~= s);
    } else {
        let c = s[0];
        let p1 = enc_next(p, c);
        let bs0 = enc_bytes(p, c);
        let rest = encode_all(p1, s.skip(1));
        lemma_round_trip_scalar(p, d, c);
        let run0 = decode_all(d, bs0);
        lemma_round_trip_stream(p1, run0.state, s.skip(1));
        lemma_decode_all_append(d, bs0, rest);
        let run = decode_all(d, bs0 + rest);
        assert(run.out =~= seq![c] + decode_all(run0.state, rest).out);
        assert(seq![c] + s.skip(1) =~= s);
    }
}

/// Round-trip: decoding the encoding of any stream of valid scalars, with
/// fresh encoder and decoder instances, yields exactly that stream and no
/// error.
pub proof fn lemma_round_trip(s: Seq<int>)
    requires
        forall|i: int| 0 <= i < s.len() ==> 0 <= #[trigger] s[i] <= BOCU1_MAX_SCALAR,
    ensures
        ({
            let run = decode_all(rx_init(), encode_all(0, s));
            &&& run.out == s
            &&& run.err is None
        }),
{
    lemma_round_trip_stream(0, rx_init(), s);
}

/// Determinism: the byte stream is a function of the starting state and
/// the scalar stream alone, so two independent encoders fed the same
/// scalars from the same state emit identical bytes.
pub proof fn lemma_encode_deterministic(p1: int, p2: int, s: Seq<int>)
    requires
        p1 == p2,
    ensures
        encode_all(p1, s) == encode_all(p2, s),
{
}

/// Control pass-through: a scalar in [0, 0x1f] encodes as exactly its own
/// single byte, and the reference value resets to the ASCII default.
pub proof fn lemma_control_passthrough(p: int, c: int)
    requires
        0 <= c <= 0x1f,
    ensures
        enc_bytes(p, c) == seq![c],
        enc_next(p, c) == BOCU1_ASCII_PREV as int,
{
}

/// Reset: a 0xff byte arriving at an idle decoder forces the reference
/// value back to the ASCII default and yields no scalar.  While trail
/// bytes are pending 0xff is an ordinary trail digit instead, so idleness
/// is essential here.
pub proof fn lemma_reset_idle(d: DecView)
    requires
        d.count == 0,
    ensures
        ({
            let st = decode_step(d, 0xff);
            &&& st.0.prev == BOCU1_ASCII_PREV as int
            &&& st.0.count == 0
            &&& st.1 == -1
        }),
{
}

/// Error recovery: whenever a step signals an error, the machine is idle
/// again with the ASCII reference value, so it is safe to keep feeding
/// bytes after an error.
pub proof fn lemma_error_recovers(s: DecView, b: int)
    requires
        rx_state_ok(s),
        0 <= b <= 255,
    ensures
        ({
            let st = decode_step(s, b);
            st.1 == -99 ==> st.0.count == 0 && st.0.prev == BOCU1_ASCII_PREV as int
        }),
{
}

/// Single-byte band: a scalar above the space whose distance from the
/// effective reference value is at most 63 encodes in exactly one byte.
pub proof fn lemma_single_byte_band(p: int, c: int)
    requires
        0x20 < c <= BOCU1_MAX_SCALAR,
        -63 <= c - eff_prev(p) <= 63,
    ensures
        enc_bytes(p, c).len() == 1,
{
}

} // verus!

