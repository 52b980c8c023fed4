//! The decoder: a state machine over `{Idle, AwaitingTrail(n)}` that
//! consumes one byte at a time and emits zero or one scalar, or an error.
//! It recovers from every error by resetting to Idle with the ASCII
//! reference value, so it is safe to keep feeding bytes afterwards.

use vstd::prelude::*;
use crate::band::{BOCU1_ASCII_PREV, BOCU1_MIN, BOCU1_MIDDLE, BOCU1_TRAIL_COUNT,
    BOCU1_TRAIL_COUNT_SQ, BOCU1_REACH_POS_1, BOCU1_REACH_NEG_1, BOCU1_REACH_POS_2,
    BOCU1_REACH_NEG_2, BOCU1_REACH_POS_3, BOCU1_START_POS_2, BOCU1_START_POS_3,
    BOCU1_START_POS_4, BOCU1_START_NEG_2, BOCU1_START_NEG_3, BOCU1_NEG_4_BASE,
    BOCU1_RESET, BOCU1_MAX_SCALAR, prev_in_range};
use crate::trail::{byte_to_trail, bocu1_byte_to_trail};
use crate::prev::{next_prev, bocu1_prev};
use crate::error::Bocu1Error;

verus! {

/// The decoder's abstract state: the rolling reference value, how many
/// trail bytes are still expected (zero means idle), and the difference
/// accumulated from the lead byte and the trail bytes seen so far.
pub ghost struct DecView {
    pub prev: int,
    pub count: int,
    pub diff: int,
}

/// The state of a freshly created decoder.
pub open spec fn rx_init() -> DecView {
    DecView { prev: 0, count: 0, diff: 0 }
}

/// A decoder state the machine can actually reach: the reference value is
/// the lazy zero or a bias-function value, at most three trail bytes are
/// pending, and the accumulated difference stays inside the bounds that
/// lead bytes and trail folding can produce.
pub open spec fn rx_state_ok(s: DecView) -> bool {
    &&& s.prev == 0 || prev_in_range(s.prev)
    &&& 0 <= s.count <= 3
    &&& (s.count >= 1 ==> prev_in_range(s.prev))
    &&& (s.count == 3 ==> BOCU1_NEG_4_BASE <= s.diff <= 187660)
    &&& (s.count == 2 ==> BOCU1_NEG_4_BASE <= s.diff <= 14477518)
    &&& (s.count == 1 ==> BOCU1_NEG_4_BASE <= s.diff <= 14536324)
}

/// What a lead byte announces: the base contribution to the difference and
/// the number of trail bytes that follow.
pub open spec fn lead_info(b: int) -> (int, int)
    recommends
        BOCU1_MIN <= b < BOCU1_RESET && !(BOCU1_START_NEG_2 <= b < BOCU1_START_POS_2),
{
    if b >= BOCU1_START_NEG_2 {
        if b < BOCU1_START_POS_3 {
            ((b - BOCU1_START_POS_2) * 243 + BOCU1_REACH_POS_1 + 1, 1)
        } else if b < BOCU1_START_POS_4 {
            ((b - BOCU1_START_POS_3) * 59049 + BOCU1_REACH_POS_2 + 1, 2)
        } else {
            (BOCU1_REACH_POS_3 + 1, 3)
        }
    } else {
        if b >= BOCU1_START_NEG_3 {
            ((b - BOCU1_START_NEG_2) * 243 + BOCU1_REACH_NEG_1, 1)
        } else if b > BOCU1_MIN {
            ((b - BOCU1_START_NEG_3) * 59049 + BOCU1_REACH_NEG_2, 2)
        } else {
            (BOCU1_NEG_4_BASE as int, 3)
        }
    }
}

/// One trail byte, in a state with `count >= 1` pending trail bytes: an
/// illegal byte resets to idle with an error; the last trail byte delivers
/// a scalar (or an error when the reconstruction leaves the valid range);
/// an intermediate one folds its digit into the difference.
pub open spec fn decode_trail(s: DecView, b: int) -> (DecView, int)
    recommends
        s.count >= 1,
{
    let t = byte_to_trail(b);
    if t < 0 {
        (DecView { prev: BOCU1_ASCII_PREV as int, count: 0, diff: s.diff }, -99)
    } else if s.count == 1 {
        let c = s.prev + s.diff + t;
        if 0 <= c <= BOCU1_MAX_SCALAR {
            (DecView { prev: next_prev(c), count: 0, diff: s.diff }, c)
        } else {
            (DecView { prev: BOCU1_ASCII_PREV as int, count: 0, diff: s.diff }, -99)
        }
    } else if s.count == 2 {
        (DecView { prev: s.prev, count: 1, diff: s.diff + t * 243 }, -1)
    } else {
        (DecView { prev: s.prev, count: 2, diff: s.diff + t * 59049 }, -1)
    }
}

/// One byte against the whole state machine.  A stored reference value of
/// zero first reads as the ASCII default (the lenient start-of-stream
/// case).  When idle: bytes at or below 0x20 pass through as scalars
/// (controls other than the space reset the reference value), bytes in the
/// single-byte band decode directly, 0xff resets, and anything else is a
/// lead byte.  Otherwise the byte is a trail byte.  The result is the new
/// state and the emitted scalar, -1 for none, -99 for an error.
pub open spec fn decode_step(s: DecView, b: int) -> (DecView, int)
    recommends
        0 <= b <= 255,
{
    let s0 = if s.prev == 0 {
        DecView { prev: BOCU1_ASCII_PREV as int, count: 0, diff: s.diff }
    } else {
        s
    };
    if s0.count == 0 {
        if b <= 0x20 {
            (
                DecView {
                    prev: if b == 0x20 {
                        s0.prev
                    } else {
                        BOCU1_ASCII_PREV as int
                    },
                    count: 0,
                    diff: s0.diff,
                },
                b,
            )
        } else if BOCU1_START_NEG_2 <= b < BOCU1_START_POS_2 {
            let c = s0.prev + (b - BOCU1_MIDDLE);
            (DecView { prev: next_prev(c), count: 0, diff: s0.diff }, c)
        } else if b == BOCU1_RESET {
            (DecView { prev: BOCU1_ASCII_PREV as int, count: 0, diff: s0.diff }, -1)
        } else {
            let info = lead_info(b);
            (DecView { prev: s0.prev, count: info.1, diff: info.0 }, -1)
        }
    } else {
        decode_trail(s0, b)
    }
}

/// State for the BOCU-1 decoder.
#[derive(Debug)]
pub struct Bocu1Rx {
    prev: i32,
    count: i32,
    diff: i32,
}

impl View for Bocu1Rx {
    type V = DecView;

    closed spec fn view(&self) -> DecView {
        DecView { prev: self.prev as int, count: self.count as int, diff: self.diff as int }
    }
}

impl Bocu1Rx {
    /// Create a decoder instance; the reference value initializes lazily
    /// on first use.
    pub fn new() -> (r: Self)
        ensures
            r@ == rx_init(),
            rx_state_ok(r@),
    {
        Bocu1Rx { prev: 0, count: 0, diff: 0 }
    }

    /// Classify a lead byte: record the band's base contribution and how
    /// many trail bytes to await.
    fn decode_bocu1_lead_byte(&mut self, b: i32) -> (r: i32)
        requires
            rx_state_ok(old(self)@),
            old(self)@.count == 0,
            prev_in_range(old(self)@.prev),
            BOCU1_MIN <= b < BOCU1_RESET,
            !(BOCU1_START_NEG_2 <= b < BOCU1_START_POS_2),
        ensures
            rx_state_ok(final(self)@),
            final(self)@.prev == old(self)@.prev,
            final(self)@.diff == lead_info(b as int).0,
            final(self)@.count == lead_info(b as int).1,
            r == -1,
    {
        let (c, count): (i32, i32) = if b >= BOCU1_START_NEG_2 {
            if b < BOCU1_START_POS_3 {
                ((b - BOCU1_START_POS_2) * BOCU1_TRAIL_COUNT + BOCU1_REACH_POS_1 + 1, 1)
            } else if b < BOCU1_START_POS_4 {
                ((b - BOCU1_START_POS_3) * BOCU1_TRAIL_COUNT_SQ + BOCU1_REACH_POS_2 + 1, 2)
            } else {
                (BOCU1_REACH_POS_3 + 1, 3)
            }
        } else {
            if b >= BOCU1_START_NEG_3 {
                ((b - BOCU1_START_NEG_2) * BOCU1_TRAIL_COUNT + BOCU1_REACH_NEG_1, 1)
            } else if b > BOCU1_MIN {
                ((b - BOCU1_START_NEG_3) * BOCU1_TRAIL_COUNT_SQ + BOCU1_REACH_NEG_2, 2)
            } else {
                (BOCU1_NEG_4_BASE, 3)
            }
        };

        self.diff = c;
        self.count = count;
        -1
    }

    /// Consume one trail byte: fold its digit into the difference, and on
    /// the last one deliver the reconstructed scalar or an error.
    fn decode_bocu1_trail_byte(&mut self, b: i32) -> (r: i32)
        requires
            rx_state_ok(old(self)@),
            old(self)@.count >= 1,
            0 <= b <= 255,
        ensures
            rx_state_ok(final(self)@),
            (final(self)@, r as int) == decode_trail(old(self)@, b as int),
            r == -99 || r == -1 || 0 <= r <= BOCU1_MAX_SCALAR,
    {
        let t = bocu1_byte_to_trail(b);
        if t < 0 {
            // illegal trail byte value
            self.prev = BOCU1_ASCII_PREV;
            self.count = 0;
            return -99;
        }

        let c = self.diff;
        let count = self.count;

        if count == 1 {
            // final trail byte, deliver a code point
            let c = self.prev + c + t;
            if 0 <= c && c <= BOCU1_MAX_SCALAR {
                self.prev = bocu1_prev(c);
                self.count = 0;
                c
            } else {
                self.prev = BOCU1_ASCII_PREV;
                self.count = 0;
                -99
            }
        } else {
            // intermediate trail byte
            if count == 2 {
                self.diff = c + t * BOCU1_TRAIL_COUNT;
            } else {
                self.diff = c + t * BOCU1_TRAIL_COUNT_SQ;
            }
            self.count = count - 1;
            -1
        }
    }

    /// Decode one byte.  Returns the emitted scalar, -1 for none (a trail
    /// byte still pending, or a reset), or -99 for an error, after which
    /// the decoder is idle again with the ASCII reference value.
    pub fn decode_bocu1(&mut self, b: u8) -> (r: i32)
        requires
            rx_state_ok(old(self)@),
        ensures
            rx_state_ok(final(self)@),
            (final(self)@, r as int) == decode_step(old(self)@, b as int),
            r == -99 || r == -1 || 0 <= r <= BOCU1_MAX_SCALAR,
    {
        let b = b as i32;
        if self.prev == 0 {
            // lenient handling of initial zero values
            self.prev = BOCU1_ASCII_PREV;
            self.count = 0;
        }

        if self.count == 0 {
            if b <= 0x20 {
                if b != 0x20 {
                    self.prev = BOCU1_ASCII_PREV;
                }
                b
            } else if BOCU1_START_NEG_2 <= b && b < BOCU1_START_POS_2 {
                let c = self.prev + (b - BOCU1_MIDDLE);
                self.prev = bocu1_prev(c);
                c
            } else if b == BOCU1_RESET {
                self.prev = BOCU1_ASCII_PREV;
                -1
            } else {
                self.decode_bocu1_lead_byte(b)
            }
        } else {
            self.decode_bocu1_trail_byte(b)
        }
    }
}

/// Which error a byte that makes `decode_step` fail stands for: a byte
/// with no trail digit is an illegal trail byte; otherwise the final
/// reconstruction left the valid range.
pub open spec fn err_of(b: int) -> Bocu1Error {
    if byte_to_trail(b) < 0 {
        Bocu1Error::IllegalTrailByte
    } else {
        Bocu1Error::IllegalCodePointResult
    }
}

/// The outcome of running a decoder over a byte stream: the final state,
/// the scalars emitted before any error, and the first error, if one
/// occurred (the run stops there).
pub ghost struct DecRun {
    pub state: DecView,
    pub out: Seq<int>,
    pub err: Option<Bocu1Error>,
}

/// Run the state machine over a whole byte stream, stopping at the first
/// error.
pub open spec fn decode_all(s: DecView, bs: Seq<int>) -> DecRun
    decreases bs.len(),
{
    if bs.len() == 0 {
        DecRun { state: s, out: Seq::empty(), err: None }
    } else {
        let step = decode_step(s, bs[0]);
        if step.1 < -1 {
            DecRun { state: step.0, out: Seq::empty(), err: Some(err_of(bs[0])) }
        } else {
            let rest = decode_all(step.0, bs.skip(1));
            DecRun {
                state: rest.state,
                out: if step.1 >= 0 {
                    seq![step.1] + rest.out
                } else {
                    rest.out
                },
                err: rest.err,
            }
        }
    }
}

/// Decoding distributes over concatenation, as long as the first part runs
/// without an error.
pub proof fn lemma_decode_all_append(s: DecView, b1: Seq<int>, b2: Seq<int>)
    requires
        decode_all(s, b1).err is None,
    ensures
        ({
            let r1 = decode_all(s, b1);
            let r2 = decode_all(r1.state, b2);
            decode_all(s, b1 + b2) == DecRun {
                state: r2.state,
                out: r1.out + r2.out,
                err: r2.err,
            }
        }),
    decreases b1.len(),
{
    let r1 = decode_all(s, b1);
    let r2 = decode_all(r1.state, b2);
    if b1.len() == 0 {
        assert(b1 + b2 =~= b2);
        assert(r1.out + r2.out =~= r2.out);
    } else {
        let step = decode_step(s, b1[0]);
        assert((b1 + b2)[0] == b1[0]);
        assert((b1 + b2).skip(1) =~= b1.skip(1) + b2);
        lemma_decode_all_append(step.0, b1.skip(1), b2);
        let q1 = decode_all(step.0, b1.skip(1));
        if step.1 >= 0 {
            assert((seq![step.1] + q1.out) + r2.out =~= seq![step.1] + (q1.out + r2.out));
        }
    }
}

/// Decode a whole byte stream with a fresh decoder; the compute core of
/// the file-to-file driver.  Returns the scalars, or the first decode
/// error, exactly as the state machine produces them.
pub fn decode_bytes(bytes: &Vec<u8>) -> (r: Result<Vec<u32>, Bocu1Error>)
    ensures
        ({
            let run = decode_all(rx_init(), bytes@.map_values(|b: u8| b as int));
            match r {
                Ok(out) => run.err is None && out@.map_values(|c: u32| c as int) == run.out,
                Err(e) => run.err == Some(e),
            }
        }),
{
    let ghost bs = bytes@.map_values(|b: u8| b as int);
    let mut rx = Bocu1Rx::new();
    let mut out: Vec<u32> = Vec::new();
    let mut i: usize = 0;
    proof {
        assert(bs.take(0) =~= Seq::<int>::empty());
        assert(out@.map_values(|c: u32| c as int) =~= Seq::<int>::empty());
    }
    while i < bytes.len()
        invariant
            0 <= i <= bytes.len(),
            bs == bytes@.map_values(|b: u8| b as int),
            rx_state_ok(rx@),
            decode_all(rx_init(), bs.take(i as int)) == (DecRun {
                state: rx@,
                out: out@.map_values(|c: u32| c as int),
                err: None::<Bocu1Error>,
            }),
        decreases bytes.len() - i,
    {
        let b = bytes[i];
        let ghost pre = rx@;
        let ghost out_pre = out@.map_values(|c: u32| c as int);
        let c = rx.decode_bocu1(b);
        proof {
            assert(bs[i as int] == b as int);
        }
        if c < -1 {
            proof {
                lemma_decode_all_append(rx_init(), bs.take(i as int), bs.skip(i as int));
                assert(bs.take(i as int) + bs.skip(i as int) =~= bs);
                assert(bs.skip(i as int)[0] == bs[i as int]);
            }
            let err = if b <= 0x20 && bocu1_byte_to_trail(b as i32) < 0 {
                Bocu1Error::IllegalTrailByte
            } else {
                Bocu1Error::IllegalCodePointResult
            };
            return Err(err);
        }
        proof {
            reveal_with_fuel(decode_all, 3);
            lemma_decode_all_append(rx_init(), bs.take(i as int), seq![b as int]);
            assert(bs.take(i as int + 1) =~= bs.take(i as int) + seq![b as int]);
            assert(seq![b as int][0] == b as int);
            assert(seq![b as int].skip(1) =~= Seq::<int>::empty());
            let step = decode_step(pre, b as int);
            assert(step.0 == rx@ && step.1 == c as int);
            assert(decode_all(pre, seq![b as int]) == (DecRun {
                state: rx@,
                out: if c >= 0 { seq![c as int] + Seq::<int>::empty() } else { Seq::<int>::empty() },
                err: None::<Bocu1Error>,
            }));
        }
        if c >= 0 {
            out.push(c as u32);
            proof {
                assert(out@.map_values(|x: u32| x as int) =~= out_pre.push(c as int));
                assert(out_pre.push(c as int) =~= out_pre + (seq![c as int] + Seq::<int>::empty()));
            }
        } else {
            proof {
                assert(out_pre + Seq::<int>::empty() =~= out_pre);
            }
        }
        proof {
            assert(decode_all(rx_init(), bs.take(i as int + 1)) == (DecRun {
                state: rx@,
                out: out@.map_values(|x: u32| x as int),
                err: None::<Bocu1Error>,
            }));
        }
        i = i + 1;
    }
    proof {
        assert(bs.take(bytes.len() as int) =~= bs);
    }
    Ok(out)
}

} // verus!
