//! The shared constants of the BOCU-1 byte layout: the trail-byte alphabet
//! size, the reach of each magnitude band, and the lead-byte start values.

use vstd::prelude::*;

verus! {

/// Initial value for "prev": middle of the ASCII range.
pub const BOCU1_ASCII_PREV: i32 = 0x40;

/// Smallest byte value used for lead and trail bytes.
pub const BOCU1_MIN: i32 = 0x21;

/// Middle of the single-byte difference band.
pub const BOCU1_MIDDLE: i32 = 0x90;

/// Largest byte value usable as a trail byte.
pub const BOCU1_MAX_TRAIL: i32 = 0xff;

/// Byte that resets the decoder's reference value without emitting a scalar.
pub const BOCU1_RESET: i32 = 0xff;

/// How many C0 control byte values double as trail bytes.
pub const BOCU1_TRAIL_CONTROLS_COUNT: i32 = 20;

/// Offset subtracted from a byte above 0x20 to obtain its trail digit:
/// `BOCU1_MIN - BOCU1_TRAIL_CONTROLS_COUNT`.
pub const BOCU1_TRAIL_BYTE_OFFSET: i32 = 13;

/// Number of trail-byte digits: the 223 bytes in [0x21, 0xff] plus the 20
/// control bytes that are re-used as trail bytes.
pub const BOCU1_TRAIL_COUNT: i32 = 243;

/// `BOCU1_TRAIL_COUNT` squared.
pub const BOCU1_TRAIL_COUNT_SQ: i32 = 59049;

/// `BOCU1_TRAIL_COUNT` cubed.
pub const BOCU1_TRAIL_COUNT_CUBE: i32 = 14348907;

/// Number of positive and negative single-byte codes
/// (counting 0 == `BOCU1_MIDDLE` among the positive ones).
pub const BOCU1_SINGLE: i32 = 64;

/// Number of lead bytes for positive and negative 2-byte sequences.
pub const BOCU1_LEAD_2: i32 = 43;

/// Number of lead bytes for positive and negative 3-byte sequences.
pub const BOCU1_LEAD_3: i32 = 3;

/// Largest difference encoded in a single byte: `BOCU1_SINGLE - 1`.
pub const BOCU1_REACH_POS_1: i32 = 63;

/// Smallest difference encoded in a single byte: `-BOCU1_SINGLE`.
pub const BOCU1_REACH_NEG_1: i32 = -64;

/// Largest difference encoded in two bytes:
/// `BOCU1_REACH_POS_1 + BOCU1_LEAD_2 * BOCU1_TRAIL_COUNT`.
pub const BOCU1_REACH_POS_2: i32 = 10512;

/// Smallest difference encoded in two bytes:
/// `BOCU1_REACH_NEG_1 - BOCU1_LEAD_2 * BOCU1_TRAIL_COUNT`.
pub const BOCU1_REACH_NEG_2: i32 = -10513;

/// Largest difference encoded in three bytes:
/// `BOCU1_REACH_POS_2 + BOCU1_LEAD_3 * BOCU1_TRAIL_COUNT_SQ`.
pub const BOCU1_REACH_POS_3: i32 = 187659;

/// Smallest difference encoded in three bytes:
/// `BOCU1_REACH_NEG_2 - BOCU1_LEAD_3 * BOCU1_TRAIL_COUNT_SQ`.
pub const BOCU1_REACH_NEG_3: i32 = -187660;

/// First lead byte of positive 2-byte sequences:
/// `BOCU1_MIDDLE + BOCU1_REACH_POS_1 + 1`.
pub const BOCU1_START_POS_2: i32 = 0xd0;

/// First lead byte of positive 3-byte sequences:
/// `BOCU1_START_POS_2 + BOCU1_LEAD_2`.
pub const BOCU1_START_POS_3: i32 = 0xfb;

/// Lead byte of positive 4-byte sequences:
/// `BOCU1_START_POS_3 + BOCU1_LEAD_3`.
pub const BOCU1_START_POS_4: i32 = 0xfe;

/// First lead byte (going down) of negative 2-byte sequences:
/// `BOCU1_MIDDLE + BOCU1_REACH_NEG_1`.
pub const BOCU1_START_NEG_2: i32 = 0x50;

/// First lead byte (going down) of negative 3-byte sequences:
/// `BOCU1_START_NEG_2 - BOCU1_LEAD_2`.
pub const BOCU1_START_NEG_3: i32 = 0x25;

/// Base contribution of the one negative 4-byte lead byte:
/// `-BOCU1_TRAIL_COUNT_CUBE + BOCU1_REACH_NEG_3`.
pub const BOCU1_NEG_4_BASE: i32 = -14536567;

/// Largest scalar value; the valid code points are `[0, BOCU1_MAX_SCALAR]`.
pub const BOCU1_MAX_SCALAR: i32 = 0x10ffff;

/// The bounds that every reference value the bias function can produce
/// obeys.
pub open spec fn prev_in_range(p: int) -> bool {
    BOCU1_ASCII_PREV <= p <= 0x10ffc0
}

} // verus!
