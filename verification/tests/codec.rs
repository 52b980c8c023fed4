//! Tests of the per-scalar encoder and per-byte decoder.

use bocu1::{Bocu1Rx, Bocu1Tx};

fn encode_seq(scalars: &[i32]) -> Vec<u8> {
    let mut tx = Bocu1Tx::new();
    let mut out: Vec<u8> = Vec::new();
    for &c in scalars {
        let mut bytes = tx.encode_bocu1_as_vec(c);
        out.append(&mut bytes);
    }
    out
}

fn decode_seq(bytes: &[u8]) -> Vec<i32> {
    let mut rx = Bocu1Rx::new();
    let mut out: Vec<i32> = Vec::new();
    for &b in bytes {
        let c = rx.decode_bocu1(b);
        assert!(c >= -1, "unexpected decode error on byte 0x{:02x}", b);
        if c >= 0 {
            out.push(c);
        }
    }
    out
}

const HIRAGANA_SCALARS: [i32; 6] = [0x3042, 0x3044, 0x3046, 0x3048, 0x304a, 0x0a];
const HIRAGANA_BYTES: [u8; 8] = [0xfb, 0x11, 0x59, 0x64, 0x66, 0x68, 0x6a, 0x0a];

#[test]
fn encode_hiragana_vector() {
    assert_eq!(encode_seq(&HIRAGANA_SCALARS), HIRAGANA_BYTES.to_vec());
}

#[test]
fn decode_hiragana_vector() {
    assert_eq!(decode_seq(&HIRAGANA_BYTES), HIRAGANA_SCALARS.to_vec());
}

#[test]
fn control_bytes_pass_through() {
    for c in 0..0x20 {
        let mut tx = Bocu1Tx::new();
        assert_eq!(tx.encode_bocu1_as_vec(c), vec![c as u8]);
    }
}

#[test]
fn control_byte_resets_prev() {
    let mut tx = Bocu1Tx::new();
    // Move the reference value far away, then hand over a control scalar.
    tx.encode_bocu1(0x3042);
    tx.encode_bocu1(0x01);
    // After the reset, 0x41 sits one above the ASCII default again.
    assert_eq!(tx.encode_bocu1_as_vec(0x41), vec![0x91]);
}

#[test]
fn space_keeps_prev() {
    let mut tx = Bocu1Tx::new();
    assert_eq!(tx.encode_bocu1_as_vec(0x61), vec![0xb1]);
    assert_eq!(tx.encode_bocu1_as_vec(0x20), vec![0x20]);
    // The space did not disturb the reference value 0x40.
    assert_eq!(tx.encode_bocu1_as_vec(0x62), vec![0xb2]);
}

#[test]
fn single_byte_band() {
    // From the fresh reference value 0x40, everything within 63 of it and
    // above the space takes exactly one byte.
    for c in [0x21, 0x40, 0x41, 0x7f] {
        let mut tx = Bocu1Tx::new();
        let bytes = tx.encode_bocu1_as_vec(c);
        assert_eq!(bytes.len(), 1, "scalar 0x{:x}", c);
        assert_eq!(bytes[0] as i32, 0x90 + (c - 0x40));
    }
}

#[test]
fn encoding_is_deterministic() {
    let scalars = [0x48, 0x3042, 0x4e8c, 0x20, 0x1f600, 0x0a];
    assert_eq!(encode_seq(&scalars), encode_seq(&scalars));
}

#[test]
fn round_trip_all_bands() {
    // Covers literal bytes, the single-byte band, and the positive and
    // negative 2-, 3- and 4-byte bands.
    let scalars = [
        0x41, 0x3042, 0x300c, 0x4e8c, 0xac01, 0x1f600, 0x21, 0x10ffff, 0x41, 0x20, 0x7f, 0x0a,
    ];
    let bytes = encode_seq(&scalars);
    let expected: [u8; 28] = [
        0x91, 0xfb, 0x11, 0x59, 0x4f, 0xdc, 0xef, 0xac, 0xfb, 0x16, 0x88, 0xfc, 0x33, 0x70,
        0x23, 0x01, 0x51, 0xfe, 0x19, 0xb4, 0x54, 0x21, 0xf0, 0x58, 0xf9, 0x20, 0xcf, 0x0a,
    ];
    assert_eq!(bytes, expected.to_vec());
    assert_eq!(decode_seq(&bytes), scalars.to_vec());
}

#[test]
fn round_trip_every_scalar_from_fresh_state() {
    // One scalar per 128-block across the whole space, each with fresh
    // instances.
    let mut c: i32 = 0;
    while c <= 0x10ffff {
        let bytes = encode_seq(&[c]);
        assert!(bytes.len() >= 1 && bytes.len() <= 4);
        assert_eq!(decode_seq(&bytes), vec![c], "scalar 0x{:x}", c);
        c += 127;
    }
}

#[test]
fn encode_rejects_invalid_scalar() {
    let mut tx = Bocu1Tx::new();
    assert_eq!(tx.encode_bocu1(-1), 0);
    assert_eq!(tx.encode_bocu1(0x110000), 0);
    assert_eq!(tx.encode_bocu1_as_vec(0x110000), Vec::<u8>::new());
    // The failed calls left the encoder state alone.
    assert_eq!(tx.encode_bocu1_as_vec(0x41), vec![0x91]);
}

#[test]
fn reset_byte_on_idle_decoder() {
    let mut rx = Bocu1Rx::new();
    assert_eq!(rx.decode_bocu1(0xff), -1);
    // Back to the ASCII default: 0x91 decodes as 0x41.
    assert_eq!(rx.decode_bocu1(0x91), 0x41);
}

#[test]
fn reset_byte_after_text() {
    let mut rx = Bocu1Rx::new();
    for b in HIRAGANA_BYTES {
        rx.decode_bocu1(b);
    }
    assert_eq!(rx.decode_bocu1(0xff), -1);
    assert_eq!(rx.decode_bocu1(0x91), 0x41);
}

#[test]
fn illegal_trail_byte_is_an_error() {
    let mut rx = Bocu1Rx::new();
    // 0xd0 is a two-byte lead; the space cannot be a trail byte.
    assert_eq!(rx.decode_bocu1(0xd0), -1);
    assert_eq!(rx.decode_bocu1(0x20), -99);
    // The decoder recovered to idle with the ASCII default.
    assert_eq!(rx.decode_bocu1(0x91), 0x41);
}

#[test]
fn reset_bytes_inside_group_surface_an_error() {
    // A four-byte negative lead followed by 0xff trail digits reconstructs
    // a value below zero, which must surface as an error, not be swallowed.
    let mut rx = Bocu1Rx::new();
    assert_eq!(rx.decode_bocu1(0x21), -1);
    assert_eq!(rx.decode_bocu1(0xff), -1);
    assert_eq!(rx.decode_bocu1(0xff), -1);
    assert_eq!(rx.decode_bocu1(0xff), -99);
    // Recovered afterwards.
    assert_eq!(rx.decode_bocu1(0x91), 0x41);
}

#[test]
fn reconstruction_boundary() {
    // These four bytes reconstruct exactly 0x10ffff from a fresh decoder.
    let mut rx = Bocu1Rx::new();
    assert_eq!(rx.decode_bocu1(0xfe), -1);
    assert_eq!(rx.decode_bocu1(0x19), -1);
    assert_eq!(rx.decode_bocu1(0xb4), -1);
    assert_eq!(rx.decode_bocu1(0x54), 0x10ffff);

    // One more reconstructs 0x110000, which is out of range.
    let mut rx = Bocu1Rx::new();
    assert_eq!(rx.decode_bocu1(0xfe), -1);
    assert_eq!(rx.decode_bocu1(0x19), -1);
    assert_eq!(rx.decode_bocu1(0xb4), -1);
    assert_eq!(rx.decode_bocu1(0x55), -99);
}

#[test]
fn nul_byte_is_pass_through_even_at_stream_start() {
    // A literal NUL byte decodes to scalar zero regardless of the lazily
    // initialized reference value.
    let mut rx = Bocu1Rx::new();
    assert_eq!(rx.decode_bocu1(0x00), 0);
    let mut rx = Bocu1Rx::new();
    rx.decode_bocu1(0x91);
    assert_eq!(rx.decode_bocu1(0x00), 0);
}
