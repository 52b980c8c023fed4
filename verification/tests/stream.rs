//! Tests of the stream-level helpers that drive a whole scalar or byte
//! sequence through fresh codec instances.

use bocu1::{decode_bytes, encode_scalars, Bocu1Error};

const HIRAGANA_SCALARS: [i32; 6] = [0x3042, 0x3044, 0x3046, 0x3048, 0x304a, 0x0a];
const HIRAGANA_BYTES: [u8; 8] = [0xfb, 0x11, 0x59, 0x64, 0x66, 0x68, 0x6a, 0x0a];

#[test]
fn encode_scalars_hiragana() {
    let scalars: Vec<i32> = HIRAGANA_SCALARS.to_vec();
    assert_eq!(encode_scalars(&scalars), Ok(HIRAGANA_BYTES.to_vec()));
}

#[test]
fn decode_bytes_hiragana() {
    let bytes: Vec<u8> = HIRAGANA_BYTES.to_vec();
    let scalars: Vec<u32> = HIRAGANA_SCALARS.iter().map(|&c| c as u32).collect();
    assert_eq!(decode_bytes(&bytes), Ok(scalars));
}

#[test]
fn stream_round_trip() {
    let scalars: Vec<i32> = vec![
        0x41, 0x3042, 0x300c, 0x4e8c, 0xac01, 0x1f600, 0x21, 0x10ffff, 0x41, 0x20, 0x7f, 0x0a,
    ];
    let bytes = encode_scalars(&scalars).unwrap();
    let decoded = decode_bytes(&bytes).unwrap();
    let expected: Vec<u32> = scalars.iter().map(|&c| c as u32).collect();
    assert_eq!(decoded, expected);
}

#[test]
fn encode_scalars_rejects_invalid() {
    let scalars: Vec<i32> = vec![0x41, 0x110000, 0x42];
    assert_eq!(encode_scalars(&scalars), Err(Bocu1Error::InvalidCodePoint));
    let scalars: Vec<i32> = vec![-1];
    assert_eq!(encode_scalars(&scalars), Err(Bocu1Error::InvalidCodePoint));
}

#[test]
fn decode_bytes_reports_illegal_trail() {
    let bytes: Vec<u8> = vec![0xd0, 0x20];
    assert_eq!(decode_bytes(&bytes), Err(Bocu1Error::IllegalTrailByte));
}

#[test]
fn decode_bytes_reports_out_of_range_result() {
    let bytes: Vec<u8> = vec![0xfe, 0x19, 0xb4, 0x55];
    assert_eq!(decode_bytes(&bytes), Err(Bocu1Error::IllegalCodePointResult));
    let bytes: Vec<u8> = vec![0x21, 0xff, 0xff, 0xff];
    assert_eq!(decode_bytes(&bytes), Err(Bocu1Error::IllegalCodePointResult));
}

#[test]
fn decode_bytes_aborts_on_first_error() {
    // Scalars decoded before the first error are dropped with the error
    // report; the stream driver aborts there.
    let bytes: Vec<u8> = vec![0x91, 0xd0, 0x20];
    assert_eq!(decode_bytes(&bytes), Err(Bocu1Error::IllegalTrailByte));
}

#[test]
fn decode_bytes_ignores_reset_bytes() {
    let bytes: Vec<u8> = vec![0xff, 0x91, 0xff, 0x91];
    assert_eq!(decode_bytes(&bytes), Ok(vec![0x41, 0x41]));
}
