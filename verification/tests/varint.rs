use std::convert::TryFrom;

use quic::varint::{self, VarInt, VarIntExceeded, VarIntUnexpectedEof};

fn encoded(x: u64) -> Vec<u8> {
    let mut buf = Vec::new();
    VarInt::from_u64(x).unwrap().encode(&mut buf);
    buf
}

#[test]
fn from_u64_accepts_values_below_2_62() {
    assert!(VarInt::from_u64(0).is_ok());
    assert!(VarInt::from_u64((1 << 62) - 1).is_ok());
    assert_eq!(VarInt::from_u64(1 << 62), Err(VarIntExceeded));
    assert_eq!(VarInt::from_u64(u64::MAX), Err(VarIntExceeded));
}

#[test]
fn size_boundaries() {
    assert_eq!(VarInt::from_u64(0).unwrap().size(), 1);
    assert_eq!(VarInt::from_u64(63).unwrap().size(), 1);
    assert_eq!(VarInt::from_u64(64).unwrap().size(), 2);
    assert_eq!(VarInt::from_u64(16383).unwrap().size(), 2);
    assert_eq!(VarInt::from_u64(16384).unwrap().size(), 4);
    assert_eq!(VarInt::from_u64((1 << 30) - 1).unwrap().size(), 4);
    assert_eq!(VarInt::from_u64(1 << 30).unwrap().size(), 8);
    assert_eq!(VarInt::from_u64((1 << 62) - 1).unwrap().size(), 8);
}

#[test]
fn encode_rfc_examples() {
    assert_eq!(encoded(151288809941952652), vec![0xc2, 0x19, 0x7c, 0x5e, 0xff, 0x14, 0xe8, 0x8c]);
    assert_eq!(encoded(494878333), vec![0x9d, 0x7f, 0x3e, 0x7d]);
    assert_eq!(encoded(15293), vec![0x7b, 0xbd]);
    assert_eq!(encoded(37), vec![0x25]);
}

#[test]
fn decode_rfc_examples() {
    let mut b: &[u8] = &[0xc2, 0x19, 0x7c, 0x5e, 0xff, 0x14, 0xe8, 0x8c, 0xaa];
    assert_eq!(u64::from(VarInt::decode(&mut b).unwrap()), 151288809941952652);
    assert_eq!(b, &[0xaa]);
    let mut b: &[u8] = &[0x9d, 0x7f, 0x3e, 0x7d];
    assert_eq!(u64::from(VarInt::decode(&mut b).unwrap()), 494878333);
    assert!(b.is_empty());
    let mut b: &[u8] = &[0x7b, 0xbd];
    assert_eq!(u64::from(VarInt::decode(&mut b).unwrap()), 15293);
    let mut b: &[u8] = &[0x25];
    assert_eq!(u64::from(VarInt::decode(&mut b).unwrap()), 37);
    // A non-minimal two-byte encoding of 37.
    let mut b: &[u8] = &[0x40, 0x25];
    assert_eq!(u64::from(VarInt::decode(&mut b).unwrap()), 37);
    assert!(b.is_empty());
}

#[test]
fn decode_short_input() {
    let mut b: &[u8] = &[];
    assert_eq!(VarInt::decode(&mut b), Err(VarIntUnexpectedEof));
    // The first byte announces eight bytes but only three follow it; the first
    // byte is consumed.
    let mut b: &[u8] = &[0xc2, 0x19, 0x7c, 0x5e];
    assert_eq!(VarInt::decode(&mut b), Err(VarIntUnexpectedEof));
    assert_eq!(b, &[0x19, 0x7c, 0x5e]);
    let mut b: &[u8] = &[0x7b];
    assert_eq!(varint::decode(&mut b), Err(VarIntUnexpectedEof));
    assert!(b.is_empty());
}

#[test]
fn roundtrip_values() {
    for &x in &[0u64, 1, 63, 64, 300, 16383, 16384, 1 << 20, (1 << 30) - 1, 1 << 30, (1 << 62) - 1] {
        let mut bytes = encoded(x);
        assert_eq!(bytes.len(), VarInt::from_u64(x).unwrap().size());
        bytes.extend_from_slice(&[1, 2, 3]);
        let mut b: &[u8] = &bytes;
        assert_eq!(u64::from(varint::decode(&mut b).unwrap()), x);
        assert_eq!(b, &[1, 2, 3]);
    }
}

#[test]
fn free_encode_function() {
    let mut buf = vec![9];
    varint::encode(15293, &mut buf);
    assert_eq!(buf, vec![9, 0x7b, 0xbd]);
}

#[test]
fn conversions() {
    assert_eq!(u64::from(VarInt::from(7u8)), 7);
    assert_eq!(u64::from(VarInt::from(65535u16)), 65535);
    assert_eq!(u64::from(VarInt::from(u32::MAX)), u32::MAX as u64);
    assert_eq!(VarInt::try_from(5u64).map(u64::from), Ok(5));
    assert_eq!(VarInt::try_from(1u64 << 62), Err(VarIntExceeded));
    assert_eq!(VarInt::try_from(1u128 << 64), Err(VarIntExceeded));
    assert_eq!(VarInt::try_from(12345u128).map(u64::from), Ok(12345));
    assert_eq!(VarInt::try_from(99usize).map(u64::from), Ok(99));
    assert_eq!(VarInt::from_u64_unchecked(42), VarInt::from_u64(42).unwrap());
}
