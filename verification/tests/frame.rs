use std::ops::Range;

use bytes::Bytes;

use quic::frame::{Ack, EcnCounts, Frame, Type};
use quic::range_set::ArrayRangeSet;
use quic::varint::VarInt;

#[test]
fn frame_types() {
    assert_eq!(u64::from(Type::ack()), 0x02);
    assert_eq!(u64::from(Type::ack_ecn()), 0x03);
}

#[test]
fn ecn_counts_encode() {
    let e = EcnCounts { ect0: 1, ect1: 64, ce: 15293 };
    let mut buf = Vec::new();
    e.encode(&mut buf);
    assert_eq!(buf, vec![0x01, 0x40, 0x40, 0x7b, 0xbd]);
}

#[test]
fn ack_single_range() {
    let ranges: Vec<Range<u64>> = vec![5..10];
    let mut buf = Vec::new();
    Ack::encode_ranges(3, &ranges, None, &mut buf);
    // type, largest 9, delay 3, 0 more ranges, first range length 5 - 1.
    assert_eq!(buf, vec![0x02, 9, 3, 0, 4]);
}

#[test]
fn ack_several_ranges_with_ecn() {
    let ranges: Vec<Range<u64>> = vec![0..2, 5..7, 10..20];
    let ecn = EcnCounts { ect0: 1, ect1: 2, ce: 3 };
    let mut buf = vec![0xaa];
    Ack::encode_ranges(100, &ranges, Some(&ecn), &mut buf);
    assert_eq!(
        buf,
        vec![
            0xaa, 0x03, 19, 0x40, 100, 2, 9, // type, largest, delay, count, first length
            10 - 7 - 1, 7 - 5 - 1, // gap to 5..7 and its length
            5 - 2 - 1, 2 - 0 - 1, // gap to 0..2 and its length
            1, 2, 3,
        ]
    );
}

#[test]
fn empty_range_set() {
    let set = ArrayRangeSet::default();
    assert_eq!(set.len(), 0);
    assert!(set.iter().is_empty());
}

#[test]
fn frames_hold_acks() {
    let f = Frame::Ack(Ack { largest: 9, delay: 3, additional: Bytes::new(), ecn: None });
    match f {
        Frame::Ack(a) => {
            assert_eq!(a.largest, 9);
            assert_eq!(a.delay, 3);
        }
        _ => panic!("not an ACK frame"),
    }
    assert!(matches!(Frame::Ping, Frame::Ping));
    assert!(matches!(Frame::Padding, Frame::Padding));
}

#[test]
fn ack_fields_rebuild_the_ranges() {
    let ranges: Vec<Range<u64>> = vec![3..4, 8..100, 200..70000];
    let mut buf = Vec::new();
    Ack::encode_ranges(7, &ranges, None, &mut buf);
    let mut r: &[u8] = &buf;
    let mut next = || u64::from(VarInt::decode(&mut r).unwrap());
    assert_eq!(next(), 0x02);
    let largest = next();
    assert_eq!(next(), 7);
    let count = next();
    let first_len = next();
    let mut rebuilt = vec![largest - first_len..largest + 1];
    let mut smallest = largest - first_len;
    for _ in 0..count {
        let gap = next();
        let len = next();
        let end = smallest - gap - 1;
        let start = end - len - 1;
        rebuilt.insert(0, start..end);
        smallest = start;
    }
    assert_eq!(rebuilt, ranges);
    assert!(r.is_empty());
}
