use quic::stream_id::{StreamId, StreamType};
use quic::varint::VarInt;

#[test]
fn new_and_id() {
    let s = StreamId::new(StreamType::ClientUnidirectional, 5);
    assert_eq!(u64::from(VarInt::from(s)), 5 * 4 + 2);
    assert_eq!(s.id(), 5);
    let s = StreamId::new(StreamType::ServerUnidirectional, 1);
    assert_eq!(u64::from(VarInt::from(s)), 7);
    assert_eq!(s.id(), 1);
}

#[test]
fn new_shifts_out_high_bits() {
    let s = StreamId::new(StreamType::ClientBidirectional, u64::MAX);
    assert_eq!(u64::from(VarInt::from(s)), u64::MAX << 2);
    assert_eq!(s.id(), u64::MAX >> 2);
}

#[test]
fn stream_type_reads_two_low_bits() {
    assert_eq!(StreamId::new(StreamType::ClientBidirectional, 3).stream_type(), StreamType::ClientBidirectional);
    assert_eq!(StreamId::new(StreamType::ClientUnidirectional, 3).stream_type(), StreamType::ClientUnidirectional);
    assert_eq!(StreamId::new(StreamType::ServerBidirectional, 3).stream_type(), StreamType::ServerBidirectional);
    assert_eq!(StreamId::new(StreamType::ServerUnidirectional, 3).stream_type(), StreamType::ServerUnidirectional);
    // The raw id 29 (0b11101) is the eighth server-bidirectional stream.
    let s = StreamId::new(StreamType::ServerBidirectional, 7);
    assert_eq!(u64::from(VarInt::from(s)), 29);
    assert_eq!(s.stream_type(), StreamType::ServerBidirectional);
}

#[test]
fn varint_roundtrip() {
    let s = StreamId::new(StreamType::ServerBidirectional, 77);
    assert_eq!(StreamId::from(VarInt::from(s)), s);
    let v = VarInt::from_u64(9).unwrap();
    assert_eq!(StreamId::from(v).id(), 2);
}

#[test]
fn display() {
    assert_eq!(StreamId::new(StreamType::ClientUnidirectional, 12).display(), "client unidirectional stream 12");
    assert_eq!(StreamId::new(StreamType::ClientBidirectional, 0).display(), "client bidirectional stream 0");
    assert_eq!(StreamId::new(StreamType::ServerUnidirectional, 5).display(), "server unidirectional stream 5");
    assert_eq!(StreamId::new(StreamType::ServerBidirectional, 1234567).display(), "server bidirectional stream 1234567");
    assert_eq!(StreamType::ServerBidirectional.description(), "server bidirectional");
    assert_eq!(StreamType::ServerUnidirectional.description(), "server unidirectional");
}

#[test]
fn stream_id_from_varint_keeps_raw_value() {
    let s = StreamId::new(StreamType::ServerUnidirectional, 5);
    assert_eq!(u64::from(VarInt::from(s)), 23);
    assert_eq!(s, StreamId::from(VarInt::from(23u8)));
    assert_eq!(StreamId::from(VarInt::from(s)), s);
}
