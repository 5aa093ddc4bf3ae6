use bytes::{Bytes, BytesMut};
use rustls::quic::{Keys, Version};
use rustls::Side;

use quic::crypto::{HeaderKey, PayloadKey};
use quic::packet::{ConnectionId, Header, LongHeaderType, PacketNumber};
use quic::varint::VarInt;

#[test]
fn long_header_type_bytes() {
    assert_eq!(u8::from(LongHeaderType::Initial), 0xc0);
    assert_eq!(u8::from(LongHeaderType::ZeroRTT), 0xd0);
    assert_eq!(u8::from(LongHeaderType::Handshake), 0xe0);
    assert_eq!(u8::from(LongHeaderType::Retry), 0xf0);
}

#[test]
fn connection_id_encode_decode() {
    let cid = ConnectionId::new(&[1, 2, 3, 4]);
    let mut buf = Vec::new();
    cid.encode(&mut buf);
    assert_eq!(buf, vec![4, 1, 2, 3, 4]);
    buf.push(0xee);
    let mut r: &[u8] = &buf;
    assert_eq!(ConnectionId::decode(&mut r), Some(cid));
    assert_eq!(r, &[0xee]);
}

#[test]
fn connection_id_decode_rejects() {
    // Length above 20.
    let mut r: &[u8] = &[21, 0, 0];
    assert_eq!(ConnectionId::decode(&mut r), None);
    assert_eq!(r, &[0, 0]);
    // Fewer bytes than announced.
    let mut r: &[u8] = &[3, 7, 7];
    assert_eq!(ConnectionId::decode(&mut r), None);
    assert_eq!(r, &[7, 7]);
    // Empty id.
    let mut r: &[u8] = &[0, 9];
    assert_eq!(ConnectionId::decode(&mut r), Some(ConnectionId::new(&[])));
    assert_eq!(r, &[9]);
}

#[test]
fn connection_id_from_buf() {
    let mut r: &[u8] = &[5, 6, 7, 8];
    let cid = ConnectionId::from_buf(&mut r, 3);
    assert_eq!(cid, ConnectionId::new(&[5, 6, 7]));
    assert_eq!(r, &[8]);
}

#[test]
fn connection_id_display_shows_all_storage() {
    let cid = ConnectionId::new(&[0xab, 0x01]);
    assert_eq!(cid.display(), format!("ab01{}", "00".repeat(18)));
}

#[test]
fn packet_number_new_sizes() {
    assert_eq!(PacketNumber::new(10, 0), PacketNumber::U8(10));
    assert_eq!(PacketNumber::new(200, 100), PacketNumber::U8(200));
    assert_eq!(PacketNumber::new(300, 100), PacketNumber::U16(300));
    assert_eq!(PacketNumber::new(0xac5c02, 0xabe8b3), PacketNumber::U16(0x5c02));
    assert_eq!(PacketNumber::new(0xace8fe, 0xabe8b3), PacketNumber::U24(0xace8fe));
    assert_eq!(PacketNumber::new(0x1_0000_0000, 0x1_0000_0000 - 0x0100_0000), PacketNumber::U32(0));
    // The 3-byte form keeps the three least significant bytes.
    assert_eq!(PacketNumber::new(0x4000010, 0x3ff8010), PacketNumber::U24(0x10));
    assert_eq!(PacketNumber::new(0x4000010, 0x3ff8010).full(0x3ff8011), 0x4000010);
    assert_eq!(PacketNumber::new(5, 5).len(), 1);
    assert_eq!(PacketNumber::U24(1).len(), 3);
    assert_eq!(PacketNumber::U32(1).len(), 4);
}

#[test]
fn packet_number_wire() {
    let mut w = Vec::new();
    PacketNumber::U8(0x12).encode(&mut w);
    PacketNumber::U16(0x3456).encode(&mut w);
    PacketNumber::U24(0x789abc).encode(&mut w);
    PacketNumber::U32(0xdeadbeef).encode(&mut w);
    assert_eq!(w, vec![0x12, 0x34, 0x56, 0x78, 0x9a, 0xbc, 0xde, 0xad, 0xbe, 0xef]);
    let mut r: &[u8] = &w;
    assert_eq!(PacketNumber::decode(1, &mut r), Ok(PacketNumber::U8(0x12)));
    assert_eq!(PacketNumber::decode(2, &mut r), Ok(PacketNumber::U16(0x3456)));
    assert_eq!(PacketNumber::decode(3, &mut r), Ok(PacketNumber::U24(0x789abc)));
    assert_eq!(PacketNumber::decode(4, &mut r), Ok(PacketNumber::U32(0xdeadbeef)));
    assert!(r.is_empty());
}

#[test]
fn packet_number_full_rfc_example() {
    // RFC 9000, A.3: largest received 0xa82f30ea, truncated 0x9b32.
    assert_eq!(PacketNumber::U16(0x9b32).full(0xa82f30eb), 0xa82f9b32);
}

#[test]
fn packet_number_full_window_edges() {
    // Candidate far below the expected number: one window up.
    assert_eq!(PacketNumber::U8(0x01).full(0x1ff), 0x201);
    // Candidate far above the expected number: one window down.
    assert_eq!(PacketNumber::U8(0xff).full(0x201), 0x1ff);
    // Candidate within half a window.
    assert_eq!(PacketNumber::U8(0x10).full(0x105), 0x110);
    assert_eq!(PacketNumber::U8(0x05).full(0), 5);
    // Moving up is not taken when it would reach 2^62.
    assert_eq!(PacketNumber::U8(0).full((1 << 62) - 1), (1 << 62) - 256);
}

#[test]
fn packet_number_roundtrip_through_wire() {
    for &(n, largest) in &[(0u64, 0u64), (1000, 990), (0xac5c02, 0xabe8b3), (0xace8fe, 0xabe8b3), (1 << 40, (1 << 40) - 100000)] {
        let p = PacketNumber::new(n, largest);
        let mut w = Vec::new();
        p.encode(&mut w);
        let mut r: &[u8] = &w;
        let q = PacketNumber::decode(p.len(), &mut r).unwrap();
        assert_eq!(q.full(largest + 1), n);
        assert_eq!(p.full(largest + 1), n);
    }
}

fn initial_header(token: &'static [u8], number: PacketNumber) -> Header {
    Header::Initial {
        number,
        version: 1,
        dst_cid: ConnectionId::new(&[0x83, 0x94, 0xc8, 0xf0, 0x3e, 0x51, 0x57, 0x08]),
        src_cid: ConnectionId::new(&[]),
        token: Bytes::from_static(token),
    }
}

#[test]
fn initial_header_encode() {
    let header = initial_header(b"tk", PacketNumber::U16(2));
    let mut w = vec![0xff];
    let partial = header.encode(&mut w);
    assert_eq!(partial.start, 1);
    assert_eq!(partial.header_len, w.len() - 1);
    assert_eq!(
        w,
        vec![
            0xff, 0xc1, 0, 0, 0, 1, 8, 0x83, 0x94, 0xc8, 0xf0, 0x3e, 0x51, 0x57, 0x08, 0, 2, b't',
            b'k', 0, 0, 0, 2
        ]
    );
}

#[test]
fn partial_encode_protects_and_decrypts() {
    let dcid = [0x83, 0x94, 0xc8, 0xf0, 0x3e, 0x51, 0x57, 0x08];
    let client = Keys::initial(Version::V1, &dcid, Side::Client);
    let server = Keys::initial(Version::V1, &dcid, Side::Server);

    let number = PacketNumber::U16(2);
    let header = initial_header(b"", number);
    let mut w = Vec::new();
    let partial = header.encode(&mut w);
    let header_len = partial.header_len;
    let plain_header = w.clone();
    let payload: Vec<u8> = (0u8..40).collect();
    w.extend_from_slice(&payload);
    w.extend_from_slice(&[0u8; 16]);
    let total = w.len();
    let pn_pos = header_len - number.len();

    partial.encode(&mut w, &client.local.header, Some((2, &client.local.packet as &dyn PayloadKey)));
    assert_eq!(w.len(), total);
    // The length field: packet number, payload and tag, as a two-byte varint.
    let mut field: &[u8] = &w[pn_pos - 2..pn_pos];
    assert_eq!(u64::from(VarInt::decode(&mut field).unwrap()), (total - pn_pos) as u64);
    // Header protection changed the protected bits of the first byte or the
    // packet number (with overwhelming likelihood), payload encryption the payload.
    assert_ne!(&w[header_len..header_len + 40], &payload[..]);
    assert!(w[0] != plain_header[0] || w[pn_pos..header_len] != plain_header[pn_pos..header_len]);
    // Header protection of a long header masks only the low four bits of the first byte.
    assert_eq!(w[0] & 0xf0, plain_header[0] & 0xf0);

    // The server removes header protection, then payload protection.
    server.remote.header.decrypt(pn_pos, &mut w);
    let mut expected_header = plain_header.clone();
    expected_header[pn_pos - 2] = w[pn_pos - 2];
    expected_header[pn_pos - 1] = w[pn_pos - 1];
    assert_eq!(&w[..header_len], &expected_header[..]);
    let mut body = BytesMut::from(&w[header_len..]);
    assert!(server.remote.packet.decrypt(2, &w[..header_len], &mut body).is_ok());
    assert_eq!(&body[..], &payload[..]);
}

#[test]
fn payload_decrypt_rejects_tampering() {
    let dcid = [1u8, 2, 3, 4, 5, 6, 7, 8];
    let client = Keys::initial(Version::V1, &dcid, Side::Client);
    let server = Keys::initial(Version::V1, &dcid, Side::Server);
    let header = [0xc0u8, 0, 0, 0, 1];
    let mut buf = header.to_vec();
    buf.extend_from_slice(b"hello world");
    buf.extend_from_slice(&[0u8; 16]);
    PayloadKey::encrypt(&client.local.packet, 7, &mut buf, header.len());
    let mut body = BytesMut::from(&buf[header.len()..]);
    let last = body.len() - 1;
    body[last] ^= 1;
    assert!(server.remote.packet.decrypt(7, &header, &mut body).is_err());
    assert_eq!(body.len(), 11 + 16);
    assert_eq!(PayloadKey::tag_len(&client.local.packet), 16);
    assert_eq!(HeaderKey::sample_size(&client.local.header), 16);
    assert_eq!(PayloadKey::confidentiality_limit(&client.local.packet), 1 << 23);
    assert_eq!(PayloadKey::integrity_limit(&client.local.packet), 1 << 52);
}

#[test]
fn partial_encode_without_length_field_work() {
    // A header encoded for a packet number, then completed with header
    // protection only: the length field is written, the payload left alone.
    let dcid = [9u8; 8];
    let client = Keys::initial(Version::V1, &dcid, Side::Client);
    let number = PacketNumber::U8(1);
    let header = initial_header(b"", number);
    let mut w = Vec::new();
    let partial = header.encode(&mut w);
    let header_len = partial.header_len;
    w.extend_from_slice(&[0x55u8; 30]);
    partial.encode(&mut w, &client.local.header, None::<(u64, &dyn PayloadKey)>);
    assert_eq!(&w[header_len + 4..], &[0x55u8; 26][..]);
}

#[test]
fn connection_id_debug_text_lists_id_bytes() {
    assert_eq!(ConnectionId::new(&[1, 2, 3]).debug_text(), "[1, 2, 3]");
    assert_eq!(ConnectionId::new(&[]).debug_text(), "[]");
    assert_eq!(ConnectionId::new(&[255, 0, 17]).debug_text(), "[255, 0, 17]");
    assert_eq!(
        ConnectionId::new(&[255, 0, 17]).debug_text(),
        format!("{:?}", &[255u8, 0, 17][..])
    );
}

#[test]
fn connection_ids_equal_iff_bytes_equal() {
    let a = ConnectionId::new(&[9, 8, 7]);
    let mut r: &[u8] = &[3, 9, 8, 7, 1];
    let b = ConnectionId::decode(&mut r).unwrap();
    assert_eq!(a, b);
    assert_ne!(a, ConnectionId::new(&[9, 8]));
    assert_ne!(a, ConnectionId::new(&[9, 8, 7, 0]));
}

#[test]
fn header_protection_removal_undoes_protection() {
    let dcid = [0x10u8, 0x20, 0x30, 0x40];
    let keys = Keys::initial(Version::V1, &dcid, Side::Client);
    for first in [0xc3u8, 0x41u8] {
        let mut packet = vec![first, 1, 2, 3, 4, 5, 6, 7];
        packet.extend((0u8..40).map(|i| i.wrapping_mul(37)));
        let plain = packet.clone();
        keys.local.header.encrypt(3, &mut packet);
        assert_ne!(packet, plain);
        assert_eq!(&packet[7..], &plain[7..]);
        keys.local.header.decrypt(3, &mut packet);
        assert_eq!(packet, plain);
    }
}

#[test]
fn payload_decrypt_undoes_encrypt() {
    let dcid = [5u8, 4, 3, 2, 1];
    let keys = Keys::initial(Version::V1, &dcid, Side::Server);
    let header = [0xc1u8, 0, 0, 0, 1, 9];
    let mut buf = header.to_vec();
    buf.extend_from_slice(b"sealed payload");
    buf.extend_from_slice(&[0u8; 16]);
    PayloadKey::encrypt(&keys.local.packet, 42, &mut buf, header.len());
    assert_eq!(&buf[..header.len()], &header[..]);
    assert_ne!(&buf[header.len()..header.len() + 14], b"sealed payload");
    let mut body = BytesMut::from(&buf[header.len()..]);
    assert!(PayloadKey::decrypt(&keys.local.packet, 42, &header, &mut body).is_ok());
    assert_eq!(&body[..], b"sealed payload");
    // Another packet number opens nothing.
    let mut body = BytesMut::from(&buf[header.len()..]);
    assert!(PayloadKey::decrypt(&keys.local.packet, 43, &header, &mut body).is_err());
}

#[test]
fn header_try_encode() {
    let header = initial_header(b"tk", PacketNumber::U16(2));
    let mut a = vec![0xff];
    let mut b = vec![0xff];
    let p = header.try_encode(&mut a).unwrap();
    let q = header.encode(&mut b);
    assert_eq!(a, b);
    assert_eq!((p.start, p.header_len), (q.start, q.header_len));
    let retry = Header::Retry {
        version: 1,
        dst_cid: ConnectionId::new(&[1]),
        src_cid: ConnectionId::new(&[2]),
    };
    let mut w = vec![7u8];
    assert!(retry.try_encode(&mut w).is_none());
    assert_eq!(w, vec![7u8]);
}
