//! Packet protection: the header-protection and payload-protection
//! interfaces, and their implementations by rustls' QUIC keys.
use vstd::prelude::*;

use bytes::BytesMut;
use rustls::quic::HeaderProtectionKey;

use crate::buf::{bytes_mut_contents, bytes_mut_truncate};

verus! {

#[verifier::external_type_specification]
#[verifier::external_body]
pub struct ExHeaderProtectionKey(rustls::quic::HeaderProtectionKey);

#[verifier::external_type_specification]
#[verifier::external_body]
pub struct ExPacketKey(rustls::quic::PacketKey);

/// The longest payload that every AEAD algorithm of rustls' QUIC suites
/// seals (AES-GCM's limit, the smallest of them).
pub const MAX_SEALED_PAYLOAD: u64 = 68_719_476_704;

/// The longest associated data every AEAD algorithm accepts (its length in
/// bits must fit in a `u64`).
pub const MAX_ASSOCIATED_DATA: u64 = 0x1fff_ffff_ffff_ffff;

/// Header protection of a packet: masks and unmasks the first byte and the
/// packet number field, sampling the bytes that follow the packet number.
pub trait HeaderKey: Send {
    /// The number of payload bytes sampled to build the mask.
    spec fn spec_sample_size(&self) -> usize;

    /// The packet that `encrypt` makes of `packet` when its packet number
    /// field starts at `pn_offset`.
    spec fn spec_protect(&self, pn_offset: int, packet: Seq<u8>) -> Seq<u8>;

    /// The packet that `decrypt` makes of `packet` when its packet number
    /// field starts at `pn_offset`.
    spec fn spec_unprotect(&self, pn_offset: int, packet: Seq<u8>) -> Seq<u8>;

    /// Decrypt the given packet's header
    fn decrypt(&self, pn_offset: usize, packet: &mut [u8])
        requires
            1 <= pn_offset,
            pn_offset + 4 + self.spec_sample_size() <= old(packet)@.len(),
        ensures
            final(packet)@ == self.spec_unprotect(pn_offset as int, old(packet)@),
            final(packet)@.len() == old(packet)@.len(),
            forall|i: int|
                0 < i < old(packet)@.len() && !(pn_offset <= i < pn_offset + 4) ==> #[trigger] final(packet)@[i] == old(packet)@[i],
    ;

    /// Encrypt the given packet's header
    fn encrypt(&self, pn_offset: usize, packet: &mut [u8])
        requires
            1 <= pn_offset,
            pn_offset + 4 + self.spec_sample_size() <= old(packet)@.len(),
        ensures
            final(packet)@ == self.spec_protect(pn_offset as int, old(packet)@),
            final(packet)@.len() == old(packet)@.len(),
            forall|i: int|
                0 < i < old(packet)@.len() && !(pn_offset <= i < pn_offset + 4) ==> #[trigger] final(packet)@[i] == old(packet)@[i],
    ;

    /// The sample size used for this key's algorithm
    fn sample_size(&self) -> (r: usize)
        ensures
            r == self.spec_sample_size(),
    ;
}

/// Payload protection of a packet: an AEAD keyed per direction, with the
/// header as associated data and the tag appended to the payload.
pub trait PayloadKey: Send {
    /// The length of the tag appended by `encrypt`.
    spec fn spec_tag_len(&self) -> usize;

    /// The buffer that `encrypt` makes of `buf`, whose first `header_len`
    /// bytes are the header, for the packet number `packet`.
    spec fn spec_seal(&self, packet: u64, buf: Seq<u8>, header_len: int) -> Seq<u8>;

    /// The plaintext that `decrypt` finds in `payload` for the packet number
    /// `packet` and the header `header`, or `None` when authentication fails.
    spec fn spec_open(&self, packet: u64, header: Seq<u8>, payload: Seq<u8>) -> Option<Seq<u8>>;

    /// The limit that `confidentiality_limit` returns.
    spec fn spec_confidentiality_limit(&self) -> u64;

    /// The limit that `integrity_limit` returns.
    spec fn spec_integrity_limit(&self) -> u64;

    /// Encrypt the packet payload with the given packet number
    fn encrypt(&self, packet: u64, buf: &mut [u8], header_len: usize)
        requires
            header_len + self.spec_tag_len() <= old(buf)@.len(),
            header_len <= MAX_ASSOCIATED_DATA,
            old(buf)@.len() - header_len - self.spec_tag_len() <= MAX_SEALED_PAYLOAD,
        ensures
            final(buf)@ == self.spec_seal(packet, old(buf)@, header_len as int),
            final(buf)@.len() == old(buf)@.len(),
            final(buf)@.take(header_len as int) == old(buf)@.take(header_len as int),
    ;

    /// Decrypt the packet payload with the given packet number
    fn decrypt(&self, packet: u64, header: &[u8], payload: &mut BytesMut) -> (r: Result<
        (),
        CryptoError,
    >)
        ensures
            r is Ok <==> self.spec_open(packet, header@, bytes_mut_contents(*old(payload))) is Some,
            self.spec_open(packet, header@, bytes_mut_contents(*old(payload))) matches Some(p)
                ==> bytes_mut_contents(*final(payload)) == p,
            r is Ok ==> bytes_mut_contents(*final(payload)).len() + self.spec_tag_len()
                == bytes_mut_contents(*old(payload)).len(),
            r is Err ==> bytes_mut_contents(*final(payload)).len() == bytes_mut_contents(*old(payload)).len(),
    ;

    /// The length of the AEAD tag appended to packets on encryption
    fn tag_len(&self) -> (r: usize)
        ensures
            r == self.spec_tag_len(),
    ;

    /// Maximum number of packets that may be sent using a single key
    fn confidentiality_limit(&self) -> (r: u64)
        ensures
            r == self.spec_confidentiality_limit(),
    ;

    /// Maximum number of incoming packets that may fail decryption before the connection must be
    /// abandoned
    fn integrity_limit(&self) -> (r: u64)
        ensures
            r == self.spec_integrity_limit(),
    ;
}

/// The payload failed authentication.
#[derive(Debug)]
pub struct CryptoError;

/// `HeaderProtectionKey::sample_len`: 16 for every algorithm (ring's
/// `SAMPLE_LEN`).
#[verifier::external_body]
fn hp_sample_len(key: &HeaderProtectionKey) -> (r: usize)
    ensures
        r == 16,
{
    key.sample_len()
}

/// The bits of the first byte that header protection masks: the low four of
/// a long header (form bit set), the low five of a short one.
pub open spec fn hp_mask_bits(first: u8) -> u8 {
    if first & 0x80u8 == 0x80u8 {
        0x0fu8
    } else {
        0x1fu8
    }
}

/// The packet number length that an unprotected first byte announces in its
/// two low bits.
pub open spec fn hp_pn_len(first_plain: u8) -> int {
    ((first_plain & 3u8) + 1) as int
}

/// The mask that rustls' `HeaderProtectionKey` derives from `sample`: its
/// first byte is for the first byte of the header, the next four for the
/// packet number field.
pub uninterp spec fn hp_mask(key: HeaderProtectionKey, sample: Seq<u8>) -> Seq<u8>;

/// The first byte `first` with the masked bits xored with the mask byte `m0`.
pub open spec fn hp_masked_first(first: u8, m0: u8) -> u8 {
    first ^ (m0 & hp_mask_bits(first))
}

/// The packet `p` with the mask `m` applied: the first byte's masked bits,
/// and the first `pn_len` bytes of the packet number field at `pn_offset`.
pub open spec fn hp_apply(p: Seq<u8>, pn_offset: int, pn_len: int, m: Seq<u8>) -> Seq<u8> {
    Seq::new(
        p.len(),
        |i: int|
            if i == 0 {
                hp_masked_first(p[0], m[0])
            } else if pn_offset <= i < pn_offset + pn_len {
                p[i] ^ m[i - pn_offset + 1]
            } else {
                p[i]
            },
    )
}

/// The 16 bytes that header protection samples: those after a 4-byte packet
/// number field at `pn_offset`.
pub open spec fn hp_sample(pn_offset: int, p: Seq<u8>) -> Seq<u8> {
    p.subrange(pn_offset + 4, pn_offset + 20)
}

/// Header protection of `p` with `key`: the mask of the sample applied to
/// the first byte and to as many packet number bytes as the first byte
/// announces.
pub open spec fn hp_protect(key: HeaderProtectionKey, pn_offset: int, p: Seq<u8>) -> Seq<u8> {
    let m = hp_mask(key, hp_sample(pn_offset, p));
    hp_apply(p, pn_offset, hp_pn_len(p[0]), m)
}

/// Header protection removed from `p` with `key`: the same mask, applied to
/// as many packet number bytes as the unmasked first byte announces.
pub open spec fn hp_unprotect(key: HeaderProtectionKey, pn_offset: int, p: Seq<u8>) -> Seq<u8> {
    let m = hp_mask(key, hp_sample(pn_offset, p));
    hp_apply(p, pn_offset, hp_pn_len(hp_masked_first(p[0], m[0])), m)
}

/// `HeaderProtectionKey::encrypt_in_place` on `first[0]` and the packet
/// number field `rest[pn_start..pn_end]`. rustls fails only when the sample
/// is not 16 bytes long or the field is longer than 4 bytes, both excluded.
/// It xors the mask of the sample into the masked bits of the first byte and
/// into as many bytes of the field as the unprotected first byte announces;
/// nothing else changes.
#[verifier::external_body]
fn hp_encrypt_in_place(
    key: &HeaderProtectionKey,
    sample: &[u8],
    first: &mut [u8],
    rest: &mut [u8],
    pn_start: usize,
    pn_end: usize,
)
    requires
        sample@.len() == 16,
        old(first)@.len() == 1,
        pn_start <= pn_end <= old(rest)@.len(),
        pn_end - pn_start <= 4,
    ensures
        final(first)@.len() == 1,
        final(first)@[0] == hp_masked_first(old(first)@[0], hp_mask(*key, sample@)[0]),
        final(rest)@.len() == old(rest)@.len(),
        forall|i: int|
            0 <= i < old(rest)@.len() ==> #[trigger] final(rest)@[i] == if pn_start <= i < pn_end
                && i < pn_start + hp_pn_len(old(first)@[0]) {
                old(rest)@[i] ^ hp_mask(*key, sample@)[i - pn_start + 1]
            } else {
                old(rest)@[i]
            },
{
    key.encrypt_in_place(sample, &mut first[0], &mut rest[pn_start..pn_end]).unwrap()
}

/// `HeaderProtectionKey::decrypt_in_place` on `first[0]` and the packet
/// number field `rest[pn_start..pn_end]`; fails as `hp_encrypt_in_place`
/// says, and xors the same mask into the same bits, the number of field
/// bytes being the one announced by the first byte once unmasked.
#[verifier::external_body]
fn hp_decrypt_in_place(
    key: &HeaderProtectionKey,
    sample: &[u8],
    first: &mut [u8],
    rest: &mut [u8],
    pn_start: usize,
    pn_end: usize,
)
    requires
        sample@.len() == 16,
        old(first)@.len() == 1,
        pn_start <= pn_end <= old(rest)@.len(),
        pn_end - pn_start <= 4,
    ensures
        final(first)@.len() == 1,
        final(first)@[0] == hp_masked_first(old(first)@[0], hp_mask(*key, sample@)[0]),
        final(rest)@.len() == old(rest)@.len(),
        forall|i: int|
            0 <= i < old(rest)@.len() ==> #[trigger] final(rest)@[i] == if pn_start <= i < pn_end
                && i < pn_start + hp_pn_len(final(first)@[0]) {
                old(rest)@[i] ^ hp_mask(*key, sample@)[i - pn_start + 1]
            } else {
                old(rest)@[i]
            },
{
    key.decrypt_in_place(sample, &mut first[0], &mut rest[pn_start..pn_end]).unwrap()
}

/// Masking the first byte twice with the same mask byte gives it back, and
/// leaves the bits that choose which bits are masked alone.
proof fn lemma_masked_first_twice(first: u8, m0: u8)
    ensures
        hp_mask_bits(hp_masked_first(first, m0)) == hp_mask_bits(first),
        hp_masked_first(hp_masked_first(first, m0), m0) == first,
        hp_pn_len(first) <= 4,
{
    assert(hp_mask_bits(hp_masked_first(first, m0)) == hp_mask_bits(first)
        && hp_masked_first(hp_masked_first(first, m0), m0) == first && (first & 3u8) <= 3u8)
        by (bit_vector);
}

/// What header protection does to a packet whose packet number field starts
/// at `pn_offset`: the mask of the 16 bytes that start 4 bytes after
/// `pn_offset` is xored into the low four bits of the first byte of a long
/// header (the low five of a short one) and into as many bytes of the packet
/// number field as the unprotected first byte announces in its two low bits;
/// no other byte changes.
pub proof fn lemma_header_protection_sample(key: HeaderProtectionKey, pn_offset: int, p: Seq<u8>)
    requires
        1 <= pn_offset,
        pn_offset + 4 + 16 <= p.len(),
    ensures
        ({
            let m = hp_mask(key, p.subrange(pn_offset + 4, pn_offset + 20));
            let q = key.spec_protect(pn_offset, p);
            let bits: u8 = if p[0] & 0x80u8 == 0x80u8 {
                0x0fu8
            } else {
                0x1fu8
            };
            let pn_len = (p[0] & 3u8) as int + 1;
            &&& q.len() == p.len()
            &&& q[0] == p[0] ^ (m[0] & bits)
            &&& forall|i: int|
                pn_offset <= i < pn_offset + pn_len ==> #[trigger] q[i] == p[i] ^ m[i - pn_offset + 1]
            &&& forall|i: int|
                0 < i < p.len() && !(pn_offset <= i < pn_offset + pn_len) ==> #[trigger] q[i] == p[i]
        }),
{
    assert(p.subrange(pn_offset + 4, pn_offset + 20) =~= hp_sample(pn_offset, p));
    let m = hp_mask(key, hp_sample(pn_offset, p));
    let q = key.spec_protect(pn_offset, p);
    assert(q == hp_apply(p, pn_offset, hp_pn_len(p[0]), m));
    assert(hp_pn_len(p[0]) == (p[0] & 3u8) as int + 1);
    let b0 = p[0];
    assert(b0 & 3u8 <= 3u8) by (bit_vector);
    assert(q[0] == hp_masked_first(p[0], m[0]));
}

/// What removing header protection does to a packet whose packet number
/// field starts at `pn_offset`: the mask of the 16 bytes that start 4 bytes
/// after `pn_offset` is xored into the masked bits of the first byte (the
/// low four of a long header, the low five of a short one) and into as many
/// bytes of the packet number field as the first byte announces once
/// unmasked; no other byte changes.
pub proof fn lemma_header_unprotection_sample(key: HeaderProtectionKey, pn_offset: int, p: Seq<u8>)
    requires
        1 <= pn_offset,
        pn_offset + 4 + 16 <= p.len(),
    ensures
        ({
            let m = hp_mask(key, p.subrange(pn_offset + 4, pn_offset + 20));
            let q = key.spec_unprotect(pn_offset, p);
            let bits: u8 = if p[0] & 0x80u8 == 0x80u8 {
                0x0fu8
            } else {
                0x1fu8
            };
            let first = p[0] ^ (m[0] & bits);
            let pn_len = (first & 3u8) as int + 1;
            &&& q.len() == p.len()
            &&& q[0] == first
            &&& forall|i: int|
                pn_offset <= i < pn_offset + pn_len ==> #[trigger] q[i] == p[i] ^ m[i - pn_offset + 1]
            &&& forall|i: int|
                0 < i < p.len() && !(pn_offset <= i < pn_offset + pn_len) ==> #[trigger] q[i] == p[i]
        }),
{
    assert(p.subrange(pn_offset + 4, pn_offset + 20) =~= hp_sample(pn_offset, p));
    let m = hp_mask(key, hp_sample(pn_offset, p));
    let q = key.spec_unprotect(pn_offset, p);
    let first = hp_masked_first(p[0], m[0]);
    assert(q == hp_apply(p, pn_offset, hp_pn_len(first), m));
    assert(hp_pn_len(first) == (first & 3u8) as int + 1);
    assert(first & 3u8 <= 3u8) by (bit_vector);
    assert(q[0] == first);
}

/// Removing header protection undoes it: with the same key and packet number
/// offset, `decrypt` gives back the packet that `encrypt` was handed.
pub proof fn lemma_header_protection_roundtrip(key: HeaderProtectionKey, pn_offset: int, p: Seq<u8>)
    requires
        1 <= pn_offset,
        pn_offset + 4 + 16 <= p.len(),
    ensures
        key.spec_unprotect(pn_offset, key.spec_protect(pn_offset, p)) == p,
{
    let m = hp_mask(key, hp_sample(pn_offset, p));
    let q = hp_protect(key, pn_offset, p);
    lemma_masked_first_twice(p[0], m[0]);
    assert(hp_sample(pn_offset, q) =~= hp_sample(pn_offset, p));
    assert(q[0] == hp_masked_first(p[0], m[0]));
    let r = hp_unprotect(key, pn_offset, q);
    assert forall|i: int| 0 <= i < p.len() implies #[trigger] r[i] == p[i] by {
        if 0 < i && pn_offset <= i < pn_offset + hp_pn_len(p[0]) {
            let a = p[i];
            let b = m[i - pn_offset + 1];
            assert((a ^ b) ^ b == a) by (bit_vector);
        }
    }
    assert(r =~= p);
}

/// Where header protection reads and writes in a packet whose packet number
/// field starts at `pn_offset`: the split point between the header (with a
/// 4-byte packet number field) and the sample, and the end of the field
/// within the header bytes after the first.
pub fn header_protection_bounds(pn_offset: usize, packet_len: usize) -> (r: (usize, usize))
    requires
        1 <= pn_offset,
        pn_offset + 4 <= packet_len,
    ensures
        r.0 == pn_offset + 4,
        r.1 == pn_offset + 3,
{
    let split = pn_offset + 4;
    let rest_len = split - 1;
    let pn_end = if pn_offset + 3 < rest_len {
        pn_offset + 3
    } else {
        rest_len
    };
    (split, pn_end)
}

impl HeaderKey for HeaderProtectionKey {
    open spec fn spec_sample_size(&self) -> usize {
        16
    }

    open spec fn spec_protect(&self, pn_offset: int, packet: Seq<u8>) -> Seq<u8> {
        hp_protect(*self, pn_offset, packet)
    }

    open spec fn spec_unprotect(&self, pn_offset: int, packet: Seq<u8>) -> Seq<u8> {
        hp_unprotect(*self, pn_offset, packet)
    }

    /// Decrypt the given packet's header
    fn decrypt(&self, pn_offset: usize, packet: &mut [u8]) {
        let (split, pn_end) = header_protection_bounds(pn_offset, packet.len());
        let sample_len = hp_sample_len(self);
        let ghost before = packet@;
        let (header, sample) = packet.split_at_mut(split);
        let (first, rest) = header.split_at_mut(1);
        let sample_bytes = &sample[0..sample_len];
        assert(sample_bytes@ =~= hp_sample(pn_offset as int, before));
        hp_decrypt_in_place(self, sample_bytes, first, rest, pn_offset - 1, pn_end);
        proof {
            let m = hp_mask(*self, hp_sample(pn_offset as int, before));
            lemma_masked_first_twice(before[0], m[0]);
            let plain = hp_masked_first(before[0], m[0]);
            assert(hp_pn_len(plain) <= 4) by {
                assert(plain & 3u8 <= 3u8) by (bit_vector);
            }
            assert(final(packet)@[0] == final(first)@[0]);
            assert forall|i: int| 0 <= i < before.len() implies #[trigger] final(packet)@[i]
                == hp_unprotect(*self, pn_offset as int, before)[i] by {
                if i >= split {
                    assert(final(packet)@[i] == final(sample)@[i - split]);
                } else if i > 0 {
                    assert(final(packet)@[i] == final(rest)@[i - 1]);
                }
            }
            assert(final(packet)@ =~= hp_unprotect(*self, pn_offset as int, before));
        }
    }

    /// Encrypt the given packet's header
    fn encrypt(&self, pn_offset: usize, packet: &mut [u8]) {
        let (split, pn_end) = header_protection_bounds(pn_offset, packet.len());
        let sample_len = hp_sample_len(self);
        let ghost before = packet@;
        let (header, sample) = packet.split_at_mut(split);
        let (first, rest) = header.split_at_mut(1);
        let sample_bytes = &sample[0..sample_len];
        assert(sample_bytes@ =~= hp_sample(pn_offset as int, before));
        hp_encrypt_in_place(self, sample_bytes, first, rest, pn_offset - 1, pn_end);
        proof {
            let m = hp_mask(*self, hp_sample(pn_offset as int, before));
            lemma_masked_first_twice(before[0], m[0]);
            assert(final(packet)@[0] == final(first)@[0]);
            assert forall|i: int| 0 <= i < before.len() implies #[trigger] final(packet)@[i]
                == hp_protect(*self, pn_offset as int, before)[i] by {
                if i >= split {
                    assert(final(packet)@[i] == final(sample)@[i - split]);
                } else if i > 0 {
                    assert(final(packet)@[i] == final(rest)@[i - 1]);
                }
            }
            assert(final(packet)@ =~= hp_protect(*self, pn_offset as int, before));
        }
    }

    /// The sample size used for this key's algorithm
    fn sample_size(&self) -> (r: usize) {
        hp_sample_len(self)
    }
}

/// `PacketKey::tag_len`: 16 for every algorithm (ring's `TAG_LEN`).
#[verifier::external_body]
fn pk_tag_len(key: &rustls::quic::PacketKey) -> (r: usize)
    ensures
        r == 16,
{
    key.tag_len()
}

/// The confidentiality limit of the cipher suite a rustls `PacketKey` was
/// made for.
pub uninterp spec fn suite_confidentiality_limit(key: rustls::quic::PacketKey) -> u64;

/// The integrity limit of the cipher suite a rustls `PacketKey` was made
/// for.
pub uninterp spec fn suite_integrity_limit(key: rustls::quic::PacketKey) -> u64;

/// What rustls' `PacketKey` seals: the ciphertext of `payload` followed by
/// the 16-byte tag, for the nonce of the packet number `packet` and the
/// associated data `header`.
pub uninterp spec fn aead_seal(
    key: rustls::quic::PacketKey,
    packet: u64,
    header: Seq<u8>,
    payload: Seq<u8>,
) -> Seq<u8>;

/// What rustls' `PacketKey` opens: the plaintext of `payload` (ciphertext
/// and tag) for the packet number `packet` and the associated data `header`,
/// or `None` when authentication fails.
pub uninterp spec fn aead_open(
    key: rustls::quic::PacketKey,
    packet: u64,
    header: Seq<u8>,
    payload: Seq<u8>,
) -> Option<Seq<u8>>;

/// `PacketKey::confidentiality_limit`: the cipher suite's limit, 2^23 for
/// the AES-GCM suites and `u64::MAX` for ChaCha20-Poly1305.
#[verifier::external_body]
fn pk_confidentiality_limit(key: &rustls::quic::PacketKey) -> (r: u64)
    ensures
        r == suite_confidentiality_limit(*key),
        r == 0x80_0000 || r == u64::MAX,
{
    key.confidentiality_limit()
}

/// `PacketKey::integrity_limit`: the cipher suite's limit, 2^52 for the
/// AES-GCM suites and 2^36 for ChaCha20-Poly1305.
#[verifier::external_body]
fn pk_integrity_limit(key: &rustls::quic::PacketKey) -> (r: u64)
    ensures
        r == suite_integrity_limit(*key),
        r == 0x10_0000_0000_0000 || r == 0x10_0000_0000,
{
    key.integrity_limit()
}

/// `PacketKey::encrypt_in_place` on `payload` with `header` as associated
/// data, the returned tag copied into `tag_storage`: the payload becomes its
/// ciphertext and the storage the tag. ring fails only on associated data or
/// payloads longer than the limits, both excluded.
#[verifier::external_body]
fn pk_seal(
    key: &rustls::quic::PacketKey,
    packet: u64,
    header: &[u8],
    payload: &mut [u8],
    tag_storage: &mut [u8],
)
    requires
        header@.len() <= MAX_ASSOCIATED_DATA,
        old(payload)@.len() <= MAX_SEALED_PAYLOAD,
        old(tag_storage)@.len() == 16,
    ensures
        final(payload)@.len() == old(payload)@.len(),
        final(tag_storage)@.len() == 16,
        final(payload)@ + final(tag_storage)@ == aead_seal(*key, packet, header@, old(payload)@),
{
    let tag = key.encrypt_in_place(packet, header, payload).unwrap();
    tag_storage.copy_from_slice(tag.as_ref());
}

/// `PacketKey::decrypt_in_place` on the bytes `payload` holds, with `header`
/// as associated data: `Some` with the length of the plaintext (the payload
/// without its 16-byte tag) when authentication succeeds, the plaintext then
/// standing at the front. The number of held bytes does not change. What a
/// seal with the same key, packet number and header made opens to the
/// payload that was sealed.
#[verifier::external_body]
fn pk_open(
    key: &rustls::quic::PacketKey,
    packet: u64,
    header: &[u8],
    payload: &mut BytesMut,
) -> (r: Option<usize>)
    ensures
        bytes_mut_contents(*final(payload)).len() == bytes_mut_contents(*old(payload)).len(),
        r is Some <==> aead_open(*key, packet, header@, bytes_mut_contents(*old(payload))) is Some,
        r matches Some(n) ==> n + 16 == bytes_mut_contents(*old(payload)).len(),
        aead_open(*key, packet, header@, bytes_mut_contents(*old(payload))) matches Some(p) ==> p.len()
            + 16 == bytes_mut_contents(*old(payload)).len() && bytes_mut_contents(*final(payload)).take(p.len() as int) == p,
        forall|p: Seq<u8>|
            p.len() <= MAX_SEALED_PAYLOAD && header@.len() <= MAX_ASSOCIATED_DATA && #[trigger] aead_seal(
                *key,
                packet,
                header@,
                p,
            ) == bytes_mut_contents(*old(payload)) ==> aead_open(
                *key,
                packet,
                header@,
                bytes_mut_contents(*old(payload)),
            ) == Some(p),
{
    match key.decrypt_in_place(packet, header, payload.as_mut()) {
        Ok(plain) => Some(plain.len()),
        Err(_) => None,
    }
}

impl PayloadKey for rustls::quic::PacketKey {
    open spec fn spec_tag_len(&self) -> usize {
        16
    }

    /// The header unchanged, then the sealed payload: its ciphertext and the
    /// tag, in place of the payload and the room left for the tag.
    open spec fn spec_seal(&self, packet: u64, buf: Seq<u8>, header_len: int) -> Seq<u8> {
        buf.take(header_len) + aead_seal(
            *self,
            packet,
            buf.take(header_len),
            buf.subrange(header_len, buf.len() - 16),
        )
    }

    open spec fn spec_open(&self, packet: u64, header: Seq<u8>, payload: Seq<u8>) -> Option<
        Seq<u8>,
    > {
        aead_open(*self, packet, header, payload)
    }

    open spec fn spec_confidentiality_limit(&self) -> u64 {
        suite_confidentiality_limit(*self)
    }

    open spec fn spec_integrity_limit(&self) -> u64 {
        suite_integrity_limit(*self)
    }

    /// Encrypt the packet payload with the given packet number
    fn encrypt(&self, packet: u64, buf: &mut [u8], header_len: usize) {
        let tag_len = pk_tag_len(self);
        let ghost before = buf@;
        let (header, payload_tag) = buf.split_at_mut(header_len);
        let payload_len = payload_tag.len() - tag_len;
        let (payload, tag_storage) = payload_tag.split_at_mut(payload_len);
        assert(header@ =~= before.take(header_len as int));
        assert(payload@ =~= before.subrange(header_len as int, before.len() - 16));
        pk_seal(self, packet, header, payload, tag_storage);
        assert(final(buf)@ =~= before.take(header_len as int) + (final(payload)@ + final(tag_storage)@));
        assert(final(buf)@.take(header_len as int) =~= old(buf)@.take(header_len as int));
    }

    /// Decrypt the packet payload with the given packet number. A payload
    /// sealed by `encrypt` with the same packet number and header (the bytes
    /// that `spec_seal` puts after the header) decrypts to the payload that
    /// was sealed.
    fn decrypt(&self, packet: u64, header: &[u8], payload: &mut BytesMut) -> (r: Result<
        (),
        CryptoError,
    >)
        ensures
            forall|p: Seq<u8>|
                p.len() <= MAX_SEALED_PAYLOAD && header@.len() <= MAX_ASSOCIATED_DATA
                    && #[trigger] aead_seal(*self, packet, header@, p) == bytes_mut_contents(
                    *old(payload),
                ) ==> r is Ok && bytes_mut_contents(*final(payload)) == p,
    {
        let ghost before = bytes_mut_contents(*payload);
        match pk_open(self, packet, header, payload) {
            Some(plain_len) => {
                let ghost opened = bytes_mut_contents(*payload);
                bytes_mut_truncate(payload, plain_len);
                proof {
                    let p = aead_open(*self, packet, header@, before)->0;
                    assert(opened.take(plain_len as int) == p);
                }
                Ok(())
            },
            None => Err(CryptoError),
        }
    }

    /// The length of the AEAD tag appended to packets on encryption
    fn tag_len(&self) -> (r: usize) {
        pk_tag_len(self)
    }

    /// Maximum number of packets that may be sent using a single key: 2^23
    /// for the AES-GCM suites, `u64::MAX` for ChaCha20-Poly1305.
    fn confidentiality_limit(&self) -> (r: u64)
        ensures
            r == 0x80_0000 || r == u64::MAX,
    {
        pk_confidentiality_limit(self)
    }

    /// Maximum number of incoming packets that may fail decryption before the connection must be
    /// abandoned: 2^52 for the AES-GCM suites, 2^36 for ChaCha20-Poly1305.
    fn integrity_limit(&self) -> (r: u64)
        ensures
            r == 0x10_0000_0000_0000 || r == 0x10_0000_0000,
    {
        pk_integrity_limit(self)
    }
}

} // verus!
