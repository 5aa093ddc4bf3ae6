//! Big-endian byte layouts, and the calls into `bytes::Buf` / `bytes::BufMut`
//! that read and write them.
//!
//! Writers append to a `Vec<u8>` (which implements `BufMut`); readers consume
//! from the front of a byte slice cursor `&[u8]` (which implements `Buf`).
use vstd::prelude::*;
use bytes::{Buf, BufMut};

verus! {

/// The two bytes of `n`, most significant first.
pub open spec fn be16(n: u16) -> Seq<u8> {
    seq![(n >> 8u16) as u8, n as u8]
}

/// The four bytes of `n`, most significant first.
pub open spec fn be32(n: u32) -> Seq<u8> {
    seq![(n >> 24u32) as u8, (n >> 16u32) as u8, (n >> 8u32) as u8, n as u8]
}

/// The eight bytes of `n`, most significant first.
pub open spec fn be64(n: u64) -> Seq<u8> {
    seq![
        (n >> 56u64) as u8,
        (n >> 48u64) as u8,
        (n >> 40u64) as u8,
        (n >> 32u64) as u8,
        (n >> 24u64) as u8,
        (n >> 16u64) as u8,
        (n >> 8u64) as u8,
        n as u8,
    ]
}

/// The integer whose big-endian layout is the first two bytes of `s`.
pub open spec fn be16_value(s: Seq<u8>) -> u16 {
    ((s[0] as u16) << 8u16) | (s[1] as u16)
}

/// The integer whose big-endian layout is the first four bytes of `s`.
pub open spec fn be32_value(s: Seq<u8>) -> u32 {
    ((s[0] as u32) << 24u32) | ((s[1] as u32) << 16u32) | ((s[2] as u32) << 8u32) | (s[3] as u32)
}

/// The integer whose big-endian layout is the first eight bytes of `s`.
pub open spec fn be64_value(s: Seq<u8>) -> u64 {
    ((s[0] as u64) << 56u64) | ((s[1] as u64) << 48u64) | ((s[2] as u64) << 40u64) | ((
    s[3] as u64) << 32u64) | ((s[4] as u64) << 24u64) | ((s[5] as u64) << 16u64) | ((
    s[6] as u64) << 8u64) | (s[7] as u64)
}

/// The integer whose big-endian layout is all of `s` (at most eight bytes).
pub open spec fn be_uint_value(s: Seq<u8>) -> u64
    decreases s.len(),
{
    if s.len() == 0 {
        0
    } else {
        (be_uint_value(s.drop_last()) << 8u64) | (s.last() as u64)
    }
}

/// `BufMut::put_u8` on a `Vec<u8>`: appends the byte.
#[verifier::external_body]
pub(crate) fn put_u8(buf: &mut Vec<u8>, n: u8)
    ensures
        final(buf)@ == old(buf)@.push(n),
{
    buf.put_u8(n)
}

/// `BufMut::put_u16` on a `Vec<u8>`: appends the two bytes of `n`, big-endian.
#[verifier::external_body]
pub(crate) fn put_u16(buf: &mut Vec<u8>, n: u16)
    ensures
        final(buf)@ == old(buf)@ + be16(n),
{
    buf.put_u16(n)
}

/// `BufMut::put_u32` on a `Vec<u8>`: appends the four bytes of `n`, big-endian.
#[verifier::external_body]
pub(crate) fn put_u32(buf: &mut Vec<u8>, n: u32)
    ensures
        final(buf)@ == old(buf)@ + be32(n),
{
    buf.put_u32(n)
}

/// `BufMut::put_u64` on a `Vec<u8>`: appends the eight bytes of `n`, big-endian.
#[verifier::external_body]
pub(crate) fn put_u64(buf: &mut Vec<u8>, n: u64)
    ensures
        final(buf)@ == old(buf)@ + be64(n),
{
    buf.put_u64(n)
}

/// `BufMut::put_uint` on a `Vec<u8>`: appends the `nbytes` least significant
/// bytes of `n`, big-endian (it panics for `nbytes > 8`, which is excluded).
#[verifier::external_body]
pub(crate) fn put_uint(buf: &mut Vec<u8>, n: u64, nbytes: usize)
    requires
        nbytes <= 8,
    ensures
        final(buf)@ == old(buf)@ + be64(n).skip(8 - nbytes),
{
    buf.put_uint(n, nbytes)
}

/// `BufMut::put_slice` on a `Vec<u8>`: appends the bytes of `src`.
#[verifier::external_body]
pub(crate) fn put_slice(buf: &mut Vec<u8>, src: &[u8])
    ensures
        final(buf)@ == old(buf)@ + src@,
{
    buf.put_slice(src)
}

/// `BufMut::put_u16` on the two-byte window `buf[pos..pos + 2]`: overwrites it
/// with the bytes of `n`, big-endian.
#[verifier::external_body]
pub(crate) fn put_u16_at(buf: &mut [u8], pos: usize, n: u16)
    requires
        pos + 2 <= old(buf)@.len(),
    ensures
        final(buf)@ == old(buf)@.update(pos as int, be16(n)[0]).update(pos + 1, be16(n)[1]),
{
    let mut window = &mut buf[pos..pos + 2];
    window.put_u16(n)
}

/// `Buf::get_u8` on a slice cursor: takes the first byte.
#[verifier::external_body]
pub(crate) fn get_u8(b: &mut &[u8]) -> (r: u8)
    requires
        old(b)@.len() >= 1,
    ensures
        r == old(b)@[0],
        final(b)@ == old(b)@.skip(1),
{
    b.get_u8()
}

/// `Buf::get_u16` on a slice cursor: takes the first two bytes, big-endian.
#[verifier::external_body]
pub(crate) fn get_u16(b: &mut &[u8]) -> (r: u16)
    requires
        old(b)@.len() >= 2,
    ensures
        r == be16_value(old(b)@),
        final(b)@ == old(b)@.skip(2),
{
    b.get_u16()
}

/// `Buf::get_u32` on a slice cursor: takes the first four bytes, big-endian.
#[verifier::external_body]
pub(crate) fn get_u32(b: &mut &[u8]) -> (r: u32)
    requires
        old(b)@.len() >= 4,
    ensures
        r == be32_value(old(b)@),
        final(b)@ == old(b)@.skip(4),
{
    b.get_u32()
}

/// `Buf::get_u64` on a slice cursor: takes the first eight bytes, big-endian.
#[verifier::external_body]
pub(crate) fn get_u64(b: &mut &[u8]) -> (r: u64)
    requires
        old(b)@.len() >= 8,
    ensures
        r == be64_value(old(b)@),
        final(b)@ == old(b)@.skip(8),
{
    b.get_u64()
}

/// `Buf::get_uint` on a slice cursor: takes the first `nbytes` bytes as a
/// big-endian integer (it panics for `nbytes > 8` or a short cursor, both excluded).
#[verifier::external_body]
pub(crate) fn get_uint(b: &mut &[u8], nbytes: usize) -> (r: u64)
    requires
        nbytes <= 8,
        old(b)@.len() >= nbytes,
    ensures
        r == be_uint_value(old(b)@.take(nbytes as int)),
        final(b)@ == old(b)@.skip(nbytes as int),
{
    b.get_uint(nbytes)
}

/// `Buf::copy_to_slice` on a slice cursor, into the first `len` bytes of `dst`:
/// those bytes become the first `len` bytes of the cursor, the rest of `dst`
/// is unchanged, and the cursor moves past them.
#[verifier::external_body]
pub(crate) fn copy_to_prefix(b: &mut &[u8], dst: &mut [u8; 20], len: usize)
    requires
        len <= 20,
        old(b)@.len() >= len,
    ensures
        final(dst)@ == old(b)@.take(len as int) + old(dst)@.skip(len as int),
        final(b)@ == old(b)@.skip(len as int),
{
    b.copy_to_slice(&mut dst[..len])
}

#[verifier::external_type_specification]
#[verifier::external_body]
pub struct ExBytes(bytes::Bytes);

#[verifier::external_type_specification]
#[verifier::external_body]
pub struct ExBytesMut(bytes::BytesMut);

/// The bytes that a `bytes::Bytes` holds.
pub uninterp spec fn bytes_contents(b: bytes::Bytes) -> Seq<u8>;

/// The bytes that a `bytes::BytesMut` holds.
pub uninterp spec fn bytes_mut_contents(b: bytes::BytesMut) -> Seq<u8>;

/// `<Bytes as Clone>::clone`: another handle on the same bytes.
pub assume_specification[ <bytes::Bytes as core::clone::Clone>::clone ](b: &bytes::Bytes) -> (r:
    bytes::Bytes)
    ensures
        bytes_contents(r) == bytes_contents(*b),
;

/// `<Bytes as AsRef<[u8]>>::as_ref`: the held bytes as a slice.
#[verifier::external_body]
pub(crate) fn bytes_as_slice(b: &bytes::Bytes) -> (r: &[u8])
    ensures
        r@ == bytes_contents(*b),
{
    b.as_ref()
}

/// `BytesMut::truncate`: keeps the first `len` bytes (all of them when
/// there are fewer).
#[verifier::external_body]
pub(crate) fn bytes_mut_truncate(b: &mut bytes::BytesMut, len: usize)
    ensures
        bytes_mut_contents(*final(b)) == if len <= bytes_mut_contents(*old(b)).len() {
            bytes_mut_contents(*old(b)).take(len as int)
        } else {
            bytes_mut_contents(*old(b))
        },
{
    b.truncate(len)
}

/// Bit-level facts about the layouts above.
pub proof fn lemma_be16_roundtrip(n: u16)
    ensures
        be16_value(be16(n)) == n,
{
    let s = be16(n);
    let a = s[0];
    let b = s[1];
    assert(a == (n >> 8u16) as u8);
    assert(b == n as u8);
    assert((((n >> 8u16) as u8 as u16) << 8u16) | (n as u8 as u16) == n) by (bit_vector);
}

pub proof fn lemma_be32_roundtrip(n: u32)
    ensures
        be32_value(be32(n)) == n,
{
    assert(((((n >> 24u32) as u8) as u32) << 24u32) | ((((n >> 16u32) as u8) as u32) << 16u32)
        | ((((n >> 8u32) as u8) as u32) << 8u32) | ((n as u8) as u32) == n) by (bit_vector);
}

pub proof fn lemma_be64_roundtrip(n: u64)
    ensures
        be64_value(be64(n)) == n,
{
    assert(((((n >> 56u64) as u8) as u64) << 56u64) | ((((n >> 48u64) as u8) as u64) << 48u64)
        | ((((n >> 40u64) as u8) as u64) << 40u64) | ((((n >> 32u64) as u8) as u64) << 32u64)
        | ((((n >> 24u64) as u8) as u64) << 24u64) | ((((n >> 16u64) as u8) as u64) << 16u64)
        | ((((n >> 8u64) as u8) as u64) << 8u64) | ((n as u8) as u64) == n) by (bit_vector);
}

} // verus!
