//! QUIC variable-length integers (RFC 9000, section 16): the two most
//! significant bits of the first byte give the length of the encoding
//! (1, 2, 4 or 8 bytes), the remaining bits hold the value, big-endian.
use vstd::prelude::*;
use core::convert::TryFrom;

use crate::buf::{be16, be16_value, be32, be32_value, be64, be64_value, get_u16, get_u32, get_u64, get_u8, lemma_be16_roundtrip, lemma_be32_roundtrip, lemma_be64_roundtrip, put_u16, put_u32, put_u64, put_u8};

verus! {

/// One more than the largest value a variable-length integer can hold (2^62).
pub const VARINT_LIMIT: u64 = 0x4000_0000_0000_0000;

/// An integer in the range `0..2^62`, encodable as a QUIC variable-length integer.
#[derive(Debug, Copy, Clone, Eq, PartialEq, Default)]
pub struct VarInt(pub(crate) u64);

impl View for VarInt {
    type V = u64;

    closed spec fn view(&self) -> u64 {
        self.0
    }
}

/// `VarInt::from_u64` refused a value of 2^62 or more.
#[derive(Debug, Copy, Clone, Eq, PartialEq, Default)]
pub struct VarIntExceeded;

/// The input ended in the middle of a variable-length integer.
#[derive(Debug, Copy, Clone, Eq, PartialEq, Default)]
pub struct VarIntUnexpectedEof;

/// Number of bytes in the encoding of `x`.
pub open spec fn spec_size(x: u64) -> nat {
    if x < 0x40 {
        1
    } else if x < 0x4000 {
        2
    } else if x < 0x4000_0000 {
        4
    } else {
        8
    }
}

/// The encoding of `x` (for `x < 2^62`): the shortest length that holds it,
/// with the length tag in the two top bits of the first byte.
pub open spec fn spec_encode(x: u64) -> Seq<u8> {
    if x < 0x40 {
        seq![x as u8]
    } else if x < 0x4000 {
        be16(0x4000u16 | (x as u16))
    } else if x < 0x4000_0000 {
        be32(0x8000_0000u32 | (x as u32))
    } else {
        be64(0xc000_0000_0000_0000u64 | x)
    }
}

/// Decoding the front of `s`: the value and the number of bytes it took, or
/// `None` when `s` ends before the length announced by its first byte.
pub open spec fn spec_decode(s: Seq<u8>) -> Option<(u64, nat)> {
    if s.len() == 0 {
        None
    } else {
        let tag = s[0] >> 6u8;
        if tag == 0 {
            Some(((s[0] & 0x3fu8) as u64, 1))
        } else if tag == 1 {
            if s.len() < 2 {
                None
            } else {
                Some(((be16_value(s) & 0x3fffu16) as u64, 2))
            }
        } else if tag == 2 {
            if s.len() < 4 {
                None
            } else {
                Some(((be32_value(s) & 0x3fff_ffffu32) as u64, 4))
            }
        } else {
            if s.len() < 8 {
                None
            } else {
                Some((be64_value(s) & 0x3fff_ffff_ffff_ffffu64, 8))
            }
        }
    }
}

/// What the cursor holds after a failed decode: the first byte, when there
/// was one, has been consumed.
pub open spec fn spec_after_failed_decode(s: Seq<u8>) -> Seq<u8> {
    if s.len() == 0 {
        s
    } else {
        s.skip(1)
    }
}

impl VarInt {
    /// Whether the value fits in 62 bits, as every encodable value does.
    pub open spec fn wf(self) -> bool {
        self@ < VARINT_LIMIT
    }

    /// Wraps `x` without a range check; the caller vouches that `x < 2^62`.
    pub fn from_u64_unchecked(x: u64) -> (r: VarInt)
        requires
            x < VARINT_LIMIT,
        ensures
            r@ == x,
            r.wf(),
    {
        VarInt(x)
    }

    /// `Ok` exactly when `x < 2^62`.
    pub fn from_u64(x: u64) -> (r: Result<VarInt, VarIntExceeded>)
        ensures
            x < VARINT_LIMIT ==> (r matches Ok(v) && v@ == x),
            x >= VARINT_LIMIT ==> r == Err::<VarInt, VarIntExceeded>(VarIntExceeded),
    {
        if x < VARINT_LIMIT {
            Ok(VarInt(x))
        } else {
            Err(VarIntExceeded)
        }
    }

    /// Number of bytes that `encode` writes.
    pub fn size(self) -> (r: usize)
        requires
            self.wf(),
        ensures
            r == spec_size(self@),
    {
        let x = self.0;
        if x < 0x40 {
            1
        } else if x < 0x4000 {
            2
        } else if x < 0x4000_0000 {
            4
        } else {
            8
        }
    }

    /// Reads one variable-length integer from the front of the cursor `b`.
    pub fn decode(b: &mut &[u8]) -> (r: Result<VarInt, VarIntUnexpectedEof>)
        ensures
            match spec_decode(old(b)@) {
                Some((v, n)) => {
                    &&& r matches Ok(x) && x@ == v
                    &&& final(b)@ == old(b)@.skip(n as int)
                },
                None => {
                    &&& r == Err::<VarInt, VarIntUnexpectedEof>(VarIntUnexpectedEof)
                    &&& final(b)@ == spec_after_failed_decode(old(b)@)
                },
            },
    {
        if b.len() == 0 {
            return Err(VarIntUnexpectedEof);
        }
        let first = b[0];
        let tag = first >> 6u8;
        let x: u64 = if tag == 0 {
            let byte = get_u8(b);
            (byte & 0x3f) as u64
        } else if tag == 1 {
            if b.len() < 2 {
                get_u8(b);
                return Err(VarIntUnexpectedEof);
            }
            (get_u16(b) & 0x3fff) as u64
        } else if tag == 2 {
            if b.len() < 4 {
                get_u8(b);
                return Err(VarIntUnexpectedEof);
            }
            (get_u32(b) & 0x3fff_ffff) as u64
        } else {
            if b.len() < 8 {
                get_u8(b);
                return Err(VarIntUnexpectedEof);
            }
            get_u64(b) & 0x3fff_ffff_ffff_ffff
        };
        Ok(VarInt(x))
    }

    /// Appends the encoding of `self` to `buf`.
    pub fn encode(&self, buf: &mut Vec<u8>)
        requires
            self.wf(),
        ensures
            final(buf)@ == old(buf)@ + spec_encode(self@),
    {
        let x = self.0;
        if x < 0x40 {
            put_u8(buf, x as u8);
            assert(seq![x as u8] =~= old(buf)@.push(x as u8).skip(old(buf)@.len() as int));
            assert(old(buf)@.push(x as u8) =~= old(buf)@ + seq![x as u8]);
        } else if x < 0x4000 {
            put_u16(buf, 0x4000u16 | (x as u16));
        } else if x < 0x4000_0000 {
            put_u32(buf, 0x8000_0000u32 | (x as u32));
        } else {
            put_u64(buf, 0xc000_0000_0000_0000u64 | x);
        }
    }
}

/// Appends the encoding of `x`; the caller vouches that `x < 2^62`.
pub fn encode(x: u64, buf: &mut Vec<u8>)
    requires
        x < VARINT_LIMIT,
    ensures
        final(buf)@ == old(buf)@ + spec_encode(x),
{
    VarInt::from_u64_unchecked(x).encode(buf)
}

/// Reads one variable-length integer from the front of `b`.
pub fn decode(b: &mut &[u8]) -> (r: Result<VarInt, VarIntUnexpectedEof>)
    ensures
        match spec_decode(old(b)@) {
            Some((v, n)) => {
                &&& r matches Ok(x) && x@ == v
                &&& final(b)@ == old(b)@.skip(n as int)
            },
            None => {
                &&& r == Err::<VarInt, VarIntUnexpectedEof>(VarIntUnexpectedEof)
                &&& final(b)@ == spec_after_failed_decode(old(b)@)
            },
        },
{
    VarInt::decode(b)
}

/// The view of a `VarInt` is the integer it holds.
pub(crate) proof fn lemma_view_is_value(v: VarInt)
    ensures
        v@ == v.0,
{
}

/// The encoding of a value below 2^62 is `spec_size` bytes long.
pub proof fn lemma_encode_len(x: u64)
    requires
        x < VARINT_LIMIT,
    ensures
        spec_encode(x).len() == spec_size(x),
{
}

/// Decoding gives back what encoding wrote, whatever follows it, and reads
/// exactly the bytes that encoding wrote.
pub proof fn lemma_decode_encode(x: u64, rest: Seq<u8>)
    requires
        x < VARINT_LIMIT,
    ensures
        spec_decode(spec_encode(x) + rest) == Some((x, spec_size(x))),
{
    let s = spec_encode(x) + rest;
    if x < 0x40 {
        assert(s[0] == x as u8);
        assert((x as u8) >> 6u8 == 0 && ((x as u8) & 0x3fu8) as u64 == x) by (bit_vector)
            requires
                x < 0x40u64,
        ;
    } else if x < 0x4000 {
        let y = 0x4000u16 | (x as u16);
        assert(s[0] == be16(y)[0] && s[1] == be16(y)[1]);
        lemma_be16_roundtrip(y);
        assert(be16_value(s) == be16_value(be16(y)));
        assert(((y >> 8u16) as u8) >> 6u8 == 1 && ((y & 0x3fffu16) as u64) == x) by (bit_vector)
            requires
                0x40u64 <= x < 0x4000u64,
                y == 0x4000u16 | (x as u16),
        ;
    } else if x < 0x4000_0000 {
        let y = 0x8000_0000u32 | (x as u32);
        assert(s[0] == be32(y)[0] && s[1] == be32(y)[1] && s[2] == be32(y)[2] && s[3]
            == be32(y)[3]);
        lemma_be32_roundtrip(y);
        assert(be32_value(s) == be32_value(be32(y)));
        assert(((y >> 24u32) as u8) >> 6u8 == 2 && ((y & 0x3fff_ffffu32) as u64) == x)
            by (bit_vector)
            requires
                0x4000u64 <= x < 0x4000_0000u64,
                y == 0x8000_0000u32 | (x as u32),
        ;
    } else {
        let y = 0xc000_0000_0000_0000u64 | x;
        assert(forall|i: int| 0 <= i < 8 ==> s[i] == be64(y)[i]);
        lemma_be64_roundtrip(y);
        assert(be64_value(s) == be64_value(be64(y)));
        assert(((y >> 56u64) as u8) >> 6u8 == 3 && (y & 0x3fff_ffff_ffff_ffffu64) == x)
            by (bit_vector)
            requires
                0x4000_0000u64 <= x < 0x4000_0000_0000_0000u64,
                y == 0xc000_0000_0000_0000u64 | x,
        ;
    }
}

/// A successful decode yields a value below 2^62, reads no more than the
/// input holds, and never reads fewer bytes than the shortest encoding needs.
pub proof fn lemma_decode_valid(s: Seq<u8>)
    ensures
        spec_decode(s) matches Some((v, n)) ==> v < VARINT_LIMIT && spec_size(v) <= n && n
            <= s.len(),
{
    if s.len() > 0 {
        let b0 = s[0];
        assert((b0 & 0x3fu8) < 0x40u8) by (bit_vector);
        if s.len() >= 2 {
            let w = be16_value(s);
            assert((w & 0x3fffu16) < 0x4000u16) by (bit_vector);
        }
        if s.len() >= 4 {
            let w = be32_value(s);
            assert((w & 0x3fff_ffffu32) < 0x4000_0000u32) by (bit_vector);
        }
        if s.len() >= 8 {
            let w = be64_value(s);
            assert((w & 0x3fff_ffff_ffff_ffffu64) < 0x4000_0000_0000_0000u64) by (bit_vector);
        }
    }
}

/// A decode that read the shortest encoding of its value read exactly what
/// encoding that value writes.
pub proof fn lemma_encode_decode(s: Seq<u8>)
    ensures
        spec_decode(s) matches Some((v, n)) ==> (n == spec_size(v) ==> spec_encode(v) == s.take(
            n as int,
        )),
{
    if let Some((v, n)) = spec_decode(s) {
        if n == spec_size(v) {
            let b0 = s[0];
            if n == 1 {
                assert((b0 >> 6u8) == 0 ==> ((b0 & 0x3fu8) as u64) as u8 == b0) by (bit_vector);
                assert(spec_encode(v) =~= s.take(1));
            } else if n == 2 {
                let b1 = s[1];
                assert(((b0 >> 6u8) == 1) ==> {
                    let w = ((b0 as u16) << 8u16) | (b1 as u16);
                    let y = 0x4000u16 | (((w & 0x3fffu16) as u64) as u16);
                    (y >> 8u16) as u8 == b0 && y as u8 == b1
                }) by (bit_vector);
                assert(spec_encode(v) =~= s.take(2));
            } else if n == 4 {
                let b1 = s[1];
                let b2 = s[2];
                let b3 = s[3];
                assert(((b0 >> 6u8) == 2) ==> {
                    let w = ((b0 as u32) << 24u32) | ((b1 as u32) << 16u32) | ((b2 as u32) << 8u32)
                        | (b3 as u32);
                    let y = 0x8000_0000u32 | (((w & 0x3fff_ffffu32) as u64) as u32);
                    (y >> 24u32) as u8 == b0 && (y >> 16u32) as u8 == b1 && (y >> 8u32) as u8
                        == b2 && y as u8 == b3
                }) by (bit_vector);
                assert(spec_encode(v) =~= s.take(4));
            } else {
                let b1 = s[1];
                let b2 = s[2];
                let b3 = s[3];
                let b4 = s[4];
                let b5 = s[5];
                let b6 = s[6];
                let b7 = s[7];
                assert((b0 >> 6u8) <= 3) by (bit_vector);
                assert(((b0 >> 6u8) == 3) ==> {
                    let w = ((b0 as u64) << 56u64) | ((b1 as u64) << 48u64) | ((b2 as u64) << 40u64)
                        | ((b3 as u64) << 32u64) | ((b4 as u64) << 24u64) | ((b5 as u64) << 16u64)
                        | ((b6 as u64) << 8u64) | (b7 as u64);
                    let y = 0xc000_0000_0000_0000u64 | (w & 0x3fff_ffff_ffff_ffffu64);
                    (y >> 56u64) as u8 == b0 && (y >> 48u64) as u8 == b1 && (y >> 40u64) as u8
                        == b2 && (y >> 32u64) as u8 == b3 && (y >> 24u64) as u8 == b4 && (y
                        >> 16u64) as u8 == b5 && (y >> 8u64) as u8 == b6 && y as u8 == b7
                }) by (bit_vector);
                assert(spec_encode(v) =~= s.take(8));
            }
        }
    }
}

impl From<VarInt> for u64 {
    fn from(x: VarInt) -> (r: u64) {
        x.0
    }
}

impl vstd::std_specs::convert::FromSpecImpl<VarInt> for u64 {
    open spec fn obeys_from_spec() -> bool {
        true
    }

    open spec fn from_spec(v: VarInt) -> u64 {
        v@
    }
}

impl From<u8> for VarInt {
    fn from(x: u8) -> (r: VarInt) {
        VarInt(x as u64)
    }
}

impl vstd::std_specs::convert::FromSpecImpl<u8> for VarInt {
    open spec fn obeys_from_spec() -> bool {
        true
    }

    closed spec fn from_spec(v: u8) -> VarInt {
        VarInt(v as u64)
    }
}

impl From<u16> for VarInt {
    fn from(x: u16) -> (r: VarInt) {
        VarInt(x as u64)
    }
}

impl vstd::std_specs::convert::FromSpecImpl<u16> for VarInt {
    open spec fn obeys_from_spec() -> bool {
        true
    }

    closed spec fn from_spec(v: u16) -> VarInt {
        VarInt(v as u64)
    }
}

impl From<u32> for VarInt {
    fn from(x: u32) -> (r: VarInt) {
        VarInt(x as u64)
    }
}

impl vstd::std_specs::convert::FromSpecImpl<u32> for VarInt {
    open spec fn obeys_from_spec() -> bool {
        true
    }

    closed spec fn from_spec(v: u32) -> VarInt {
        VarInt(v as u64)
    }
}

/// What each conversion into `VarInt` holds.
pub proof fn lemma_from_small_ints(a: u8, b: u16, c: u32)
    ensures
        <VarInt as vstd::std_specs::convert::FromSpec<u8>>::from_spec(a)@ == a,
        <VarInt as vstd::std_specs::convert::FromSpec<u16>>::from_spec(b)@ == b,
        <VarInt as vstd::std_specs::convert::FromSpec<u32>>::from_spec(c)@ == c,
{
}

impl vstd::std_specs::convert::TryFromSpecImpl<u64> for VarInt {
    open spec fn obeys_try_from_spec() -> bool {
        true
    }

    closed spec fn try_from_spec(x: u64) -> Result<Self, VarIntExceeded> {
        if x < VARINT_LIMIT {
            Ok(VarInt(x))
        } else {
            Err(VarIntExceeded)
        }
    }
}

impl vstd::std_specs::convert::TryFromSpecImpl<u128> for VarInt {
    open spec fn obeys_try_from_spec() -> bool {
        true
    }

    closed spec fn try_from_spec(x: u128) -> Result<Self, VarIntExceeded> {
        if x < VARINT_LIMIT {
            Ok(VarInt(x as u64))
        } else {
            Err(VarIntExceeded)
        }
    }
}

impl vstd::std_specs::convert::TryFromSpecImpl<usize> for VarInt {
    open spec fn obeys_try_from_spec() -> bool {
        true
    }

    closed spec fn try_from_spec(x: usize) -> Result<Self, VarIntExceeded> {
        if x < VARINT_LIMIT {
            Ok(VarInt(x as u64))
        } else {
            Err(VarIntExceeded)
        }
    }
}

/// Each fallible conversion into `VarInt` succeeds exactly on values below
/// 2^62, and keeps the value.
pub proof fn lemma_try_from_ints(a: u64, b: u128, c: usize)
    ensures
        <VarInt as vstd::std_specs::convert::TryFromSpec<u64>>::try_from_spec(a) matches Ok(v)
            ==> v@ == a,
        <VarInt as vstd::std_specs::convert::TryFromSpec<u64>>::try_from_spec(a) is Ok <==> a
            < VARINT_LIMIT,
        <VarInt as vstd::std_specs::convert::TryFromSpec<u128>>::try_from_spec(b) matches Ok(v)
            ==> v@ == b,
        <VarInt as vstd::std_specs::convert::TryFromSpec<u128>>::try_from_spec(b) is Ok <==> b
            < VARINT_LIMIT,
        <VarInt as vstd::std_specs::convert::TryFromSpec<usize>>::try_from_spec(c) matches Ok(v)
            ==> v@ == c,
        <VarInt as vstd::std_specs::convert::TryFromSpec<usize>>::try_from_spec(c) is Ok <==> c
            < VARINT_LIMIT,
{
}

impl TryFrom<u64> for VarInt {
    type Error = VarIntExceeded;

    fn try_from(x: u64) -> (r: Result<Self, Self::Error>) {
        VarInt::from_u64(x)
    }
}

impl TryFrom<u128> for VarInt {
    type Error = VarIntExceeded;

    fn try_from(x: u128) -> (r: Result<Self, Self::Error>) {
        if x <= 0xffff_ffff_ffff_ffffu128 {
            VarInt::from_u64(x as u64)
        } else {
            Err(VarIntExceeded)
        }
    }
}

impl TryFrom<usize> for VarInt {
    type Error = VarIntExceeded;

    fn try_from(x: usize) -> (r: Result<Self, Self::Error>) {
        VarInt::from_u64(x as u64)
    }
}

} // verus!
