//! Packet headers: connection ids, truncated packet numbers and the long
//! header of Initial packets.
use vstd::prelude::*;

use bytes::{Bytes, BytesMut};

use crate::buf::{
    be16, be16_value, be32, be32_value, be64, be_uint_value, bytes_as_slice, bytes_contents,
    copy_to_prefix, get_u16, get_u32, get_u8, get_uint, put_slice, put_u16, put_u16_at, put_u32,
    put_u8, put_uint,
};
use crate::crypto::{HeaderKey, PayloadKey, MAX_ASSOCIATED_DATA, MAX_SEALED_PAYLOAD};
use crate::text::{append_decimal, spec_decimal};
use crate::varint::{spec_encode, VarInt, VARINT_LIMIT};

verus! {

/// Bit 7 of the first byte: the packet has a long header.
pub const LONG_HEADER_FORM: u8 = 0x80;

/// Bit 6 of the first byte, always set.
pub const LONG_HEADER_FIXED_BIT: u8 = 0x40;

/// Bits 2 and 3 of a long header's first byte, reserved.
pub const LONG_HEADER_RESERVED_BITS: u8 = 0x0c;

/// The longest connection id that QUIC version 1 allows.
pub const MAX_CONNECTION_ID_LENGTH: usize = 20;

/// The kind of a long-header packet.
#[derive(Clone, Copy, Debug, Eq, PartialEq)]
pub enum LongHeaderType {
    Initial,
    ZeroRTT,
    Handshake,
    Retry,
}

/// The first byte of a long header of type `t`, before the packet number
/// length is added: form bit, fixed bit, and the type in bits 4 and 5.
pub open spec fn spec_long_header_byte(t: LongHeaderType) -> u8 {
    match t {
        LongHeaderType::Initial => 0xc0,
        LongHeaderType::ZeroRTT => 0xd0,
        LongHeaderType::Handshake => 0xe0,
        LongHeaderType::Retry => 0xf0,
    }
}

impl From<LongHeaderType> for u8 {
    fn from(t: LongHeaderType) -> (r: u8) {
        let r = match t {
            LongHeaderType::Initial => LONG_HEADER_FORM | LONG_HEADER_FIXED_BIT,
            LongHeaderType::ZeroRTT => LONG_HEADER_FORM | LONG_HEADER_FIXED_BIT | (0x1u8 << 4u8),
            LongHeaderType::Handshake => LONG_HEADER_FORM | LONG_HEADER_FIXED_BIT | (0x2u8 << 4u8),
            LongHeaderType::Retry => LONG_HEADER_FORM | LONG_HEADER_FIXED_BIT | (0x3u8 << 4u8),
        };
        assert(0x80u8 | 0x40u8 == 0xc0u8 && 0x80u8 | 0x40u8 | (0x1u8 << 4u8) == 0xd0u8 && 0x80u8
            | 0x40u8 | (0x2u8 << 4u8) == 0xe0u8 && 0x80u8 | 0x40u8 | (0x3u8 << 4u8) == 0xf0u8)
            by (bit_vector);
        r
    }
}

impl vstd::std_specs::convert::FromSpecImpl<LongHeaderType> for u8 {
    open spec fn obeys_from_spec() -> bool {
        true
    }

    open spec fn from_spec(t: LongHeaderType) -> u8 {
        spec_long_header_byte(t)
    }
}

/// One more than the largest packet number (2^62).
pub const PN_LIMIT: u64 = 0x4000_0000_0000_0000;

/// A connection id of at most 20 bytes, stored inline.
#[derive(Clone, Copy, Debug, Eq, PartialEq, Ord, PartialOrd, Hash)]
pub struct ConnectionId {
    /// length of ConnectionId
    length: u8,
    /// bytes of ConnectionId
    data: [u8; MAX_CONNECTION_ID_LENGTH],
}

impl View for ConnectionId {
    type V = Seq<u8>;

    /// The bytes of the id.
    closed spec fn view(&self) -> Seq<u8> {
        self.data@.take(self.length as int)
    }
}

/// The twenty bytes of storage of an id with bytes `s`: `s`, then zeros.
pub open spec fn zero_padded(s: Seq<u8>) -> Seq<u8> {
    s + Seq::new((MAX_CONNECTION_ID_LENGTH - s.len()) as nat, |i: int| 0u8)
}

impl ConnectionId {
    /// The stored length is within the inline storage.
    pub closed spec fn wf(self) -> bool {
        self.length <= MAX_CONNECTION_ID_LENGTH
    }

    /// The length of the id (the `length` field).
    pub closed spec fn spec_len(self) -> u8 {
        self.length
    }

    /// The form every constructor gives: the length within the storage, and
    /// zeros in the storage after the id's bytes.
    pub closed spec fn canonical(self) -> bool {
        self.wf() && self.data@ == zero_padded(self@)
    }

    /// The connection id holding the bytes of `data` (at most 20).
    pub fn new(data: &[u8]) -> (r: Self)
        requires
            data@.len() <= MAX_CONNECTION_ID_LENGTH,
        ensures
            r.wf(),
            r.canonical(),
            r@ == data@,
            r.spec_len() == data@.len(),
            r.spec_storage() == zero_padded(data@),
    {
        let mut cid = Self { length: data.len() as u8, data: [0u8;MAX_CONNECTION_ID_LENGTH] };
        let n = data.len();
        let mut i: usize = 0;
        while i < n
            invariant
                n == data@.len(),
                n <= MAX_CONNECTION_ID_LENGTH,
                i <= n,
                cid.length == n,
                forall|j: int| 0 <= j < i ==> cid.data@[j] == data@[j],
                forall|j: int| n <= j < MAX_CONNECTION_ID_LENGTH ==> cid.data@[j] == 0u8,
            decreases n - i,
        {
            cid.data[i] = data[i];
            i = i + 1;
        }
        assert(cid@ =~= data@);
        assert(cid.data@ =~= zero_padded(data@));
        cid
    }

    /// Takes the first `len` bytes of the cursor as a connection id.
    pub fn from_buf(buf: &mut &[u8], len: usize) -> (r: Self)
        requires
            len <= MAX_CONNECTION_ID_LENGTH,
            old(buf)@.len() >= len,
        ensures
            r.wf(),
            r.canonical(),
            r@ == old(buf)@.take(len as int),
            r.spec_len() == len,
            r.spec_storage() == zero_padded(r@),
            final(buf)@ == old(buf)@.skip(len as int),
    {
        let mut res = ConnectionId { length: len as u8, data: [0u8;MAX_CONNECTION_ID_LENGTH] };
        let ghost zeros = res.data@;
        copy_to_prefix(buf, &mut res.data, len);
        assert(res@ =~= old(buf)@.take(len as int));
        assert(res.data@ =~= zero_padded(res@)) by {
            assert(forall|j: int| 0 <= j < MAX_CONNECTION_ID_LENGTH ==> zeros[j] == 0u8);
        }
        res
    }

    /// Reads a connection id in long header format (a length byte, then the
    /// bytes) from the front of the cursor; `None` when the length exceeds 20
    /// or the cursor is too short, in which case only the length byte is gone.
    pub fn decode(buf: &mut &[u8]) -> (r: Option<Self>)
        requires
            old(buf)@.len() >= 1,
        ensures
            match spec_cid_decode(old(buf)@) {
                Some((bytes, n)) => {
                    &&& r matches Some(c)
                    &&& c.wf()
                    &&& c.canonical()
                    &&& c@ == bytes
                    &&& c.spec_storage() == zero_padded(bytes)
                    &&& final(buf)@ == old(buf)@.skip(n as int)
                },
                None => r is None && final(buf)@ == old(buf)@.skip(1),
            },
    {
        let length = get_u8(buf) as usize;
        if length > MAX_CONNECTION_ID_LENGTH || buf.len() < length {
            None
        } else {
            let r = ConnectionId::from_buf(buf, length);
            assert(old(buf)@.skip(1).take(length as int) =~= old(buf)@.subrange(1, 1 + length));
            assert(old(buf)@.skip(1).skip(length as int) =~= old(buf)@.skip(1 + length));
            Some(r)
        }
    }

    /// Appends the id in long header format: its length byte, then its bytes.
    pub fn encode(&self, buf: &mut Vec<u8>)
        requires
            self.wf(),
        ensures
            final(buf)@ == old(buf)@ + spec_cid_bytes(*self),
    {
        put_u8(buf, self.length);
        let all: &[u8] = self.data.as_slice();
        let bytes = &all[0..self.length as usize];
        put_slice(buf, bytes);
        assert(bytes@ =~= self@);
        assert(old(buf)@.push(self.length) + self@ =~= old(buf)@ + spec_cid_bytes(*self));
    }
}

/// The lowercase hexadecimal digit for `d < 16`.
pub open spec fn spec_hex_digit(d: u8) -> char {
    if d < 10 {
        (48 + d) as char
    } else {
        (87 + d) as char
    }
}

/// Two lowercase hexadecimal digits per byte of `s`, most significant first.
pub open spec fn spec_hex(s: Seq<u8>) -> Seq<char>
    decreases s.len(),
{
    if s.len() == 0 {
        Seq::empty()
    } else {
        spec_hex(s.drop_last()) + seq![spec_hex_digit(s.last() >> 4u8), spec_hex_digit(s.last() & 0xfu8)]
    }
}

/// The lowercase hexadecimal digits, in order of value.
pub open spec fn hex_alphabet() -> Seq<char> {
    seq!['0', '1', '2', '3', '4', '5', '6', '7', '8', '9', 'a', 'b', 'c', 'd', 'e', 'f']
}

/// The hexadecimal digit of `d < 16` is the digit of that value.
pub proof fn lemma_hex_digit(d: u8)
    requires
        d < 16,
    ensures
        spec_hex_digit(d) == hex_alphabet()[d as int],
{
    assert(hex_alphabet().len() == 16);
    if d < 10 {
        assert(spec_hex_digit(d) as int == 48 + d);
        assert('0' as int == 48);
    } else {
        assert(spec_hex_digit(d) as int == 87 + d);
        assert('a' as int == 97);
    }
    assert(hex_alphabet()[d as int] as int == spec_hex_digit(d) as int);
}

/// The hexadecimal text of `s` has two digits per byte, which read back as
/// the byte: the digit of its high four bits, then the digit of its low four.
pub proof fn lemma_hex_reads_back(s: Seq<u8>)
    ensures
        spec_hex(s).len() == 2 * s.len(),
        forall|i: int|
            0 <= i < s.len() ==> spec_hex(s)[2 * i] == hex_alphabet()[(#[trigger] s[i] / 16) as int]
                && spec_hex(s)[2 * i + 1] == hex_alphabet()[(s[i] % 16) as int],
    decreases s.len(),
{
    if s.len() > 0 {
        let t = s.drop_last();
        lemma_hex_reads_back(t);
        let b = s.last();
        assert(b >> 4u8 == b / 16 && b & 0xfu8 == b % 16 && b >> 4u8 < 16 && b & 0xfu8 < 16)
            by (bit_vector);
        lemma_hex_digit(b >> 4u8);
        lemma_hex_digit(b & 0xfu8);
        assert forall|i: int| 0 <= i < s.len() implies spec_hex(s)[2 * i] == hex_alphabet()[(
        #[trigger] s[i] / 16) as int] && spec_hex(s)[2 * i + 1] == hex_alphabet()[(s[i] % 16) as int] by {
            if i < t.len() {
                assert(s[i] == t[i]);
            }
        }
    }
}

/// The one-character string of the hexadecimal digit `d < 16`.
fn hex_digit(d: u8) -> (r: &'static str)
    requires
        d < 16,
    ensures
        r@ == seq![spec_hex_digit(d)],
{
    match d {
        0 => { proof { reveal_strlit("0"); } "0" },
        1 => { proof { reveal_strlit("1"); } "1" },
        2 => { proof { reveal_strlit("2"); } "2" },
        3 => { proof { reveal_strlit("3"); } "3" },
        4 => { proof { reveal_strlit("4"); } "4" },
        5 => { proof { reveal_strlit("5"); } "5" },
        6 => { proof { reveal_strlit("6"); } "6" },
        7 => { proof { reveal_strlit("7"); } "7" },
        8 => { proof { reveal_strlit("8"); } "8" },
        9 => { proof { reveal_strlit("9"); } "9" },
        10 => { proof { reveal_strlit("a"); } "a" },
        11 => { proof { reveal_strlit("b"); } "b" },
        12 => { proof { reveal_strlit("c"); } "c" },
        13 => { proof { reveal_strlit("d"); } "d" },
        14 => { proof { reveal_strlit("e"); } "e" },
        _ => { proof { reveal_strlit("f"); } "f" },
    }
}

impl ConnectionId {
    /// All twenty stored bytes, including those past the id's length.
    pub closed spec fn spec_storage(self) -> Seq<u8> {
        self.data@
    }

    /// The text form: every stored byte (all twenty, not only the id's
    /// length) as two lowercase hexadecimal digits.
    pub fn display(&self) -> (r: String)
        ensures
            r@ == spec_hex(self.spec_storage()),
    {
        let mut r = String::new();
        let mut i: usize = 0;
        while i < MAX_CONNECTION_ID_LENGTH
            invariant
                i <= MAX_CONNECTION_ID_LENGTH,
                self.data@.len() == MAX_CONNECTION_ID_LENGTH,
                r@ == spec_hex(self.data@.take(i as int)),
            decreases MAX_CONNECTION_ID_LENGTH - i,
        {
            let byte = self.data[i];
            assert(byte >> 4u8 < 16 && byte & 0xfu8 < 16) by (bit_vector);
            r.append(hex_digit(byte >> 4u8));
            r.append(hex_digit(byte & 0xfu8));
            assert(self.data@.take(i + 1).drop_last() =~= self.data@.take(i as int));
            i = i + 1;
        }
        assert(self.data@.take(MAX_CONNECTION_ID_LENGTH as int) =~= self.data@);
        r
    }
}

/// The bytes of `s` in decimal, separated by a comma and a space.
pub open spec fn spec_decimal_list(s: Seq<u8>) -> Seq<char>
    decreases s.len(),
{
    if s.len() == 0 {
        Seq::empty()
    } else if s.len() == 1 {
        spec_decimal(s[0] as nat)
    } else {
        spec_decimal_list(s.drop_last()) + seq![',', ' '] + spec_decimal(s.last() as nat)
    }
}

impl ConnectionId {
    /// The debugging text form: the id's bytes (only those) in decimal, as a
    /// bracketed list separated by commas, such as `[1, 2, 3]`.
    pub fn debug_text(&self) -> (r: String)
        requires
            self.wf(),
        ensures
            r@ == seq!['['] + spec_decimal_list(self@) + seq![']'],
    {
        let mut r = String::new();
        proof {
            reveal_strlit("[");
            reveal_strlit("]");
            reveal_strlit(", ");
        }
        r.append("[");
        let n = self.length as usize;
        let mut i: usize = 0;
        while i < n
            invariant
                n == self.length,
                n <= MAX_CONNECTION_ID_LENGTH,
                self.data@.len() == MAX_CONNECTION_ID_LENGTH,
                i <= n,
                r@ == seq!['['] + spec_decimal_list(self.data@.take(i as int)),
            decreases n - i,
        {
            let ghost before = r@;
            let ghost t = self.data@.take(i + 1);
            if i > 0 {
                proof {
                    reveal_strlit(", ");
                }
                r.append(", ");
            }
            let ghost sep = r@;
            append_decimal(&mut r, self.data[i] as u64);
            assert(t.drop_last() =~= self.data@.take(i as int));
            assert(t.last() == self.data@[i as int]);
            if i == 0 {
                assert(before =~= seq!['[']);
                assert(r@ =~= seq!['['] + spec_decimal_list(t));
            } else {
                assert(sep =~= before + seq![',', ' ']);
                assert(r@ =~= seq!['['] + spec_decimal_list(t));
            }
            i = i + 1;
        }
        r.append("]");
        r
    }
}

/// Two connection ids in the form every constructor gives are equal exactly
/// when their bytes are.
pub proof fn lemma_cid_eq(a: ConnectionId, b: ConnectionId)
    requires
        a.canonical(),
        b.canonical(),
    ensures
        a == b <==> a@ == b@,
{
    if a@ == b@ {
        assert(a.length == b.length);
        assert(a.data@ == b.data@);
        assert(a.data =~= b.data) by {
            assert forall|i: int| 0 <= i < MAX_CONNECTION_ID_LENGTH implies a.data[i] == b.data[i] by {
                assert(a.data@[i] == b.data@[i]);
            }
        }
    }
}

/// Decoding what `encode` wrote gives back the same id: an id that `decode`
/// returns (in constructor form, with the bytes that it read) from the long
/// header format of `c` followed by anything equals `c`.
pub proof fn lemma_cid_decode_encode(c: ConnectionId, rest: Seq<u8>, d: ConnectionId)
    requires
        c.canonical(),
        d.canonical(),
        spec_cid_decode(spec_cid_bytes(c) + rest) matches Some((bytes, _)) && d@ == bytes,
    ensures
        d == c,
{
    assert(c.wf());
    lemma_cid_roundtrip(c, rest);
    lemma_cid_eq(c, d);
}

/// The long header format of a connection id: its length byte, then its bytes.
pub open spec fn spec_cid_bytes(c: ConnectionId) -> Seq<u8> {
    seq![c.spec_len()] + c@
}

/// Decoding the long header format of a connection id at the front of `s`:
/// the id's bytes and the number of bytes read, or `None` when the length
/// byte exceeds 20 or announces more bytes than follow it.
pub open spec fn spec_cid_decode(s: Seq<u8>) -> Option<(Seq<u8>, nat)> {
    let len = s[0] as int;
    if len > MAX_CONNECTION_ID_LENGTH || s.len() - 1 < len {
        None
    } else {
        Some((s.subrange(1, 1 + len), (1 + len) as nat))
    }
}

/// Decoding the long header format of a connection id gives back the id,
/// whatever follows it, and reads exactly what encoding wrote.
pub proof fn lemma_cid_roundtrip(c: ConnectionId, rest: Seq<u8>)
    requires
        c.wf(),
    ensures
        spec_cid_decode(spec_cid_bytes(c) + rest) == Some((c@, spec_cid_bytes(c).len())),
{
    let s = spec_cid_bytes(c) + rest;
    let n = c.spec_len() as int;
    assert(c@.len() == n);
    assert(s[0] == c.spec_len());
    assert(s.subrange(1, 1 + n) =~= c@);
}

/// A packet number truncated to its 1, 2, 3 or 4 least significant bytes.
#[derive(Debug, Copy, Clone, Eq, PartialEq)]
pub enum PacketNumber {
    U8(u8),
    U16(u16),
    U24(u32),
    U32(u32),
}

/// Why a packet could not be decoded.
#[derive(Debug, Clone, Eq, PartialEq, Ord, PartialOrd, Hash)]
pub enum PacketDecodeError {
    UnsupportedVersion { src_cid: ConnectionId, dst_cid: ConnectionId, version: u32 },
    InvalidHeader(&'static str),
}

/// The truncated packet number that `PacketNumber::new` chooses for packet
/// `n` when `largest_acked` is the largest acknowledged one: the fewest bytes
/// whose range is at least twice the distance between them, holding the
/// least significant bytes of `n`.
pub open spec fn spec_pn_new(n: u64, largest_acked: u64) -> PacketNumber {
    let range = (n - largest_acked) * 2;
    if range < 0x100 {
        PacketNumber::U8(n as u8)
    } else if range < 0x1_0000 {
        PacketNumber::U16(n as u16)
    } else if range < 0x100_0000 {
        PacketNumber::U24((n % 0x100_0000) as u32)
    } else {
        PacketNumber::U32(n as u32)
    }
}

/// The wire bytes of a truncated packet number, big-endian; a 3-byte number
/// keeps the three least significant bytes of its value.
pub open spec fn spec_pn_bytes(p: PacketNumber) -> Seq<u8> {
    match p {
        PacketNumber::U8(x) => seq![x],
        PacketNumber::U16(x) => be16(x),
        PacketNumber::U24(x) => be64(x as u64).skip(5),
        PacketNumber::U32(x) => be32(x),
    }
}

/// The truncated packet number of `len` bytes at the front of `s`.
pub open spec fn spec_pn_decode(len: nat, s: Seq<u8>) -> PacketNumber {
    if len == 1 {
        PacketNumber::U8(s[0])
    } else if len == 2 {
        PacketNumber::U16(be16_value(s))
    } else if len == 3 {
        PacketNumber::U24(be_uint_value(s.take(3)) as u32)
    } else {
        PacketNumber::U32(be32_value(s))
    }
}

impl PacketNumber {
    /// Number of bytes on the wire.
    pub open spec fn spec_len(self) -> nat {
        match self {
            PacketNumber::U8(_) => 1,
            PacketNumber::U16(_) => 2,
            PacketNumber::U24(_) => 3,
            PacketNumber::U32(_) => 4,
        }
    }

    /// The truncated value.
    pub open spec fn spec_value(self) -> u64 {
        match self {
            PacketNumber::U8(x) => x as u64,
            PacketNumber::U16(x) => x as u64,
            PacketNumber::U24(x) => x as u64,
            PacketNumber::U32(x) => x as u64,
        }
    }

    /// 2^(8 * length): the number of values the truncated form can take.
    pub open spec fn spec_window(self) -> u64 {
        match self {
            PacketNumber::U8(_) => 0x100,
            PacketNumber::U16(_) => 0x1_0000,
            PacketNumber::U24(_) => 0x100_0000,
            PacketNumber::U32(_) => 0x1_0000_0000,
        }
    }

    /// `(expected & !mask) | truncated`: the value with the truncated bits in
    /// place of the low bits of `expected`.
    pub open spec fn spec_candidate(self, expected: u64) -> u64 {
        (expected & !((self.spec_window() - 1) as u64)) | self.spec_value()
    }

    /// Whether the candidate is to move one window up: it lies at least half a
    /// window below `expected`, and moving it keeps it below 2^62.
    pub open spec fn spec_moves_up(self, expected: u64) -> bool {
        let win = self.spec_window();
        let hwin = win / 2;
        let candidate = self.spec_candidate(expected);
        expected >= hwin && candidate <= expected - hwin && candidate < PN_LIMIT - win
    }

    /// Whether `full` stays within `u64` on `expected`.
    pub open spec fn spec_full_in_range(self, expected: u64) -> bool {
        self.spec_moves_up(expected) || expected + self.spec_window() / 2 <= u64::MAX
    }

    /// The full packet number that `full` recovers, given the next expected one.
    pub open spec fn spec_full(self, expected: u64) -> int {
        let win = self.spec_window();
        let hwin = win / 2;
        let candidate = self.spec_candidate(expected);
        if self.spec_moves_up(expected) {
            candidate + win
        } else if candidate > expected + hwin && candidate >= win {
            candidate - win
        } else {
            candidate as int
        }
    }

    /// Picks the shortest truncation of `n` that the peer can expand
    /// unambiguously, given that it has acknowledged `largest_acked`.
    pub fn new(n: u64, largest_acked: u64) -> (r: Self)
        requires
            largest_acked <= n,
            (n - largest_acked) * 2 < 0x1_0000_0000,
        ensures
            r == spec_pn_new(n, largest_acked),
    {
        let range = (n - largest_acked) * 2;
        assert(1u64 << 8u64 == 0x100u64 && 1u64 << 16u64 == 0x1_0000u64 && 1u64 << 24u64
            == 0x100_0000u64) by (bit_vector);
        if range < 1u64 << 8u64 {
            PacketNumber::U8(n as u8)
        } else if range < 1u64 << 16u64 {
            PacketNumber::U16(n as u16)
        } else if range < 1u64 << 24u64 {
            assert(((n as u32) & 0xff_ffffu32) == (n % 0x100_0000) as u32) by (bit_vector);
            PacketNumber::U24((n as u32) & 0xff_ffff)
        } else {
            PacketNumber::U32(n as u32)
        }
    }

    /// Number of bytes on the wire.
    pub fn len(self) -> (r: usize)
        ensures
            r == self.spec_len(),
    {
        match self {
            PacketNumber::U8(_) => 1,
            PacketNumber::U16(_) => 2,
            PacketNumber::U24(_) => 3,
            PacketNumber::U32(_) => 4,
        }
    }

    /// Appends the wire bytes.
    pub fn encode(self, w: &mut Vec<u8>)
        ensures
            final(w)@ == old(w)@ + spec_pn_bytes(self),
    {
        match self {
            PacketNumber::U8(x) => {
                put_u8(w, x);
                assert(old(w)@.push(x) =~= old(w)@ + seq![x]);
            },
            PacketNumber::U16(x) => put_u16(w, x),
            PacketNumber::U24(x) => put_uint(w, x as u64, 3),
            PacketNumber::U32(x) => put_u32(w, x),
        }
    }

    /// Reads a truncated packet number of `len` bytes from the front of `r`.
    pub fn decode(len: usize, r: &mut &[u8]) -> (res: Result<PacketNumber, PacketDecodeError>)
        requires
            1 <= len <= 4,
            old(r)@.len() >= len,
        ensures
            res == Ok::<PacketNumber, PacketDecodeError>(spec_pn_decode(len as nat, old(r)@)),
            final(r)@ == old(r)@.skip(len as int),
    {
        let pn = if len == 1 {
            PacketNumber::U8(get_u8(r))
        } else if len == 2 {
            PacketNumber::U16(get_u16(r))
        } else if len == 3 {
            PacketNumber::U24(get_uint(r, 3) as u32)
        } else {
            PacketNumber::U32(get_u32(r))
        };
        Ok(pn)
    }

    /// Recovers the full packet number from its truncation, given the next
    /// expected packet number (one more than the largest received).
    pub fn full(self, expected: u64) -> (r: u64)
        requires
            self.spec_full_in_range(expected),
        ensures
            r == self.spec_full(expected),
    {
        let truncated: u64 = match self {
            PacketNumber::U8(x) => x as u64,
            PacketNumber::U16(x) => x as u64,
            PacketNumber::U24(x) => x as u64,
            PacketNumber::U32(x) => x as u64,
        };
        let nbits = (self.len() * 8) as u64;
        let win: u64 = 1u64 << nbits;
        assert(1u64 << 8u64 == 0x100u64 && 1u64 << 16u64 == 0x1_0000u64 && 1u64 << 24u64
            == 0x100_0000u64 && 1u64 << 32u64 == 0x1_0000_0000u64) by (bit_vector);
        let hwin = win / 2;
        let mask = win - 1;
        let candidate = (expected & !mask) | truncated;
        if expected >= hwin && candidate <= expected - hwin && candidate < PN_LIMIT - win {
            candidate + win
        } else if candidate > expected + hwin && candidate >= win {
            candidate - win
        } else {
            candidate
        }
    }
}

/// A packet: its header, the version it was sent with, and its payload.
#[derive(Debug)]
pub struct Packet {
    header: Header,
    version: u32,
    payload: BytesMut,
}

/// A packet header, by packet type.
#[derive(Debug, Clone)]
pub enum Header {
    Initial {
        number: PacketNumber,
        version: u32,
        dst_cid: ConnectionId,
        src_cid: ConnectionId,
        token: Bytes,
    },
    ZeroRTT { number: PacketNumber, version: u32, dst_cid: ConnectionId, src_cid: ConnectionId },
    Handshake { number: PacketNumber, version: u32, dst_cid: ConnectionId, src_cid: ConnectionId },
    Retry { version: u32, dst_cid: ConnectionId, src_cid: ConnectionId },
    VersionNegotiate,
}

/// A header written to a buffer, with what is left to do once the payload
/// follows it: fill in the length field and apply packet protection.
pub struct PartialEncode {
    /// Where the header starts in the buffer it was written to.
    pub start: usize,
    /// Length of the header, packet number included.
    pub header_len: usize,
    // Packet number length, payload length needed
    pn: Option<(usize, bool)>,
}

/// The long header of an Initial packet: first byte (type bits and packet
/// number length), version, both connection ids, the token with its length,
/// a two-byte placeholder for the payload length, and the packet number.
pub open spec fn spec_initial_header(
    number: PacketNumber,
    version: u32,
    dst_cid: ConnectionId,
    src_cid: ConnectionId,
    token: Seq<u8>,
) -> Seq<u8> {
    seq![spec_long_header_byte(LongHeaderType::Initial) | ((number.spec_len() - 1) as u8)] + be32(
        version,
    ) + spec_cid_bytes(dst_cid) + spec_cid_bytes(src_cid) + spec_encode(token.len() as u64) + token
        + seq![0u8, 0u8] + spec_pn_bytes(number)
}

/// The first byte of an Initial header is 0xc0 (long form, fixed bit,
/// Initial type, reserved bits clear) with the packet number length minus one
/// in its two low bits, and the header ends with the packet number, on as
/// many bytes as the first byte announces.
pub proof fn lemma_initial_first_byte(
    number: PacketNumber,
    version: u32,
    dst_cid: ConnectionId,
    src_cid: ConnectionId,
    token: Seq<u8>,
)
    ensures
        ({
            let h = spec_initial_header(number, version, dst_cid, src_cid, token);
            &&& h[0] & 0xfcu8 == 0xc0u8
            &&& (h[0] & 3u8) + 1 == number.spec_len()
            &&& h.len() >= 1 + number.spec_len()
            &&& h.skip(h.len() - ((h[0] & 3u8) + 1)) == spec_pn_bytes(number)
        }),
{
    let h = spec_initial_header(number, version, dst_cid, src_cid, token);
    let k = (number.spec_len() - 1) as u8;
    assert(k <= 3);
    assert(h[0] == 0xc0u8 | k);
    assert(k <= 3u8 ==> (0xc0u8 | k) & 0xfcu8 == 0xc0u8 && (0xc0u8 | k) & 3u8 == k) by (bit_vector);
    let pn = spec_pn_bytes(number);
    assert(pn.len() == number.spec_len()) by {
        match number {
            PacketNumber::U24(x) => {
                assert(be64(x as u64).skip(5).len() == 3);
            },
            _ => {},
        }
    }
    assert(h.skip(h.len() - pn.len()) =~= pn);
}

impl Header {
    /// Whether `encode` can write this header: an Initial header whose
    /// connection ids are well formed and whose token length fits a
    /// variable-length integer.
    pub open spec fn encodable(self) -> bool {
        match self {
            Header::Initial { number, version, dst_cid, src_cid, token } => dst_cid.wf()
                && src_cid.wf() && bytes_contents(token).len() < VARINT_LIMIT,
            _ => false,
        }
    }

    /// Appends the header; the returned `PartialEncode` says where it starts,
    /// how long it is, and that the length field is still to be filled in.
    pub fn encode(&self, w: &mut Vec<u8>) -> (r: PartialEncode)
        requires
            self.encodable(),
        ensures
            match *self {
                Header::Initial { number, version, dst_cid, src_cid, token } => {
                    &&& final(w)@ == old(w)@ + spec_initial_header(
                        number,
                        version,
                        dst_cid,
                        src_cid,
                        bytes_contents(token),
                    )
                    &&& r.spec_start() == old(w)@.len()
                    &&& r.spec_header_len() == final(w)@.len() - old(w)@.len()
                    &&& r.spec_pn() == Some((number.spec_len() as usize, true))
                },
                _ => false,
            },
    {
        let start = w.len();
        match self {
            Header::Initial { dst_cid, src_cid, token, number, version } => {
                let first = u8::from(LongHeaderType::Initial) | ((number.len() - 1) as u8);
                put_u8(w, first);
                put_u32(w, *version);
                dst_cid.encode(w);
                src_cid.encode(w);
                let tok = bytes_as_slice(token);
                VarInt::from_u64(tok.len() as u64).unwrap().encode(w);
                put_slice(w, tok);
                put_u16(w, 0);
                number.encode(w);
                assert(be16(0) =~= seq![0u8, 0u8]) by {
                    assert((0u16 >> 8u16) as u8 == 0u8 && 0u16 as u8 == 0u8) by (bit_vector);
                }
                assert(w@ =~= old(w)@ + spec_initial_header(
                    *number,
                    *version,
                    *dst_cid,
                    *src_cid,
                    bytes_contents(*token),
                ));
                PartialEncode { start, header_len: w.len() - start, pn: Some((number.len(), true)) }
            },
            _ => { vstd::pervasive::unreached() },
        }
    }

    /// Appends the header as `encode` does when it can be written: an
    /// Initial header with well-formed connection ids and a token whose
    /// length fits a variable-length integer. Otherwise `None`, with nothing
    /// written.
    pub fn try_encode(&self, w: &mut Vec<u8>) -> (r: Option<PartialEncode>)
        ensures
            r is Some <==> self.encodable(),
            r is None ==> final(w)@ == old(w)@,
            r matches Some(p) ==> match *self {
                Header::Initial { number, version, dst_cid, src_cid, token } => {
                    &&& final(w)@ == old(w)@ + spec_initial_header(
                        number,
                        version,
                        dst_cid,
                        src_cid,
                        bytes_contents(token),
                    )
                    &&& p.spec_start() == old(w)@.len()
                    &&& p.spec_header_len() == final(w)@.len() - old(w)@.len()
                    &&& p.spec_pn() == Some((number.spec_len() as usize, true))
                },
                _ => false,
            },
    {
        match self {
            Header::Initial { dst_cid, src_cid, token, .. } => {
                let tok_len = bytes_as_slice(token).len();
                if (dst_cid.length as usize) <= MAX_CONNECTION_ID_LENGTH && (src_cid.length as usize)
                    <= MAX_CONNECTION_ID_LENGTH && (tok_len as u64) < VARINT_LIMIT {
                    Some(self.encode(w))
                } else {
                    None
                }
            },
            _ => None,
        }
    }
}

impl PartialEncode {
    /// The packet number length, and whether the length field is to be
    /// written, or `None` when nothing is left to do.
    pub closed spec fn spec_pn(self) -> Option<(usize, bool)> {
        self.pn
    }

    /// Where the header starts in the buffer it was written to.
    pub closed spec fn spec_start(self) -> usize {
        self.start
    }

    /// Length of the header, packet number included.
    pub closed spec fn spec_header_len(self) -> usize {
        self.header_len
    }

    /// Where the packet number starts, relative to the header's start.
    pub open spec fn spec_pn_pos(self) -> int {
        match self.spec_pn() {
            Some((pn_len, _)) => self.spec_header_len() - pn_len,
            None => 0,
        }
    }

    /// The packet `s` with the length field filled in, when there is one to
    /// fill in: the number of bytes from the packet number to the end of the
    /// packet, as a two-byte variable-length integer just before the packet
    /// number.
    pub open spec fn spec_with_length_field(self, s: Seq<u8>) -> Seq<u8> {
        match self.spec_pn() {
            Some((pn_len, write_len)) => if write_len {
                let pn_pos = self.spec_header_len() - pn_len;
                let field = be16(((s.len() - pn_pos) as u16) | 0x4000u16);
                s.update(pn_pos - 2, field[0]).update(pn_pos - 1, field[1])
            } else {
                s
            },
            None => s,
        }
    }

    /// Whether `encode` can complete the packet `buf` (header and payload,
    /// with room for the tag) with these keys.
    pub open spec fn can_encode(
        self,
        buf_len: int,
        sample_size: int,
        tag_len: Option<int>,
    ) -> bool {
        match self.spec_pn() {
            None => true,
            Some((pn_len, write_len)) => {
                let pn_pos = self.spec_header_len() - pn_len;
                &&& pn_len <= self.spec_header_len()
                &&& self.spec_header_len() <= buf_len
                &&& write_len ==> (2 <= pn_pos && buf_len - pn_pos < 0x4000)
                &&& 1 <= pn_pos
                &&& pn_pos + 4 + sample_size <= buf_len
                &&& tag_len matches Some(t) ==> {
                    &&& self.spec_header_len() + t <= buf_len
                    &&& self.spec_header_len() <= MAX_ASSOCIATED_DATA
                    &&& buf_len - self.spec_header_len() - t <= MAX_SEALED_PAYLOAD
                }
            },
        }
    }

    /// Completes the packet in `buf`: writes the length of what follows the
    /// length field (packet number and payload) as a two-byte variable-length
    /// integer when asked to, encrypts the payload when a key is given, and
    /// applies header protection.
    pub fn encode<H: HeaderKey + ?Sized, P: PayloadKey + ?Sized>(
        self,
        buf: &mut [u8],
        header_crypto: &H,
        crypto: Option<(u64, &P)>,
    )
        requires
            self.can_encode(
                old(buf)@.len() as int,
                header_crypto.spec_sample_size() as int,
                match crypto {
                    Some((_, k)) => Some(k.spec_tag_len() as int),
                    None => None,
                },
            ),
        ensures
            final(buf)@.len() == old(buf)@.len(),
            self.spec_pn() is None ==> final(buf)@ == old(buf)@,
            self.spec_pn() is Some ==> forall|i: int|
                0 < i < self.spec_pn_pos() ==> #[trigger] final(buf)@[i]
                    == self.spec_with_length_field(old(buf)@)[i],
            self.spec_pn() is Some && crypto is None ==> forall|i: int|
                self.spec_pn_pos() + 4 <= i < old(buf)@.len() ==> #[trigger] final(buf)@[i] == old(
                    buf,
                )@[i],
            self.spec_pn() is Some && crypto is Some ==> forall|i: int|
                self.spec_pn_pos() + 4 <= i < self.spec_header_len() ==> #[trigger] final(buf)@[i]
                    == old(buf)@[i],
            self.spec_pn() is Some ==> final(buf)@ == header_crypto.spec_protect(
                self.spec_pn_pos(),
                match crypto {
                    Some((number, key)) => key.spec_seal(
                        number,
                        self.spec_with_length_field(old(buf)@),
                        self.spec_header_len() as int,
                    ),
                    None => self.spec_with_length_field(old(buf)@),
                },
            ),
    {
        let PartialEncode { header_len, pn, .. } = self;
        let (pn_len, write_len) = match pn {
            Some((pn_len, write_len)) => (pn_len, write_len),
            None => return ,
        };
        let pn_pos = header_len - pn_len;
        if write_len {
            let len = buf.len() - header_len + pn_len;
            put_u16_at(buf, pn_pos - 2, len as u16 | 0b01u16 << 14u16);
            assert(0b01u16 << 14u16 == 0x4000u16) by (bit_vector);
        }
        let ghost written = buf@;
        assert(written == self.spec_with_length_field(old(buf)@));
        assert(pn_pos + 4 + header_crypto.spec_sample_size() <= written.len());
        if let Some((number, key)) = crypto {
            key.encrypt(number, buf, header_len);
            assert forall|i: int| 0 <= i < header_len implies buf@[i] == written[i] by {
                assert(buf@.take(header_len as int)[i] == buf@[i]);
                assert(written.take(header_len as int)[i] == written[i]);
            }
        }
        let ghost sealed = buf@;
        header_crypto.encrypt(pn_pos, buf);
        assert forall|i: int| 0 < i < pn_pos implies #[trigger] buf@[i] == written[i] by {
            assert(buf@[i] == sealed[i]);
        }
        assert forall|i: int| pn_pos + 4 <= i < header_len implies #[trigger] buf@[i] == old(
            buf,
        )@[i] by {
            assert(buf@[i] == sealed[i]);
            assert(sealed[i] == written[i]);
        }
    }
}

/// A two-byte length field decodes to its value.
proof fn lemma_two_byte_field(len: u64, rest: Seq<u8>)
    requires
        len < 0x4000,
    ensures
        crate::varint::spec_decode(be16((len as u16) | 0x4000u16) + rest) == Some((len, 2nat)),
{
    let y = (len as u16) | 0x4000u16;
    let s = be16(y) + rest;
    assert(s[0] == be16(y)[0] && s[1] == be16(y)[1]);
    crate::buf::lemma_be16_roundtrip(y);
    assert(be16_value(s) == be16_value(be16(y)));
    assert(((y >> 8u16) as u8) >> 6u8 == 1 && ((y & 0x3fffu16) as u64) == len) by (bit_vector)
        requires
            len < 0x4000u64,
            y == (len as u16) | 0x4000u16,
    ;
}

/// The length field that `PartialEncode::encode` fills in reads back, as a
/// variable-length integer, as the number of bytes after it: the packet
/// number and the payload.
pub proof fn lemma_length_field(pe: PartialEncode, s: Seq<u8>)
    requires
        pe.spec_pn() matches Some((pn_len, write_len)) && write_len,
        pe.can_encode(s.len() as int, 0, None),
    ensures
        crate::varint::spec_decode(pe.spec_with_length_field(s).skip(pe.spec_pn_pos() - 2)) == Some(
            ((s.len() - pe.spec_pn_pos()) as u64, 2nat),
        ),
{
    let pn_pos = pe.spec_pn_pos();
    let len = (s.len() - pn_pos) as u64;
    let t = pe.spec_with_length_field(s);
    let field = be16((len as u16) | 0x4000u16);
    lemma_two_byte_field(len, t.skip(pn_pos));
    assert(t.skip(pn_pos - 2) =~= field + t.skip(pn_pos));
}

/// The packet number window rule, over integers: `c` is `n`'s truncation
/// `t` put in place of the low bits of `e`; when `n` lies in the window of
/// width `w` centred on `e`, shifting `c` by one window in the direction the
/// rule picks lands on `n`.
proof fn lemma_window(e: int, n: int, w: int, t: int, c: int)
    requires
        w >= 2,
        w % 2 == 0,
        0 <= t < w,
        0 <= n,
        0 <= e,
        n % w == t,
        c == e - e % w + t,
        e - w / 2 < n <= e + w / 2,
        n < PN_LIMIT,
    ensures
        (e >= w / 2 && c <= e - w / 2 && c < PN_LIMIT - w) ==> n == c + w,
        !(e >= w / 2 && c <= e - w / 2 && c < PN_LIMIT - w) && (c > e + w / 2 && c >= w) ==> n
            == c - w,
        !(e >= w / 2 && c <= e - w / 2 && c < PN_LIMIT - w) && !(c > e + w / 2 && c >= w) ==> n
            == c,
{
    vstd::arithmetic::div_mod::lemma_fundamental_div_mod(n, w);
    vstd::arithmetic::div_mod::lemma_fundamental_div_mod(e, w);
    vstd::arithmetic::div_mod::lemma_mod_bound(e, w);
    let qn = n / w;
    let qe = e / w;
    let r = e % w;
    assert(0 <= qe) by (nonlinear_arith)
        requires
            e == w * qe + r,
            0 <= r < w,
            0 <= e,
            w >= 2,
    ;
    let k = qn - qe;
    assert(n - c == w * k) by (nonlinear_arith)
        requires
            n == w * qn + t,
            e == w * qe + r,
            c == e - r + t,
            k == qn - qe,
    ;
    assert(-2 * w < n - c < 2 * w);
    assert(-1 <= k <= 1) by (nonlinear_arith)
        requires
            n - c == w * k,
            w >= 2,
            -2 * w < n - c < 2 * w,
    ;
    if k == 0 {
        assert(n == c);
    } else if k == 1 {
        assert(w * k == w) by (nonlinear_arith)
            requires
                k == 1,
        ;
        assert(n == c + w);
    } else {
        assert(w * k == -w) by (nonlinear_arith)
            requires
                k == -1,
        ;
        assert(n == c - w);
        if qe == 0 {
            assert(e == r);
        } else {
            assert(w * qe >= w) by (nonlinear_arith)
                requires
                    qe >= 1,
                    w >= 2,
            ;
        }
    }
}

/// `(e & !(w - 1)) | t` clears the low bits of `e` and puts `t` there, for
/// each window `w` a packet number can have.
proof fn lemma_candidate_arith(p: PacketNumber, e: u64)
    requires
        p.spec_value() < p.spec_window(),
    ensures
        p.spec_candidate(e) == e - e % p.spec_window() + p.spec_value(),
{
    let t = p.spec_value();
    match p {
        PacketNumber::U8(_) => {
            assert((e & !(0xffu64)) | t == e - e % 0x100 + t) by (bit_vector)
                requires
                    t < 0x100u64,
            ;
        },
        PacketNumber::U16(_) => {
            assert((e & !(0xffffu64)) | t == e - e % 0x1_0000 + t) by (bit_vector)
                requires
                    t < 0x1_0000u64,
            ;
        },
        PacketNumber::U24(_) => {
            assert((e & !(0xff_ffffu64)) | t == e - e % 0x100_0000 + t) by (bit_vector)
                requires
                    t < 0x100_0000u64,
            ;
        },
        PacketNumber::U32(_) => {
            assert((e & !(0xffff_ffffu64)) | t == e - e % 0x1_0000_0000 + t) by (bit_vector)
                requires
                    t < 0x1_0000_0000u64,
            ;
        },
    }
}

/// Reading a truncated packet number back from its wire bytes, whatever
/// follows them, gives it back, provided its value fits its length (a
/// 3-byte number keeps only the low 24 bits of its value).
pub proof fn lemma_pn_codec(p: PacketNumber, rest: Seq<u8>)
    requires
        p.spec_value() < p.spec_window(),
    ensures
        spec_pn_bytes(p).len() == p.spec_len(),
        spec_pn_decode(p.spec_len(), spec_pn_bytes(p) + rest) == p,
{
    let bytes = spec_pn_bytes(p);
    let s = bytes + rest;
    match p {
        PacketNumber::U8(x) => {
            assert(s[0] == x);
        },
        PacketNumber::U16(x) => {
            assert(s[0] == bytes[0] && s[1] == bytes[1]);
            crate::buf::lemma_be16_roundtrip(x);
            assert(be16_value(s) == be16_value(bytes));
        },
        PacketNumber::U24(x) => {
            let b = s.take(3);
            assert(b =~= bytes);
            reveal_with_fuel(be_uint_value, 4);
            assert(b.drop_last().drop_last().drop_last().len() == 0);
            let b0 = b[0];
            let b1 = b[1];
            let b2 = b[2];
            assert(b.drop_last().drop_last().last() == b0);
            assert(b.drop_last().last() == b1);
            assert(b.last() == b2);
            let y = x as u64;
            assert(b0 == (y >> 16u64) as u8 && b1 == (y >> 8u64) as u8 && b2 == y as u8);
            assert(((((((0u64 << 8u64) | ((y >> 16u64) as u8 as u64)) << 8u64) | ((y >> 8u64)
                as u8 as u64)) << 8u64) | (y as u8 as u64)) as u32 == x) by (bit_vector)
                requires
                    y == x as u64,
                    x < 0x100_0000u32,
            ;
        },
        PacketNumber::U32(x) => {
            assert(s[0] == bytes[0] && s[1] == bytes[1] && s[2] == bytes[2] && s[3] == bytes[3]);
            crate::buf::lemma_be32_roundtrip(x);
            assert(be32_value(s) == be32_value(bytes));
        },
    }
}

/// The recovery rule of packet numbers: a truncation of `n` (its value is
/// `n` modulo the window) expands to `n` whenever `n` lies in the window
/// centred on the expected number, that is `expected - window / 2 < n <=
/// expected + window / 2` (for numbers below 2^62, the largest QUIC allows).
pub proof fn lemma_pn_full_window(p: PacketNumber, expected: u64, n: u64)
    requires
        p.spec_value() == n % p.spec_window(),
        expected - p.spec_window() / 2 < n <= expected + p.spec_window() / 2,
        n < 0x4000_0000_0000_0000,
        expected <= 0x4000_0000_0000_0000,
    ensures
        p.spec_full_in_range(expected),
        p.spec_full(expected) == n,
{
    let w = p.spec_window();
    let t = p.spec_value();
    vstd::arithmetic::div_mod::lemma_mod_bound(n as int, w as int);
    lemma_candidate_arith(p, expected);
    let c = p.spec_candidate(expected);
    lemma_window(expected as int, n as int, w as int, t as int, c as int);
}

/// `PacketNumber::new` picks the shortest length whose window is more than
/// twice the distance from the largest acknowledged number.
pub proof fn lemma_pn_new_shortest(n: u64, largest_acked: u64)
    requires
        largest_acked <= n,
        (n - largest_acked) * 2 < 0x1_0000_0000,
    ensures
        (n - largest_acked) * 2 < spec_pn_new(n, largest_acked).spec_window(),
        spec_pn_new(n, largest_acked).spec_len() > 1 ==> (n - largest_acked) * 2
            >= spec_pn_new(n, largest_acked).spec_window() / 0x100,
{
}

/// The truncation that `PacketNumber::new` chooses holds `n` modulo its
/// window, and its window exceeds twice the distance to `largest_acked`.
proof fn lemma_pn_new_value(n: u64, largest_acked: u64)
    requires
        largest_acked <= n,
        (n - largest_acked) * 2 < 0x1_0000_0000,
    ensures
        spec_pn_new(n, largest_acked).spec_value() == n % spec_pn_new(n, largest_acked).spec_window(),
        (n - largest_acked) * 2 < spec_pn_new(n, largest_acked).spec_window(),
{
    assert((n as u8) as u64 == n % 0x100) by (bit_vector);
    assert((n as u16) as u64 == n % 0x1_0000) by (bit_vector);
    assert((n as u32) as u64 == n % 0x1_0000_0000) by (bit_vector);
}

/// `PacketNumber::full`, given one more than `largest_acked` as the expected
/// number, undoes `PacketNumber::new(n, largest_acked)` (for packet numbers
/// below 2^62, the largest QUIC allows).
pub proof fn lemma_pn_new_full(n: u64, largest_acked: u64)
    requires
        largest_acked <= n,
        (n - largest_acked) * 2 < 0x1_0000_0000,
        n < PN_LIMIT,
    ensures
        spec_pn_new(n, largest_acked).spec_full_in_range((largest_acked + 1) as u64),
        spec_pn_new(n, largest_acked).spec_full((largest_acked + 1) as u64) == n,
{
    lemma_pn_new_value(n, largest_acked);
    lemma_pn_full_window(spec_pn_new(n, largest_acked), (largest_acked + 1) as u64, n);
}

/// A packet numbered `n`, sent with the truncation `PacketNumber::new(n,
/// largest_acked)` chooses, written to the wire, read back, and expanded by
/// a receiver whose next expected number is `largest_acked + 1`, is `n`
/// again (for packet numbers below 2^62, the largest QUIC allows).
pub proof fn lemma_pn_roundtrip(n: u64, largest_acked: u64)
    requires
        largest_acked <= n,
        (n - largest_acked) * 2 < 0x1_0000_0000,
        n < 0x4000_0000_0000_0000,
    ensures
        ({
            let p = spec_pn_new(n, largest_acked);
            let q = spec_pn_decode(p.spec_len(), spec_pn_bytes(p));
            &&& q.spec_full_in_range((largest_acked + 1) as u64)
            &&& q.spec_full((largest_acked + 1) as u64) == n
        }),
{
    let p = spec_pn_new(n, largest_acked);
    lemma_pn_new_value(n, largest_acked);
    lemma_pn_codec(p, Seq::empty());
    assert(spec_pn_bytes(p) + Seq::<u8>::empty() =~= spec_pn_bytes(p));
    lemma_pn_new_full(n, largest_acked);
}

} // verus!
