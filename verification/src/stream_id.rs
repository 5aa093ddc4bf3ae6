//! Stream identifiers: a sequence number shifted left by two, with the
//! stream type in the two low bits.
use vstd::prelude::*;

use crate::text::{append_decimal, spec_decimal};
use crate::varint::VarInt;

verus! {

/// A QUIC stream identifier.
#[derive(Debug, Copy, Clone, Eq, PartialEq, Default)]
pub struct StreamId(u64);

impl View for StreamId {
    type V = u64;

    closed spec fn view(&self) -> u64 {
        self.0
    }
}

/// Who opened a stream, and whether it carries data both ways.
#[derive(Debug, Copy, Clone, Eq, PartialEq)]
pub enum StreamType {
    ClientBidirectional,
    ServerBidirectional,
    ClientUnidirectional,
    ServerUnidirectional,
}

impl StreamType {
    /// The two low bits that a stream id of this type carries.
    pub open spec fn bits(self) -> u64 {
        match self {
            StreamType::ClientBidirectional => 0,
            StreamType::ServerBidirectional => 1,
            StreamType::ClientUnidirectional => 2,
            StreamType::ServerUnidirectional => 3,
        }
    }

    /// The words `StreamId::display` uses for this type.
    pub open spec fn spec_description(self) -> Seq<char> {
        match self {
            StreamType::ClientBidirectional => "client bidirectional"@,
            StreamType::ServerBidirectional => "server bidirectional"@,
            StreamType::ClientUnidirectional => "client unidirectional"@,
            StreamType::ServerUnidirectional => "server unidirectional"@,
        }
    }

    /// The words `StreamId::display` uses for this type.
    pub fn description(&self) -> (r: &'static str)
        ensures
            r@ == self.spec_description(),
    {
        match self {
            StreamType::ClientBidirectional => "client bidirectional",
            StreamType::ServerBidirectional => "server bidirectional",
            StreamType::ClientUnidirectional => "client unidirectional",
            StreamType::ServerUnidirectional => "server unidirectional",
        }
    }
}

/// The raw value of the id of type `st` and sequence number `id` (bits of
/// `id` above the 62nd are shifted out).
pub open spec fn spec_stream_id(st: StreamType, id: u64) -> u64 {
    (id << 2u64) | st.bits()
}

/// The type of the raw stream id `v`: its two low bits.
pub open spec fn spec_stream_type(v: u64) -> StreamType {
    if v & 3 == 0 {
        StreamType::ClientBidirectional
    } else if v & 3 == 1 {
        StreamType::ServerBidirectional
    } else if v & 3 == 2 {
        StreamType::ClientUnidirectional
    } else {
        StreamType::ServerUnidirectional
    }
}

impl StreamId {
    /// The id of the `id`-th stream of type `st`.
    pub fn new(st: StreamType, id: u64) -> (r: StreamId)
        ensures
            r@ == spec_stream_id(st, id),
    {
        let bits: u64 = match st {
            StreamType::ClientBidirectional => 0x00,
            StreamType::ServerBidirectional => 0x01,
            StreamType::ClientUnidirectional => 0x02,
            StreamType::ServerUnidirectional => 0x03,
        };
        StreamId(id << 2u64 | bits)
    }

    /// The sequence number: the raw value without its two type bits.
    pub fn id(&self) -> (r: u64)
        ensures
            r == self@ >> 2u64,
    {
        self.0 >> 2u64
    }

    /// The stream type, as read from the two low bits of the raw value.
    pub fn stream_type(&self) -> (r: StreamType)
        ensures
            r == spec_stream_type(self@),
    {
        let v = self.0;
        if v & 0x3 == 0x00 {
            StreamType::ClientBidirectional
        } else if v & 0x3 == 0x01 {
            StreamType::ServerBidirectional
        } else if v & 0x3 == 0x02 {
            StreamType::ClientUnidirectional
        } else {
            StreamType::ServerUnidirectional
        }
    }

    /// The text form: the type's description, " stream ", and the sequence
    /// number in decimal.
    pub fn display(&self) -> (r: String)
        ensures
            r@ == formatted_stream_id(spec_stream_type(self@).spec_description(), self@ >> 2u64),
    {
        let st = self.stream_type();
        let mut r = String::new();
        r.append(st.description());
        r.append(" stream ");
        append_decimal(&mut r, self.id());
        proof {
            reveal_strlit(" stream ");
        }
        assert(r@ =~= formatted_stream_id(spec_stream_type(self@).spec_description(), self@ >> 2u64));
        r
    }
}

/// The text `label`, " stream ", then `id` in decimal.
pub open spec fn formatted_stream_id(label: Seq<char>, id: u64) -> Seq<char> {
    label + seq![' ', 's', 't', 'r', 'e', 'a', 'm', ' '] + spec_decimal(id as nat)
}

impl From<StreamId> for VarInt {
    fn from(x: StreamId) -> (r: VarInt) {
        VarInt(x.0)
    }
}

impl vstd::std_specs::convert::FromSpecImpl<StreamId> for VarInt {
    open spec fn obeys_from_spec() -> bool {
        true
    }

    closed spec fn from_spec(v: StreamId) -> VarInt {
        VarInt(v.0)
    }
}

impl From<VarInt> for StreamId {
    fn from(v: VarInt) -> (r: StreamId) {
        StreamId(v.0)
    }
}

impl vstd::std_specs::convert::FromSpecImpl<VarInt> for StreamId {
    open spec fn obeys_from_spec() -> bool {
        true
    }

    closed spec fn from_spec(v: VarInt) -> StreamId {
        StreamId(v.0)
    }
}

/// A stream id built from a sequence number below 2^62 gives that number back.
pub proof fn lemma_new_id(st: StreamType, id: u64)
    requires
        id < 0x4000_0000_0000_0000,
    ensures
        spec_stream_id(st, id) >> 2u64 == id,
{
    let b = st.bits();
    assert(b <= 3);
    assert(b <= 3 && id < 0x4000_0000_0000_0000u64 ==> ((id << 2u64) | b) >> 2u64 == id)
        by (bit_vector);
}

/// A stream id built for a type reads back as that type, whatever the
/// sequence number.
pub proof fn lemma_new_stream_type(st: StreamType, id: u64)
    ensures
        spec_stream_type(spec_stream_id(st, id)) == st,
{
    let b = st.bits();
    assert(b <= 3);
    assert(b <= 3 ==> ((id << 2u64) | b) & 3 == b) by (bit_vector);
}

/// A stream id made from a `VarInt` keeps its raw value: the integer the
/// `VarInt` holds.
pub proof fn lemma_from_varint(v: VarInt)
    ensures
        <StreamId as vstd::std_specs::convert::FromSpec<VarInt>>::from_spec(v)@ == v@,
{
    crate::varint::lemma_view_is_value(v);
}

/// Two stream ids are equal exactly when their raw values are.
pub proof fn lemma_stream_id_eq(a: StreamId, b: StreamId)
    ensures
        a == b <==> a@ == b@,
{
}

/// Converting a stream id to a `VarInt` and back changes nothing, and the
/// `VarInt` holds the raw value.
pub proof fn lemma_varint_roundtrip(s: StreamId)
    ensures
        <VarInt as vstd::std_specs::convert::FromSpec<StreamId>>::from_spec(s)@ == s@,
        <StreamId as vstd::std_specs::convert::FromSpec<VarInt>>::from_spec(
            <VarInt as vstd::std_specs::convert::FromSpec<StreamId>>::from_spec(s),
        ) == s,
{
    crate::varint::lemma_view_is_value(
        <VarInt as vstd::std_specs::convert::FromSpec<StreamId>>::from_spec(s),
    );
}

} // verus!
