//! Frames: PADDING, PING and ACK, with the wire encoding of ACK frames.
use vstd::prelude::*;

use std::ops::Range;

use bytes::Bytes;

use crate::range_set::ArrayRangeSet;
use crate::varint::{self, spec_decode, spec_encode, VARINT_LIMIT};

verus! {

/// A frame of a packet's payload.
#[derive(Debug)]
pub enum Frame {
    Padding,
    Ping,
    Ack(Ack),
}

/// An ACK frame as received: the largest acknowledged number, the ACK delay,
/// the undecoded ACK ranges, and the ECN counts if present.
#[derive(Debug)]
pub struct Ack {
    pub largest: u64,
    pub delay: u64,
    pub additional: Bytes,
    pub ecn: Option<EcnCounts>,
}

/// A frame type number.
#[derive(Copy, Clone, Eq, PartialEq)]
pub struct Type(u64);

/// The frame type of an ACK frame without ECN counts.
pub const ACK_TYPE: u64 = 0x02;

/// The frame type of an ACK frame with ECN counts.
pub const ACK_ECN_TYPE: u64 = 0x03;

impl Type {
    /// The ACK frame type.
    pub fn ack() -> (r: Type)
        ensures
            r.spec_value() == ACK_TYPE,
    {
        Type(ACK_TYPE)
    }

    /// The ACK frame type with ECN counts.
    pub fn ack_ecn() -> (r: Type)
        ensures
            r.spec_value() == ACK_ECN_TYPE,
    {
        Type(ACK_ECN_TYPE)
    }

    /// The type number.
    pub closed spec fn spec_value(self) -> u64 {
        self.0
    }
}

impl From<Type> for u64 {
    fn from(x: Type) -> (r: u64) {
        x.0
    }
}

impl vstd::std_specs::convert::FromSpecImpl<Type> for u64 {
    open spec fn obeys_from_spec() -> bool {
        true
    }

    open spec fn from_spec(x: Type) -> u64 {
        x.spec_value()
    }
}

/// The counts of packets received with each ECN codepoint.
#[derive(Debug, Copy, Clone, Eq, PartialEq)]
pub struct EcnCounts {
    pub ect0: u64,
    pub ect1: u64,
    pub ce: u64,
}

/// The wire form of ECN counts: the three counts as variable-length integers.
pub open spec fn spec_ecn_bytes(e: EcnCounts) -> Seq<u8> {
    spec_encode(e.ect0) + spec_encode(e.ect1) + spec_encode(e.ce)
}

impl EcnCounts {
    /// Whether every count fits a variable-length integer.
    pub open spec fn encodable(self) -> bool {
        self.ect0 < VARINT_LIMIT && self.ect1 < VARINT_LIMIT && self.ce < VARINT_LIMIT
    }

    /// Appends the three counts.
    pub fn encode(&self, buf: &mut Vec<u8>)
        requires
            self.encodable(),
        ensures
            final(buf)@ == old(buf)@ + spec_ecn_bytes(*self),
    {
        varint::encode(self.ect0, buf);
        varint::encode(self.ect1, buf);
        varint::encode(self.ce, buf);
        assert(final(buf)@ =~= old(buf)@ + spec_ecn_bytes(*self));
    }
}

/// Whether `encode` can describe the ranges `rs`: there is at least one,
/// each is non-empty, each ends strictly before the next one starts, and the
/// largest acknowledged number is below 2^62.
pub open spec fn ack_ranges_ok(rs: Seq<Range<u64>>) -> bool {
    &&& rs.len() >= 1
    &&& rs.len() <= VARINT_LIMIT
    &&& forall|i: int| 0 <= i < rs.len() ==> #[trigger] rs[i].start < rs[i].end
    &&& forall|i: int| 0 <= i < rs.len() - 1 ==> #[trigger] rs[i].end < rs[i + 1].start
    &&& rs.last().end <= VARINT_LIMIT
}

/// The gap and length fields of the ranges `rs[k - 1]`, ..., `rs[0]`, in that
/// order: for each range, the distance from its end to the start of the
/// range after it, minus one, then its length minus one.
pub open spec fn spec_ack_blocks(rs: Seq<Range<u64>>, k: nat) -> Seq<u8>
    decreases k,
{
    if k == 0 {
        Seq::empty()
    } else {
        let b = rs[k - 1];
        let prev = rs[k as int].start;
        spec_encode((prev - b.end - 1) as u64) + spec_encode((b.end - b.start - 1) as u64)
            + spec_ack_blocks(rs, (k - 1) as nat)
    }
}

/// The wire form of an ACK frame for the ranges `rs`: the type (with or
/// without ECN), the largest acknowledged number, the delay, the number of
/// further ranges, the length of the last range minus one, the fields of the
/// other ranges from the last to the first, and the ECN counts if any.
pub open spec fn spec_ack_bytes(delay: u64, rs: Seq<Range<u64>>, ecn: Option<EcnCounts>) -> Seq<
    u8,
> {
    let first = rs.last();
    let n = rs.len();
    spec_encode(if ecn is Some {
        ACK_ECN_TYPE
    } else {
        ACK_TYPE
    }) + spec_encode((first.end - 1) as u64) + spec_encode(delay) + spec_encode((n - 1) as u64)
        + spec_encode((first.end - first.start - 1) as u64) + spec_ack_blocks(rs, (n - 1) as nat)
        + match ecn {
        Some(e) => spec_ecn_bytes(e),
        None => Seq::empty(),
    }
}

/// Each range of an ordered, gapped set below 2^62 gives encodable fields.
proof fn lemma_ranges_bounded(rs: Seq<Range<u64>>, i: int)
    requires
        ack_ranges_ok(rs),
        0 <= i < rs.len(),
    ensures
        rs[i].end <= rs.last().end,
    decreases rs.len() - i,
{
    if i < rs.len() - 1 {
        assert(rs[i].end < rs[i + 1].start);
        assert(rs[i + 1].start < rs[i + 1].end);
        lemma_ranges_bounded(rs, i + 1);
    }
}

/// The variable-length integer at the front of `s` and the number of bytes
/// it takes, or `None` (`spec_decode`).
#[verifier::opaque]
pub open spec fn read_varint(s: Seq<u8>) -> Option<(u64, nat)> {
    spec_decode(s)
}

/// Reading ECN counts from the front of `s`: the three counts and the
/// number of bytes read, or `None` when a count is missing.
pub open spec fn spec_read_ecn(s: Seq<u8>) -> Option<(EcnCounts, nat)> {
    match read_varint(s) {
        None => None,
        Some((ect0, a)) => match read_varint(s.skip(a as int)) {
            None => None,
            Some((ect1, b)) => match read_varint(s.skip((a + b) as int)) {
                None => None,
                Some((ce, c)) => Some((EcnCounts { ect0, ect1, ce }, a + b + c)),
            },
        },
    }
}

/// Reading `count` gap and length field pairs from the front of `s`, the
/// range read before them starting at `smallest`: the ranges they describe,
/// in ascending order, and the number of bytes read; `None` when a field is
/// missing or a range would reach below zero. A gap counts the unacknowledged
/// numbers below the range read before, minus one; a length the numbers of
/// the range, minus one.
pub open spec fn spec_read_ack_blocks(s: Seq<u8>, smallest: int, count: nat) -> Option<
    (Seq<Range<u64>>, nat),
>
    decreases count,
{
    if count == 0 {
        Some((Seq::empty(), 0nat))
    } else {
        match read_varint(s) {
            None => None,
            Some((gap, a)) => match read_varint(s.skip(a as int)) {
                None => None,
                Some((len, b)) => {
                    let end = smallest - gap - 1;
                    let start = end - len - 1;
                    if start < 0 {
                        None
                    } else {
                        match spec_read_ack_blocks(s.skip((a + b) as int), start, (count - 1) as nat) {
                            None => None,
                            Some((lower, c)) => Some(
                                (lower.push(Range { start: start as u64, end: end as u64 }), a + b
                                    + c),
                            ),
                        }
                    }
                },
            },
        }
    }
}

/// Reading an ACK frame from the front of `s`: its type, its delay, the
/// acknowledged ranges in ascending order (the largest acknowledged number,
/// the length of the range that ends there, then gap and length pairs going
/// down), the ECN counts when the type is that of ACK with ECN counts, and the
/// number of bytes read; `None` when a field is missing or a range would
/// reach below zero.
pub open spec fn spec_read_ack(s: Seq<u8>) -> Option<
    (u64, u64, Seq<Range<u64>>, Option<EcnCounts>, nat),
> {
    match read_varint(s) {
        None => None,
        Some((ty, a)) => {
            let s1 = s.skip(a as int);
            match read_varint(s1) {
                None => None,
                Some((largest, b)) => {
                    let s2 = s1.skip(b as int);
                    match read_varint(s2) {
                        None => None,
                        Some((delay, c)) => {
                            let s3 = s2.skip(c as int);
                            match read_varint(s3) {
                                None => None,
                                Some((count, d)) => {
                                    let s4 = s3.skip(d as int);
                                    match read_varint(s4) {
                                        None => None,
                                        Some((first_len, e)) => {
                                            let start = largest - first_len;
                                            let s5 = s4.skip(e as int);
                                            if start < 0 {
                                                None
                                            } else {
                                                match spec_read_ack_blocks(s5, start, count as nat) {
                                                    None => None,
                                                    Some((lower, f)) => {
                                                        let ranges = lower.push(
                                                            Range {
                                                                start: start as u64,
                                                                end: (largest + 1) as u64,
                                                            },
                                                        );
                                                        let n = a + b + c + d + e + f;
                                                        if ty == ACK_ECN_TYPE {
                                                            match spec_read_ecn(s5.skip(f as int)) {
                                                                None => None,
                                                                Some((counts, g)) => Some(
                                                                    (ty, delay, ranges, Some(counts), n + g),
                                                                ),
                                                            }
                                                        } else {
                                                            Some((ty, delay, ranges, None, n))
                                                        }
                                                    },
                                                }
                                            }
                                        },
                                    }
                                },
                            }
                        },
                    }
                },
            }
        },
    }
}

/// A field decodes to its value, whatever follows it, and what follows is
/// left.
proof fn lemma_field(x: u64, tail: Seq<u8>)
    requires
        x < VARINT_LIMIT,
    ensures
        read_varint(spec_encode(x) + tail) == Some((x, spec_encode(x).len())),
        (spec_encode(x) + tail).skip(spec_encode(x).len() as int) == tail,
{
    reveal(read_varint);
    varint::lemma_decode_encode(x, tail);
    varint::lemma_encode_len(x);
    assert((spec_encode(x) + tail).skip(spec_encode(x).len() as int) =~= tail);
}

/// The gap and length fields of the ranges below `rs[k]` read back as those
/// ranges.
proof fn lemma_read_blocks(rs: Seq<Range<u64>>, k: nat, rest: Seq<u8>)
    requires
        ack_ranges_ok(rs),
        k < rs.len(),
    ensures
        spec_read_ack_blocks(spec_ack_blocks(rs, k) + rest, rs[k as int].start as int, k) == Some(
            (rs.take(k as int), spec_ack_blocks(rs, k).len()),
        ),
    decreases k,
{
    if k == 0 {
        assert(rs.take(0) =~= Seq::<Range<u64>>::empty());
    } else {
        let b = rs[k - 1];
        let prev = rs[k as int].start;
        lemma_ranges_bounded(rs, k - 1);
        lemma_ranges_bounded(rs, k as int);
        assert(b.end < prev);
        assert(prev < rs[k as int].end);
        assert(b.start < b.end);
        let gap = (prev - b.end - 1) as u64;
        let len = (b.end - b.start - 1) as u64;
        let lower = spec_ack_blocks(rs, (k - 1) as nat);
        let s = spec_ack_blocks(rs, k) + rest;
        assert(spec_ack_blocks(rs, k) == spec_encode(gap) + spec_encode(len) + lower);
        let tail = spec_encode(len) + (lower + rest);
        assert(s =~= spec_encode(gap) + tail);
        lemma_field(gap, tail);
        lemma_field(len, lower + rest);
        lemma_read_blocks(rs, (k - 1) as nat, rest);
        assert(s.skip((spec_encode(gap).len() + spec_encode(len).len()) as int) =~= lower + rest);
        assert(rs.take(k - 1).push(Range { start: b.start, end: b.end }) =~= rs.take(k as int));
    }
}

/// Reading what `Ack::encode` wrote gives back the frame: the type with or
/// without ECN counts, the delay, exactly the ranges that were encoded, the
/// ECN counts, and the number of bytes written, whatever follows.
#[verifier::spinoff_prover]
#[verifier::rlimit(100)]
pub proof fn lemma_ack_read_back(
    delay: u64,
    rs: Seq<Range<u64>>,
    ecn: Option<EcnCounts>,
    rest: Seq<u8>,
)
    requires
        ack_ranges_ok(rs),
        delay < VARINT_LIMIT,
        ecn matches Some(e) ==> e.encodable(),
    ensures
        spec_read_ack(spec_ack_bytes(delay, rs, ecn) + rest) matches Some(
            (ty, read_delay, ranges, counts, n),
        ) && ty == (if ecn is Some {
            ACK_ECN_TYPE
        } else {
            ACK_TYPE
        }) && read_delay == delay && ranges == rs && counts == ecn && n == spec_ack_bytes(
            delay,
            rs,
            ecn,
        ).len(),
{
    let n = rs.len();
    let last = rs.last();
    lemma_ranges_bounded(rs, n - 1);
    assert(last.start < last.end);
    let ty: u64 = if ecn is Some {
        ACK_ECN_TYPE
    } else {
        ACK_TYPE
    };
    let largest = (last.end - 1) as u64;
    let count = (n - 1) as u64;
    let first_len = (last.end - last.start - 1) as u64;
    let blocks = spec_ack_blocks(rs, (n - 1) as nat);
    let ecn_bytes: Seq<u8> = match ecn {
        Some(e) => spec_ecn_bytes(e),
        None => Seq::empty(),
    };
    let t4 = blocks + (ecn_bytes + rest);
    let t3 = spec_encode(first_len) + t4;
    let t2 = spec_encode(count) + t3;
    let t1 = spec_encode(delay) + t2;
    let t0 = spec_encode(largest) + t1;
    let s = spec_ack_bytes(delay, rs, ecn) + rest;
    assert(s =~= spec_encode(ty) + t0);
    lemma_field(ty, t0);
    lemma_field(largest, t1);
    lemma_field(delay, t2);
    lemma_field(count, t3);
    lemma_field(first_len, t4);
    let a = spec_encode(ty).len();
    let b = spec_encode(largest).len();
    let c = spec_encode(delay).len();
    let d = spec_encode(count).len();
    let e = spec_encode(first_len).len();
    assert(s.skip(a as int) == t0);
    assert(t0.skip(b as int) == t1);
    assert(t1.skip(c as int) == t2);
    assert(t2.skip(d as int) == t3);
    assert(t3.skip(e as int) == t4);
    lemma_read_tail(rs, ecn, rest);
    assert(largest - first_len == last.start);
    assert(rs.take(n - 1).push(Range { start: last.start, end: last.end }) =~= rs);
    assert(spec_ack_bytes(delay, rs, ecn).len() == a + b + c + d + e + blocks.len()
        + ecn_bytes.len());
}

/// The fields after the first range read back as the other ranges, then the
/// ECN counts.
#[verifier::spinoff_prover]
proof fn lemma_read_tail(rs: Seq<Range<u64>>, ecn: Option<EcnCounts>, rest: Seq<u8>)
    requires
        ack_ranges_ok(rs),
        ecn matches Some(e) ==> e.encodable(),
    ensures
        ({
            let blocks = spec_ack_blocks(rs, (rs.len() - 1) as nat);
            let ecn_bytes: Seq<u8> = match ecn {
                Some(e) => spec_ecn_bytes(e),
                None => Seq::empty(),
            };
            let t = blocks + (ecn_bytes + rest);
            &&& spec_read_ack_blocks(t, rs.last().start as int, (rs.len() - 1) as nat) == Some(
                (rs.take(rs.len() - 1), blocks.len()),
            )
            &&& t.skip(blocks.len() as int) == ecn_bytes + rest
            &&& ecn matches Some(e) ==> spec_read_ecn(ecn_bytes + rest) == Some(
                (e, ecn_bytes.len()),
            )
        }),
{
    let blocks = spec_ack_blocks(rs, (rs.len() - 1) as nat);
    let ecn_bytes: Seq<u8> = match ecn {
        Some(e) => spec_ecn_bytes(e),
        None => Seq::empty(),
    };
    lemma_read_blocks(rs, (rs.len() - 1) as nat, ecn_bytes + rest);
    assert((blocks + (ecn_bytes + rest)).skip(blocks.len() as int) =~= ecn_bytes + rest);
    if let Some(e) = ecn {
        lemma_read_ecn(e, rest);
    }
}

/// ECN counts read back as themselves.
proof fn lemma_read_ecn(e: EcnCounts, rest: Seq<u8>)
    requires
        e.encodable(),
    ensures
        spec_read_ecn(spec_ecn_bytes(e) + rest) == Some((e, spec_ecn_bytes(e).len())),
{
    let u2 = spec_encode(e.ce) + rest;
    let u1 = spec_encode(e.ect1) + u2;
    let s = spec_ecn_bytes(e) + rest;
    assert(s =~= spec_encode(e.ect0) + u1);
    lemma_field(e.ect0, u1);
    lemma_field(e.ect1, u2);
    lemma_field(e.ce, rest);
    assert(s.skip((spec_encode(e.ect0).len() + spec_encode(e.ect1).len()) as int) =~= u2);
}

impl Ack {
    /// Appends an ACK frame for `ranges` (whose largest range comes last).
    pub fn encode(delay: u64, ranges: &ArrayRangeSet, ecn: Option<&EcnCounts>, buf: &mut Vec<u8>)
        requires
            ack_ranges_ok(ranges@),
            delay < VARINT_LIMIT,
            ecn matches Some(e) ==> e.encodable(),
        ensures
            final(buf)@ == old(buf)@ + spec_ack_bytes(
                delay,
                ranges@,
                match ecn {
                    Some(e) => Some(*e),
                    None => None,
                },
            ),
    {
        let rs = ranges.iter();
        Ack::encode_ranges(delay, &rs, ecn, buf)
    }

    /// Appends an ACK frame for the ranges `rs` (whose largest range comes last).
    #[verifier::spinoff_prover]
    pub fn encode_ranges(delay: u64, rs: &Vec<Range<u64>>, ecn: Option<&EcnCounts>, buf: &mut Vec<u8>)
        requires
            ack_ranges_ok(rs@),
            delay < VARINT_LIMIT,
            ecn matches Some(e) ==> e.encodable(),
        ensures
            final(buf)@ == old(buf)@ + spec_ack_bytes(
                delay,
                rs@,
                match ecn {
                    Some(e) => Some(*e),
                    None => None,
                },
            ),
    {
        let n = rs.len();
        let first = &rs[n - 1];
        assert(rs@[n - 1].start < rs@[n - 1].end);
        let largest = first.end - 1;
        let first_size = first.end - first.start;
        let ghost e = match ecn {
            Some(e) => Some(*e),
            None => None::<EcnCounts>,
        };
        let ty: u64 = if ecn.is_some() {
            Type::ack_ecn().into()
        } else {
            Type::ack().into()
        };
        varint::encode(ty, buf);
        varint::encode(largest, buf);
        varint::encode(delay, buf);
        varint::encode(n as u64 - 1, buf);
        varint::encode(first_size - 1, buf);
        let ghost head = buf@;
        let ghost prefix = spec_encode(ty) + spec_encode(largest) + spec_encode(delay) + spec_encode(
            (n - 1) as u64,
        ) + spec_encode((first_size - 1) as u64);
        assert(head =~= old(buf)@ + prefix);
        let mut prev = first.start;
        let mut k = n - 1;
        while k > 0
            invariant
                rs@.len() == n,
                ack_ranges_ok(rs@),
                0 <= k < n,
                prev == rs@[k as int].start,
                buf@ + spec_ack_blocks(rs@, k as nat) == head + spec_ack_blocks(
                    rs@,
                    (n - 1) as nat,
                ),
            decreases k,
        {
            let block = &rs[k - 1];
            proof {
                lemma_ranges_bounded(rs@, k - 1);
                lemma_ranges_bounded(rs@, k as int);
                assert(rs@[k - 1].end < rs@[k as int].start);
            }
            let size = block.end - block.start;
            varint::encode(prev - block.end - 1, buf);
            varint::encode(size - 1, buf);
            prev = block.start;
            k = k - 1;
            proof {
                let b = rs@[k as int];
                assert(spec_ack_blocks(rs@, (k + 1) as nat) == spec_encode(
                    (rs@[(k + 1) as int].start - b.end - 1) as u64,
                ) + spec_encode((b.end - b.start - 1) as u64) + spec_ack_blocks(rs@, k as nat));
                assert(buf@ + spec_ack_blocks(rs@, k as nat) =~= head + spec_ack_blocks(
                    rs@,
                    (n - 1) as nat,
                ));
            }
        }
        let ghost blocks = spec_ack_blocks(rs@, (n - 1) as nat);
        assert(buf@ =~= head + blocks);
        if let Some(x) = ecn {
            x.encode(buf)
        }
        let ghost tail: Seq<u8> = match e {
            Some(c) => spec_ecn_bytes(c),
            None => Seq::empty(),
        };
        assert(buf@ =~= head + blocks + tail);
        assert(spec_ack_bytes(delay, rs@, e) =~= prefix + blocks + tail);
        assert(buf@ =~= old(buf)@ + spec_ack_bytes(delay, rs@, e));
    }
}

} // verus!
