//! A small set of `u64` ranges, stored inline while there are at most two.
use vstd::prelude::*;

use std::ops::Range;

use tinyvec::TinyVec;

verus! {

/// How many ranges the set holds before it moves them to the heap.
pub const ARRAY_RANGE_SET_INLINE_CAPACITY: usize = 2;

/// The `TinyVec` that holds the ranges, kept behind a struct of its own
/// because its parameter is bound by a `tinyvec` trait.
#[verifier::external_body]
#[derive(Debug)]
pub struct RangeStore(TinyVec<[Range<u64>; ARRAY_RANGE_SET_INLINE_CAPACITY]>);

/// The ranges that the store holds, in order.
pub uninterp spec fn tinyvec_ranges(v: RangeStore) -> Seq<Range<u64>>;

/// `TinyVec::default`: an empty vec, stored inline.
#[verifier::external_body]
fn tinyvec_new() -> (r: RangeStore)
    ensures
        tinyvec_ranges(r) == Seq::<Range<u64>>::empty(),
{
    RangeStore(TinyVec::default())
}

/// `TinyVec::len`: the number of held ranges.
#[verifier::external_body]
fn tinyvec_len(v: &RangeStore) -> (r: usize)
    ensures
        r == tinyvec_ranges(*v).len(),
{
    v.0.len()
}

/// `TinyVec::as_slice`, copied into a `Vec`: the held ranges, in order.
#[verifier::external_body]
fn tinyvec_to_vec(v: &RangeStore) -> (r: Vec<Range<u64>>)
    ensures
        r@ == tinyvec_ranges(*v),
{
    v.0.as_slice().to_vec()
}

/// A set of `u64` ranges, kept in the order they were inserted.
#[derive(Debug)]
pub struct ArrayRangeSet(RangeStore);

impl View for ArrayRangeSet {
    type V = Seq<Range<u64>>;

    closed spec fn view(&self) -> Seq<Range<u64>> {
        tinyvec_ranges(self.0)
    }
}

impl Default for ArrayRangeSet {
    fn default() -> (r: Self)
        ensures
            r@ == Seq::<Range<u64>>::empty(),
    {
        ArrayRangeSet(tinyvec_new())
    }
}

impl ArrayRangeSet {
    /// The ranges, in order (the caller may walk them in either direction).
    pub fn iter(&self) -> (r: Vec<Range<u64>>)
        ensures
            r@ == self@,
    {
        tinyvec_to_vec(&self.0)
    }

    /// The number of ranges.
    pub fn len(&self) -> (r: usize)
        ensures
            r == self@.len(),
    {
        tinyvec_len(&self.0)
    }
}

} // verus!
