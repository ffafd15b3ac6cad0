//! The inline-first vector that holds a version's segments, as the library
//! sees it: a sequence of `u64`.

use smallvec::SmallVec;
use vstd::prelude::*;

verus! {

/// The storage of a version: up to four segments inline, more on the heap.
/// Verus sees only what `segments_held` says of it.
#[verifier::external_body]
pub struct Segments {
    items: SmallVec<[u64; 4]>,
}

/// The segments that a `Segments` holds, in order.
pub uninterp spec fn segments_held(v: Segments) -> Seq<u64>;

/// Relies on `SmallVec::from_vec`: the vector's items, in order, are moved in
/// unchanged (inline when they fit, else the vector's buffer is kept).
#[verifier::external_body]
pub(crate) fn segments_from_vec(v: Vec<u64>) -> (r: Segments)
    ensures
        segments_held(r) == v@,
{
    Segments { items: SmallVec::from_vec(v) }
}

/// Relies on `SmallVec::as_slice`: a slice over exactly the items held.
#[verifier::external_body]
pub(crate) fn segments_as_slice(v: &Segments) -> (r: &[u64])
    ensures
        r@ == segments_held(*v),
{
    v.items.as_slice()
}

} // verus!
