//! The bounded chunk store of a compiled format: a fixed-capacity vector
//! from the `heapless` crate, reached through trusted wrappers whose
//! contracts speak of its contents as a sequence.

use vstd::prelude::*;
use crate::printf::format::Chunk;

verus! {

#[verifier::external_type_specification]
#[verifier::external_body]
#[verifier::reject_recursive_types(T)]
pub struct ExHeaplessVec<T, const N: usize>(heapless::Vec<T, N>);

/// The chunks a store holds, oldest first: the initialized prefix that
/// `heapless::Vec::as_slice` exposes.
pub uninterp spec fn chunk_seq(v: heapless::Vec<Chunk, 64>) -> Seq<Chunk>;

/// Relies on heapless::Vec::new: a newly constructed vector is empty.
#[verifier::external_body]
pub fn chunks_new() -> (v: heapless::Vec<Chunk, 64>)
    ensures
        chunk_seq(v) == Seq::<Chunk>::empty(),
{
    heapless::Vec::new()
}

/// Relies on heapless::Vec::push: appends the item when the length is
/// below the capacity, and otherwise returns the item back unchanged.
#[verifier::external_body]
pub fn chunks_push(v: &mut heapless::Vec<Chunk, 64>, c: Chunk) -> (r: Result<(), Chunk>)
    ensures
        r == (if chunk_seq(*old(v)).len() < 64 { Ok::<(), Chunk>(()) } else { Err::<(), Chunk>(c) }),
        chunk_seq(*final(v)) == (if chunk_seq(*old(v)).len() < 64 { chunk_seq(*old(v)).push(c) } else { chunk_seq(*old(v)) }),
{
    v.push(c)
}

/// Relies on heapless::Vec::as_slice: the slice of the pushed items, so
/// its length is the number of items held.
#[verifier::external_body]
pub fn chunks_len(v: &heapless::Vec<Chunk, 64>) -> (n: usize)
    ensures
        n == chunk_seq(*v).len(),
{
    v.as_slice().len()
}

/// Relies on heapless::Vec::as_slice: indexing the slice of the pushed
/// items yields the item at that position.
#[verifier::external_body]
pub fn chunks_get(v: &heapless::Vec<Chunk, 64>, i: usize) -> (c: Chunk)
    requires
        i < chunk_seq(*v).len(),
    ensures
        c == chunk_seq(*v)[i as int],
{
    v.as_slice()[i]
}

} // verus!
