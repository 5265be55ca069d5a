//! Trusted boundary around `heapless::Vec`, the fixed-capacity vector that
//! accumulates the bytes of the packet under assembly.
//!
//! The type is opaque to the verifier; `hvec_contents` names what a vector
//! holds, and each wrapper states over that name what the called `heapless`
//! method does, as its source shows.

use vstd::prelude::*;

use crate::PAYLOAD_SIZE;

verus! {

#[verifier::external_type_specification]
#[verifier::external_body]
#[verifier::reject_recursive_types(T)]
pub struct ExHeaplessVec<T, const N: usize>(heapless::Vec<T, N>);

/// The bytes a packet buffer holds, in order.
pub uninterp spec fn hvec_contents(v: heapless::Vec<u8, PAYLOAD_SIZE>) -> Seq<u8>;

/// Relies on `heapless::Vec::new`: a freshly constructed vector is empty.
#[verifier::external_body]
pub(crate) fn hvec_new() -> (r: heapless::Vec<u8, PAYLOAD_SIZE>)
    ensures
        hvec_contents(r) == Seq::<u8>::empty(),
{
    heapless::Vec::new()
}

/// Relies on `heapless::Vec::as_slice`, the slice of every element held, for
/// the number of elements.
#[verifier::external_body]
pub(crate) fn hvec_len(v: &heapless::Vec<u8, PAYLOAD_SIZE>) -> (r: usize)
    ensures
        r == hvec_contents(*v).len(),
{
    v.as_slice().len()
}

/// Relies on `heapless::Vec::clear`: removes every element.
#[verifier::external_body]
pub(crate) fn hvec_clear(v: &mut heapless::Vec<u8, PAYLOAD_SIZE>)
    ensures
        hvec_contents(*final(v)) == Seq::<u8>::empty(),
{
    v.clear()
}

/// Relies on `heapless::Vec::extend_from_slice`: when the slice fits within
/// the remaining capacity, it is appended in order and the call succeeds.
#[verifier::external_body]
pub(crate) fn hvec_extend_from_slice(v: &mut heapless::Vec<u8, PAYLOAD_SIZE>, s: &[u8])
    requires
        hvec_contents(*old(v)).len() + s@.len() <= PAYLOAD_SIZE,
    ensures
        hvec_contents(*final(v)) == hvec_contents(*old(v)) + s@,
{
    v.extend_from_slice(s).expect("slice fits within the remaining capacity");
}

/// Relies on `heapless::Vec::into_array`: a vector holding exactly
/// `PAYLOAD_SIZE` bytes converts into the array of them. `core::mem::take`
/// hands the vector over and leaves its `Default` behind, which for
/// `heapless::Vec` is the empty vector.
#[verifier::external_body]
pub(crate) fn hvec_take_array(v: &mut heapless::Vec<u8, PAYLOAD_SIZE>) -> (r: [u8; PAYLOAD_SIZE])
    requires
        hvec_contents(*old(v)).len() == PAYLOAD_SIZE,
    ensures
        r@ == hvec_contents(*old(v)),
        hvec_contents(*final(v)) == Seq::<u8>::empty(),
{
    core::mem::take(v).into_array().expect("the vector holds exactly PAYLOAD_SIZE bytes")
}

} // verus!
