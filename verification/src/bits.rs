//! The bit vectors that carry an input and an activation.
//!
//! `bit_vec::BitVec` is used as it is. Nothing in this module is proved: it
//! states what the methods of `BitVec` that the pooler calls do to the bits
//! that a vector holds.

use bit_vec::BitVec;
use vstd::prelude::*;

verus! {

#[verifier::external_type_specification]
#[verifier::external_body]
#[verifier::reject_recursive_types(B)]
pub struct ExBitVec<B>(BitVec<B>);

/// The bits that a vector holds, in order.
pub uninterp spec fn bits(v: BitVec<u32>) -> Seq<bool>;

/// `BitVec::new`: a vector that holds no bit.
#[verifier::external_body]
pub(crate) fn empty_bits() -> (v: BitVec<u32>)
    ensures
        bits(v) == Seq::<bool>::empty(),
{
    BitVec::new()
}

/// `BitVec::len`: the number of bits that the vector holds.
#[verifier::external_body]
pub(crate) fn bit_count(v: &BitVec<u32>) -> (n: usize)
    ensures
        n == bits(*v).len(),
{
    v.len()
}

/// `BitVec::get`: the bit at `i`, or nothing where `i` is not below the
/// length.
#[verifier::external_body]
pub(crate) fn bit_at(v: &BitVec<u32>, i: usize) -> (b: Option<bool>)
    ensures
        i < bits(*v).len() ==> b == Some(bits(*v)[i as int]),
        i >= bits(*v).len() ==> b.is_none(),
{
    v.get(i)
}

/// `BitVec::push`: the same bits, and `bit` after them. The method panics
/// on a vector of `usize::MAX` bits, which the precondition leaves out.
#[verifier::external_body]
pub(crate) fn push_bit(v: &mut BitVec<u32>, bit: bool)
    requires
        bits(*old(v)).len() < usize::MAX,
    ensures
        bits(*final(v)) == bits(*old(v)).push(bit),
{
    v.push(bit)
}

} // verus!
