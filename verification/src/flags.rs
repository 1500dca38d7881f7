//! A vector of flags, one bit each.

use vstd::prelude::*;

verus! {

/// A vector of flags, held as a bit-vector of the crate `bitvec`.
#[verifier::external_body]
pub struct Flags {
    bits: bitvec::vec::BitVec,
}

/// The flags that the vector holds, in order.
pub uninterp spec fn bits_of(f: Flags) -> Seq<bool>;

/// The largest number of flags that a vector holds.
pub const MAX_FLAGS: usize = usize::MAX / 8;

/// `BitVec::repeat(false, n)` of the crate `bitvec`: a bit-vector of `n`
/// bits, none of them set. It panics for more bits than a bit-vector can
/// hold, which the precondition leaves out.
#[verifier::external_body]
pub(crate) fn flags_new(n: usize) -> (r: Flags)
    requires
        n <= MAX_FLAGS,
    ensures
        bits_of(r) == Seq::new(n as nat, |i: int| false),
{
    Flags { bits: bitvec::vec::BitVec::repeat(false, n) }
}

/// Indexing a bit-vector of the crate `bitvec`: the bit at place `i`. It
/// panics for a place outside the vector, which the precondition leaves
/// out.
#[verifier::external_body]
pub(crate) fn flag_get(f: &Flags, i: usize) -> (r: bool)
    requires
        i < bits_of(*f).len(),
    ensures
        r == bits_of(*f)[i as int],
{
    f.bits[i]
}

/// `BitSlice::set` of the crate `bitvec`, on a bit-vector: writes the bit
/// at place `i` and leaves the others. It panics for a place outside the
/// vector, which the precondition leaves out.
#[verifier::external_body]
pub(crate) fn flag_set(f: &mut Flags, i: usize, value: bool)
    requires
        i < bits_of(*old(f)).len(),
    ensures
        bits_of(*final(f)) == bits_of(*old(f)).update(i as int, value),
{
    f.bits.set(i, value)
}

} // verus!
