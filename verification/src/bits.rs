//! The growable bit container that holds a fingerprint.
//!
//! The bits live in a `bitvec::vec::BitVec`. The verifier cannot look inside
//! one, so the calls into it are stated here and believed: each of the four
//! private functions below says what one `bitvec` call does to the sequence
//! of bits held. Everything else in this crate, the two conversions at the
//! end of this module included, is verified against those four statements.

use bitvec::vec::BitVec;
use vstd::prelude::*;

verus! {

/// A sequence of bits that grows at its end.
#[verifier::external_body]
#[derive(Debug)]
pub struct Bits {
    inner: BitVec,
}

/// The bits that a container holds, first pushed first.
pub uninterp spec fn bits_of(bits: Bits) -> Seq<bool>;

/// The largest number of bits that a container can hold: `bitvec` addresses
/// single bits, which costs it three bits of the address space
/// (`BitSlice::MAX_BITS`).
pub open spec fn max_bits() -> int {
    usize::MAX as int / 8
}

impl View for Bits {
    type V = Seq<bool>;

    open spec fn view(&self) -> Seq<bool> {
        bits_of(*self)
    }
}

/// `BitVec::with_capacity`: an empty vector with room for `capacity` bits.
/// The call panics when `capacity` is above `BitSlice::MAX_BITS`, so such a
/// capacity is not admitted.
#[verifier::external_body]
pub(crate) fn with_capacity(capacity: usize) -> (bits: Bits)
    requires
        capacity <= max_bits(),
    ensures
        bits_of(bits) == Seq::<bool>::empty(),
{
    Bits { inner: BitVec::with_capacity(capacity) }
}

/// `BitVec::push`: appends `bit` behind the bits already held. The call
/// panics when the vector already holds `BitSlice::MAX_BITS` bits, so a full
/// vector is not admitted.
#[verifier::external_body]
pub(crate) fn push(bits: &mut Bits, bit: bool)
    requires
        bits_of(*old(bits)).len() < max_bits(),
    ensures
        bits_of(*final(bits)) == bits_of(*old(bits)).push(bit),
{
    bits.inner.push(bit)
}

/// `BitSlice::len`, reached through the vector: the number of bits held.
#[verifier::external_body]
pub(crate) fn len(bits: &Bits) -> (n: usize)
    ensures
        n == bits_of(*bits).len(),
{
    bits.inner.len()
}

/// Indexing of a `BitSlice` by position, reached through the vector: the bit
/// at `index`. The call panics past the end, so `index` is below the length.
#[verifier::external_body]
pub(crate) fn get(bits: &Bits, index: usize) -> (bit: bool)
    requires
        index < bits_of(*bits).len(),
    ensures
        bit == bits_of(*bits)[index as int],
{
    bits.inner[index]
}

impl Bits {
    /// The container that holds exactly the bits of `source`, in its order.
    pub fn from_bools(source: &[bool]) -> (bits: Bits)
        requires
            source@.len() <= max_bits(),
        ensures
            bits@ == source@,
    {
        let mut bits = with_capacity(source.len());
        let mut i: usize = 0;
        while i < source.len()
            invariant
                i <= source@.len() <= max_bits(),
                bits@ == source@.take(i as int),
            decreases source@.len() - i,
        {
            push(&mut bits, source[i]);
            assert(source@.take(i as int).push(source@[i as int]) == source@.take(i + 1));
            i += 1;
        }
        assert(source@.take(source@.len() as int) == source@);
        bits
    }

    /// The bits held, in order, as a vector of booleans.
    pub fn to_bools(&self) -> (out: Vec<bool>)
        ensures
            out@ == self@,
    {
        let n = len(self);
        let mut out: Vec<bool> = Vec::with_capacity(n);
        let mut i: usize = 0;
        while i < n
            invariant
                i <= n == self@.len(),
                out@ == self@.take(i as int),
            decreases n - i,
        {
            out.push(get(self, i));
            assert(self@.take(i as int).push(self@[i as int]) == self@.take(i + 1));
            i += 1;
        }
        assert(self@.take(n as int) == self@);
        out
    }
}

} // verus!
