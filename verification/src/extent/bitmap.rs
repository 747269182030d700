//! The bit vectors that back the allocator, and what is taken on trust of
//! them. Verus sees neither type from the inside: every fact it has about
//! their bits comes from the contracts in this file.

use bitvec::order::Lsb0;
use bitvec::vec::BitVec;
use vstd::prelude::*;

verus! {

/// One bit per managed block, held in a `bitvec` bit vector over machine
/// words. A set bit marks an allocated block.
#[verifier::external_body]
pub struct Bitmap {
    bits: BitVec<usize, Lsb0>,
}

/// The bits a [`Bitmap`] holds, in index order.
pub uninterp spec fn bitmap_bits(b: Bitmap) -> Seq<bool>;

/// The largest number of bits a bit vector can span: an eighth of the address
/// space (`BitSlice::MAX_BITS`).
pub open spec fn max_bits() -> int {
    (usize::MAX / 8) as int
}

impl Bitmap {
    /// `BitVec::repeat(false, len)`: `len` clear bits. The outside function
    /// panics on a length above `BitSlice::MAX_BITS`, which `requires` leaves
    /// out.
    #[verifier::external_body]
    pub(crate) fn zeroed(len: usize) -> (b: Bitmap)
        requires
            len <= max_bits(),
        ensures
            bitmap_bits(b) == Seq::new(len as nat, |i: int| false),
    {
        Bitmap { bits: BitVec::repeat(false, len) }
    }

    /// `BitSlice`'s `Index<usize>`, reached through the bit vector: the bit
    /// at `index`. Out of bounds the outside function panics.
    #[verifier::external_body]
    pub(crate) fn get(&self, index: usize) -> (bit: bool)
        requires
            index < bitmap_bits(*self).len(),
        ensures
            bit == bitmap_bits(*self)[index as int],
    {
        self.bits[index]
    }

    /// `BitSlice::set`: writes `value` at `index` and leaves every other bit
    /// as it was. Out of bounds the outside function panics.
    #[verifier::external_body]
    pub(crate) fn set(&mut self, index: usize, value: bool)
        requires
            index < bitmap_bits(*old(self)).len(),
        ensures
            bitmap_bits(*final(self)) == bitmap_bits(*old(self)).update(index as int, value),
    {
        self.bits.set(index, value);
    }
}

/// The bits of a byte buffer read least significant bit first, held in a
/// `bitvec` bit vector over bytes.
#[verifier::external_body]
pub struct ByteBits {
    bits: BitVec<u8, Lsb0>,
}

/// The bits a [`ByteBits`] holds, in index order.
pub uninterp spec fn byte_bits(b: ByteBits) -> Seq<bool>;

impl ByteBits {
    /// `BitVec::<u8, Lsb0>::from_vec`: the bits of `bytes`, byte after byte,
    /// each byte from its least significant bit up. The outside function
    /// panics where the bits outnumber `BitSlice::MAX_BITS`.
    #[verifier::external_body]
    pub(crate) fn from_bytes(bytes: Vec<u8>) -> (b: ByteBits)
        requires
            bytes.len() * 8 <= max_bits(),
        ensures
            byte_bits(b) == crate::extent::codec::bits_of_bytes(bytes@),
    {
        ByteBits { bits: BitVec::from_vec(bytes) }
    }

    /// `BitSlice`'s `Index<usize>`, reached through the bit vector: the bit
    /// at `index`. Out of bounds the outside function panics.
    #[verifier::external_body]
    pub(crate) fn get(&self, index: usize) -> (bit: bool)
        requires
            index < byte_bits(*self).len(),
        ensures
            bit == byte_bits(*self)[index as int],
    {
        self.bits[index]
    }
}

} // verus!
