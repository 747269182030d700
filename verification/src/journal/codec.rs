//! Little-endian integers in byte strings, and block images padded with
//! zeros. The wire format is positional: every field sits at a fixed offset,
//! least significant byte first.

use crate::device::BLOCK_SIZE;
use vstd::prelude::*;

verus! {

/// The four bytes of `x`, least significant first.
pub open spec fn le_bytes_u32(x: u32) -> Seq<u8> {
    seq![
        (x % 256) as u8,
        ((x / 256) % 256) as u8,
        ((x / 65536) % 256) as u8,
        ((x / 16777216) % 256) as u8,
    ]
}

/// The eight bytes of `x`, least significant first.
pub open spec fn le_bytes_u64(x: u64) -> Seq<u8> {
    le_bytes_u32((x % 4294967296) as u32) + le_bytes_u32((x / 4294967296) as u32)
}

/// The integer whose little-endian bytes are the four bytes of `bytes` from
/// offset `at` on.
pub open spec fn le_u32(bytes: Seq<u8>, at: int) -> u32 {
    (bytes[at] + 256 * bytes[at + 1] + 65536 * bytes[at + 2] + 16777216 * bytes[at + 3]) as u32
}

/// The integer whose little-endian bytes are the eight bytes of `bytes` from
/// offset `at` on.
pub open spec fn le_u64(bytes: Seq<u8>, at: int) -> u64 {
    (le_u32(bytes, at) + 4294967296 * le_u32(bytes, at + 4)) as u64
}

/// `n` zero bytes.
pub open spec fn zeros(n: nat) -> Seq<u8> {
    Seq::new(n, |i: int| 0u8)
}

/// `fields` followed by zeros up to a whole block.
pub open spec fn padded_block(fields: Seq<u8>) -> Seq<u8> {
    fields + zeros((BLOCK_SIZE - fields.len()) as nat)
}

/// Decoding undoes encoding, wherever in a byte string the bytes lie.
pub proof fn lemma_le_u32_round_trip(x: u32, bytes: Seq<u8>, at: int)
    requires
        0 <= at,
        at + 4 <= bytes.len(),
        bytes.subrange(at, at + 4) == le_bytes_u32(x),
    ensures
        le_u32(bytes, at) == x,
{
    let field = bytes.subrange(at, at + 4);
    assert(field[0] == bytes[at]);
    assert(field[1] == bytes[at + 1]);
    assert(field[2] == bytes[at + 2]);
    assert(field[3] == bytes[at + 3]);
}

/// Decoding undoes encoding, wherever in a byte string the bytes lie.
pub proof fn lemma_le_u64_round_trip(x: u64, bytes: Seq<u8>, at: int)
    requires
        0 <= at,
        at + 8 <= bytes.len(),
        bytes.subrange(at, at + 8) == le_bytes_u64(x),
    ensures
        le_u64(bytes, at) == x,
{
    let low = (x % 4294967296) as u32;
    let high = (x / 4294967296) as u32;
    let field = bytes.subrange(at, at + 8);
    assert(bytes.subrange(at, at + 4) =~= le_bytes_u32(low)) by {
        assert forall|i: int| 0 <= i < 4 implies bytes.subrange(at, at + 4)[i] == le_bytes_u32(
            low,
        )[i] by {
            assert(field[i] == bytes[at + i]);
        }
    }
    assert(bytes.subrange(at + 4, at + 8) =~= le_bytes_u32(high)) by {
        assert forall|i: int| 0 <= i < 4 implies bytes.subrange(at + 4, at + 8)[i]
            == le_bytes_u32(high)[i] by {
            assert(field[i + 4] == bytes[at + 4 + i]);
        }
    }
    lemma_le_u32_round_trip(low, bytes, at);
    lemma_le_u32_round_trip(high, bytes, at + 4);
}

/// Appends the four bytes of `x`, least significant first.
pub fn put_u32(out: &mut Vec<u8>, x: u32)
    ensures
        final(out)@ == old(out)@ + le_bytes_u32(x),
{
    out.push((x % 256) as u8);
    out.push(((x / 256) % 256) as u8);
    out.push(((x / 65536) % 256) as u8);
    out.push(((x / 16777216) % 256) as u8);
    proof {
        assert(out@ =~= old(out)@ + le_bytes_u32(x));
    }
}

/// Appends the eight bytes of `x`, least significant first.
pub fn put_u64(out: &mut Vec<u8>, x: u64)
    ensures
        final(out)@ == old(out)@ + le_bytes_u64(x),
{
    put_u32(out, (x % 4294967296) as u32);
    put_u32(out, (x / 4294967296) as u32);
    proof {
        assert(out@ =~= old(out)@ + le_bytes_u64(x));
    }
}

/// Reads the little-endian integer in the four bytes from offset `at` on.
pub fn get_u32(bytes: &Vec<u8>, at: usize) -> (x: u32)
    requires
        at + 4 <= bytes.len(),
    ensures
        x == le_u32(bytes@, at as int),
{
    let b0: u32 = bytes[at] as u32;
    let b1: u32 = bytes[at + 1] as u32;
    let b2: u32 = bytes[at + 2] as u32;
    let b3: u32 = bytes[at + 3] as u32;
    b0 + 256 * b1 + 65536 * b2 + 16777216 * b3
}

/// Reads the little-endian integer in the eight bytes from offset `at` on.
pub fn get_u64(bytes: &Vec<u8>, at: usize) -> (x: u64)
    requires
        at + 8 <= bytes.len(),
    ensures
        x == le_u64(bytes@, at as int),
{
    let low: u64 = get_u32(bytes, at) as u64;
    let high: u64 = get_u32(bytes, at + 4) as u64;
    low + 4294967296 * high
}

/// Pads `out` with zeros up to a whole block.
pub fn pad_block(out: &mut Vec<u8>)
    requires
        old(out).len() <= BLOCK_SIZE,
    ensures
        final(out)@ == padded_block(old(out)@),
        final(out).len() == BLOCK_SIZE,
{
    let ghost fields = out@;
    while out.len() < BLOCK_SIZE
        invariant
            fields.len() <= out.len() <= BLOCK_SIZE,
            out@ == fields + zeros((out.len() - fields.len()) as nat),
        decreases BLOCK_SIZE - out.len(),
    {
        let ghost before = out@;
        out.push(0u8);
        proof {
            assert(out@ =~= fields + zeros((out.len() - fields.len()) as nat));
        }
    }
}

/// A copy of `bytes`.
pub fn copy_bytes(bytes: &Vec<u8>) -> (copy: Vec<u8>)
    ensures
        copy@ == bytes@,
{
    let mut copy: Vec<u8> = Vec::with_capacity(bytes.len());
    let mut i: usize = 0;
    while i < bytes.len()
        invariant
            i <= bytes.len(),
            copy@ == bytes@.take(i as int),
        decreases bytes.len() - i,
    {
        copy.push(bytes[i]);
        proof {
            assert(copy@ =~= bytes@.take(i + 1));
        }
        i = i + 1;
    }
    proof {
        assert(bytes@.take(bytes.len() as int) =~= bytes@);
    }
    copy
}

} // verus!
