//! The on-device form of the bitmap: a packed bit array, least significant
//! bit first within each byte, zero-padded to whole blocks.

use vstd::prelude::*;

verus! {

/// Bit `bit` of `byte`, counting from the least significant.
pub open spec fn byte_bit(byte: u8, bit: u8) -> bool {
    byte & (1u8 << bit) != 0
}

/// The bits of a byte string: bit `i` is bit `i % 8` of byte `i / 8`.
pub open spec fn bits_of_bytes(bytes: Seq<u8>) -> Seq<bool> {
    Seq::new(8 * bytes.len(), |i: int| byte_bit(bytes[i / 8], (i % 8) as u8))
}

/// The length in bytes of the on-device image of a bitmap of `total` bits:
/// one bit per block, rounded up to whole blocks.
pub open spec fn image_len(total: nat) -> nat {
    ((((total + 7) / 8 + 4095) / 4096) * 4096) as nat
}

/// Bit `i` of `bits`, and clear beyond its end.
pub open spec fn bit_at(bits: Seq<bool>, i: int) -> bool {
    0 <= i < bits.len() && bits[i]
}

/// The byte whose bit `j` is `bj`.
pub open spec fn spec_byte_of_bits(
    b0: bool,
    b1: bool,
    b2: bool,
    b3: bool,
    b4: bool,
    b5: bool,
    b6: bool,
    b7: bool,
) -> u8 {
    (if b0 { 1u8 } else { 0u8 }) | (if b1 { 2u8 } else { 0u8 }) | (if b2 { 4u8 } else { 0u8 }) | (if b3 {
        8u8
    } else {
        0u8
    }) | (if b4 { 16u8 } else { 0u8 }) | (if b5 { 32u8 } else { 0u8 }) | (if b6 { 64u8 } else { 0u8 })
        | (if b7 { 128u8 } else { 0u8 })
}

/// The byte whose bit `j` is `bj`.
pub fn byte_of_bits(
    b0: bool,
    b1: bool,
    b2: bool,
    b3: bool,
    b4: bool,
    b5: bool,
    b6: bool,
    b7: bool,
) -> (byte: u8)
    ensures
        byte == spec_byte_of_bits(b0, b1, b2, b3, b4, b5, b6, b7),
{
    (if b0 { 1u8 } else { 0u8 }) | (if b1 { 2u8 } else { 0u8 }) | (if b2 { 4u8 } else { 0u8 }) | (if b3 {
        8u8
    } else {
        0u8
    }) | (if b4 { 16u8 } else { 0u8 }) | (if b5 { 32u8 } else { 0u8 }) | (if b6 { 64u8 } else { 0u8 })
        | (if b7 { 128u8 } else { 0u8 })
}

/// Byte `k` of the image: bits `8k` to `8k + 7` of the bitmap, bit `8k + j`
/// at weight `1 << j`; bits past the bitmap's end are clear.
pub open spec fn packed_byte(bits: Seq<bool>, k: int) -> u8 {
    spec_byte_of_bits(
        bit_at(bits, 8 * k),
        bit_at(bits, 8 * k + 1),
        bit_at(bits, 8 * k + 2),
        bit_at(bits, 8 * k + 3),
        bit_at(bits, 8 * k + 4),
        bit_at(bits, 8 * k + 5),
        bit_at(bits, 8 * k + 6),
        bit_at(bits, 8 * k + 7),
    )
}

/// The on-device image of a bitmap.
pub open spec fn bitmap_image(bits: Seq<bool>) -> Seq<u8> {
    Seq::new(image_len(bits.len()), |k: int| packed_byte(bits, k))
}

/// Each of eight disjoint one-bit values can be read back out of their union.
proof fn lemma_union_bits(v0: u8, v1: u8, v2: u8, v3: u8, v4: u8, v5: u8, v6: u8, v7: u8)
    by (bit_vector)
    requires
        v0 == 0 || v0 == 1,
        v1 == 0 || v1 == 2,
        v2 == 0 || v2 == 4,
        v3 == 0 || v3 == 8,
        v4 == 0 || v4 == 16,
        v5 == 0 || v5 == 32,
        v6 == 0 || v6 == 64,
        v7 == 0 || v7 == 128,
    ensures
        ((v0 | v1 | v2 | v3 | v4 | v5 | v6 | v7) & (1u8 << 0u8) != 0) == (v0 == 1),
        ((v0 | v1 | v2 | v3 | v4 | v5 | v6 | v7) & (1u8 << 1u8) != 0) == (v1 == 2),
        ((v0 | v1 | v2 | v3 | v4 | v5 | v6 | v7) & (1u8 << 2u8) != 0) == (v2 == 4),
        ((v0 | v1 | v2 | v3 | v4 | v5 | v6 | v7) & (1u8 << 3u8) != 0) == (v3 == 8),
        ((v0 | v1 | v2 | v3 | v4 | v5 | v6 | v7) & (1u8 << 4u8) != 0) == (v4 == 16),
        ((v0 | v1 | v2 | v3 | v4 | v5 | v6 | v7) & (1u8 << 5u8) != 0) == (v5 == 32),
        ((v0 | v1 | v2 | v3 | v4 | v5 | v6 | v7) & (1u8 << 6u8) != 0) == (v6 == 64),
        ((v0 | v1 | v2 | v3 | v4 | v5 | v6 | v7) & (1u8 << 7u8) != 0) == (v7 == 128),
{
}

/// Bit `j` of the byte made of eight bits is the `j`-th of them.
pub proof fn lemma_byte_of_bits(
    b0: bool,
    b1: bool,
    b2: bool,
    b3: bool,
    b4: bool,
    b5: bool,
    b6: bool,
    b7: bool,
)
    ensures
        byte_bit(spec_byte_of_bits(b0, b1, b2, b3, b4, b5, b6, b7), 0) == b0,
        byte_bit(spec_byte_of_bits(b0, b1, b2, b3, b4, b5, b6, b7), 1) == b1,
        byte_bit(spec_byte_of_bits(b0, b1, b2, b3, b4, b5, b6, b7), 2) == b2,
        byte_bit(spec_byte_of_bits(b0, b1, b2, b3, b4, b5, b6, b7), 3) == b3,
        byte_bit(spec_byte_of_bits(b0, b1, b2, b3, b4, b5, b6, b7), 4) == b4,
        byte_bit(spec_byte_of_bits(b0, b1, b2, b3, b4, b5, b6, b7), 5) == b5,
        byte_bit(spec_byte_of_bits(b0, b1, b2, b3, b4, b5, b6, b7), 6) == b6,
        byte_bit(spec_byte_of_bits(b0, b1, b2, b3, b4, b5, b6, b7), 7) == b7,
{
    lemma_union_bits(
        if b0 { 1u8 } else { 0u8 },
        if b1 { 2u8 } else { 0u8 },
        if b2 { 4u8 } else { 0u8 },
        if b3 { 8u8 } else { 0u8 },
        if b4 { 16u8 } else { 0u8 },
        if b5 { 32u8 } else { 0u8 },
        if b6 { 64u8 } else { 0u8 },
        if b7 { 128u8 } else { 0u8 },
    );
}

/// The image is long enough to hold every bit of the bitmap.
pub proof fn lemma_image_holds_bitmap(total: nat)
    ensures
        total <= 8 * image_len(total),
        image_len(total) % 4096 == 0,
{
}

/// Read back bit by bit, the image gives the bitmap, and clear bits past its
/// end.
pub proof fn lemma_image_byte_bit(bits: Seq<bool>, i: int)
    requires
        0 <= i < 8 * image_len(bits.len()),
    ensures
        bits_of_bytes(bitmap_image(bits))[i] == bit_at(bits, i),
{
    let k = i / 8;
    let j = i % 8;
    lemma_byte_of_bits(
        bit_at(bits, 8 * k),
        bit_at(bits, 8 * k + 1),
        bit_at(bits, 8 * k + 2),
        bit_at(bits, 8 * k + 3),
        bit_at(bits, 8 * k + 4),
        bit_at(bits, 8 * k + 5),
        bit_at(bits, 8 * k + 6),
        bit_at(bits, 8 * k + 7),
    );
    assert(bitmap_image(bits)[k] == packed_byte(bits, k));
    assert(i == 8 * k + j);
}

/// A bitmap written to the device and read back is the bitmap it was: the
/// first `bits.len()` bits of the image's bits are `bits`.
pub proof fn lemma_bitmap_round_trip(bits: Seq<bool>)
    ensures
        bits.len() <= bits_of_bytes(bitmap_image(bits)).len(),
        bits_of_bytes(bitmap_image(bits)).take(bits.len() as int) == bits,
{
    lemma_image_holds_bitmap(bits.len());
    let read_back = bits_of_bytes(bitmap_image(bits)).take(bits.len() as int);
    assert forall|i: int| 0 <= i < bits.len() implies read_back[i] == bits[i] by {
        lemma_image_byte_bit(bits, i);
    }
    assert(read_back =~= bits);
}

} // verus!
