//! What the formatter computes before it touches the device: sizes given as
//! text, and the layout of the regions,
//! `[Superblock][Journal][InodeBitmap][DataBitmap][InodeTable][Data]`.

use crate::error::FsError;
use vstd::prelude::*;
use vstd::string::StringSliceAdditionalSpecFns;

verus! {

/// Bytes in a block of the filesystem.
pub const LAYOUT_BLOCK_SIZE: u32 = 4096;

/// Bytes an inode takes in the inode table.
pub const INODE_SIZE: u32 = 128;

/// Blocks one block of a bitmap accounts for.
pub const BITS_PER_BLOCK: u32 = 32768;

/// Blocks held back between the inode table and the estimate of the data
/// region.
pub const RESERVED_BLOCKS: u32 = 10;

/// Where each region of the filesystem begins and how many blocks it has.
#[derive(Debug, Clone, Copy, PartialEq, Eq, Structural)]
pub struct FsLayout {
    pub total_blocks: u32,
    pub block_size: u32,
    pub journal_start: u32,
    pub journal_blocks: u32,
    pub inode_bitmap_start: u32,
    pub inode_bitmap_blocks: u32,
    pub data_bitmap_start: u32,
    pub data_bitmap_blocks: u32,
    pub inode_table_start: u32,
    pub inode_table_blocks: u32,
    pub data_start: u32,
    pub data_blocks: u32,
    pub total_inodes: u32,
}

/// Whether `b` is an ASCII digit.
pub open spec fn is_digit(b: u8) -> bool {
    48 <= b <= 57
}

/// Whether every byte of `bytes` is an ASCII digit.
pub open spec fn all_digits(bytes: Seq<u8>) -> bool {
    forall|i: int| 0 <= i < bytes.len() ==> is_digit(#[trigger] bytes[i])
}

/// The number a string of decimal digits spells.
pub open spec fn decimal_value(digits: Seq<u8>) -> nat
    decreases digits.len(),
{
    if digits.len() == 0 {
        0
    } else {
        10 * decimal_value(digits.drop_last()) + (digits.last() - 48) as nat
    }
}

/// The factor a size suffix stands for: `K`, `M` or `G` in either case, or
/// none.
pub open spec fn suffix_scale(b: u8) -> Option<nat> {
    if b == 75 || b == 107 {
        Some(1024nat)
    } else if b == 77 || b == 109 {
        Some(1048576nat)
    } else if b == 71 || b == 103 {
        Some(1073741824nat)
    } else {
        None
    }
}

/// The factor by which the number in `text` is scaled.
pub open spec fn size_scale(text: Seq<u8>) -> nat {
    if text.len() > 0 && suffix_scale(text.last()) is Some {
        suffix_scale(text.last())->Some_0
    } else {
        1
    }
}

/// The digits of the number in `text`: what is left once the suffix and one
/// leading plus sign are taken off.
pub open spec fn size_digits(text: Seq<u8>) -> Seq<u8> {
    let number = if text.len() > 0 && suffix_scale(text.last()) is Some {
        text.drop_last()
    } else {
        text
    };
    if number.len() > 0 && number[0] == 43 {
        number.skip(1)
    } else {
        number
    }
}

/// The size in bytes that `text` spells: a decimal number, after an optional
/// plus sign, times the factor of its suffix. Text without digits, with
/// anything but digits, or spelling more than a `u64` holds spells no size.
pub open spec fn parsed_size(text: Seq<u8>) -> Option<u64> {
    let digits = size_digits(text);
    let value = decimal_value(digits) * size_scale(text);
    if digits.len() > 0 && all_digits(digits) && value <= u64::MAX {
        Some(value as u64)
    } else {
        None
    }
}

/// Appending digits never makes the number smaller.
pub proof fn lemma_decimal_value_grows(digits: Seq<u8>, i: int)
    requires
        0 <= i <= digits.len(),
        all_digits(digits),
    ensures
        decimal_value(digits.take(i)) <= decimal_value(digits),
    decreases digits.len() - i,
{
    if i < digits.len() {
        let longer = digits.take(i + 1);
        assert(longer.drop_last() =~= digits.take(i));
        assert(is_digit(digits[i]));
        assert(longer.last() == digits[i]);
        lemma_decimal_value_grows(digits, i + 1);
    } else {
        assert(digits.take(i) =~= digits);
    }
}

/// The factor a size suffix stands for.
fn scale_of(b: u8) -> (scale: Option<u64>)
    ensures
        match scale {
            Some(f) => suffix_scale(b) == Some(f as nat),
            None => suffix_scale(b) is None,
        },
{
    if b == 75 || b == 107 {
        Some(1024)
    } else if b == 77 || b == 109 {
        Some(1048576)
    } else if b == 71 || b == 103 {
        Some(1073741824)
    } else {
        None
    }
}

/// Reads a size such as `4096`, `64K`, `128M` or `1G`.
pub fn parse_size(s: &str) -> (r: Result<u64, FsError>)
    ensures
        match parsed_size(s.spec_bytes()) {
            Some(size) => r == Ok::<u64, FsError>(size),
            None => r == Err::<u64, FsError>(FsError::InvalidArgument),
        },
{
    let bytes = s.as_bytes();
    let ghost text = bytes@;
    let len = bytes.len();
    let mut end: usize = len;
    let mut scale: u64 = 1;
    if len > 0 {
        match scale_of(bytes[len - 1]) {
            Some(f) => {
                scale = f;
                end = len - 1;
            },
            None => {},
        }
    }
    let mut begin: usize = 0;
    if end > 0 && bytes[0] == 43 {
        begin = 1;
    }
    let ghost digits = size_digits(text);
    proof {
        assert(digits =~= text.subrange(begin as int, end as int));
    }
    if begin == end {
        return Err(FsError::InvalidArgument);
    }
    let mut value: u64 = 0;
    let mut i: usize = begin;
    while i < end
        invariant
            begin <= i <= end <= bytes.len(),
            text == bytes@,
            text == s.spec_bytes(),
            scale >= 1,
            scale == size_scale(text),
            digits == size_digits(text),
            digits == text.subrange(begin as int, end as int),
            all_digits(digits.take(i - begin)),
            value == decimal_value(digits.take(i - begin)),
        decreases end - i,
    {
        let b = bytes[i];
        proof {
            assert(digits[i - begin] == b);
            assert(digits.take(i - begin + 1).drop_last() =~= digits.take(i - begin));
            assert(digits.take(i - begin + 1).last() == b);
        }
        if b < 48 || b > 57 {
            proof {
                assert(!is_digit(digits[i - begin]));
            }
            return Err(FsError::InvalidArgument);
        }
        let d: u64 = (b - 48) as u64;
        if value > (u64::MAX - d) / 10 {
            proof {
                if all_digits(digits) {
                    lemma_decimal_value_grows(digits, i - begin + 1);
                    assert(decimal_value(digits.take(i - begin + 1)) == 10 * value + d);
                    assert(decimal_value(digits) > u64::MAX);
                    assert(decimal_value(digits) * size_scale(text) >= decimal_value(digits))
                        by (nonlinear_arith)
                        requires
                            size_scale(text) >= 1,
                    ;
                }
            }
            return Err(FsError::InvalidArgument);
        }
        value = value * 10 + d;
        proof {
            assert forall|j: int| 0 <= j < i - begin + 1 implies is_digit(
                #[trigger] digits.take(i - begin + 1)[j],
            ) by {
                if j < i - begin {
                    assert(digits.take(i - begin)[j] == digits[j]);
                }
            }
        }
        i = i + 1;
    }
    proof {
        assert(digits.take(end - begin) =~= digits);
    }
    if value > u64::MAX / scale {
        proof {
            assert(value * scale > u64::MAX) by (nonlinear_arith)
                requires
                    value > u64::MAX / scale,
                    scale >= 1,
            ;
        }
        return Err(FsError::InvalidArgument);
    }
    proof {
        assert(value * scale <= u64::MAX) by (nonlinear_arith)
            requires
                value <= u64::MAX / scale,
                scale >= 1,
        ;
    }
    Ok(value * scale)
}

/// `count` items at `per` to the unit, rounded up to whole units.
pub open spec fn units_for(count: int, per: int) -> int {
    (count + per - 1) / per
}

/// The layout of a filesystem of `total_blocks` blocks with a journal of
/// `journal_blocks` blocks, or `None` where the regions ahead of the data do
/// not leave room for it.
///
/// Block 0 is the superblock and the journal follows at block 1. There is one
/// inode for every two blocks. The inode bitmap, the data bitmap and the
/// inode table follow the journal in that order. The data bitmap is sized
/// for what is left after the inode table and ten blocks held back. The data
/// region takes the rest.
pub open spec fn layout_of(total_blocks: int, journal_blocks: int, block_size: u32) -> Option<
    FsLayout,
> {
    let total_inodes = total_blocks / 2;
    let inode_bitmap_blocks = units_for(total_inodes, BITS_PER_BLOCK as int);
    let inode_bitmap_start = 1 + journal_blocks;
    let remaining = total_blocks - inode_bitmap_start;
    let inode_table_blocks = units_for(total_inodes, (LAYOUT_BLOCK_SIZE / INODE_SIZE) as int);
    let estimate = remaining - inode_table_blocks - RESERVED_BLOCKS;
    let data_bitmap_blocks = units_for(estimate, BITS_PER_BLOCK as int);
    let data_bitmap_start = inode_bitmap_start + inode_bitmap_blocks;
    let inode_table_start = data_bitmap_start + data_bitmap_blocks;
    let data_start = inode_table_start + inode_table_blocks;
    if estimate >= 0 && data_start <= total_blocks {
        Some(
            FsLayout {
                total_blocks: total_blocks as u32,
                block_size,
                journal_start: 1,
                journal_blocks: journal_blocks as u32,
                inode_bitmap_start: inode_bitmap_start as u32,
                inode_bitmap_blocks: inode_bitmap_blocks as u32,
                data_bitmap_start: data_bitmap_start as u32,
                data_bitmap_blocks: data_bitmap_blocks as u32,
                inode_table_start: inode_table_start as u32,
                inode_table_blocks: inode_table_blocks as u32,
                data_start: data_start as u32,
                data_blocks: (total_blocks - data_start) as u32,
                total_inodes: total_inodes as u32,
            },
        )
    } else {
        None
    }
}

/// What laying out `total_size` bytes with a journal of `journal_size` bytes
/// in blocks of `block_size` bytes gives: sizes are cut down to whole
/// blocks; a block size of zero, a block count that a `u32` does not hold,
/// or regions that leave no room for data give no layout.
pub open spec fn layout_outcome(total_size: u64, journal_size: u64, block_size: u32) -> Option<
    FsLayout,
> {
    if block_size == 0 || total_size / (block_size as u64) > u32::MAX || journal_size / (
    block_size as u64) > u32::MAX {
        None
    } else {
        layout_of(
            (total_size / (block_size as u64)) as int,
            (journal_size / (block_size as u64)) as int,
            block_size,
        )
    }
}

/// Lays out the regions of a filesystem.
pub fn calculate_layout(total_size: u64, journal_size: u64, block_size: u32) -> (r: Result<
    FsLayout,
    FsError,
>)
    ensures
        match layout_outcome(total_size, journal_size, block_size) {
            Some(layout) => r == Ok::<FsLayout, FsError>(layout),
            None => r == Err::<FsLayout, FsError>(FsError::InvalidArgument),
        },
{
    if block_size == 0 {
        return Err(FsError::InvalidArgument);
    }
    let total: u64 = total_size / block_size as u64;
    let journal: u64 = journal_size / block_size as u64;
    if total > u32::MAX as u64 || journal > u32::MAX as u64 {
        return Err(FsError::InvalidArgument);
    }
    let bits: u64 = BITS_PER_BLOCK as u64;
    let inodes_per_block: u64 = (LAYOUT_BLOCK_SIZE / INODE_SIZE) as u64;
    let total_inodes: u64 = total / 2;
    let inode_bitmap_blocks: u64 = (total_inodes + bits - 1) / bits;
    let inode_bitmap_start: u64 = 1 + journal;
    let inode_table_blocks: u64 = (total_inodes + inodes_per_block - 1) / inodes_per_block;
    if total < inode_bitmap_start + inode_table_blocks + RESERVED_BLOCKS as u64 {
        return Err(FsError::InvalidArgument);
    }
    let estimate: u64 = total - inode_bitmap_start - inode_table_blocks - RESERVED_BLOCKS as u64;
    let data_bitmap_blocks: u64 = (estimate + bits - 1) / bits;
    let data_bitmap_start: u64 = inode_bitmap_start + inode_bitmap_blocks;
    let inode_table_start: u64 = data_bitmap_start + data_bitmap_blocks;
    let data_start: u64 = inode_table_start + inode_table_blocks;
    if data_start > total {
        return Err(FsError::InvalidArgument);
    }
    Ok(
        FsLayout {
            total_blocks: total as u32,
            block_size,
            journal_start: 1,
            journal_blocks: journal as u32,
            inode_bitmap_start: inode_bitmap_start as u32,
            inode_bitmap_blocks: inode_bitmap_blocks as u32,
            data_bitmap_start: data_bitmap_start as u32,
            data_bitmap_blocks: data_bitmap_blocks as u32,
            inode_table_start: inode_table_start as u32,
            inode_table_blocks: inode_table_blocks as u32,
            data_start: data_start as u32,
            data_blocks: (total - data_start) as u32,
            total_inodes: total_inodes as u32,
        },
    )
}

/// In every layout the regions lie in order, one after the other, and end
/// with the device.
pub proof fn lemma_layout_is_contiguous(total_blocks: int, journal_blocks: int, block_size: u32)
    requires
        0 <= total_blocks <= u32::MAX,
        0 <= journal_blocks <= u32::MAX,
        layout_of(total_blocks, journal_blocks, block_size) is Some,
    ensures
        ({
            let l = layout_of(total_blocks, journal_blocks, block_size)->Some_0;
            &&& l.journal_start == 1
            &&& l.inode_bitmap_start == l.journal_start + l.journal_blocks
            &&& l.data_bitmap_start == l.inode_bitmap_start + l.inode_bitmap_blocks
            &&& l.inode_table_start == l.data_bitmap_start + l.data_bitmap_blocks
            &&& l.data_start == l.inode_table_start + l.inode_table_blocks
            &&& l.data_start + l.data_blocks == l.total_blocks
            &&& l.total_blocks == total_blocks
        }),
{
}

} // verus!
