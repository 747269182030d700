//! Plain data of the extent allocator: extents and counters.

use vstd::prelude::*;
use vstd::string::StringExecFns;

verus! {

/// The character of the decimal digit `d`.
pub open spec fn digit_char(d: nat) -> char {
    if d == 0 {
        '0'
    } else if d == 1 {
        '1'
    } else if d == 2 {
        '2'
    } else if d == 3 {
        '3'
    } else if d == 4 {
        '4'
    } else if d == 5 {
        '5'
    } else if d == 6 {
        '6'
    } else if d == 7 {
        '7'
    } else if d == 8 {
        '8'
    } else {
        '9'
    }
}

/// The decimal numeral of `x`, without leading zeros.
pub open spec fn decimal_text(x: nat) -> Seq<char>
    decreases x,
{
    if x < 10 {
        seq![digit_char(x)]
    } else {
        decimal_text(x / 10).push(digit_char(x % 10))
    }
}

/// The one-character string of the decimal digit `d`.
fn digit_str(d: u32) -> (s: &'static str)
    requires
        d < 10,
    ensures
        s@ == seq![digit_char(d as nat)],
{
    proof {
        reveal_strlit("0");
        reveal_strlit("1");
        reveal_strlit("2");
        reveal_strlit("3");
        reveal_strlit("4");
        reveal_strlit("5");
        reveal_strlit("6");
        reveal_strlit("7");
        reveal_strlit("8");
        reveal_strlit("9");
    }
    let s = if d == 0 {
        "0"
    } else if d == 1 {
        "1"
    } else if d == 2 {
        "2"
    } else if d == 3 {
        "3"
    } else if d == 4 {
        "4"
    } else if d == 5 {
        "5"
    } else if d == 6 {
        "6"
    } else if d == 7 {
        "7"
    } else if d == 8 {
        "8"
    } else {
        "9"
    };
    proof {
        assert(s@ =~= seq![digit_char(d as nat)]);
    }
    s
}

/// Appends the decimal numeral of `x` to `out`.
fn push_decimal(out: &mut String, x: u32)
    ensures
        final(out)@ == old(out)@ + decimal_text(x as nat),
    decreases x,
{
    if x >= 10 {
        push_decimal(out, x / 10);
    }
    out.append(digit_str(x % 10));
    proof {
        if x >= 10 {
            assert(out@ =~= old(out)@ + decimal_text(x as nat));
        }
    }
}

/// A contiguous run of blocks: `length` blocks from `start` on.
#[derive(Debug, Clone, Copy, PartialEq, Eq, Structural)]
pub struct Extent {
    /// First block of the run.
    pub start: u32,
    /// Number of blocks in the run.
    pub length: u32,
}

impl Extent {
    /// The block one past the last block of the run, as a mathematical integer.
    pub open spec fn spec_end(self) -> int {
        self.start + self.length
    }

    /// Whether `block_num` lies in the run.
    pub open spec fn spec_contains(self, block_num: int) -> bool {
        self.start <= block_num < self.spec_end()
    }

    /// Whether the two runs share a block.
    pub open spec fn spec_overlaps(self, other: Extent) -> bool {
        self.start < other.spec_end() && other.start < self.spec_end()
    }

    pub fn new(start: u32, length: u32) -> (e: Extent)
        ensures
            e.start == start,
            e.length == length,
    {
        Extent { start, length }
    }

    /// The block one past the last block of the run.
    pub fn end(&self) -> (r: u32)
        requires
            self.spec_end() <= u32::MAX,
        ensures
            r == self.spec_end(),
    {
        self.start + self.length
    }

    /// Whether `block_num` lies in the run. Total: the run's end is never
    /// formed in machine arithmetic.
    pub fn contains(&self, block_num: u32) -> (r: bool)
        ensures
            r == self.spec_contains(block_num as int),
    {
        block_num >= self.start && block_num - self.start < self.length
    }

    /// The run as text, `Extent[start, +length]`.
    pub open spec fn spec_describe(self) -> Seq<char> {
        "Extent["@ + decimal_text(self.start as nat) + ", +"@ + decimal_text(self.length as nat)
            + "]"@
    }

    /// The run as text, `Extent[start, +length]`.
    pub fn describe(&self) -> (text: String)
        ensures
            text@ == self.spec_describe(),
    {
        let mut text = String::from_str("Extent[");
        push_decimal(&mut text, self.start);
        text.append(", +");
        push_decimal(&mut text, self.length);
        text.append("]");
        text
    }

    /// Whether the two runs share a block.
    pub fn overlaps(&self, other: &Extent) -> (r: bool)
        ensures
            r == self.spec_overlaps(*other),
    {
        let self_end: u64 = self.start as u64 + self.length as u64;
        let other_end: u64 = other.start as u64 + other.length as u64;
        (self.start as u64) < other_end && (other.start as u64) < self_end
    }
}

/// A fraction between two block counts.
#[derive(Debug, Clone, Copy, PartialEq, Eq, Structural)]
pub struct Ratio {
    /// The count measured.
    pub numerator: u32,
    /// The count it is measured against; never zero.
    pub denominator: u32,
}

/// The allocator's counters.
#[derive(Debug, Clone, Copy, PartialEq, Eq, Structural)]
pub struct AllocStats {
    /// Blocks under management.
    pub total_blocks: u32,
    /// Blocks whose bit is clear.
    pub free_blocks: u32,
    /// Blocks whose bit is set.
    pub allocated_blocks: u32,
    /// Successful allocations so far.
    pub alloc_count: u64,
    /// Successful frees so far.
    pub free_count: u64,
}

impl AllocStats {
    /// Counters of a region of `total_blocks` blocks, all free.
    pub fn new(total_blocks: u32) -> (s: AllocStats)
        ensures
            s == (AllocStats {
                total_blocks,
                free_blocks: total_blocks,
                allocated_blocks: 0,
                alloc_count: 0,
                free_count: 0,
            }),
    {
        AllocStats {
            total_blocks,
            free_blocks: total_blocks,
            allocated_blocks: 0,
            alloc_count: 0,
            free_count: 0,
        }
    }

    /// The allocated share of the region: allocated blocks over total
    /// blocks, and zero for an empty region.
    pub open spec fn spec_utilization(self) -> Ratio {
        if self.total_blocks == 0 {
            Ratio { numerator: 0, denominator: 1 }
        } else {
            Ratio { numerator: self.allocated_blocks, denominator: self.total_blocks }
        }
    }

    /// The allocated share of the region, as a fraction.
    pub fn utilization(&self) -> (r: Ratio)
        ensures
            r == self.spec_utilization(),
            r.denominator > 0,
    {
        if self.total_blocks == 0 {
            return Ratio { numerator: 0, denominator: 1 };
        }
        Ratio { numerator: self.allocated_blocks, denominator: self.total_blocks }
    }
}

} // verus!
