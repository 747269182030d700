//! The extent allocator: a bitmap of blocks served as contiguous runs.
//!
//! The allocator owns its bitmap and its counters and nothing else. It takes
//! the bytes of the on-device bitmap from its caller and hands back the bytes
//! to write; the caller owns the device.

pub mod bitmap;
pub mod codec;
pub mod model;
pub mod types;

pub use types::{AllocStats, Extent, Ratio};

use crate::device::{BlockWrite, BLOCK_SIZE};
use crate::error::FsError;
use bitmap::{bitmap_bits, byte_bits, max_bits, Bitmap, ByteBits};
use codec::{bitmap_image, bits_of_bytes, image_len, packed_byte};
use model::{
    all_free, count_free, count_free_runs, first_fit, first_free_run, lemma_count_free_all_free,
    lemma_count_free_bound, lemma_count_free_update, lemma_with_range_step, no_fit, no_free_run,
    run_is_allocated, run_is_free, run_starts_at, with_range,
};
use vstd::prelude::*;

verus! {

/// A bitmap-backed allocator over `total_blocks` blocks.
pub struct ExtentAllocator {
    /// Block at which the bitmap lies on the device.
    bitmap_start: u32,
    /// Blocks under management.
    total_blocks: u32,
    /// One bit per block; set means allocated.
    bitmap: Bitmap,
    /// Counters; the bitmap is authoritative.
    stats: AllocStats,
}

/// Whether a bitmap of `total_blocks` bits, padded to whole blocks, can be
/// viewed as a bit vector on this machine.
pub open spec fn manageable(total_blocks: u32) -> bool {
    image_len(total_blocks as nat) * 8 <= max_bits()
}

/// The counters after a successful allocation of `length` blocks.
pub open spec fn stats_after_alloc(stats: AllocStats, length: u32) -> AllocStats {
    AllocStats {
        total_blocks: stats.total_blocks,
        free_blocks: (stats.free_blocks - length) as u32,
        allocated_blocks: (stats.allocated_blocks + length) as u32,
        alloc_count: (stats.alloc_count + 1) as u64,
        free_count: stats.free_count,
    }
}

/// The counters after a successful free of `length` blocks.
pub open spec fn stats_after_free(stats: AllocStats, length: u32) -> AllocStats {
    AllocStats {
        total_blocks: stats.total_blocks,
        free_blocks: (stats.free_blocks + length) as u32,
        allocated_blocks: (stats.allocated_blocks - length) as u32,
        alloc_count: stats.alloc_count,
        free_count: (stats.free_count + 1) as u64,
    }
}

/// The counters after the bitmap was replaced by `bits`.
pub open spec fn stats_after_load(stats: AllocStats, bits: Seq<bool>) -> AllocStats {
    AllocStats {
        total_blocks: stats.total_blocks,
        free_blocks: count_free(bits) as u32,
        allocated_blocks: (bits.len() - count_free(bits)) as u32,
        alloc_count: stats.alloc_count,
        free_count: stats.free_count,
    }
}

/// What freeing `extent` from `bits` answers: `OutOfRange` where the extent
/// reaches past the bitmap, `DoubleFree` where one of its blocks is already
/// free, and success otherwise.
pub open spec fn free_outcome(bits: Seq<bool>, extent: Extent) -> Result<(), FsError> {
    if extent.spec_end() > bits.len() {
        Err(FsError::OutOfRange)
    } else if !run_is_allocated(bits, extent.start as int, extent.length as int) {
        Err(FsError::DoubleFree)
    } else {
        Ok(())
    }
}

/// The bitmap after `extent` was freed from `bits`.
pub open spec fn bits_after_free(bits: Seq<bool>, extent: Extent) -> Seq<bool> {
    with_range(bits, extent.start as int, extent.length as int, false)
}

/// Freeing an extent of at least one block twice in a row fails the second
/// time with `DoubleFree`: once the first free has cleared its bits, the
/// second finds them clear.
pub proof fn lemma_second_free_is_double_free(bits: Seq<bool>, extent: Extent)
    requires
        extent.length > 0,
        free_outcome(bits, extent) is Ok,
    ensures
        free_outcome(bits_after_free(bits, extent), extent) == Err::<(), FsError>(
            FsError::DoubleFree,
        ),
{
    let after = bits_after_free(bits, extent);
    assert(!after[extent.start as int]);
}

/// Right after an allocation every bit of the extent is set, whatever the
/// bitmap held before.
pub proof fn lemma_allocated_range_is_set(bits: Seq<bool>, extent: Extent)
    requires
        extent.spec_end() <= bits.len(),
    ensures
        run_is_allocated(
            with_range(bits, extent.start as int, extent.length as int, true),
            extent.start as int,
            extent.length as int,
        ),
{
}

/// Whether counters are the ones a bitmap gives: the total is its length,
/// the free count its clear bits, and free and allocated add up to the
/// total.
pub open spec fn counters_consistent(bits: Seq<bool>, stats: AllocStats) -> bool {
    &&& stats.total_blocks == bits.len()
    &&& stats.free_blocks == count_free(bits)
    &&& stats.free_blocks + stats.allocated_blocks == stats.total_blocks
}

/// An allocation keeps the counters consistent with the bitmap, in every
/// state and whatever the counts of calls stand at.
pub proof fn lemma_allocation_keeps_counters(
    bits: Seq<bool>,
    stats: AllocStats,
    extent: Extent,
)
    requires
        counters_consistent(bits, stats),
        run_is_free(bits, extent.start as int, extent.length as int),
    ensures
        counters_consistent(
            with_range(bits, extent.start as int, extent.length as int, true),
            stats_after_alloc(stats, extent.length),
        ),
{
    lemma_count_free_with_range(bits, extent.start as int, extent.length as int, true);
}

/// A free keeps the counters consistent with the bitmap, in every state and
/// whatever the counts of calls stand at.
pub proof fn lemma_free_keeps_counters(bits: Seq<bool>, stats: AllocStats, extent: Extent)
    requires
        counters_consistent(bits, stats),
        free_outcome(bits, extent) is Ok,
    ensures
        counters_consistent(bits_after_free(bits, extent), stats_after_free(stats, extent.length)),
{
    lemma_count_free_with_range(bits, extent.start as int, extent.length as int, false);
    lemma_count_free_bound(bits_after_free(bits, extent));
}

/// Whether the lengths of an allocation request are legal.
pub open spec fn valid_request(min_len: u32, max_len: u32) -> bool {
    min_len != 0 && max_len != 0 && min_len <= max_len
}

/// The fragmentation of a bitmap as a fraction: one less than the number of
/// free runs, over the number of blocks; zero where nothing is free or the
/// free blocks form a single run.
pub open spec fn fragmentation_of(bits: Seq<bool>) -> Ratio {
    if count_free(bits) == 0 || count_free_runs(bits) <= 1 {
        Ratio { numerator: 0, denominator: 1 }
    } else {
        Ratio {
            numerator: (count_free_runs(bits) - 1) as u32,
            denominator: bits.len() as u32,
        }
    }
}

impl ExtentAllocator {
    /// The bitmap, one boolean per block; `true` marks an allocated block.
    pub closed spec fn bits(&self) -> Seq<bool> {
        bitmap_bits(self.bitmap)
    }

    /// The counters.
    pub closed spec fn stats(&self) -> AllocStats {
        self.stats
    }

    /// Blocks under management.
    pub closed spec fn total_blocks(&self) -> u32 {
        self.total_blocks
    }

    /// Block at which the bitmap lies on the device.
    pub closed spec fn bitmap_start(&self) -> u32 {
        self.bitmap_start
    }

    /// The allocator's invariant: the bitmap has one bit per block and the
    /// counters are the ones the bitmap gives.
    pub closed spec fn wf(&self) -> bool {
        &&& manageable(self.total_blocks)
        &&& self.bits().len() == self.total_blocks
        &&& self.stats.total_blocks == self.total_blocks
        &&& self.stats.free_blocks == count_free(self.bits())
        &&& self.stats.free_blocks + self.stats.allocated_blocks == self.total_blocks
    }

    /// In every state the free and the allocated blocks add up to the total,
    /// and the free count is the number of clear bits.
    pub proof fn lemma_counters_consistent(&self)
        requires
            self.wf(),
        ensures
            counters_consistent(self.bits(), self.stats()),
            self.stats().free_blocks + self.stats().allocated_blocks == self.stats().total_blocks,
            self.stats().total_blocks == self.total_blocks(),
            self.stats().free_blocks == count_free(self.bits()),
            self.bits().len() == self.total_blocks(),
            manageable(self.total_blocks()),
    {
    }

    /// An allocator over `total_blocks` blocks, all free, whose bitmap lies at
    /// block `bitmap_start` of the device. Refused with `InvalidArgument`
    /// where the padded bitmap would outgrow a bit vector on this machine.
    pub fn new(bitmap_start: u32, total_blocks: u32) -> (r: Result<ExtentAllocator, FsError>)
        ensures
            r is Ok <==> manageable(total_blocks),
            r is Err ==> r->Err_0 == FsError::InvalidArgument,
            r is Ok ==> {
                let a = r->Ok_0;
                &&& a.wf()
                &&& a.bitmap_start() == bitmap_start
                &&& a.total_blocks() == total_blocks
                &&& a.bits() == all_free(total_blocks as nat)
                &&& a.stats() == (AllocStats {
                    total_blocks,
                    free_blocks: total_blocks,
                    allocated_blocks: 0,
                    alloc_count: 0,
                    free_count: 0,
                })
            },
    {
        let bytes: u64 = (total_blocks as u64 + 7) / 8;
        let blocks: u64 = (bytes + 4095) / 4096;
        let image: u64 = blocks * 4096;
        if image * 8 > (usize::MAX / 8) as u64 {
            return Err(FsError::InvalidArgument);
        }
        let bitmap = Bitmap::zeroed(total_blocks as usize);
        let stats = AllocStats::new(total_blocks);
        proof {
            lemma_count_free_all_free(total_blocks as nat);
        }
        Ok(ExtentAllocator { bitmap_start, total_blocks, bitmap, stats })
    }

    /// A snapshot of the counters. The free and the allocated blocks always
    /// add up to the total.
    pub fn get_stats(&self) -> (s: AllocStats)
        ensures
            s == self.stats(),
            self.wf() ==> s.free_blocks + s.allocated_blocks == s.total_blocks,
            self.wf() ==> s.total_blocks == self.total_blocks(),
            self.wf() ==> s.free_blocks == count_free(self.bits()),
    {
        self.stats
    }

    /// The lowest start in `[lo, hi)` of a free window of `len` bits that
    /// lies inside `[lo, hi)`.
    fn find_in_range(&self, lo: u32, hi: u32, len: u32) -> (r: Option<u32>)
        requires
            self.wf(),
            lo <= hi <= self.total_blocks(),
            len > 0,
        ensures
            match r {
                Some(start) => first_free_run(
                    self.bits(),
                    lo as int,
                    hi as int,
                    len as int,
                    start as int,
                ),
                None => no_free_run(self.bits(), lo as int, hi as int, len as int),
            },
    {
        let ghost bits = self.bits();
        let mut pos: u32 = lo;
        let mut consecutive: u32 = 0;
        while pos < hi
            invariant
                self.wf(),
                bits == self.bits(),
                lo <= pos <= hi <= self.total_blocks(),
                len > 0,
                consecutive < len,
                consecutive <= pos - lo,
                forall|i: int| pos - consecutive <= i < pos ==> !#[trigger] bits[i],
                forall|s: int|
                    lo <= s < pos - consecutive ==> !#[trigger] run_is_free(bits, s, len as int),
            decreases hi - pos,
        {
            if !self.bitmap.get(pos as usize) {
                consecutive = consecutive + 1;
                if consecutive >= len {
                    let start: u32 = pos + 1 - len;
                    return Some(start);
                }
            } else {
                proof {
                    assert forall|s: int| lo <= s < pos + 1 implies !#[trigger] run_is_free(
                        bits,
                        s,
                        len as int,
                    ) by {
                        if s >= pos - consecutive {
                            if s + len <= bits.len() {
                                assert(bits[pos as int]);
                            }
                        }
                    }
                }
                consecutive = 0;
            }
            pos = pos + 1;
        }
        proof {
            assert forall|s: int| lo <= s && s + len <= hi implies !#[trigger] run_is_free(
                bits,
                s,
                len as int,
            ) by {}
        }
        None
    }

    /// First-fit search: the scan starts at `hint` reduced into the bitmap,
    /// runs to the end and once more from block 0 up to where it began. The
    /// first window of `min_len` free blocks ends the scan; since the scan
    /// stops as soon as the window is long enough, the run found has exactly
    /// `min_len` blocks, and that is the length returned.
    pub fn find_consecutive_free(&self, hint: u32, min_len: u32, max_len: u32) -> (r: Result<
        (u32, u32),
        FsError,
    >)
        requires
            self.wf(),
            valid_request(min_len, max_len),
        ensures
            match r {
                Ok((start, length)) => {
                    &&& first_fit(self.bits(), hint as int, min_len as int, start as int)
                    &&& length == min_len
                },
                Err(e) => {
                    &&& e == FsError::NoSpace
                    &&& no_fit(self.bits(), hint as int, min_len as int)
                },
            },
    {
        let total: u32 = self.total_blocks;
        if total == 0 {
            return Err(FsError::NoSpace);
        }
        let origin: u32 = hint % total;
        match self.find_in_range(origin, total, min_len) {
            Some(start) => Ok((start, if min_len < max_len { min_len } else { max_len })),
            None => match self.find_in_range(0, origin, min_len) {
                Some(start) => Ok((start, if min_len < max_len { min_len } else { max_len })),
                None => Err(FsError::NoSpace),
            },
        }
    }

    /// Writes `value` into every bit of `[start, start + length)`.
    fn fill_range(&mut self, start: u32, length: u32, value: bool)
        requires
            old(self).bits().len() == old(self).total_blocks(),
            start + length <= old(self).total_blocks(),
        ensures
            final(self).bits() == with_range(
                old(self).bits(),
                start as int,
                length as int,
                value,
            ),
            final(self).stats() == old(self).stats(),
            final(self).total_blocks() == old(self).total_blocks(),
            final(self).bitmap_start() == old(self).bitmap_start(),
    {
        let ghost before = self.bits();
        let mut done: u32 = 0;
        proof {
            assert(with_range(before, start as int, 0, value) =~= before);
        }
        while done < length
            invariant
                done <= length,
                start + length <= self.total_blocks(),
                before.len() == self.total_blocks(),
                self.bits() == with_range(before, start as int, done as int, value),
                self.stats() == old(self).stats(),
                self.total_blocks() == old(self).total_blocks(),
                self.bitmap_start() == old(self).bitmap_start(),
            decreases length - done,
        {
            proof {
                lemma_with_range_step(before, start as int, done as int, value);
            }
            self.bitmap.set((start + done) as usize, value);
            done = done + 1;
        }
    }

    /// Allocates the first run of `min_len` free blocks that the scan from
    /// `hint` meets, and sets its bits.
    pub fn allocate_extent(&mut self, hint: u32, min_len: u32, max_len: u32) -> (r: Result<
        Extent,
        FsError,
    >)
        requires
            old(self).wf(),
            old(self).stats().alloc_count < u64::MAX,
        ensures
            final(self).wf(),
            final(self).total_blocks() == old(self).total_blocks(),
            final(self).bitmap_start() == old(self).bitmap_start(),
            match r {
                Ok(e) => {
                    &&& valid_request(min_len, max_len)
                    &&& first_fit(old(self).bits(), hint as int, min_len as int, e.start as int)
                    &&& e.length == min_len
                    &&& min_len <= e.length <= max_len
                    &&& e.spec_end() <= old(self).total_blocks()
                    &&& run_is_free(old(self).bits(), e.start as int, e.length as int)
                    &&& run_is_allocated(final(self).bits(), e.start as int, e.length as int)
                    &&& final(self).bits() == with_range(
                        old(self).bits(),
                        e.start as int,
                        e.length as int,
                        true,
                    )
                    &&& final(self).stats() == stats_after_alloc(old(self).stats(), e.length)
                },
                Err(err) => {
                    &&& final(self).bits() == old(self).bits()
                    &&& final(self).stats() == old(self).stats()
                    &&& if valid_request(min_len, max_len) {
                        err == FsError::NoSpace && no_fit(
                            old(self).bits(),
                            hint as int,
                            min_len as int,
                        )
                    } else {
                        err == FsError::InvalidArgument
                    }
                },
            },
    {
        if min_len == 0 || max_len == 0 || min_len > max_len {
            return Err(FsError::InvalidArgument);
        }
        let (start, length) = match self.find_consecutive_free(hint, min_len, max_len) {
            Ok(found) => found,
            Err(e) => {
                return Err(e);
            },
        };
        let ghost before = self.bits();
        proof {
            assert(run_is_free(before, start as int, length as int));
            lemma_count_free_with_range(before, start as int, length as int, true);
        }
        self.fill_range(start, length, true);
        self.stats.free_blocks = self.stats.free_blocks - length;
        self.stats.allocated_blocks = self.stats.allocated_blocks + length;
        self.stats.alloc_count = self.stats.alloc_count + 1;
        Ok(Extent::new(start, length))
    }

    /// Releases an extent: checks every bit of it, then clears them all.
    /// Nothing changes unless the whole extent was allocated.
    pub fn free_extent(&mut self, extent: &Extent) -> (r: Result<(), FsError>)
        requires
            old(self).wf(),
            old(self).stats().free_count < u64::MAX,
        ensures
            final(self).wf(),
            final(self).total_blocks() == old(self).total_blocks(),
            final(self).bitmap_start() == old(self).bitmap_start(),
            r == free_outcome(old(self).bits(), *extent),
            match r {
                Ok(()) => {
                    &&& final(self).bits() == with_range(
                        old(self).bits(),
                        extent.start as int,
                        extent.length as int,
                        false,
                    )
                    &&& final(self).stats() == stats_after_free(old(self).stats(), extent.length)
                },
                Err(_) => {
                    &&& final(self).bits() == old(self).bits()
                    &&& final(self).stats() == old(self).stats()
                },
            },
    {
        if extent.start as u64 + extent.length as u64 > self.total_blocks as u64 {
            return Err(FsError::OutOfRange);
        }
        let ghost before = self.bits();
        let mut checked: u32 = 0;
        while checked < extent.length
            invariant
                self.wf(),
                before == self.bits(),
                checked <= extent.length,
                extent.start + extent.length <= self.total_blocks(),
                forall|i: int| extent.start <= i < extent.start + checked ==> #[trigger] before[i],
            decreases extent.length - checked,
        {
            if !self.bitmap.get((extent.start + checked) as usize) {
                proof {
                    assert(!before[extent.start + checked]);
                }
                return Err(FsError::DoubleFree);
            }
            checked = checked + 1;
        }
        proof {
            lemma_count_free_with_range(before, extent.start as int, extent.length as int, false);
            lemma_count_free_bound(with_range(
                before,
                extent.start as int,
                extent.length as int,
                false,
            ));
        }
        self.fill_range(extent.start, extent.length, false);
        self.stats.free_blocks = self.stats.free_blocks + extent.length;
        self.stats.allocated_blocks = self.stats.allocated_blocks - extent.length;
        self.stats.free_count = self.stats.free_count + 1;
        Ok(())
    }

    /// The number of maximal runs of free blocks.
    pub fn count_fragments(&self) -> (n: u32)
        requires
            self.wf(),
        ensures
            n == count_free_runs(self.bits()),
    {
        let ghost bits = self.bits();
        let mut fragments: u32 = 0;
        let mut in_free_region = false;
        let mut pos: u32 = 0;
        while pos < self.total_blocks
            invariant
                self.wf(),
                bits == self.bits(),
                pos <= self.total_blocks(),
                fragments == count_free_runs(bits.take(pos as int)),
                fragments <= pos,
                in_free_region == (pos > 0 && !bits[pos - 1]),
            decreases self.total_blocks() - pos,
        {
            proof {
                assert(bits.take(pos + 1).drop_last() =~= bits.take(pos as int));
                assert(run_starts_at(bits.take(pos + 1), pos as int) == run_starts_at(
                    bits,
                    pos as int,
                ));
            }
            if !self.bitmap.get(pos as usize) {
                if !in_free_region {
                    fragments = fragments + 1;
                    in_free_region = true;
                }
            } else {
                in_free_region = false;
            }
            pos = pos + 1;
        }
        proof {
            assert(bits.take(pos as int) =~= bits);
        }
        fragments
    }

    /// How scattered the free blocks are, as a fraction between 0 and 1.
    pub fn fragmentation_ratio(&self) -> (r: Ratio)
        requires
            self.wf(),
        ensures
            r == fragmentation_of(self.bits()),
            r.denominator > 0,
            r.numerator <= r.denominator,
    {
        if self.stats.free_blocks == 0 {
            return Ratio { numerator: 0, denominator: 1 };
        }
        let fragments = self.count_fragments();
        if fragments <= 1 {
            return Ratio { numerator: 0, denominator: 1 };
        }
        proof {
            lemma_free_runs_tight(self.bits());
        }
        Ratio { numerator: fragments - 1, denominator: self.total_blocks }
    }

    /// Replaces the bitmap by the on-device image `image`: bit `i` of the
    /// bitmap is bit `i % 8` of byte `i / 8`, for each managed block; the
    /// padding is ignored. The free and allocated counters are recomputed
    /// from the loaded bits. An image of any other length than the padded
    /// bitmap's is refused and nothing changes.
    pub fn load_bitmap_from_disk(&mut self, image: Vec<u8>) -> (r: Result<(), FsError>)
        requires
            old(self).wf(),
        ensures
            final(self).wf(),
            final(self).total_blocks() == old(self).total_blocks(),
            final(self).bitmap_start() == old(self).bitmap_start(),
            r is Ok <==> image.len() == image_len(old(self).total_blocks() as nat),
            match r {
                Ok(()) => {
                    &&& final(self).bits() == bits_of_bytes(image@).take(
                        old(self).total_blocks() as int,
                    )
                    &&& final(self).stats() == stats_after_load(
                        old(self).stats(),
                        final(self).bits(),
                    )
                },
                Err(err) => {
                    &&& err == FsError::InvalidArgument
                    &&& final(self).bits() == old(self).bits()
                    &&& final(self).stats() == old(self).stats()
                },
            },
    {
        let expected = self.image_size();
        if image.len() != expected {
            return Err(FsError::InvalidArgument);
        }
        let ghost source = bits_of_bytes(image@);
        let loaded = ByteBits::from_bytes(image);
        let total: usize = self.total_blocks as usize;
        let mut free_count: u32 = 0;
        let mut pos: usize = 0;
        while pos < total
            invariant
                pos <= total,
                total == self.total_blocks(),
                total <= source.len(),
                source == byte_bits(loaded),
                self.bits().len() == total,
                self.bits().take(pos as int) == source.take(pos as int),
                free_count == count_free(source.take(pos as int)),
                free_count <= pos,
                manageable(self.total_blocks()),
                self.stats() == old(self).stats(),
                self.stats().total_blocks == self.total_blocks(),
                self.total_blocks() == old(self).total_blocks(),
                self.bitmap_start() == old(self).bitmap_start(),
            decreases total - pos,
        {
            let bit = loaded.get(pos);
            let ghost previous = self.bits();
            self.bitmap.set(pos, bit);
            proof {
                assert(self.bits().take(pos + 1) =~= source.take(pos + 1)) by {
                    assert forall|i: int| 0 <= i < pos + 1 implies self.bits()[i] == source[i] by {
                        if i < pos {
                            assert(previous.take(pos as int)[i] == source.take(pos as int)[i]);
                        }
                    }
                }
                assert(source.take(pos + 1).drop_last() =~= source.take(pos as int));
            }
            if !bit {
                free_count = free_count + 1;
            }
            pos = pos + 1;
        }
        proof {
            assert(self.bits().take(total as int) =~= self.bits());
        }
        self.stats.free_blocks = free_count;
        self.stats.allocated_blocks = self.total_blocks - free_count;
        Ok(())
    }

    /// The length in bytes of the bitmap on the device, padding included.
    pub fn image_size(&self) -> (n: usize)
        requires
            self.wf(),
        ensures
            n == image_len(self.total_blocks() as nat),
            n % BLOCK_SIZE == 0,
    {
        let bytes: usize = (self.total_blocks as usize + 7) / 8;
        let blocks: usize = (bytes + BLOCK_SIZE - 1) / BLOCK_SIZE;
        blocks * BLOCK_SIZE
    }

    /// Encodes the bitmap for the device: the packed bits, least significant
    /// bit first within each byte, zero-padded to whole blocks, to be written
    /// at the bitmap's start block and then synced.
    pub fn sync_bitmap_to_disk(&self) -> (w: BlockWrite)
        requires
            self.wf(),
        ensures
            w.block == self.bitmap_start(),
            w.data@ == bitmap_image(self.bits()),
    {
        let size = self.image_size();
        let ghost bits = self.bits();
        let mut buffer: Vec<u8> = Vec::new();
        let mut k: usize = 0;
        while k < size
            invariant
                self.wf(),
                bits == self.bits(),
                k <= size,
                size == image_len(self.total_blocks() as nat),
                buffer.len() == k,
                forall|j: int| 0 <= j < k ==> #[trigger] buffer[j] == packed_byte(bits, j),
            decreases size - k,
        {
            let byte = self.pack_byte(k);
            buffer.push(byte);
            k = k + 1;
        }
        proof {
            assert(buffer@ =~= bitmap_image(bits));
        }
        BlockWrite { block: self.bitmap_start as u64, data: buffer }
    }

    /// Whether block `index` is managed and allocated.
    fn bit_or_clear(&self, index: usize) -> (bit: bool)
        requires
            self.wf(),
        ensures
            bit == codec::bit_at(self.bits(), index as int),
    {
        if index < self.total_blocks as usize {
            self.bitmap.get(index)
        } else {
            false
        }
    }

    /// Byte `k` of the on-device image.
    fn pack_byte(&self, k: usize) -> (byte: u8)
        requires
            self.wf(),
            k < image_len(self.total_blocks() as nat),
        ensures
            byte == packed_byte(self.bits(), k as int),
    {
        let base: usize = k * 8;
        codec::byte_of_bits(
            self.bit_or_clear(base),
            self.bit_or_clear(base + 1),
            self.bit_or_clear(base + 2),
            self.bit_or_clear(base + 3),
            self.bit_or_clear(base + 4),
            self.bit_or_clear(base + 5),
            self.bit_or_clear(base + 6),
            self.bit_or_clear(base + 7),
        )
    }
}

/// Filling a window that held the opposite value throughout moves the count
/// of clear bits by the window's length.
pub proof fn lemma_count_free_with_range(bits: Seq<bool>, start: int, len: int, value: bool)
    requires
        0 <= len,
        if value {
            run_is_free(bits, start, len)
        } else {
            run_is_allocated(bits, start, len)
        },
    ensures
        count_free(with_range(bits, start, len, value)) == if value {
            count_free(bits) - len
        } else {
            count_free(bits) + len
        },
    decreases len,
{
    if len == 0 {
        assert(with_range(bits, start, 0, value) =~= bits);
    } else {
        let shorter = with_range(bits, start, len - 1, value);
        if value {
            assert(run_is_free(bits, start, len - 1));
        } else {
            assert(run_is_allocated(bits, start, len - 1));
        }
        lemma_count_free_with_range(bits, start, len - 1, value);
        assert(with_range(bits, start, len, value) =~= shorter.update(start + len - 1, value));
        assert(shorter[start + len - 1] == bits[start + len - 1]);
        lemma_count_free_update(shorter, start + len - 1, value);
    }
}

/// Runs alternate with set bits: a bitmap that ends in a clear bit has at
/// most `(len + 1) / 2` runs, one that ends in a set bit at most `len / 2`.
pub proof fn lemma_free_runs_tight(bits: Seq<bool>)
    ensures
        2 * count_free_runs(bits) <= bits.len() + 1,
        bits.len() > 0 && bits.last() ==> 2 * count_free_runs(bits) <= bits.len(),
    decreases bits.len(),
{
    if bits.len() > 0 {
        let shorter = bits.drop_last();
        lemma_free_runs_tight(shorter);
        if shorter.len() > 0 {
            assert(shorter.last() == bits[bits.len() - 2]);
        }
    }
}

} // verus!
