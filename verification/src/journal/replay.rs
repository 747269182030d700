//! Walking the live part of the journal, slot by slot: recovery after a
//! crash and the checkpoint.
//!
//! The library decides and the caller reads and writes. A walk says which
//! slot to read next; the caller reads it (and, for a data header, the slot
//! after it), hands the entry to `step`, and carries out the writes that
//! `step` returns. The whole of a walk over a given journal is the spec
//! function `recover_run` or `checkpoint_run`.

use crate::device::BlockWrite;
use crate::journal::codec::copy_bytes;
use crate::journal::record::{
    decode_entry, holds_data_header, read_journal_block, EntryView, JournalEntry,
};
use crate::journal::ring::{advance, used_slots};
use vstd::prelude::*;

verus! {

/// Block writes as mathematical values: each a device block and the bytes
/// for it.
pub open spec fn block_writes_view(writes: Seq<BlockWrite>) -> Seq<(u64, Seq<u8>)> {
    Seq::new(writes.len(), |i: int| writes[i]@)
}

/// The state of a recovery walk, as a mathematical value.
pub ghost struct RecoveryState {
    /// Slots in the journal region.
    pub blocks: u32,
    /// Slot to read next.
    pub current: u32,
    /// Live slots not yet walked.
    pub remaining: u32,
    /// Whether unknown content ended the walk.
    pub stopped: bool,
    /// Writes seen since the last commit record.
    pub pending: Seq<(u64, Seq<u8>)>,
    /// Transactions replayed so far.
    pub recovered: nat,
}

/// The state in which recovery begins: at the head, with every slot between
/// head and tail still to walk.
pub open spec fn recovery_start(blocks: u32, head: u32, tail: u32) -> RecoveryState {
    RecoveryState {
        blocks,
        current: head,
        remaining: used_slots(head as int, tail as int, blocks as int) as u32,
        stopped: false,
        pending: Seq::empty(),
        recovered: 0,
    }
}

/// Whether a recovery walk has nothing more to read.
pub open spec fn recovery_done(s: RecoveryState) -> bool {
    s.stopped || s.remaining == 0
}

/// One step of recovery: the state after `entry` was read at the current
/// slot, and the writes to carry out now.
///
/// A data header with its payload inside the live region joins the pending
/// writes and takes two slots. A commit record replays the pending writes,
/// if there are any, and takes one slot. Anything else ends the walk and
/// drops the pending writes; so does a data header in the last live slot,
/// whose payload would lie outside the live region.
pub open spec fn recover_step(s: RecoveryState, entry: EntryView) -> (
    RecoveryState,
    Seq<(u64, Seq<u8>)>,
) {
    if recovery_done(s) {
        (s, Seq::empty())
    } else {
        match entry {
            EntryView::Data { target_block, data } => {
                if s.remaining >= 2 {
                    (
                        RecoveryState {
                            current: advance(s.current as int, 2, s.blocks as int) as u32,
                            remaining: (s.remaining - 2) as u32,
                            pending: s.pending.push((target_block as u64, data)),
                            ..s
                        },
                        Seq::empty(),
                    )
                } else {
                    (
                        RecoveryState { remaining: 0, stopped: true, pending: Seq::empty(), ..s },
                        Seq::empty(),
                    )
                }
            },
            EntryView::Commit => {
                (
                    RecoveryState {
                        current: advance(s.current as int, 1, s.blocks as int) as u32,
                        remaining: (s.remaining - 1) as u32,
                        pending: Seq::empty(),
                        recovered: if s.pending.len() > 0 {
                            s.recovered + 1
                        } else {
                            s.recovered
                        },
                        ..s
                    },
                    s.pending,
                )
            },
            EntryView::Other => {
                (
                    RecoveryState { remaining: 0, stopped: true, pending: Seq::empty(), ..s },
                    Seq::empty(),
                )
            },
        }
    }
}

/// The entry at `slot` of a journal region: its block, read together with
/// the block of the slot after it.
pub open spec fn entry_at(region: Seq<Seq<u8>>, slot: int) -> EntryView {
    decode_entry(region[slot], region[advance(slot, 1, region.len() as int)])
}

/// A whole recovery walk over `region` from state `s`: the state it ends in
/// and all the writes it makes, in order.
pub open spec fn recover_run(region: Seq<Seq<u8>>, s: RecoveryState) -> (
    RecoveryState,
    Seq<(u64, Seq<u8>)>,
)
    decreases s.remaining,
{
    if recovery_done(s) {
        (s, Seq::empty())
    } else {
        let (next, now) = recover_step(s, entry_at(region, s.current as int));
        let (end, later) = recover_run(region, next);
        (end, now + later)
    }
}

/// The state of a checkpoint walk, as a mathematical value.
pub ghost struct CheckpointState {
    /// Slots in the journal region.
    pub blocks: u32,
    /// Head when the walk began.
    pub start: u32,
    /// Tail when the walk began; the head after the checkpoint.
    pub tail: u32,
    /// Slot to read next.
    pub current: u32,
    /// Live slots not yet walked.
    pub remaining: u32,
    /// Payloads applied so far.
    pub applied: nat,
}

/// The state in which a checkpoint begins.
pub open spec fn checkpoint_start(blocks: u32, head: u32, tail: u32) -> CheckpointState {
    CheckpointState {
        blocks,
        start: head,
        tail,
        current: head,
        remaining: used_slots(head as int, tail as int, blocks as int) as u32,
        applied: 0,
    }
}

/// One step of a checkpoint: the state after `entry` was read at the current
/// slot, and the write to carry out now, if any.
///
/// A data header with its payload inside the live region has its payload
/// written to its target and takes two slots. Every other slot is passed
/// over.
pub open spec fn checkpoint_step(s: CheckpointState, entry: EntryView) -> (
    CheckpointState,
    Option<(u64, Seq<u8>)>,
) {
    if s.remaining == 0 {
        (s, None)
    } else {
        match entry {
            EntryView::Data { target_block, data } if s.remaining >= 2 => {
                (
                    CheckpointState {
                        current: advance(s.current as int, 2, s.blocks as int) as u32,
                        remaining: (s.remaining - 2) as u32,
                        applied: s.applied + 1,
                        ..s
                    },
                    Some((target_block as u64, data)),
                )
            },
            _ => {
                (
                    CheckpointState {
                        current: advance(s.current as int, 1, s.blocks as int) as u32,
                        remaining: (s.remaining - 1) as u32,
                        ..s
                    },
                    None,
                )
            },
        }
    }
}

/// A whole checkpoint walk over `region` from state `s`: the state it ends
/// in and the writes it makes, in order.
pub open spec fn checkpoint_run(region: Seq<Seq<u8>>, s: CheckpointState) -> (
    CheckpointState,
    Seq<(u64, Seq<u8>)>,
)
    decreases s.remaining,
{
    if s.remaining == 0 {
        (s, Seq::empty())
    } else {
        let (next, now) = checkpoint_step(s, entry_at(region, s.current as int));
        let (end, later) = checkpoint_run(region, next);
        (
            end,
            match now {
                Some(w) => seq![w] + later,
                None => later,
            },
        )
    }
}

/// A journal region held in memory, as a mathematical value: the block of
/// each slot, slot 0 first.
pub open spec fn region_view(region: Seq<Vec<u8>>) -> Seq<Seq<u8>> {
    Seq::new(region.len(), |slot: int| region[slot]@)
}

/// Reads the entry at `slot` out of a journal region held in memory; the
/// payload is taken from `payload_slot` where the slot holds a data header.
fn entry_in(region: &Vec<Vec<u8>>, slot: u32, payload_slot: u32) -> (entry: JournalEntry)
    requires
        1 <= slot < region.len(),
        payload_slot < region.len(),
        payload_slot == advance(slot as int, 1, region.len() as int),
    ensures
        entry@ == entry_at(region_view(region@), slot as int),
{
    let header = &region[slot as usize];
    let payload = if holds_data_header(header) {
        copy_bytes(&region[payload_slot as usize])
    } else {
        Vec::new()
    };
    read_journal_block(header, payload)
}

/// A recovery walk in progress.
pub struct RecoveryWalk {
    journal_blocks: u32,
    current: u32,
    remaining: u32,
    stopped: bool,
    pending: Vec<BlockWrite>,
    recovered: usize,
}

impl View for RecoveryWalk {
    type V = RecoveryState;

    closed spec fn view(&self) -> RecoveryState {
        RecoveryState {
            blocks: self.journal_blocks,
            current: self.current,
            remaining: self.remaining,
            stopped: self.stopped,
            pending: block_writes_view(self.pending@),
            recovered: self.recovered as nat,
        }
    }
}

/// Whether a recovery state can be walked: the cursor is a slot, and the
/// count of replayed transactions has room to grow.
pub open spec fn recovery_wf(s: RecoveryState) -> bool {
    &&& s.blocks >= 2
    &&& 1 <= s.current < s.blocks
    &&& s.remaining + 2 <= s.blocks
    &&& s.recovered + s.remaining <= u32::MAX
}

impl RecoveryWalk {
    /// The walk's invariant.
    pub open spec fn wf(&self) -> bool {
        recovery_wf(self@)
    }

    /// Begins a walk over the slots from `head` up to `tail` of a journal of
    /// `journal_blocks` slots.
    pub(crate) fn begin(journal_blocks: u32, head: u32, tail: u32) -> (walk: RecoveryWalk)
        requires
            journal_blocks >= 2,
            1 <= head < journal_blocks,
            1 <= tail < journal_blocks,
        ensures
            walk@ == recovery_start(journal_blocks, head, tail),
            walk.wf(),
    {
        let remaining: u32 = if tail >= head {
            tail - head
        } else {
            journal_blocks - 1 - head + tail
        };
        let walk = RecoveryWalk {
            journal_blocks,
            current: head,
            remaining,
            stopped: false,
            pending: Vec::new(),
            recovered: 0,
        };
        proof {
            assert(walk@.pending =~= Seq::empty());
        }
        walk
    }

    /// The slot to read next, or `None` when the walk is over.
    pub fn next_slot(&self) -> (slot: Option<u32>)
        ensures
            slot == if recovery_done(self@) {
                None
            } else {
                Some(self@.current)
            },
    {
        if self.stopped || self.remaining == 0 {
            None
        } else {
            Some(self.current)
        }
    }

    /// The record slot after the one to read next: where the payload lies if
    /// the next slot holds a data header. After the last slot of the region
    /// comes slot 1.
    pub fn payload_slot(&self) -> (slot: u32)
        requires
            self.wf(),
        ensures
            slot == advance(self@.current as int, 1, self@.blocks as int),
            slot == (if self@.current == self@.blocks - 1 {
                1
            } else {
                self@.current + 1
            }),
            1 <= slot < self@.blocks,
    {
        if self.current == self.journal_blocks - 1 {
            1
        } else {
            self.current + 1
        }
    }

    /// Transactions replayed so far; the result of recovery once the walk is
    /// over.
    pub fn recovered(&self) -> (count: usize)
        ensures
            count == self@.recovered,
    {
        self.recovered
    }

    /// Takes the entry read at the current slot and returns the writes to
    /// carry out now: the pending writes of a transaction when its commit
    /// record is met, nothing otherwise. The caller writes each payload to
    /// its target, has the buffer cache drop what it holds of that target,
    /// and syncs the device once the walk is over.
    pub fn step(&mut self, entry: JournalEntry) -> (writes: Vec<BlockWrite>)
        requires
            old(self).wf(),
        ensures
            final(self).wf(),
            (final(self)@, block_writes_view(writes@)) == recover_step(old(self)@, entry@),
    {
        let mut writes: Vec<BlockWrite> = Vec::new();
        proof {
            assert(block_writes_view(writes@) =~= Seq::empty());
        }
        if self.stopped || self.remaining == 0 {
            return writes;
        }
        match entry {
            JournalEntry::Data { target_block, data } => {
                if self.remaining >= 2 {
                    self.current = step_slot(self.current, 2, self.journal_blocks);
                    self.remaining = self.remaining - 2;
                    self.pending.push(BlockWrite { block: target_block as u64, data });
                    proof {
                        assert(self@.pending =~= old(self)@.pending.push(
                            (target_block as u64, data@),
                        ));
                    }
                } else {
                    self.stop();
                }
            },
            JournalEntry::Commit => {
                self.current = step_slot(self.current, 1, self.journal_blocks);
                self.remaining = self.remaining - 1;
                if self.pending.len() > 0 {
                    self.recovered = self.recovered + 1;
                }
                core::mem::swap(&mut self.pending, &mut writes);
                proof {
                    assert(self@.pending =~= Seq::empty());
                }
            },
            JournalEntry::Other => {
                self.stop();
            },
        }
        writes
    }

    /// Carries the walk to its end over a copy of the journal region held in
    /// memory, and returns every write it makes, in order.
    pub fn run_on(&mut self, region: &Vec<Vec<u8>>) -> (writes: Vec<BlockWrite>)
        requires
            old(self).wf(),
            region.len() == old(self)@.blocks,
        ensures
            final(self).wf(),
            (final(self)@, block_writes_view(writes@)) == recover_run(
                region_view(region@),
                old(self)@,
            ),
    {
        let ghost image = region_view(region@);
        let mut writes: Vec<BlockWrite> = Vec::new();
        proof {
            assert(block_writes_view(writes@) + recover_run(image, self@).1 =~= recover_run(
                image,
                self@,
            ).1);
        }
        loop
            invariant
                self.wf(),
                region.len() == self@.blocks,
                image == region_view(region@),
                recover_run(image, old(self)@) == (
                    recover_run(image, self@).0,
                    block_writes_view(writes@) + recover_run(image, self@).1,
                ),
            ensures
                recovery_done(self@),
            decreases self@.remaining,
        {
            let slot = match self.next_slot() {
                Some(slot) => slot,
                None => {
                    break ;
                },
            };
            let ghost before = self@;
            let ghost made = block_writes_view(writes@);
            let entry = entry_in(region, slot, self.payload_slot());
            let mut now = self.step(entry);
            proof {
                let later = recover_run(image, self@).1;
                assert(recover_run(image, before).1 == block_writes_view(now@) + later);
                assert(made + (block_writes_view(now@) + later) =~= (made + block_writes_view(
                    now@,
                )) + later);
            }
            let ghost added = block_writes_view(now@);
            writes.append(&mut now);
            proof {
                assert(block_writes_view(writes@) =~= made + added);
            }
        }
        proof {
            assert(block_writes_view(writes@) + Seq::<(u64, Seq<u8>)>::empty()
                =~= block_writes_view(writes@));
        }
        writes
    }

    /// Ends the walk on unknown content and drops the pending writes.
    fn stop(&mut self)
        ensures
            final(self)@ == (RecoveryState {
                remaining: 0,
                stopped: true,
                pending: Seq::empty(),
                ..old(self)@
            }),
    {
        self.remaining = 0;
        self.stopped = true;
        self.pending = Vec::new();
        proof {
            assert(self@.pending =~= Seq::empty());
        }
    }
}

/// The record slot `by` steps past `slot` in a journal of `blocks` slots.
fn step_slot(slot: u32, by: u32, blocks: u32) -> (next: u32)
    requires
        blocks >= 2,
        1 <= slot < blocks,
        by < blocks,
    ensures
        next == advance(slot as int, by as int, blocks as int),
        1 <= next < blocks,
{
    let sum: u64 = slot as u64 + by as u64;
    if sum >= blocks as u64 {
        (sum - (blocks as u64 - 1)) as u32
    } else {
        sum as u32
    }
}

/// A checkpoint walk in progress.
pub struct CheckpointWalk {
    journal_blocks: u32,
    start: u32,
    tail: u32,
    current: u32,
    remaining: u32,
    applied: u32,
}

impl View for CheckpointWalk {
    type V = CheckpointState;

    closed spec fn view(&self) -> CheckpointState {
        CheckpointState {
            blocks: self.journal_blocks,
            start: self.start,
            tail: self.tail,
            current: self.current,
            remaining: self.remaining,
            applied: self.applied as nat,
        }
    }
}

/// Whether a checkpoint state can be walked.
pub open spec fn checkpoint_wf(s: CheckpointState) -> bool {
    &&& s.blocks >= 2
    &&& 1 <= s.start < s.blocks
    &&& 1 <= s.tail < s.blocks
    &&& 1 <= s.current < s.blocks
    &&& s.remaining + 2 <= s.blocks
    &&& s.applied + s.remaining <= u32::MAX
}

impl CheckpointWalk {
    /// The walk's invariant.
    pub open spec fn wf(&self) -> bool {
        checkpoint_wf(self@)
    }

    /// Begins a walk over the slots from `head` up to `tail` of a journal of
    /// `journal_blocks` slots.
    pub(crate) fn begin(journal_blocks: u32, head: u32, tail: u32) -> (walk: CheckpointWalk)
        requires
            journal_blocks >= 2,
            1 <= head < journal_blocks,
            1 <= tail < journal_blocks,
        ensures
            walk@ == checkpoint_start(journal_blocks, head, tail),
            walk.wf(),
    {
        let remaining: u32 = if tail >= head {
            tail - head
        } else {
            journal_blocks - 1 - head + tail
        };
        CheckpointWalk { journal_blocks, start: head, tail, current: head, remaining, applied: 0 }
    }

    /// The slot to read next, or `None` when the walk is over.
    pub fn next_slot(&self) -> (slot: Option<u32>)
        ensures
            slot == if self@.remaining == 0 {
                None
            } else {
                Some(self@.current)
            },
    {
        if self.remaining == 0 {
            None
        } else {
            Some(self.current)
        }
    }

    /// The record slot after the one to read next: where the payload lies if
    /// the next slot holds a data header. After the last slot of the region
    /// comes slot 1.
    pub fn payload_slot(&self) -> (slot: u32)
        requires
            self.wf(),
        ensures
            slot == advance(self@.current as int, 1, self@.blocks as int),
            slot == (if self@.current == self@.blocks - 1 {
                1
            } else {
                self@.current + 1
            }),
            1 <= slot < self@.blocks,
    {
        step_slot(self.current, 1, self.journal_blocks)
    }

    /// Payloads applied so far.
    pub fn blocks_applied(&self) -> (count: u32)
        ensures
            count == self@.applied,
    {
        self.applied
    }

    /// Head of the journal when the walk began.
    pub fn start(&self) -> (slot: u32)
        ensures
            slot == self@.start,
    {
        self.start
    }

    /// Tail of the journal when the walk began.
    pub fn tail(&self) -> (slot: u32)
        ensures
            slot == self@.tail,
    {
        self.tail
    }

    /// Slots in the journal the walk was begun on.
    pub fn journal_blocks(&self) -> (n: u32)
        ensures
            n == self@.blocks,
    {
        self.journal_blocks
    }

    /// Takes the entry read at the current slot and returns the write to
    /// carry out now: the payload to its target for a data entry, nothing
    /// otherwise. The caller writes the payload to its target and has the
    /// buffer cache drop what it holds of that target.
    pub fn step(&mut self, entry: JournalEntry) -> (write: Option<BlockWrite>)
        requires
            old(self).wf(),
        ensures
            final(self).wf(),
            (
                final(self)@,
                match write {
                    Some(w) => Some(w@),
                    None => None,
                },
            ) == checkpoint_step(old(self)@, entry@),
    {
        if self.remaining == 0 {
            return None;
        }
        match entry {
            JournalEntry::Data { target_block, data } => {
                if self.remaining >= 2 {
                    self.current = step_slot(self.current, 2, self.journal_blocks);
                    self.remaining = self.remaining - 2;
                    self.applied = self.applied + 1;
                    return Some(BlockWrite { block: target_block as u64, data });
                }
            },
            _ => {},
        }
        self.current = step_slot(self.current, 1, self.journal_blocks);
        self.remaining = self.remaining - 1;
        None
    }
    /// Carries the walk to its end over a copy of the journal region held in
    /// memory, and returns every write it makes, in order.
    pub fn run_on(&mut self, region: &Vec<Vec<u8>>) -> (writes: Vec<BlockWrite>)
        requires
            old(self).wf(),
            region.len() == old(self)@.blocks,
        ensures
            final(self).wf(),
            (final(self)@, block_writes_view(writes@)) == checkpoint_run(
                region_view(region@),
                old(self)@,
            ),
    {
        let ghost image = region_view(region@);
        let mut writes: Vec<BlockWrite> = Vec::new();
        proof {
            assert(block_writes_view(writes@) + checkpoint_run(image, self@).1 =~= checkpoint_run(
                image,
                self@,
            ).1);
        }
        loop
            invariant
                self.wf(),
                region.len() == self@.blocks,
                image == region_view(region@),
                checkpoint_run(image, old(self)@) == (
                    checkpoint_run(image, self@).0,
                    block_writes_view(writes@) + checkpoint_run(image, self@).1,
                ),
            ensures
                self@.remaining == 0,
            decreases self@.remaining,
        {
            let slot = match self.next_slot() {
                Some(slot) => slot,
                None => {
                    break ;
                },
            };
            let ghost before = self@;
            let ghost made = block_writes_view(writes@);
            let entry = entry_in(region, slot, self.payload_slot());
            let now = self.step(entry);
            let ghost later = checkpoint_run(image, self@).1;
            match now {
                Some(w) => {
                    proof {
                        assert(checkpoint_run(image, before).1 == seq![w@] + later);
                        assert(made + (seq![w@] + later) =~= made.push(w@) + later);
                    }
                    writes.push(w);
                    proof {
                        assert(block_writes_view(writes@) =~= made.push(w@));
                    }
                },
                None => {
                    proof {
                        assert(checkpoint_run(image, before).1 == later);
                    }
                },
            }
        }
        proof {
            assert(block_writes_view(writes@) + Seq::<(u64, Seq<u8>)>::empty()
                =~= block_writes_view(writes@));
        }
        writes
    }
}

} // verus!