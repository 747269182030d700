//! What holds of the journal as a whole, over a model of the device: a map
//! from block numbers to block contents, on which a write replaces one
//! block.

use crate::journal::replay::{
    checkpoint_run, checkpoint_start, recover_run, recovery_start, RecoveryState,
};
use crate::journal::types::JournalSuperblock;
use crate::journal::{slot_block, superblock_after_checkpoint, upgraded};
use vstd::prelude::*;

verus! {

/// The device after `writes` were carried out in order.
pub open spec fn apply_writes(disk: Map<u64, Seq<u8>>, writes: Seq<(u64, Seq<u8>)>) -> Map<
    u64,
    Seq<u8>,
>
    decreases writes.len(),
{
    if writes.len() == 0 {
        disk
    } else {
        apply_writes(disk, writes.drop_last()).insert(writes.last().0, writes.last().1)
    }
}

/// The journal region of a device: the blocks of its slots, slot 0 first.
pub open spec fn region_of(disk: Map<u64, Seq<u8>>, start: u32, blocks: u32) -> Seq<Seq<u8>> {
    Seq::new(blocks as nat, |slot: int| disk[slot_block(start, slot)])
}

/// Whether none of `writes` goes to a slot of the journal region.
pub open spec fn writes_miss_region(writes: Seq<(u64, Seq<u8>)>, start: u32, blocks: u32) -> bool {
    forall|i: int, slot: int|
        0 <= i < writes.len() && 0 <= slot < blocks ==> (#[trigger] writes[i]).0
            != #[trigger] slot_block(start, slot)
}

/// What recovery finds on a device: the journal is opened from slot 0 and
/// the slots between head and tail are walked. The result is the state the
/// walk ends in, whose `recovered` is the count returned, and the writes it
/// replays.
pub open spec fn replay_of(disk: Map<u64, Seq<u8>>, start: u32, blocks: u32) -> (
    RecoveryState,
    Seq<(u64, Seq<u8>)>,
) {
    let sb = upgraded(JournalSuperblock::parse(disk[start as u64]));
    recover_run(region_of(disk, start, blocks), recovery_start(blocks, sb.head, sb.tail))
}

/// The writes that replaying a transaction makes: each payload to its
/// target, in the order the writes were made.
pub open spec fn replayed_writes(writes: Seq<(u32, Seq<u8>)>) -> Seq<(u64, Seq<u8>)> {
    Seq::new(writes.len(), |i: int| (writes[i].0 as u64, writes[i].1))
}

/// Writes that all miss a block leave it as it was.
pub proof fn lemma_apply_writes_elsewhere(
    disk: Map<u64, Seq<u8>>,
    writes: Seq<(u64, Seq<u8>)>,
    block: u64,
)
    requires
        forall|i: int| 0 <= i < writes.len() ==> (#[trigger] writes[i]).0 != block,
    ensures
        apply_writes(disk, writes)[block] == disk[block],
    decreases writes.len(),
{
    if writes.len() > 0 {
        let shorter = writes.drop_last();
        assert forall|i: int| 0 <= i < shorter.len() implies (#[trigger] shorter[i]).0
            != block by {
            assert(shorter[i] == writes[i]);
        }
        lemma_apply_writes_elsewhere(disk, shorter, block);
        assert(writes.last() == writes[writes.len() - 1]);
    }
}

/// After writes to pairwise different blocks, each block written holds what
/// was written to it.
pub proof fn lemma_apply_writes_distinct(
    disk: Map<u64, Seq<u8>>,
    writes: Seq<(u64, Seq<u8>)>,
    j: int,
)
    requires
        0 <= j < writes.len(),
        forall|a: int, b: int|
            0 <= a < b < writes.len() ==> (#[trigger] writes[a]).0 != (#[trigger] writes[b]).0,
    ensures
        apply_writes(disk, writes)[writes[j].0] == writes[j].1,
    decreases writes.len(),
{
    let shorter = writes.drop_last();
    if j == writes.len() - 1 {
        assert(writes.last() == writes[j]);
    } else {
        assert forall|a: int, b: int| 0 <= a < b < shorter.len() implies (#[trigger] shorter[a]).0
            != (#[trigger] shorter[b]).0 by {
            assert(shorter[a] == writes[a]);
            assert(shorter[b] == writes[b]);
        }
        lemma_apply_writes_distinct(disk, shorter, j);
        assert(shorter[j] == writes[j]);
        assert(writes[j].0 != writes[writes.len() - 1].0);
    }
}

/// Writes that miss the journal region leave the region as it was.
pub proof fn lemma_region_untouched(
    disk: Map<u64, Seq<u8>>,
    writes: Seq<(u64, Seq<u8>)>,
    start: u32,
    blocks: u32,
)
    requires
        writes_miss_region(writes, start, blocks),
    ensures
        region_of(apply_writes(disk, writes), start, blocks) == region_of(disk, start, blocks),
{
    let after = apply_writes(disk, writes);
    assert forall|slot: int| 0 <= slot < blocks implies after[slot_block(start, slot)]
        == disk[slot_block(start, slot)] by {
        assert forall|i: int| 0 <= i < writes.len() implies (#[trigger] writes[i]).0 != slot_block(
            start,
            slot,
        ) by {}
        lemma_apply_writes_elsewhere(disk, writes, slot_block(start, slot));
    }
    assert(region_of(after, start, blocks) =~= region_of(disk, start, blocks));
}

/// Recovery of an empty region replays nothing and returns 0.
pub proof fn lemma_recover_empty(region: Seq<Seq<u8>>, blocks: u32, head: u32)
    requires
        head < blocks,
    ensures
        recover_run(region, recovery_start(blocks, head, head)).0.recovered == 0,
        recover_run(region, recovery_start(blocks, head, head)).1 == Seq::<
            (u64, Seq<u8>),
        >::empty(),
        recover_run(region, recovery_start(blocks, head, head)).0 == recovery_start(
            blocks,
            head,
            head,
        ),
{
}

/// Recovery can be run again: it leaves head and tail alone, and as long as
/// the writes it replays go to blocks outside the journal region, the device
/// it leaves behind replays to the very same writes and the same count. The
/// targets receive the same bytes the second time.
pub proof fn lemma_recover_twice(disk: Map<u64, Seq<u8>>, start: u32, blocks: u32)
    requires
        blocks >= 2,
        writes_miss_region(replay_of(disk, start, blocks).1, start, blocks),
    ensures
        replay_of(apply_writes(disk, replay_of(disk, start, blocks).1), start, blocks)
            == replay_of(disk, start, blocks),
{
    let writes = replay_of(disk, start, blocks).1;
    let after = apply_writes(disk, writes);
    lemma_region_untouched(disk, writes, start, blocks);
    assert(slot_block(start, 0) == start as u64);
    assert forall|i: int| 0 <= i < writes.len() implies (#[trigger] writes[i]).0
        != start as u64 by {
        assert(writes[i].0 != slot_block(start, 0));
    }
    lemma_apply_writes_elsewhere(disk, writes, start as u64);
}

/// A checkpoint of an empty region does nothing: its walk is over before it
/// begins, it makes no write, and the superblock stays as it is, sequence
/// included. Doing it again changes nothing either.
pub proof fn lemma_checkpoint_empty(region: Seq<Seq<u8>>, sb: JournalSuperblock, blocks: u32)
    requires
        sb.head == sb.tail,
        sb.head < blocks,
    ensures
        checkpoint_run(region, checkpoint_start(blocks, sb.head, sb.tail)).1 == Seq::<
            (u64, Seq<u8>),
        >::empty(),
        checkpoint_run(region, checkpoint_start(blocks, sb.head, sb.tail)).0 == checkpoint_start(
            blocks,
            sb.head,
            sb.tail,
        ),
        superblock_after_checkpoint(sb, checkpoint_start(blocks, sb.head, sb.tail)) == sb,
{
}

/// After a checkpoint the region is empty, so a second checkpoint changes
/// nothing: checkpointing is idempotent.
pub proof fn lemma_checkpoint_idempotent(sb: JournalSuperblock, blocks: u32)
    requires
        sb.head < blocks,
        sb.tail < blocks,
    ensures
        ({
            let once = superblock_after_checkpoint(
                sb,
                checkpoint_start(blocks, sb.head, sb.tail),
            );
            &&& once.head == once.tail
            &&& once.tail == sb.tail
            &&& superblock_after_checkpoint(
                once,
                checkpoint_start(blocks, once.head, once.tail),
            ) == once
        }),
{
}

} // verus!
