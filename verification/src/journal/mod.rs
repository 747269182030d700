//! The journal: a write-ahead log over a circular region of the device.
//!
//! Slot 0 of the region holds the superblock and never a record; records go
//! round the other slots, between head and tail. The manager decides where
//! records go and what they hold; the caller owns the device, reads the
//! slots the walks ask for and carries out the writes it is handed, in the
//! order given.
//!
//! A commit takes two calls. `commit` reserves the slots and hands out the
//! writes; once they are durable `finish_commit` marks the transaction
//! committed, and if they cannot be made durable `abandon_commit` gives the
//! slots back.

pub mod atomicity;
pub mod codec;
pub mod laws;
pub mod record;
pub mod replay;
pub mod ring;
pub mod types;

pub use record::JournalEntry;
pub use replay::{CheckpointWalk, RecoveryWalk};
pub use types::{
    JournalCommitRecord, JournalDataHeader, JournalSuperblock, Transaction, TxnState,
};

use crate::device::{BlockWrite, BLOCK_SIZE};
use codec::copy_bytes;
use crate::error::FsError;
use record::{
    calculate_checksum, calculate_commit_checksum, commit_record_for, data_header_for,
};
use replay::{block_writes_view, checkpoint_start, recovery_start, CheckpointState};
use ring::{advance, available_slots, is_record_slot, used_slots};
use std::collections::HashSet;
use types::{TransactionView, JOURNAL_COMMIT_MAGIC, JOURNAL_DATA_MAGIC, JOURNAL_MAGIC};
use vstd::prelude::*;

verus! {

broadcast use vstd::std_specs::hash::group_hash_axioms;

/// The journal manager: the superblock in memory, the table of active
/// transactions and the next transaction id.
pub struct JournalManager {
    /// Device block of slot 0.
    journal_start: u32,
    /// Slots in the region.
    journal_blocks: u32,
    /// The superblock, with head and tail.
    superblock: JournalSuperblock,
    /// Ids of the transactions that are active.
    active_txns: HashSet<u64>,
    /// Id the next transaction gets.
    next_tid: u64,
    /// The commit whose writes are in the caller's hands, if there is one.
    prepared: Option<PreparedCommit>,
}

/// A commit that has its slots reserved and its writes handed out, and is
/// neither finished nor abandoned yet.
#[derive(Debug, Clone, Copy, PartialEq, Eq, Structural)]
pub struct PreparedCommit {
    /// Id of the transaction being committed.
    pub txn_id: u64,
    /// The tail before the slots were reserved.
    pub tail_before: u32,
}

/// The manager as a mathematical value.
pub ghost struct JournalState {
    /// Device block of slot 0.
    pub start: u32,
    /// Slots in the region.
    pub blocks: u32,
    /// The superblock, with head and tail.
    pub superblock: JournalSuperblock,
    /// Ids of the transactions that are active.
    pub active: Set<u64>,
    /// Id the next transaction gets.
    pub next_tid: u64,
    /// The commit whose writes are in the caller's hands, if there is one.
    pub prepared: Option<PreparedCommit>,
}

impl View for JournalManager {
    type V = JournalState;

    closed spec fn view(&self) -> JournalState {
        JournalState {
            start: self.journal_start,
            blocks: self.journal_blocks,
            superblock: self.superblock,
            active: self.active_txns@,
            next_tid: self.next_tid,
            prepared: self.prepared,
        }
    }
}

/// The journal's invariant: at least two slots, head and tail among the
/// record slots, which are all but slot 0, the superblock's magic in place,
/// and the tail a prepared commit began at still between head and tail.
pub open spec fn journal_wf(s: JournalState) -> bool {
    &&& s.blocks >= 2
    &&& is_record_slot(s.superblock.head as int, s.blocks as int)
    &&& is_record_slot(s.superblock.tail as int, s.blocks as int)
    &&& s.superblock.magic == JOURNAL_MAGIC
    &&& s.prepared matches Some(p) ==> {
        &&& is_record_slot(p.tail_before as int, s.blocks as int)
        &&& used_slots(s.superblock.head as int, p.tail_before as int, s.blocks as int)
            <= used_slots(s.superblock.head as int, s.superblock.tail as int, s.blocks as int)
    }
}

/// The superblock as loaded: a region that reads head 0 and tail 0 was laid
/// out before slot 0 was set aside for the superblock, and is taken as
/// head 1 and tail 1.
pub open spec fn upgraded(sb: JournalSuperblock) -> JournalSuperblock {
    if sb.head == 0 && sb.tail == 0 {
        JournalSuperblock { head: 1, tail: 1, ..sb }
    } else {
        sb
    }
}

/// What opening a journal of `blocks` slots answers for the block read at
/// slot 0: the superblock to work with, or why the journal is refused. Head
/// and tail have to be record slots; slot 0 holds the superblock and never a
/// record.
pub open spec fn open_outcome(blocks: u32, block: Seq<u8>) -> Result<JournalSuperblock, FsError> {
    if blocks < 2 || block.len() != BLOCK_SIZE {
        Err(FsError::InvalidArgument)
    } else {
        let sb = upgraded(JournalSuperblock::parse(block));
        if sb.magic != JOURNAL_MAGIC || !is_record_slot(sb.head as int, blocks as int)
            || !is_record_slot(sb.tail as int, blocks as int) {
            Err(FsError::InvalidFormat)
        } else {
            Ok(sb)
        }
    }
}

/// Whether every pending write carries a payload of one block.
pub open spec fn payloads_sized(writes: Seq<(u32, Seq<u8>)>) -> bool {
    forall|i: int| 0 <= i < writes.len() ==> (#[trigger] writes[i]).1.len() == BLOCK_SIZE
}

/// Slots a transaction with `count` pending writes takes in the journal: a
/// header and a payload for each write, and the commit record.
pub open spec fn slots_needed(count: nat) -> int {
    2 * (count as int) + 1
}

/// Whether the commit of transaction `id` is prepared in state `s`.
pub open spec fn is_prepared(s: JournalState, id: u64) -> bool {
    s.prepared matches Some(p) && p.txn_id == id
}

/// What committing `txn` answers in state `s`. A transaction that is not
/// active is refused; one without writes is committed on the spot; the
/// record slots have to suffice, `2W + 1` of them for `W` writes; while
/// another commit is prepared none can be; and each payload has to be one
/// block.
pub open spec fn commit_outcome(s: JournalState, txn: TransactionView) -> Result<(), FsError> {
    if txn.state != TxnState::Active {
        Err(FsError::InvalidState)
    } else if txn.writes.len() == 0 {
        Ok(())
    } else if slots_needed(txn.writes.len()) > available_slots(
        s.superblock.head as int,
        s.superblock.tail as int,
        s.blocks as int,
    ) {
        Err(FsError::Full)
    } else if s.prepared is Some {
        Err(FsError::InvalidState)
    } else if !payloads_sized(txn.writes) {
        Err(FsError::InvalidArgument)
    } else {
        Ok(())
    }
}

/// The state once the commit of `txn` is prepared: the tail moved on past
/// the slots of the transaction, and the commit remembered together with the
/// tail it began at.
pub open spec fn state_after_commit(s: JournalState, txn: TransactionView) -> JournalState {
    JournalState {
        superblock: superblock_after_commit(s, txn.writes.len()),
        prepared: Some(PreparedCommit { txn_id: txn.id, tail_before: s.superblock.tail }),
        ..s
    }
}

/// The state once a prepared commit is abandoned: the tail back where the
/// commit began, and no commit remembered.
pub open spec fn state_after_abandon(s: JournalState) -> JournalState {
    match s.prepared {
        Some(p) => JournalState {
            superblock: JournalSuperblock { tail: p.tail_before, ..s.superblock },
            prepared: None,
            ..s
        },
        None => s,
    }
}

/// Abandoning a commit undoes its preparation: the manager is again in the
/// state it was in before `commit`, superblock and all.
pub proof fn lemma_abandon_undoes_commit(s: JournalState, txn: TransactionView)
    requires
        s.prepared is None,
    ensures
        state_after_abandon(state_after_commit(s, txn)) == s,
{
}

/// The slots a commit reserves are record slots, pairwise different, and
/// none of them is slot 0: of the writes of a commit only the last, the
/// superblock, goes to slot 0.
pub proof fn lemma_commit_slots(s: JournalState, txn: TransactionView)
    requires
        journal_wf(s),
        commit_outcome(s, txn) is Ok,
        txn.writes.len() > 0,
    ensures
        forall|k: int|
            0 <= k < slots_needed(txn.writes.len()) ==> is_record_slot(
                #[trigger] advance(s.superblock.tail as int, k, s.blocks as int),
                s.blocks as int,
            ),
        forall|a: int, b: int|
            0 <= a < b < slots_needed(txn.writes.len()) ==> advance(
                s.superblock.tail as int,
                a,
                s.blocks as int,
            ) != advance(s.superblock.tail as int, b, s.blocks as int),
        forall|k: int|
            0 <= k < slots_needed(txn.writes.len()) ==> (#[trigger] commit_writes(s, txn)[k]).0
                == slot_block(s.start, advance(s.superblock.tail as int, k, s.blocks as int)),
        commit_writes(s, txn).len() == slots_needed(txn.writes.len()) + 1,
        commit_writes(s, txn).last().0 == s.start as u64,
        forall|k: int|
            0 <= k < slots_needed(txn.writes.len()) ==> (#[trigger] commit_writes(s, txn)[k]).0
                != s.start as u64,
{
    let writes = commit_writes(s, txn);
    let count = txn.writes.len() as int;
    let data = data_writes(s.start, s.blocks, s.superblock.tail, txn.writes);
    assert forall|k: int| 0 <= k < 2 * count + 1 implies (#[trigger] writes[k]).0 == slot_block(
        s.start,
        advance(s.superblock.tail as int, k, s.blocks as int),
    ) by {
        if k < 2 * count {
            assert(writes[k] == data[k]);
        }
    }
}

/// The device block of journal slot `slot`.
pub open spec fn slot_block(start: u32, slot: int) -> u64 {
    (start + slot) as u64
}

/// The record writes of a commit, before the commit record: for the `i`-th
/// pending write its header at the slot `2i` past the tail and its payload at
/// the slot after that.
pub open spec fn data_writes(start: u32, blocks: u32, tail: u32, writes: Seq<(u32, Seq<u8>)>) -> Seq<
    (u64, Seq<u8>),
> {
    Seq::new(
        2 * writes.len(),
        |k: int|
            (
                slot_block(start, advance(tail as int, k, blocks as int)),
                if k % 2 == 0 {
                    data_header_for(writes[k / 2].0, writes[k / 2].1).image()
                } else {
                    writes[k / 2].1
                },
            ),
    )
}

/// The superblock once a transaction with `count` pending writes has its
/// slots reserved: the tail moved on past them.
pub open spec fn superblock_after_commit(s: JournalState, count: nat) -> JournalSuperblock {
    JournalSuperblock {
        tail: advance(s.superblock.tail as int, slots_needed(count), s.blocks as int) as u32,
        ..s.superblock
    }
}

/// The writes that commit `txn`, in the order they must reach the device:
/// header and payload of each pending write, the commit record, and last the
/// superblock with the new tail.
pub open spec fn commit_writes(s: JournalState, txn: TransactionView) -> Seq<(u64, Seq<u8>)> {
    let count = txn.writes.len();
    data_writes(s.start, s.blocks, s.superblock.tail, txn.writes).push(
        (
            slot_block(s.start, advance(s.superblock.tail as int, 2 * (count as int), s.blocks as int)),
            commit_record_for(txn.id, count as u32).image(),
        ),
    ).push((s.start as u64, superblock_after_commit(s, count).image()))
}

/// The superblock once the checkpoint walk `walk` is done: unchanged where
/// the walk found the region empty, else with the head moved to the tail the
/// walk began with and the sequence counted up.
pub open spec fn superblock_after_checkpoint(
    sb: JournalSuperblock,
    walk: CheckpointState,
) -> JournalSuperblock {
    if walk.start == walk.tail {
        sb
    } else {
        JournalSuperblock { head: walk.tail, sequence: (sb.sequence + 1) as u64, ..sb }
    }
}

/// Whether `walk` is a finished checkpoint walk of the journal in state `s`:
/// it is over, it began at the head as it still stands, and the tail it
/// began with lies between head and tail.
pub open spec fn checkpoint_complete(s: JournalState, walk: CheckpointState) -> bool {
    &&& walk.remaining == 0
    &&& walk.blocks == s.blocks
    &&& walk.start == s.superblock.head
    &&& is_record_slot(walk.tail as int, s.blocks as int)
    &&& used_slots(s.superblock.head as int, walk.tail as int, s.blocks as int)
        <= used_slots(s.superblock.head as int, s.superblock.tail as int, s.blocks as int)
}

/// What ending a checkpoint answers: refused with `InvalidState` while a
/// commit is prepared, with `InvalidArgument` for a walk that is not a
/// finished walk of this journal.
pub open spec fn finish_checkpoint_outcome(s: JournalState, walk: CheckpointState) -> Result<
    (),
    FsError,
> {
    if s.prepared is Some {
        Err(FsError::InvalidState)
    } else if !checkpoint_complete(s, walk) {
        Err(FsError::InvalidArgument)
    } else {
        Ok(())
    }
}

impl JournalManager {
    /// The manager's invariant.
    pub open spec fn wf(&self) -> bool {
        journal_wf(self@)
    }

    /// Opens the journal whose slot 0 lies at device block `start` and which
    /// has `blocks` slots, from the block read at slot 0.
    pub fn new(start: u32, blocks: u32, superblock_block: &Vec<u8>) -> (r: Result<
        JournalManager,
        FsError,
    >)
        ensures
            match open_outcome(blocks, superblock_block@) {
                Ok(sb) => r is Ok && r->Ok_0.wf() && r->Ok_0@ == (JournalState {
                    start,
                    blocks,
                    superblock: sb,
                    active: Set::empty(),
                    next_tid: 1,
                    prepared: None,
                }),
                Err(e) => r is Err && r->Err_0 == e,
            },
    {
        if blocks < 2 || superblock_block.len() != BLOCK_SIZE {
            return Err(FsError::InvalidArgument);
        }
        let mut superblock = JournalSuperblock::from_block(superblock_block);
        if superblock.magic != JOURNAL_MAGIC {
            return Err(FsError::InvalidFormat);
        }
        if superblock.head == 0 && superblock.tail == 0 {
            superblock.head = 1;
            superblock.tail = 1;
        }
        if superblock.head == 0 || superblock.tail == 0 || superblock.head >= blocks
            || superblock.tail >= blocks {
            return Err(FsError::InvalidFormat);
        }
        Ok(
            JournalManager {
                journal_start: start,
                journal_blocks: blocks,
                superblock,
                active_txns: HashSet::new(),
                next_tid: 1,
                prepared: None,
            },
        )
    }

    /// Oldest slot not yet applied.
    pub fn head(&self) -> (slot: u32)
        ensures
            slot == self@.superblock.head,
    {
        self.superblock.head
    }

    /// Next slot to hand out.
    pub fn tail(&self) -> (slot: u32)
        ensures
            slot == self@.superblock.tail,
    {
        self.superblock.tail
    }

    /// The checkpoint counter.
    pub fn sequence(&self) -> (n: u64)
        ensures
            n == self@.superblock.sequence,
    {
        self.superblock.sequence
    }

    /// The id the next transaction gets.
    pub fn next_transaction_id(&self) -> (id: u64)
        ensures
            id == self@.next_tid,
    {
        self.next_tid
    }

    /// Slots in the region, slot 0 included.
    pub fn journal_blocks(&self) -> (n: u32)
        ensures
            n == self@.blocks,
    {
        self.journal_blocks
    }

    /// The transaction whose commit is prepared, if there is one.
    pub fn prepared_transaction(&self) -> (id: Option<u64>)
        ensures
            id == match self@.prepared {
                Some(p) => Some(p.txn_id),
                None => None,
            },
    {
        match self.prepared {
            Some(p) => Some(p.txn_id),
            None => None,
        }
    }

    /// Whether the region holds no records: head and tail meet.
    pub fn is_empty(&self) -> (r: bool)
        ensures
            r == (self@.superblock.head == self@.superblock.tail),
    {
        self.superblock.head == self.superblock.tail
    }

    /// Whether transaction `id` is in the table of active transactions.
    pub fn is_active(&self, id: u64) -> (r: bool)
        ensures
            r == self@.active.contains(id),
    {
        self.active_txns.contains(&id)
    }

    /// Record slots that can still be handed out:
    /// `(head - tail - 1) mod (n - 1)`.
    pub fn available_slots(&self) -> (n: u32)
        requires
            self.wf(),
        ensures
            n == available_slots(
                self@.superblock.head as int,
                self@.superblock.tail as int,
                self@.blocks as int,
            ),
    {
        let head = self.superblock.head;
        let tail = self.superblock.tail;
        if head > tail {
            head - tail - 1
        } else {
            self.journal_blocks - 2 - (tail - head)
        }
    }

    /// Record slots from `head` up to `tail`.
    fn used_between(&self, head: u32, tail: u32) -> (n: u32)
        requires
            self@.blocks >= 2,
            1 <= head < self@.blocks,
            1 <= tail < self@.blocks,
        ensures
            n == used_slots(head as int, tail as int, self@.blocks as int),
    {
        if tail >= head {
            tail - head
        } else {
            self.journal_blocks - 1 - head + tail
        }
    }

    /// The device block that holds journal slot `slot`.
    pub fn slot_block(&self, slot: u32) -> (block: u64)
        ensures
            block == slot_block(self@.start, slot as int),
    {
        self.journal_start as u64 + slot as u64
    }

    /// Begins a transaction: a fresh id, no writes, registered as active.
    pub fn begin_transaction(&mut self) -> (r: Result<Transaction, FsError>)
        requires
            old(self).wf(),
            old(self)@.next_tid < u64::MAX,
        ensures
            final(self).wf(),
            r is Ok,
            r->Ok_0@ == (TransactionView {
                id: old(self)@.next_tid,
                writes: Seq::empty(),
                state: TxnState::Active,
            }),
            final(self)@ == (JournalState {
                next_tid: (old(self)@.next_tid + 1) as u64,
                active: old(self)@.active.insert(old(self)@.next_tid),
                ..old(self)@
            }),
    {
        let tid = self.next_tid;
        self.next_tid = self.next_tid + 1;
        self.active_txns.insert(tid);
        let txn = Transaction { id: tid, writes: Vec::new(), state: TxnState::Active };
        proof {
            assert(txn@.writes =~= Seq::empty());
        }
        Ok(txn)
    }

    /// Hands out the record slot at the tail and moves the tail on by one;
    /// after the last slot of the region comes slot 1. Fails with `Full`,
    /// changing nothing, where no slot is available.
    pub fn allocate_journal_block(&mut self) -> (r: Result<u32, FsError>)
        requires
            old(self).wf(),
        ensures
            final(self).wf(),
            match r {
                Ok(slot) => {
                    &&& available_slots(
                        old(self)@.superblock.head as int,
                        old(self)@.superblock.tail as int,
                        old(self)@.blocks as int,
                    ) > 0
                    &&& slot == old(self)@.superblock.tail
                    &&& final(self)@ == (JournalState {
                        superblock: JournalSuperblock {
                            tail: advance(slot as int, 1, old(self)@.blocks as int) as u32,
                            ..old(self)@.superblock
                        },
                        ..old(self)@
                    })
                },
                Err(e) => {
                    &&& e == FsError::Full
                    &&& available_slots(
                        old(self)@.superblock.head as int,
                        old(self)@.superblock.tail as int,
                        old(self)@.blocks as int,
                    ) == 0
                    &&& final(self)@ == old(self)@
                },
            },
    {
        let next_tail: u32 = if self.superblock.tail == self.journal_blocks - 1 {
            1
        } else {
            self.superblock.tail + 1
        };
        if next_tail == self.superblock.head {
            return Err(FsError::Full);
        }
        let allocated = self.superblock.tail;
        self.superblock.tail = next_tail;
        Ok(allocated)
    }

    /// The two writes that journal one block write: the data header at
    /// `header_slot` and the payload at `payload_slot`.
    pub fn write_journal_data(
        &self,
        header_slot: u32,
        payload_slot: u32,
        target_block: u32,
        data: Vec<u8>,
    ) -> (w: (BlockWrite, BlockWrite))
        ensures
            w.0@ == (
                slot_block(self@.start, header_slot as int),
                data_header_for(target_block, data@).image(),
            ),
            w.1@ == (slot_block(self@.start, payload_slot as int), data@),
    {
        let header = JournalDataHeader {
            magic: JOURNAL_DATA_MAGIC,
            target_block,
            checksum: calculate_checksum(&data),
        };
        (
            BlockWrite { block: self.slot_block(header_slot), data: header.to_block() },
            BlockWrite { block: self.slot_block(payload_slot), data },
        )
    }

    /// The write that puts the commit record of transaction `txn_id`, with
    /// `num_blocks` journaled writes, at `slot`.
    pub fn write_commit_record(&self, slot: u32, txn_id: u64, num_blocks: u32) -> (w: BlockWrite)
        ensures
            w@ == (
                slot_block(self@.start, slot as int),
                commit_record_for(txn_id, num_blocks).image(),
            ),
    {
        let record = JournalCommitRecord {
            magic: JOURNAL_COMMIT_MAGIC,
            txn_id,
            num_blocks,
            checksum: calculate_commit_checksum(txn_id),
        };
        BlockWrite { block: self.slot_block(slot), data: record.to_block() }
    }

    /// The write that persists the superblock to slot 0.
    pub fn sync_superblock_to_disk(&self) -> (w: BlockWrite)
        ensures
            w@ == (self@.start as u64, self@.superblock.image()),
    {
        BlockWrite { block: self.journal_start as u64, data: self.superblock.to_block() }
    }

    /// Whether every pending write of `txn` carries a payload of one block.
    fn check_payloads(txn: &Transaction) -> (r: bool)
        ensures
            r == payloads_sized(txn@.writes),
    {
        let mut i: usize = 0;
        while i < txn.writes.len()
            invariant
                i <= txn.writes.len(),
                forall|j: int| 0 <= j < i ==> (#[trigger] txn@.writes[j]).1.len() == BLOCK_SIZE,
            decreases txn.writes.len() - i,
        {
            if txn.writes[i].1.len() != BLOCK_SIZE {
                proof {
                    assert(txn@.writes[i as int].1.len() != BLOCK_SIZE);
                }
                return false;
            }
            i = i + 1;
        }
        true
    }

    /// Prepares the commit of `txn`: reserves a header slot and a payload
    /// slot for each pending write and a slot for the commit record, and
    /// returns the writes to carry out, in order, the superblock with the
    /// new tail last. The record writes go to record slots, pairwise
    /// different; only the superblock goes to slot 0. The caller makes the
    /// writes durable and then calls `finish_commit`; if it cannot, it calls
    /// `abandon_commit`, which gives the slots back. Until then the
    /// transaction stays active, the manager remembers the commit as
    /// prepared, and no other commit can be prepared.
    ///
    /// A transaction without writes is committed on the spot: it is marked
    /// committed and unregistered, and there is nothing to write.
    ///
    /// On an error nothing changes, and no slot is reserved.
    pub fn commit(&mut self, txn: &mut Transaction) -> (r: Result<Vec<BlockWrite>, FsError>)
        requires
            old(self).wf(),
        ensures
            final(self).wf(),
            match commit_outcome(old(self)@, old(txn)@) {
                Ok(()) => {
                    &&& r is Ok
                    &&& if old(txn)@.writes.len() == 0 {
                        &&& r->Ok_0@.len() == 0
                        &&& final(txn)@ == (TransactionView {
                            state: TxnState::Committed,
                            ..old(txn)@
                        })
                        &&& final(self)@ == (JournalState {
                            active: old(self)@.active.remove(old(txn)@.id),
                            ..old(self)@
                        })
                    } else {
                        &&& block_writes_view(r->Ok_0@) == commit_writes(old(self)@, old(txn)@)
                        &&& r->Ok_0@.len() == slots_needed(old(txn)@.writes.len()) + 1
                        &&& r->Ok_0@.last().block == old(self)@.start
                        &&& forall|k: int|
                            0 <= k < r->Ok_0@.len() - 1 ==> (#[trigger] r->Ok_0@[k]).block
                                != old(self)@.start
                        &&& forall|a: int, b: int|
                            0 <= a < b < r->Ok_0@.len() ==> (#[trigger] r->Ok_0@[a]).block != (
                            #[trigger] r->Ok_0@[b]).block
                        &&& final(txn)@ == old(txn)@
                        &&& final(self)@ == state_after_commit(old(self)@, old(txn)@)
                    }
                },
                Err(e) => {
                    &&& r is Err
                    &&& r->Err_0 == e
                    &&& final(txn)@ == old(txn)@
                    &&& final(self)@ == old(self)@
                },
            },
    {
        match txn.state {
            TxnState::Active => {},
            _ => {
                return Err(FsError::InvalidState);
            },
        }
        let count: usize = txn.writes.len();
        if count == 0 {
            txn.state = TxnState::Committed;
            self.active_txns.remove(&txn.id);
            return Ok(Vec::new());
        }
        let available = self.available_slots();
        if available == 0 || count > ((available - 1) / 2) as usize {
            return Err(FsError::Full);
        }
        if self.prepared.is_some() {
            return Err(FsError::InvalidState);
        }
        if !Self::check_payloads(txn) {
            return Err(FsError::InvalidArgument);
        }
        let ghost before = self@;
        let ghost pending = txn@.writes;
        let blocks = self.journal_blocks;
        let first_slot = self.superblock.tail;
        let mut writes: Vec<BlockWrite> = Vec::new();
        let mut i: usize = 0;
        proof {
            assert(block_writes_view(writes@) =~= data_writes(
                before.start,
                before.blocks,
                before.superblock.tail,
                pending.take(0),
            ));
        }
        while i < count
            invariant
                self.wf(),
                i <= count,
                count == txn.writes.len(),
                pending == txn@.writes,
                txn@ == old(txn)@,
                payloads_sized(pending),
                blocks == before.blocks,
                first_slot == before.superblock.tail,
                2 * count + 1 <= available_slots(
                    before.superblock.head as int,
                    before.superblock.tail as int,
                    before.blocks as int,
                ),
                journal_wf(before),
                self@ == (JournalState {
                    superblock: JournalSuperblock {
                        tail: advance(first_slot as int, 2 * i, blocks as int) as u32,
                        ..before.superblock
                    },
                    ..before
                }),
                available_slots(
                    self@.superblock.head as int,
                    self@.superblock.tail as int,
                    blocks as int,
                ) == available_slots(
                    before.superblock.head as int,
                    before.superblock.tail as int,
                    before.blocks as int,
                ) - 2 * i,
                block_writes_view(writes@) == data_writes(
                    before.start,
                    before.blocks,
                    before.superblock.tail,
                    pending.take(i as int),
                ),
            decreases count - i,
        {
            let header_slot = match self.allocate_journal_block() {
                Ok(slot) => slot,
                Err(e) => {
                    return Err(e);
                },
            };
            let payload_slot = match self.allocate_journal_block() {
                Ok(slot) => slot,
                Err(e) => {
                    return Err(e);
                },
            };
            let target_block = txn.writes[i].0;
            let data = copy_bytes(&txn.writes[i].1);
            let pair = self.write_journal_data(header_slot, payload_slot, target_block, data);
            let ghost previous = writes@;
            writes.push(pair.0);
            writes.push(pair.1);
            proof {
                let shorter = pending.take(i as int);
                let longer = pending.take(i + 1);
                let expected = data_writes(
                    before.start,
                    before.blocks,
                    before.superblock.tail,
                    longer,
                );
                assert(block_writes_view(previous).len() == data_writes(
                    before.start,
                    before.blocks,
                    before.superblock.tail,
                    shorter,
                ).len());
                assert(previous.len() == 2 * i);
                assert(writes@ == previous.push(pair.0).push(pair.1));
                assert(longer[i as int] == pending[i as int]);
                assert(pending[i as int] == (target_block, data@));
                assert(header_slot == advance(first_slot as int, 2 * i, blocks as int));
                assert(payload_slot == advance(first_slot as int, 2 * i + 1, blocks as int));
                assert(block_writes_view(writes@).len() == expected.len());
                assert forall|k: int| 0 <= k < 2 * (i + 1) implies block_writes_view(writes@)[k]
                    == expected[k] by {
                    if k < 2 * i {
                        assert(writes@[k] == previous[k]);
                        assert(block_writes_view(previous)[k] == data_writes(
                            before.start,
                            before.blocks,
                            before.superblock.tail,
                            shorter,
                        )[k]);
                        assert(k / 2 < i);
                        assert(shorter[k / 2] == longer[k / 2]);
                    } else if k == 2 * i {
                        assert(k / 2 == i && k % 2 == 0);
                        assert(writes@[k] == pair.0);
                    } else {
                        assert(k == 2 * i + 1);
                        assert(k / 2 == i && k % 2 == 1);
                        assert(writes@[k] == pair.1);
                    }
                }
                assert(block_writes_view(writes@) =~= expected);
            }
            i = i + 1;
        }
        proof {
            assert(pending.take(count as int) =~= pending);
        }
        let commit_slot = match self.allocate_journal_block() {
            Ok(slot) => slot,
            Err(e) => {
                return Err(e);
            },
        };
        writes.push(self.write_commit_record(commit_slot, txn.id, count as u32));
        writes.push(self.sync_superblock_to_disk());
        self.prepared = Some(PreparedCommit { txn_id: txn.id, tail_before: first_slot });
        proof {
            let planned = commit_writes(before, old(txn)@);
            assert(block_writes_view(writes@) =~= planned);
            lemma_commit_slots(before, old(txn)@);
            assert forall|k: int| 0 <= k < writes@.len() implies (#[trigger] writes@[k]).block
                == planned[k].0 by {
                assert(block_writes_view(writes@)[k] == writes@[k]@);
            }
            assert forall|a: int, b: int| 0 <= a < b < writes@.len() implies (
            #[trigger] writes@[a]).block != (#[trigger] writes@[b]).block by {
                assert(writes@[a].block == planned[a].0);
                assert(writes@[b].block == planned[b].0);
                if b < writes@.len() - 1 {
                    assert(advance(before.superblock.tail as int, a, before.blocks as int)
                        != advance(before.superblock.tail as int, b, before.blocks as int));
                }
            }
        }
        Ok(writes)
    }

    /// Marks `txn` committed and unregisters it, once the writes of its
    /// commit are durable. Refused with `InvalidState`, changing nothing,
    /// unless `commit` prepared this very transaction.
    pub fn finish_commit(&mut self, txn: &mut Transaction) -> (r: Result<(), FsError>)
        requires
            old(self).wf(),
        ensures
            final(self).wf(),
            if old(txn)@.state == TxnState::Active && is_prepared(old(self)@, old(txn)@.id) {
                &&& r is Ok
                &&& final(txn)@ == (TransactionView { state: TxnState::Committed, ..old(txn)@ })
                &&& final(self)@ == (JournalState {
                    active: old(self)@.active.remove(old(txn)@.id),
                    prepared: None,
                    ..old(self)@
                })
            } else {
                &&& r == Err::<(), FsError>(FsError::InvalidState)
                &&& final(txn)@ == old(txn)@
                &&& final(self)@ == old(self)@
            },
    {
        match txn.state {
            TxnState::Active => {},
            _ => {
                return Err(FsError::InvalidState);
            },
        }
        match self.prepared {
            Some(p) => {
                if p.txn_id != txn.id {
                    return Err(FsError::InvalidState);
                }
            },
            None => {
                return Err(FsError::InvalidState);
            },
        }
        txn.state = TxnState::Committed;
        self.active_txns.remove(&txn.id);
        self.prepared = None;
        Ok(())
    }

    /// Gives up the prepared commit of `txn`, for a caller whose writes
    /// failed: the reserved slots are handed back, so that the superblock is
    /// again the one before `commit`, and the commit is forgotten. The
    /// transaction stays as it is, active with its writes, and can be
    /// committed again or aborted. Refused with `InvalidState`, changing
    /// nothing, unless `commit` prepared this very transaction.
    pub fn abandon_commit(&mut self, txn: &Transaction) -> (r: Result<(), FsError>)
        requires
            old(self).wf(),
        ensures
            final(self).wf(),
            if is_prepared(old(self)@, txn@.id) {
                r is Ok && final(self)@ == state_after_abandon(old(self)@)
            } else {
                r == Err::<(), FsError>(FsError::InvalidState) && final(self)@ == old(self)@
            },
    {
        match self.prepared {
            Some(p) => {
                if p.txn_id != txn.id {
                    return Err(FsError::InvalidState);
                }
                self.superblock.tail = p.tail_before;
                self.prepared = None;
                Ok(())
            },
            None => Err(FsError::InvalidState),
        }
    }

    /// Gives up `txn`: its pending writes are dropped with it, it is marked
    /// aborted and unregistered. Nothing was journaled, so nothing is
    /// written. Refused with `InvalidState`, changing nothing, for a
    /// transaction that is not active or whose commit is prepared.
    pub fn abort(&mut self, txn: &mut Transaction) -> (r: Result<(), FsError>)
        requires
            old(self).wf(),
        ensures
            final(self).wf(),
            if old(txn)@.state == TxnState::Active && !is_prepared(old(self)@, old(txn)@.id) {
                &&& r is Ok
                &&& final(txn)@ == (TransactionView { state: TxnState::Aborted, ..old(txn)@ })
                &&& final(self)@ == (JournalState {
                    active: old(self)@.active.remove(old(txn)@.id),
                    ..old(self)@
                })
            } else {
                &&& r == Err::<(), FsError>(FsError::InvalidState)
                &&& final(txn)@ == old(txn)@
                &&& final(self)@ == old(self)@
            },
    {
        match txn.state {
            TxnState::Active => {},
            _ => {
                return Err(FsError::InvalidState);
            },
        }
        match self.prepared {
            Some(p) => {
                if p.txn_id == txn.id {
                    return Err(FsError::InvalidState);
                }
            },
            None => {},
        }
        txn.state = TxnState::Aborted;
        self.active_txns.remove(&txn.id);
        Ok(())
    }

    /// Begins a checkpoint: a walk over the slots between head and tail as
    /// they stand now. Each write the walk returns applies a journaled
    /// payload to its target. When the walk is over and its writes are
    /// synced, `finish_checkpoint` moves the head.
    pub fn checkpoint(&self) -> (walk: CheckpointWalk)
        requires
            self.wf(),
        ensures
            walk.wf(),
            walk@ == checkpoint_start(
                self@.blocks,
                self@.superblock.head,
                self@.superblock.tail,
            ),
    {
        CheckpointWalk::begin(self.journal_blocks, self.superblock.head, self.superblock.tail)
    }

    /// Ends a checkpoint whose walk is over: the head moves to the tail the
    /// walk began with, the sequence counts up, and the superblock is
    /// returned for writing to slot 0. Where the walk found the region empty
    /// nothing changes and there is nothing to write.
    ///
    /// While a commit is prepared the checkpoint is refused with
    /// `InvalidState`. A walk that is not over, that was begun on another
    /// journal or before the head last moved, is refused with
    /// `InvalidArgument`.
    pub fn finish_checkpoint(&mut self, walk: &CheckpointWalk) -> (r: Result<
        Option<BlockWrite>,
        FsError,
    >)
        requires
            old(self).wf(),
            walk@.start != walk@.tail ==> old(self)@.superblock.sequence < u64::MAX,
        ensures
            final(self).wf(),
            match finish_checkpoint_outcome(old(self)@, walk@) {
                Ok(()) => {
                    &&& r is Ok
                    &&& final(self)@ == (JournalState {
                        superblock: superblock_after_checkpoint(old(self)@.superblock, walk@),
                        ..old(self)@
                    })
                    &&& match r->Ok_0 {
                        Some(w) => walk@.start != walk@.tail && w@ == (
                            old(self)@.start as u64,
                            final(self)@.superblock.image(),
                        ),
                        None => walk@.start == walk@.tail,
                    }
                },
                Err(e) => r is Err && r->Err_0 == e && final(self)@ == old(self)@,
            },
    {
        if self.prepared.is_some() {
            return Err(FsError::InvalidState);
        }
        if walk.next_slot().is_some() || walk.journal_blocks() != self.journal_blocks
            || walk.start() != self.superblock.head || walk.tail() == 0 || walk.tail()
            >= self.journal_blocks {
            return Err(FsError::InvalidArgument);
        }
        if self.used_between(self.superblock.head, walk.tail()) > self.used_between(
            self.superblock.head,
            self.superblock.tail,
        ) {
            return Err(FsError::InvalidArgument);
        }
        if walk.start() == walk.tail() {
            return Ok(None);
        }
        self.superblock.head = walk.tail();
        self.superblock.sequence = self.superblock.sequence + 1;
        Ok(Some(self.sync_superblock_to_disk()))
    }

    /// Begins recovery: a walk over the slots between head and tail. Each
    /// batch of writes the walk returns replays one committed transaction.
    /// The head stays where it is; a later checkpoint moves it.
    pub fn recover(&self) -> (walk: RecoveryWalk)
        requires
            self.wf(),
        ensures
            walk.wf(),
            walk@ == recovery_start(self@.blocks, self@.superblock.head, self@.superblock.tail),
    {
        RecoveryWalk::begin(self.journal_blocks, self.superblock.head, self.superblock.tail)
    }
}

} // verus!
