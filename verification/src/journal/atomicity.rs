//! A commit is atomic under a crash: whatever prefix of its writes reached
//! the device, recovery replays either every write of the transaction or
//! none of them.

use crate::journal::laws::{
    apply_writes, lemma_apply_writes_distinct, lemma_apply_writes_elsewhere, region_of,
    replay_of, replayed_writes,
};
use crate::journal::record::{
    commit_record_for, data_header_for, lemma_commit_record_decodes, lemma_data_header_decodes,
};
use crate::journal::replay::{
    entry_at, recover_run, recover_step, recovery_done, recovery_start, RecoveryState,
};
use crate::journal::ring::{advance, is_record_slot, used_slots};
use crate::journal::types::{JournalSuperblock, TransactionView};
use crate::journal::{
    commit_outcome, commit_writes, journal_wf, lemma_commit_slots, slot_block, slots_needed,
    superblock_after_commit, upgraded, JournalState,
};
use vstd::prelude::*;

verus! {

/// Whether the records between `head` and `tail` form whole transactions:
/// recovery walks them to the end without meeting unknown content, and no
/// write is left pending when it gets there.
pub open spec fn log_is_clean(region: Seq<Seq<u8>>, blocks: u32, head: u32, tail: u32) -> bool {
    let end = recover_run(region, recovery_start(blocks, head, tail)).0;
    !end.stopped && end.pending.len() == 0
}

/// Whether `region` holds, from slot `tail` on and round the record slots,
/// the records of `txn`: header and payload of each write in turn, and the
/// commit record after them.
pub open spec fn region_holds_records(
    region: Seq<Seq<u8>>,
    tail: int,
    txn: TransactionView,
) -> bool {
    let n = region.len() as int;
    &&& forall|i: int|
        0 <= i < txn.writes.len() ==> region[#[trigger] advance(tail, 2 * i, n)]
            == data_header_for(txn.writes[i].0, txn.writes[i].1).image()
    &&& forall|i: int|
        0 <= i < txn.writes.len() ==> region[#[trigger] advance(tail, 2 * i + 1, n)]
            == txn.writes[i].1
    &&& region[advance(tail, 2 * (txn.writes.len() as int), n)] == commit_record_for(
        txn.id,
        txn.writes.len() as u32,
    ).image()
}

/// Whether a recovery state stands on the ring: the cursor is a record slot
/// and the slots left to walk are fewer than the record slots.
pub open spec fn on_the_ring(s: RecoveryState) -> bool {
    &&& s.blocks >= 2
    &&& is_record_slot(s.current as int, s.blocks as int)
    &&& s.remaining + 2 <= s.blocks
}

/// An empty log is clean, whatever the region holds: a journal just laid out
/// or just checkpointed has nothing to walk.
pub proof fn lemma_empty_log_is_clean(region: Seq<Seq<u8>>, blocks: u32, head: u32)
    requires
        head < blocks,
    ensures
        log_is_clean(region, blocks, head, head),
{
}

/// A walk reads only the slots it has left: two regions that agree on them
/// are walked alike.
pub proof fn lemma_run_reads_live_slots(r1: Seq<Seq<u8>>, r2: Seq<Seq<u8>>, s: RecoveryState)
    requires
        on_the_ring(s),
        r1.len() == s.blocks,
        r2.len() == s.blocks,
        forall|j: int|
            0 <= j < s.remaining ==> r1[#[trigger] advance(s.current as int, j, s.blocks as int)]
                == r2[advance(s.current as int, j, s.blocks as int)],
    ensures
        recover_run(r1, s) == recover_run(r2, s),
    decreases s.remaining,
{
    if !recovery_done(s) {
        let n = s.blocks as int;
        let cur = s.current as int;
        let e1 = entry_at(r1, cur);
        let e2 = entry_at(r2, cur);
        assert(advance(cur, 0, n) == cur);
        assert(r1[cur] == r2[cur]);
        if s.remaining >= 2 {
            assert(r1[advance(cur, 1, n)] == r2[advance(cur, 1, n)]);
            assert(e1 == e2);
        }
        let (next1, now1) = recover_step(s, e1);
        let (next2, now2) = recover_step(s, e2);
        assert(next1 == next2 && now1 == now2);
        if !recovery_done(next1) {
            let by = s.remaining - next1.remaining;
            assert(next1.current == advance(cur, by, n));
            assert forall|j: int| 0 <= j < next1.remaining implies r1[#[trigger] advance(
                next1.current as int,
                j,
                n,
            )] == r2[advance(next1.current as int, j, n)] by {
                assert(advance(advance(cur, by, n), j, n) == advance(cur, by + j, n));
            }
            lemma_run_reads_live_slots(r1, r2, next1);
        } else {
            assert(recover_run(r1, next1) == (next1, Seq::<(u64, Seq<u8>)>::empty()));
            assert(recover_run(r2, next1) == (next1, Seq::<(u64, Seq<u8>)>::empty()));
        }
    }
}

/// A clean walk can be carried on: walking `extra` slots more is walking the
/// first part to its end and then the rest from there.
pub proof fn lemma_run_extends(region: Seq<Seq<u8>>, s: RecoveryState, extra: u32)
    requires
        s.remaining + extra <= u32::MAX,
        !recover_run(region, s).0.stopped,
        recover_run(region, s).0.pending.len() == 0,
    ensures
        ({
            let (end, first) = recover_run(region, s);
            let (end2, rest) = recover_run(region, RecoveryState { remaining: extra, ..end });
            recover_run(region, RecoveryState { remaining: (s.remaining + extra) as u32, ..s })
                == (end2, first + rest)
        }),
    decreases s.remaining,
{
    let (end, first) = recover_run(region, s);
    let (end2, rest) = recover_run(region, RecoveryState { remaining: extra, ..end });
    let longer = RecoveryState { remaining: (s.remaining + extra) as u32, ..s };
    if recovery_done(s) {
        assert(end == s);
        assert(first + rest =~= rest);
    } else {
        let entry = entry_at(region, s.current as int);
        let (next, now) = recover_step(s, entry);
        let (next_longer, now_longer) = recover_step(longer, entry);
        let (end_next, later) = recover_run(region, next);
        assert(end_next == end);
        assert(first == now + later);
        assert(!next.stopped) by {
            if next.stopped {
                assert(recover_run(region, next).0 == next);
            }
        }
        assert(now_longer == now);
        assert(next_longer == (RecoveryState {
            remaining: (next.remaining + extra) as u32,
            ..next
        }));
        lemma_run_extends(region, next, extra);
        assert(now + (later + rest) =~= (now + later) + rest);
    }
}

/// A walk that is not cut short ends where its slots end.
pub proof fn lemma_run_ends_at_tail(region: Seq<Seq<u8>>, s: RecoveryState)
    requires
        on_the_ring(s),
        !s.stopped,
    ensures
        ({
            let end = recover_run(region, s).0;
            !end.stopped ==> end.current == advance(
                s.current as int,
                s.remaining as int,
                s.blocks as int,
            ) && end.remaining == 0 && end.blocks == s.blocks
        }),
    decreases s.remaining,
{
    if !recovery_done(s) {
        let n = s.blocks as int;
        let cur = s.current as int;
        let next = recover_step(s, entry_at(region, cur)).0;
        if !next.stopped {
            let by = s.remaining - next.remaining;
            assert(next.current == advance(cur, by, n));
            assert(advance(advance(cur, by, n), next.remaining as int, n) == advance(
                cur,
                s.remaining as int,
                n,
            ));
            lemma_run_ends_at_tail(region, next);
        }
    }
}

/// Walking the records of a transaction replays it: from the `i`-th write
/// on, with the writes before it pending, the walk ends past the commit
/// record with the whole transaction replayed and counted once.
pub proof fn lemma_records_replay(
    region: Seq<Seq<u8>>,
    blocks: u32,
    tail: u32,
    txn: TransactionView,
    i: nat,
    recovered: nat,
)
    requires
        blocks >= 2,
        region.len() == blocks,
        is_record_slot(tail as int, blocks as int),
        txn.writes.len() > 0,
        i <= txn.writes.len(),
        slots_needed(txn.writes.len()) + 2 <= blocks,
        region_holds_records(region, tail as int, txn),
    ensures
        recover_run(
            region,
            RecoveryState {
                blocks,
                current: advance(tail as int, 2 * (i as int), blocks as int) as u32,
                remaining: (2 * (txn.writes.len() - i) + 1) as u32,
                stopped: false,
                pending: replayed_writes(txn.writes.take(i as int)),
                recovered,
            },
        ) == (
            RecoveryState {
                blocks,
                current: advance(
                    tail as int,
                    slots_needed(txn.writes.len()),
                    blocks as int,
                ) as u32,
                remaining: 0,
                stopped: false,
                pending: Seq::empty(),
                recovered: recovered + 1,
            },
            replayed_writes(txn.writes),
        ),
    decreases txn.writes.len() - i,
{
    let count = txn.writes.len();
    let n = blocks as int;
    let at = i as int;
    let cur = advance(tail as int, 2 * at, n);
    let s = RecoveryState {
        blocks,
        current: cur as u32,
        remaining: (2 * (count - i) + 1) as u32,
        stopped: false,
        pending: replayed_writes(txn.writes.take(i as int)),
        recovered,
    };
    let payload = region[advance(cur, 1, n)];
    assert(advance(cur, 1, n) == advance(tail as int, 2 * at + 1, n));
    assert(advance(cur, 2, n) == advance(tail as int, 2 * at + 2, n));
    if i < count {
        let target = txn.writes[i as int].0;
        let data = txn.writes[i as int].1;
        assert(region[advance(tail as int, 2 * at, n)] == data_header_for(target, data).image());
        assert(region[advance(tail as int, 2 * at + 1, n)] == data);
        lemma_data_header_decodes(target, data, payload);
        let (next, now) = recover_step(s, entry_at(region, cur));
        assert(next.pending =~= replayed_writes(txn.writes.take(i as int + 1))) by {
            assert(txn.writes.take(i as int + 1)[i as int] == txn.writes[i as int]);
            assert forall|j: int| 0 <= j < i implies txn.writes.take(i as int)[j]
                == txn.writes.take(i as int + 1)[j] by {}
        }
        assert(next.current == advance(tail as int, 2 * (at + 1), n));
        lemma_records_replay(region, blocks, tail, txn, i + 1, recovered);
        assert(now + replayed_writes(txn.writes) =~= replayed_writes(txn.writes));
    } else {
        assert(region[advance(tail as int, 2 * (count as int), n)] == commit_record_for(
            txn.id,
            count as u32,
        ).image());
        lemma_commit_record_decodes(txn.id, count as u32, payload);
        assert(txn.writes.take(count as int) =~= txn.writes);
        let (next, now) = recover_step(s, entry_at(region, cur));
        assert(now == replayed_writes(txn.writes));
        assert(recover_run(region, next) == (next, Seq::<(u64, Seq<u8>)>::empty()));
        assert(now + Seq::<(u64, Seq<u8>)>::empty() =~= now);
    }
}

/// What the writes of a commit hold: the `j`-th record of the transaction
/// at the `j`-th of its slots, and the superblock last.
pub proof fn lemma_commit_write_data(s: JournalState, txn: TransactionView)
    requires
        journal_wf(s),
        txn.writes.len() > 0,
    ensures
        ({
            let writes = commit_writes(s, txn);
            let count = txn.writes.len() as int;
            &&& writes.len() == 2 * count + 2
            &&& forall|i: int|
                0 <= i < count ==> (#[trigger] writes[2 * i]).1 == data_header_for(
                    txn.writes[i].0,
                    txn.writes[i].1,
                ).image()
            &&& forall|i: int| 0 <= i < count ==> (#[trigger] writes[2 * i + 1]).1 == txn.writes[i].1
            &&& writes[2 * count].1 == commit_record_for(txn.id, count as u32).image()
            &&& writes[2 * count + 1] == (
                s.start as u64,
                superblock_after_commit(s, txn.writes.len()).image(),
            )
        }),
{
    let writes = commit_writes(s, txn);
    let count = txn.writes.len() as int;
    let data = crate::journal::data_writes(s.start, s.blocks, s.superblock.tail, txn.writes);
    assert(data.len() == 2 * count);
    assert forall|i: int| 0 <= i < count implies (#[trigger] writes[2 * i]).1 == data_header_for(
        txn.writes[i].0,
        txn.writes[i].1,
    ).image() by {
        assert(writes[2 * i] == data[2 * i]);
        assert((2 * i) % 2 == 0 && (2 * i) / 2 == i);
    }
    assert forall|i: int| 0 <= i < count implies (#[trigger] writes[2 * i + 1]).1
        == txn.writes[i].1 by {
        assert(writes[2 * i + 1] == data[2 * i + 1]);
        assert((2 * i + 1) % 2 == 1 && (2 * i + 1) / 2 == i);
    }
}

/// What the device holds after the first `k` writes of a commit: the records
/// between head and tail are as they were; as long as the last write is
/// missing, so is the superblock; and once all writes are there, slot 0
/// holds the superblock with the new tail and the slots from the old tail on
/// hold the records of the transaction.
#[verifier::rlimit(80)]
pub proof fn lemma_device_after_crash(
    s: JournalState,
    txn: TransactionView,
    disk: Map<u64, Seq<u8>>,
    k: int,
)
    requires
        journal_wf(s),
        commit_outcome(s, txn) is Ok,
        txn.writes.len() > 0,
        0 <= k <= commit_writes(s, txn).len(),
    ensures
        ({
            let crashed = apply_writes(disk, commit_writes(s, txn).take(k));
            let region = region_of(disk, s.start, s.blocks);
            let region_after = region_of(crashed, s.start, s.blocks);
            let n = s.blocks as int;
            &&& forall|j: int|
                0 <= j < used_slots(s.superblock.head as int, s.superblock.tail as int, n)
                    ==> region_after[#[trigger] advance(s.superblock.head as int, j, n)]
                    == region[advance(s.superblock.head as int, j, n)]
            &&& k < commit_writes(s, txn).len() ==> crashed[s.start as u64] == disk[s.start as u64]
            &&& k == commit_writes(s, txn).len() ==> {
                &&& crashed[s.start as u64] == superblock_after_commit(
                    s,
                    txn.writes.len(),
                ).image()
                &&& region_holds_records(region_after, s.superblock.tail as int, txn)
            }
        }),
{
    let writes = commit_writes(s, txn);
    let done = writes.take(k);
    let crashed = apply_writes(disk, done);
    let count = txn.writes.len() as int;
    let n = s.blocks as int;
    let head = s.superblock.head as int;
    let tail = s.superblock.tail as int;
    let used = used_slots(head, tail, n);
    let region = region_of(disk, s.start, s.blocks);
    let region_after = region_of(crashed, s.start, s.blocks);
    lemma_commit_slots(s, txn);
    lemma_commit_write_data(s, txn);
    assert forall|j: int| 0 <= j < used implies region_after[#[trigger] advance(head, j, n)]
        == region[advance(head, j, n)] by {
        let slot = advance(head, j, n);
        assert forall|i: int| 0 <= i < done.len() implies (#[trigger] done[i]).0 != slot_block(
            s.start,
            slot,
        ) by {
            assert(done[i] == writes[i]);
            if i < 2 * count + 1 {
                assert(writes[i].0 == slot_block(s.start, advance(tail, i, n)));
                assert(advance(tail, i, n) == advance(head, used + i, n));
                assert(advance(head, j, n) != advance(head, used + i, n));
            }
        }
        lemma_apply_writes_elsewhere(disk, done, slot_block(s.start, slot));
    }
    if k < writes.len() {
        assert forall|i: int| 0 <= i < done.len() implies (#[trigger] done[i]).0
            != s.start as u64 by {
            assert(done[i] == writes[i]);
        }
        lemma_apply_writes_elsewhere(disk, done, s.start as u64);
    } else {
        assert(done =~= writes);
        assert forall|a: int, b: int| 0 <= a < b < writes.len() implies (#[trigger] writes[a]).0
            != (#[trigger] writes[b]).0 by {
            assert(writes[a].0 == slot_block(s.start, advance(tail, a, n)));
            if b < 2 * count + 1 {
                assert(writes[b].0 == slot_block(s.start, advance(tail, b, n)));
                assert(advance(tail, a, n) != advance(tail, b, n));
            }
        }
        lemma_apply_writes_distinct(disk, writes, 2 * count + 1);
        lemma_apply_writes_distinct(disk, writes, 2 * count);
        assert(writes[2 * count].0 == slot_block(s.start, advance(tail, 2 * count, n)));
        assert(region_after[advance(tail, 2 * count, n)] == writes[2 * count].1);
        assert forall|i: int| 0 <= i < txn.writes.len() implies region_after[#[trigger] advance(
            tail,
            2 * i,
            n,
        )] == data_header_for(txn.writes[i].0, txn.writes[i].1).image() by {
            lemma_apply_writes_distinct(disk, writes, 2 * i);
            assert(writes[2 * i].0 == slot_block(s.start, advance(tail, 2 * i, n)));
        }
        assert forall|i: int| 0 <= i < txn.writes.len() implies region_after[#[trigger] advance(
            tail,
            2 * i + 1,
            n,
        )] == txn.writes[i].1 by {
            lemma_apply_writes_distinct(disk, writes, 2 * i + 1);
            assert(writes[2 * i + 1].0 == slot_block(s.start, advance(tail, 2 * i + 1, n)));
        }
    }
}

/// Recovery over a region that holds a clean log up to `tail` and, from
/// there on, the records of a transaction: walked up to the new tail, it
/// replays what the old log replays and then the transaction, and counts one
/// more.
#[verifier::rlimit(50)]
pub proof fn lemma_replay_with_new_records(
    region: Seq<Seq<u8>>,
    blocks: u32,
    head: u32,
    tail: u32,
    new_tail: u32,
    txn: TransactionView,
)
    requires
        blocks >= 2,
        region.len() == blocks,
        is_record_slot(head as int, blocks as int),
        is_record_slot(tail as int, blocks as int),
        txn.writes.len() > 0,
        used_slots(head as int, tail as int, blocks as int) + slots_needed(txn.writes.len()) + 2
            <= blocks,
        new_tail == advance(tail as int, slots_needed(txn.writes.len()), blocks as int),
        log_is_clean(region, blocks, head, tail),
        region_holds_records(region, tail as int, txn),
    ensures
        ({
            let old_run = recover_run(region, recovery_start(blocks, head, tail));
            let new_run = recover_run(region, recovery_start(blocks, head, new_tail));
            &&& new_run.1 == old_run.1 + replayed_writes(txn.writes)
            &&& new_run.0.recovered == old_run.0.recovered + 1
            &&& log_is_clean(region, blocks, head, new_tail)
        }),
{
    let count = txn.writes.len() as int;
    let n = blocks as int;
    let begin = recovery_start(blocks, head, tail);
    let longer = recovery_start(blocks, head, new_tail);
    assert(longer == (RecoveryState {
        remaining: (begin.remaining + (2 * count + 1)) as u32,
        ..begin
    }));
    let (end, first) = recover_run(region, begin);
    lemma_run_extends(region, begin, (2 * count + 1) as u32);
    lemma_run_ends_at_tail(region, begin);
    assert(end.current == tail);
    assert(end.pending =~= replayed_writes(txn.writes.take(0)));
    let resumed = RecoveryState { remaining: (2 * count + 1) as u32, ..end };
    assert(resumed == (RecoveryState {
        blocks,
        current: advance(tail as int, 2 * (0nat as int), n) as u32,
        remaining: (2 * (txn.writes.len() - 0) + 1) as u32,
        stopped: false,
        pending: replayed_writes(txn.writes.take(0)),
        recovered: end.recovered,
    }));
    lemma_records_replay(region, blocks, tail, txn, 0, end.recovered);
}

/// A commit is atomic under a crash.
///
/// Take a journal whose device holds its superblock and whose live records
/// form whole transactions, and a transaction with at least one write whose
/// commit succeeds. Let the device crash after any `k` of the commit's
/// writes, in the order the commit gives them. Then recovery on what is left
/// replays exactly what it would have replayed before the commit, so none of
/// the transaction's writes, as long as the last write, the superblock, is
/// missing; and once all writes are there it replays that and then every
/// write of the transaction, in order, and counts one transaction more.
///
/// Once all writes are there the device again holds the journal's superblock
/// and a log of whole transactions, so the same holds of the next commit.
/// This holds wherever in the region the tail stands: the records go round
/// the record slots and never to slot 0.
#[verifier::rlimit(50)]
pub proof fn lemma_commit_is_atomic(
    s: JournalState,
    txn: TransactionView,
    disk: Map<u64, Seq<u8>>,
    k: int,
)
    requires
        journal_wf(s),
        commit_outcome(s, txn) is Ok,
        txn.writes.len() > 0,
        JournalSuperblock::parse(disk[s.start as u64]) == s.superblock,
        log_is_clean(
            region_of(disk, s.start, s.blocks),
            s.blocks,
            s.superblock.head,
            s.superblock.tail,
        ),
        0 <= k <= commit_writes(s, txn).len(),
    ensures
        ({
            let crashed = apply_writes(disk, commit_writes(s, txn).take(k));
            let before = replay_of(disk, s.start, s.blocks);
            let after = replay_of(crashed, s.start, s.blocks);
            if k < commit_writes(s, txn).len() {
                after == before
            } else {
                &&& after.1 == before.1 + replayed_writes(txn.writes)
                &&& after.0.recovered == before.0.recovered + 1
                &&& JournalSuperblock::parse(crashed[s.start as u64]) == superblock_after_commit(
                    s,
                    txn.writes.len(),
                )
                &&& log_is_clean(
                    region_of(crashed, s.start, s.blocks),
                    s.blocks,
                    s.superblock.head,
                    superblock_after_commit(s, txn.writes.len()).tail,
                )
            }
        }),
{
    let crashed = apply_writes(disk, commit_writes(s, txn).take(k));
    let head = s.superblock.head;
    let tail = s.superblock.tail;
    let region = region_of(disk, s.start, s.blocks);
    let region_after = region_of(crashed, s.start, s.blocks);
    let begin = recovery_start(s.blocks, head, tail);
    lemma_device_after_crash(s, txn, disk, k);
    lemma_run_reads_live_slots(region_after, region, begin);
    assert(upgraded(s.superblock) == s.superblock);
    if k == commit_writes(s, txn).len() {
        let new_sb = superblock_after_commit(s, txn.writes.len());
        new_sb.lemma_round_trip();
        assert(upgraded(new_sb) == new_sb);
        lemma_replay_with_new_records(region_after, s.blocks, head, tail, new_sb.tail, txn);
    }
}

} // verus!
