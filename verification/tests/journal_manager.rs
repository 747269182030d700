use modernfs_core::journal::record::{calculate_checksum, holds_data_header, read_journal_block};
use modernfs_core::journal::types::{JOURNAL_COMMIT_MAGIC, JOURNAL_DATA_MAGIC, JOURNAL_MAGIC};
use modernfs_core::journal::{
    JournalCommitRecord, JournalDataHeader, JournalManager, JournalSuperblock, Transaction,
    TxnState,
};
use modernfs_core::{BlockWrite, FsError};

const START: u32 = 1;

fn superblock(total_blocks: u32, sequence: u64, head: u32, tail: u32) -> JournalSuperblock {
    JournalSuperblock {
        magic: JOURNAL_MAGIC,
        version: 1,
        block_size: 4096,
        total_blocks,
        sequence,
        head,
        tail,
    }
}

/// A device of `blocks` zeroed blocks with a fresh journal of `journal_blocks`
/// slots at block `START`.
fn format(blocks: usize, journal_blocks: u32) -> Vec<Vec<u8>> {
    let mut device = vec![vec![0u8; 4096]; blocks];
    device[START as usize] = superblock(journal_blocks, 0, 1, 1).to_block();
    device
}

fn open(device: &Vec<Vec<u8>>, journal_blocks: u32) -> JournalManager {
    JournalManager::new(START, journal_blocks, &device[START as usize]).unwrap()
}

fn apply(device: &mut Vec<Vec<u8>>, writes: &[BlockWrite]) {
    for w in writes {
        assert_eq!(w.data.len(), 4096);
        device[w.block as usize] = w.data.clone();
    }
}

/// Runs recovery as a caller would: reads what the walk asks for and carries
/// out what it returns. Gives the count and every write made.
fn run_recovery(jm: &JournalManager, device: &mut Vec<Vec<u8>>) -> (usize, Vec<BlockWrite>) {
    let mut walk = jm.recover();
    let mut made = Vec::new();
    while let Some(slot) = walk.next_slot() {
        let header = device[jm.slot_block(slot) as usize].clone();
        let payload = if holds_data_header(&header) {
            device[jm.slot_block(walk.payload_slot()) as usize].clone()
        } else {
            Vec::new()
        };
        let writes = walk.step(read_journal_block(&header, payload));
        apply(device, &writes);
        made.extend(writes);
    }
    (walk.recovered(), made)
}

/// Runs a checkpoint as a caller would. Gives the number of payloads applied.
fn run_checkpoint(jm: &mut JournalManager, device: &mut Vec<Vec<u8>>) -> u32 {
    let mut walk = jm.checkpoint();
    while let Some(slot) = walk.next_slot() {
        let header = device[jm.slot_block(slot) as usize].clone();
        let payload = if holds_data_header(&header) {
            device[jm.slot_block(walk.payload_slot()) as usize].clone()
        } else {
            Vec::new()
        };
        if let Some(w) = walk.step(read_journal_block(&header, payload)) {
            apply(device, &[w]);
        }
    }
    if let Some(w) = jm.finish_checkpoint(&walk).unwrap() {
        apply(device, &[w]);
    }
    walk.blocks_applied()
}

fn two_block_commit(jm: &mut JournalManager) -> (Transaction, Vec<BlockWrite>) {
    let mut txn = jm.begin_transaction().unwrap();
    txn.write_block(100, vec![0xAA; 4096]).unwrap();
    txn.write_block(200, vec![0xBB; 4096]).unwrap();
    let writes = jm.commit(&mut txn).unwrap();
    (txn, writes)
}

#[test]
fn open_checks_size_then_format() {
    let good = superblock(64, 5, 3, 9).to_block();
    assert!(matches!(JournalManager::new(1, 1, &good), Err(FsError::InvalidArgument)));
    assert!(matches!(JournalManager::new(1, 0, &good), Err(FsError::InvalidArgument)));
    assert!(matches!(
        JournalManager::new(1, 64, &good[..4095].to_vec()),
        Err(FsError::InvalidArgument)
    ));
    assert!(matches!(JournalManager::new(1, 64, &Vec::new()), Err(FsError::InvalidArgument)));
    assert!(matches!(
        JournalManager::new(1, 64, &vec![0u8; 4096]),
        Err(FsError::InvalidFormat)
    ));
    let mut wrong = superblock(64, 0, 1, 1);
    wrong.magic = JOURNAL_DATA_MAGIC;
    assert!(matches!(JournalManager::new(1, 64, &wrong.to_block()), Err(FsError::InvalidFormat)));
    assert!(matches!(
        JournalManager::new(1, 64, &superblock(64, 0, 64, 1).to_block()),
        Err(FsError::InvalidFormat)
    ));
    assert!(matches!(
        JournalManager::new(1, 64, &superblock(64, 0, 1, 64).to_block()),
        Err(FsError::InvalidFormat)
    ));
    let jm = JournalManager::new(1, 64, &good).unwrap();
    assert_eq!((jm.head(), jm.tail(), jm.sequence()), (3, 9, 5));
    let smallest = JournalManager::new(1, 2, &superblock(2, 0, 1, 1).to_block()).unwrap();
    assert_eq!((smallest.head(), smallest.tail()), (1, 1));
}

#[test]
fn open_upgrades_head_and_tail_zero() {
    let jm = JournalManager::new(1, 64, &superblock(64, 7, 0, 0).to_block()).unwrap();
    assert_eq!((jm.head(), jm.tail(), jm.sequence()), (1, 1, 7));
    assert!(jm.is_empty());
    assert!(matches!(
        JournalManager::new(1, 64, &superblock(64, 7, 0, 5).to_block()),
        Err(FsError::InvalidFormat)
    ));
    assert!(matches!(
        JournalManager::new(1, 64, &superblock(64, 7, 5, 0).to_block()),
        Err(FsError::InvalidFormat)
    ));
    let written = jm.sync_superblock_to_disk();
    assert_eq!(written.block, 1);
    assert_eq!(JournalSuperblock::from_block(&written.data), superblock(64, 7, 1, 1));
}

#[test]
fn transaction_ids_count_up_from_one() {
    let device = format(16, 8);
    let mut jm = open(&device, 8);
    let a = jm.begin_transaction().unwrap();
    let b = jm.begin_transaction().unwrap();
    let c = jm.begin_transaction().unwrap();
    assert_eq!((a.id, b.id, c.id), (1, 2, 3));
    assert_eq!(a.state, TxnState::Active);
    assert!(a.writes.is_empty());
    assert!(jm.is_active(1) && jm.is_active(2) && jm.is_active(3));
    assert!(!jm.is_active(4) && !jm.is_active(0));
}

#[test]
fn available_slots_follow_head_and_tail() {
    let n = 8u32;
    for head in 1..n {
        for tail in 1..n {
            let jm = JournalManager::new(1, n, &superblock(n, 0, head, tail).to_block()).unwrap();
            let expected = (head as i64 - tail as i64 - 1).rem_euclid(n as i64 - 1) as u32;
            assert_eq!(jm.available_slots(), expected);
            assert_eq!(jm.is_empty(), head == tail);
            assert_eq!(jm.is_empty(), jm.available_slots() == n - 2);
        }
    }
    let smallest = JournalManager::new(1, 2, &superblock(2, 0, 1, 1).to_block()).unwrap();
    assert_eq!(smallest.available_slots(), 0);
}

#[test]
fn slots_are_handed_out_from_the_tail() {
    let device = format(16, 4);
    let mut jm = open(&device, 4);
    assert_eq!(jm.available_slots(), 2);
    assert_eq!(jm.allocate_journal_block(), Ok(1));
    assert_eq!(jm.allocate_journal_block(), Ok(2));
    assert_eq!(jm.tail(), 3);
    assert_eq!(jm.available_slots(), 0);
    assert_eq!(jm.allocate_journal_block(), Err(FsError::Full));
    assert_eq!((jm.head(), jm.tail()), (1, 3));

    let mut late = JournalManager::new(1, 4, &superblock(4, 0, 2, 3).to_block()).unwrap();
    assert_eq!(late.allocate_journal_block(), Ok(3));
    assert_eq!(late.tail(), 1);
    assert_eq!(late.allocate_journal_block(), Err(FsError::Full));
}

#[test]
fn commit_journals_records_in_order() {
    let mut device = format(256, 64);
    let mut jm = open(&device, 64);
    let (mut txn, writes) = two_block_commit(&mut jm);
    assert_eq!(txn.id, 1);
    assert_eq!(writes.len(), 6);
    assert_eq!(
        writes.iter().map(|w| w.block).collect::<Vec<u64>>(),
        vec![2, 3, 4, 5, 6, 1]
    );
    assert_eq!(
        JournalDataHeader::from_block(&writes[0].data),
        JournalDataHeader {
            magic: JOURNAL_DATA_MAGIC,
            target_block: 100,
            checksum: calculate_checksum(&vec![0xAA; 4096]),
        }
    );
    assert_eq!(writes[1].data, vec![0xAA; 4096]);
    assert_eq!(JournalDataHeader::from_block(&writes[2].data).magic, JOURNAL_DATA_MAGIC);
    assert_eq!(JournalDataHeader::from_block(&writes[2].data).target_block, 200);
    assert_eq!(writes[3].data, vec![0xBB; 4096]);
    assert_eq!(
        JournalCommitRecord::from_block(&writes[4].data),
        JournalCommitRecord { magic: JOURNAL_COMMIT_MAGIC, txn_id: 1, num_blocks: 2, checksum: 1 }
    );
    assert_eq!(JournalSuperblock::from_block(&writes[5].data), superblock(64, 0, 1, 6));
    assert!(writes.iter().all(|w| w.data.len() == 4096));
    assert_eq!((jm.head(), jm.tail()), (1, 6));
    assert_eq!(jm.available_slots(), 57);
    assert_eq!(jm.prepared_transaction(), Some(1));

    assert_eq!(txn.state, TxnState::Active);
    assert!(jm.is_active(1));
    apply(&mut device, &writes);
    assert_eq!(jm.finish_commit(&mut txn), Ok(()));
    assert_eq!(txn.state, TxnState::Committed);
    assert!(!jm.is_active(1));
    assert_eq!(jm.prepared_transaction(), None);
    assert_eq!(txn.writes.len(), 2);

    let reopened = open(&device, 64);
    assert_eq!((reopened.head(), reopened.tail()), (1, 6));
    assert_eq!(device[100], vec![0u8; 4096]);
    assert_eq!(device[200], vec![0u8; 4096]);
}

#[test]
fn commit_of_nothing_writes_nothing() {
    let device = format(16, 8);
    let mut jm = open(&device, 8);
    let mut txn = jm.begin_transaction().unwrap();
    assert_eq!(jm.commit(&mut txn), Ok(Vec::new()));
    assert_eq!(txn.state, TxnState::Committed);
    assert!(!jm.is_active(txn.id));
    assert_eq!((jm.head(), jm.tail()), (1, 1));
    assert_eq!(jm.commit(&mut txn), Err(FsError::InvalidState));
}

#[test]
fn closed_transactions_refuse_everything() {
    let device = format(16, 8);
    let mut jm = open(&device, 8);
    let mut aborted = jm.begin_transaction().unwrap();
    aborted.write_block(5, vec![1u8; 4096]).unwrap();
    assert_eq!(jm.abort(&mut aborted), Ok(()));
    assert_eq!(aborted.state, TxnState::Aborted);
    assert!(!jm.is_active(aborted.id));
    assert_eq!(jm.abort(&mut aborted), Err(FsError::InvalidState));
    assert_eq!(jm.commit(&mut aborted), Err(FsError::InvalidState));
    assert_eq!(jm.finish_commit(&mut aborted), Err(FsError::InvalidState));
    assert_eq!(aborted.write_block(5, vec![1u8; 4096]), Err(FsError::InvalidState));
    assert_eq!(aborted.state, TxnState::Aborted);
    assert_eq!((jm.head(), jm.tail()), (1, 1));

    let mut done = jm.begin_transaction().unwrap();
    done.write_block(5, vec![1u8; 4096]).unwrap();
    jm.commit(&mut done).unwrap();
    jm.finish_commit(&mut done).unwrap();
    let tail = jm.tail();
    assert_eq!(jm.commit(&mut done), Err(FsError::InvalidState));
    assert_eq!(jm.abort(&mut done), Err(FsError::InvalidState));
    assert_eq!(jm.finish_commit(&mut done), Err(FsError::InvalidState));
    assert_eq!(done.state, TxnState::Committed);
    assert_eq!(jm.tail(), tail);
}

#[test]
fn commit_fails_full_before_reserving() {
    let device = format(16, 7);
    let mut jm = open(&device, 7);
    assert_eq!(jm.available_slots(), 5);
    let mut big = jm.begin_transaction().unwrap();
    for target in 0..3 {
        big.write_block(target, vec![7u8; 4096]).unwrap();
    }
    assert_eq!(jm.commit(&mut big), Err(FsError::Full));
    assert_eq!((jm.head(), jm.tail()), (1, 1));
    assert_eq!(big.state, TxnState::Active);
    assert_eq!(big.writes.len(), 3);
    assert!(jm.is_active(big.id));

    let mut fits = jm.begin_transaction().unwrap();
    fits.write_block(1, vec![7u8; 4096]).unwrap();
    fits.write_block(2, vec![7u8; 4096]).unwrap();
    let writes = jm.commit(&mut fits).unwrap();
    assert_eq!(writes.len(), 6);
    assert_eq!((jm.head(), jm.tail()), (1, 6));
    assert_eq!(jm.available_slots(), 0);
    jm.finish_commit(&mut fits).unwrap();

    let mut one = jm.begin_transaction().unwrap();
    one.write_block(1, vec![7u8; 4096]).unwrap();
    assert_eq!(jm.commit(&mut one), Err(FsError::Full));
    one.writes.push((2, vec![7u8; 5]));
    assert_eq!(jm.commit(&mut one), Err(FsError::Full));
}

#[test]
fn commit_checks_payload_sizes() {
    let device = format(16, 8);
    let mut jm = open(&device, 8);
    let mut txn = jm.begin_transaction().unwrap();
    txn.write_block(1, vec![7u8; 4096]).unwrap();
    txn.writes.push((2, vec![7u8; 100]));
    assert_eq!(jm.commit(&mut txn), Err(FsError::InvalidArgument));
    assert_eq!((jm.head(), jm.tail()), (1, 1));
    assert_eq!(txn.state, TxnState::Active);
}

#[test]
fn commit_wraps_around_the_ring() {
    let sb = superblock(8, 0, 6, 6);
    let mut jm = JournalManager::new(10, 8, &sb.to_block()).unwrap();
    let mut txn = jm.begin_transaction().unwrap();
    txn.write_block(1, vec![1u8; 4096]).unwrap();
    let writes = jm.commit(&mut txn).unwrap();
    assert_eq!(writes.iter().map(|w| w.block).collect::<Vec<u64>>(), vec![16, 17, 11, 10]);
    assert_eq!((jm.head(), jm.tail()), (6, 2));
    assert_eq!(jm.available_slots(), 3);
}

#[test]
fn recovery_replays_a_committed_transaction() {
    let mut device = format(256, 64);
    let mut jm = open(&device, 64);
    let (mut txn, writes) = two_block_commit(&mut jm);
    apply(&mut device, &writes);
    jm.finish_commit(&mut txn).unwrap();

    let reopened = open(&device, 64);
    let (count, made) = run_recovery(&reopened, &mut device);
    assert_eq!(count, 1);
    assert_eq!(
        made,
        vec![
            BlockWrite { block: 100, data: vec![0xAA; 4096] },
            BlockWrite { block: 200, data: vec![0xBB; 4096] },
        ]
    );
    assert_eq!(device[100], vec![0xAA; 4096]);
    assert_eq!(device[200], vec![0xBB; 4096]);
    assert_eq!((reopened.head(), reopened.tail()), (1, 6));

    let (again, made_again) = run_recovery(&reopened, &mut device);
    assert_eq!(again, 1);
    assert_eq!(made_again, made);
    assert_eq!(device[100], vec![0xAA; 4096]);
    assert_eq!(device[200], vec![0xBB; 4096]);
}

#[test]
fn recovery_of_an_empty_journal_returns_zero() {
    let mut device = format(16, 8);
    let jm = open(&device, 8);
    let walk = jm.recover();
    assert_eq!(walk.next_slot(), None);
    assert_eq!(walk.recovered(), 0);
    let before = device.clone();
    assert_eq!(run_recovery(&jm, &mut device), (0, Vec::new()));
    assert_eq!(device, before);
}

#[test]
fn crash_before_the_commit_record_discards() {
    let mut device = format(256, 64);
    let mut jm = open(&device, 64);
    let (_txn, writes) = two_block_commit(&mut jm);
    apply(&mut device, &writes[..4]);

    let reopened = open(&device, 64);
    assert_eq!((reopened.head(), reopened.tail()), (1, 1));
    assert_eq!(run_recovery(&reopened, &mut device), (0, Vec::new()));
    assert_eq!(device[100], vec![0u8; 4096]);
    assert_eq!(device[200], vec![0u8; 4096]);
}

#[test]
fn crash_at_any_point_is_all_or_nothing() {
    for done in 0..=6 {
        let mut device = format(256, 64);
        let mut jm = open(&device, 64);
        let (_txn, writes) = two_block_commit(&mut jm);
        apply(&mut device, &writes[..done]);
        let reopened = open(&device, 64);
        let (count, made) = run_recovery(&reopened, &mut device);
        if done < 6 {
            assert_eq!(count, 0);
            assert!(made.is_empty());
            assert_eq!(device[100], vec![0u8; 4096]);
            assert_eq!(device[200], vec![0u8; 4096]);
        } else {
            assert_eq!(count, 1);
            assert_eq!(made.len(), 2);
            assert_eq!(device[100], vec![0xAA; 4096]);
            assert_eq!(device[200], vec![0xBB; 4096]);
        }
    }
}

#[test]
fn tail_without_commit_record_discards_pending() {
    let mut device = format(256, 64);
    let mut jm = open(&device, 64);
    let (_txn, writes) = two_block_commit(&mut jm);
    apply(&mut device, &writes[..4]);
    device[START as usize] = superblock(64, 0, 1, 5).to_block();
    let reopened = open(&device, 64);
    assert_eq!(run_recovery(&reopened, &mut device), (0, Vec::new()));
    assert_eq!(device[100], vec![0u8; 4096]);
}

#[test]
fn unknown_content_stops_recovery() {
    let mut device = format(256, 64);
    let mut jm = open(&device, 64);
    let (mut first, writes) = two_block_commit(&mut jm);
    apply(&mut device, &writes);
    jm.finish_commit(&mut first).unwrap();
    let mut second = jm.begin_transaction().unwrap();
    second.write_block(150, vec![0xCC; 4096]).unwrap();
    let more = jm.commit(&mut second).unwrap();
    apply(&mut device, &more);
    assert_eq!((jm.head(), jm.tail()), (1, 9));

    let mut intact = device.clone();
    let all = run_recovery(&open(&intact, 64), &mut intact);
    assert_eq!(all.0, 2);
    assert_eq!(all.1.iter().map(|w| w.block).collect::<Vec<u64>>(), vec![100, 200, 150]);

    device[(START + 6) as usize] = vec![0u8; 4096];
    let reopened = open(&device, 64);
    let (count, made) = run_recovery(&reopened, &mut device);
    assert_eq!(count, 1);
    assert_eq!(made.iter().map(|w| w.block).collect::<Vec<u64>>(), vec![100, 200]);
    assert_eq!(device[150], vec![0u8; 4096]);
}

#[test]
fn header_in_the_last_live_slot_ends_the_walk() {
    let mut device = format(64, 16);
    let header = JournalDataHeader { magic: JOURNAL_DATA_MAGIC, target_block: 40, checksum: 0 };
    device[(START + 1) as usize] = header.to_block();
    device[(START + 2) as usize] = vec![0x11; 4096];
    device[START as usize] = superblock(16, 0, 1, 2).to_block();
    let mut jm = open(&device, 16);
    let mut walk = jm.recover();
    assert_eq!(walk.next_slot(), Some(1));
    assert_eq!(walk.payload_slot(), 2);
    let entry = read_journal_block(&device[2], device[3].clone());
    assert!(walk.step(entry).is_empty());
    assert_eq!(walk.next_slot(), None);
    assert_eq!(walk.recovered(), 0);

    assert_eq!(run_checkpoint(&mut jm, &mut device), 0);
    assert_eq!(device[40], vec![0u8; 4096]);
    assert_eq!((jm.head(), jm.tail(), jm.sequence()), (2, 2, 1));
}

#[test]
fn checkpoint_applies_and_frees() {
    let mut device = format(256, 64);
    let mut jm = open(&device, 64);
    let (mut txn, writes) = two_block_commit(&mut jm);
    apply(&mut device, &writes);
    jm.finish_commit(&mut txn).unwrap();

    assert_eq!(run_checkpoint(&mut jm, &mut device), 2);
    assert_eq!(device[100], vec![0xAA; 4096]);
    assert_eq!(device[200], vec![0xBB; 4096]);
    assert_eq!((jm.head(), jm.tail(), jm.sequence()), (6, 6, 1));
    assert!(jm.is_empty());
    assert_eq!(jm.available_slots(), 62);
    assert_eq!(JournalSuperblock::from_block(&device[START as usize]), superblock(64, 1, 6, 6));

    let reopened = open(&device, 64);
    let mut after = device.clone();
    assert_eq!(run_recovery(&reopened, &mut after), (0, Vec::new()));
}

#[test]
fn checkpoint_of_an_empty_journal_does_nothing() {
    let mut device = format(16, 8);
    let mut jm = open(&device, 8);
    let before = device.clone();
    let walk = jm.checkpoint();
    assert_eq!(walk.next_slot(), None);
    assert_eq!(jm.finish_checkpoint(&walk), Ok(None));
    assert_eq!((jm.head(), jm.tail(), jm.sequence()), (1, 1, 0));
    assert_eq!(run_checkpoint(&mut jm, &mut device), 0);
    assert_eq!(run_checkpoint(&mut jm, &mut device), 0);
    assert_eq!((jm.head(), jm.tail(), jm.sequence()), (1, 1, 0));
    assert_eq!(device, before);
}

#[test]
fn checkpoint_twice_is_checkpoint_once() {
    let mut device = format(256, 64);
    let mut jm = open(&device, 64);
    let (mut txn, writes) = two_block_commit(&mut jm);
    apply(&mut device, &writes);
    jm.finish_commit(&mut txn).unwrap();
    run_checkpoint(&mut jm, &mut device);
    let once = device.clone();
    let state = (jm.head(), jm.tail(), jm.sequence());
    assert_eq!(run_checkpoint(&mut jm, &mut device), 0);
    assert_eq!(device, once);
    assert_eq!((jm.head(), jm.tail(), jm.sequence()), state);
}

#[test]
fn unfinished_or_foreign_walks_cannot_finish_a_checkpoint() {
    let mut device = format(256, 64);
    let mut jm = open(&device, 64);
    let (mut txn, writes) = two_block_commit(&mut jm);
    apply(&mut device, &writes);
    let walk = jm.checkpoint();
    assert_eq!(walk.next_slot(), Some(1));
    assert_eq!(jm.finish_checkpoint(&walk), Err(FsError::InvalidState));
    jm.finish_commit(&mut txn).unwrap();
    assert_eq!(jm.finish_checkpoint(&walk), Err(FsError::InvalidArgument));
    assert_eq!((jm.head(), jm.tail(), jm.sequence()), (1, 6, 0));

    let other_device = format(16, 8);
    let other = open(&other_device, 8);
    let foreign = other.checkpoint();
    assert_eq!(foreign.next_slot(), None);
    assert_eq!(jm.finish_checkpoint(&foreign), Err(FsError::InvalidArgument));
    assert_eq!((jm.head(), jm.tail(), jm.sequence()), (1, 6, 0));
}

#[test]
fn checkpoint_skips_what_is_not_data() {
    let mut device = format(64, 16);
    device[(START + 1) as usize] = vec![0x33; 4096];
    device[(START + 2) as usize] =
        JournalCommitRecord { magic: JOURNAL_COMMIT_MAGIC, txn_id: 4, num_blocks: 0, checksum: 4 }
            .to_block();
    device[(START + 3) as usize] =
        JournalDataHeader { magic: JOURNAL_DATA_MAGIC, target_block: 50, checksum: 0 }.to_block();
    device[(START + 4) as usize] = vec![0x44; 4096];
    device[START as usize] = superblock(16, 9, 1, 5).to_block();
    let mut jm = open(&device, 16);
    assert_eq!(run_checkpoint(&mut jm, &mut device), 1);
    assert_eq!(device[50], vec![0x44; 4096]);
    assert_eq!((jm.head(), jm.tail(), jm.sequence()), (5, 5, 10));

    let mut stopped = format(64, 16);
    stopped[(START + 1) as usize] = vec![0x33; 4096];
    stopped[START as usize] = superblock(16, 9, 1, 5).to_block();
    let reopened = open(&stopped, 16);
    assert_eq!(run_recovery(&reopened, &mut stopped), (0, Vec::new()));
}

#[test]
fn record_writes_name_their_slots() {
    let device = format(16, 8);
    let jm = JournalManager::new(20, 8, &device[START as usize]).unwrap();
    assert_eq!(jm.slot_block(0), 20);
    assert_eq!(jm.slot_block(7), 27);
    let (header, payload) = jm.write_journal_data(3, 4, 99, vec![0x5A; 4096]);
    assert_eq!(header.block, 23);
    assert_eq!(payload, BlockWrite { block: 24, data: vec![0x5A; 4096] });
    assert_eq!(JournalDataHeader::from_block(&header.data).target_block, 99);
    let commit = jm.write_commit_record(5, 0x2_0000_0003, 1);
    assert_eq!(commit.block, 25);
    assert_eq!(
        JournalCommitRecord::from_block(&commit.data),
        JournalCommitRecord {
            magic: JOURNAL_COMMIT_MAGIC,
            txn_id: 0x2_0000_0003,
            num_blocks: 1,
            checksum: 3,
        }
    );
    let far = JournalManager::new(u32::MAX, 8, &device[START as usize]).unwrap();
    assert_eq!(far.slot_block(7), u32::MAX as u64 + 7);
}

#[test]
fn walks_over_a_region_in_memory() {
    let mut device = format(256, 64);
    let mut jm = open(&device, 64);
    let (mut txn, writes) = two_block_commit(&mut jm);
    apply(&mut device, &writes);
    jm.finish_commit(&mut txn).unwrap();
    let region: Vec<Vec<u8>> = device[START as usize..(START + 64) as usize].to_vec();

    let mut recovery = jm.recover();
    let replayed = recovery.run_on(&region);
    assert_eq!(recovery.next_slot(), None);
    assert_eq!(recovery.recovered(), 1);
    let mut by_steps = device.clone();
    assert_eq!(run_recovery(&jm, &mut by_steps), (1, replayed.clone()));

    let mut checkpoint = jm.checkpoint();
    let applied = checkpoint.run_on(&region);
    assert_eq!(applied, replayed);
    assert_eq!(checkpoint.blocks_applied(), 2);
    assert_eq!(checkpoint.next_slot(), None);
    assert_eq!((checkpoint.start(), checkpoint.tail(), checkpoint.journal_blocks()), (1, 6, 64));
    assert!(jm.finish_checkpoint(&checkpoint).unwrap().is_some());
    assert_eq!((jm.head(), jm.tail(), jm.sequence()), (6, 6, 1));

    let mut again = jm.recover();
    assert!(again.run_on(&region).is_empty());
    assert_eq!(again.recovered(), 0);
}

#[test]
fn payload_of_the_last_slot_lies_in_slot_one() {
    let mut device = format(64, 8);
    device[START as usize] = superblock(8, 0, 7, 2).to_block();
    device[(START + 7) as usize] =
        JournalDataHeader { magic: JOURNAL_DATA_MAGIC, target_block: 40, checksum: 0 }.to_block();
    device[(START + 1) as usize] = vec![0x77; 4096];
    let jm = open(&device, 8);
    let walk = jm.checkpoint();
    assert_eq!(walk.next_slot(), Some(7));
    assert_eq!(walk.payload_slot(), 1);
    let recovery = jm.recover();
    assert_eq!(recovery.next_slot(), Some(7));
    assert_eq!(recovery.payload_slot(), 1);
    let region: Vec<Vec<u8>> = device[START as usize..(START + 8) as usize].to_vec();
    let mut walk = jm.checkpoint();
    let writes = walk.run_on(&region);
    assert_eq!(writes, vec![BlockWrite { block: 40, data: vec![0x77; 4096] }]);
    assert_eq!(walk.next_slot(), None);
    assert_eq!(jm.next_transaction_id(), 1);
    assert_eq!(jm.journal_blocks(), 8);
}

#[test]
fn stale_walks_cannot_finish_a_checkpoint() {
    let mut device = format(256, 64);
    let mut jm = open(&device, 64);
    let (mut txn, writes) = two_block_commit(&mut jm);
    apply(&mut device, &writes);
    jm.finish_commit(&mut txn).unwrap();
    let mut first = jm.checkpoint();
    let mut second = jm.checkpoint();
    let region: Vec<Vec<u8>> = device[START as usize..(START + 64) as usize].to_vec();
    first.run_on(&region);
    second.run_on(&region);
    assert!(jm.finish_checkpoint(&first).unwrap().is_some());
    assert_eq!(jm.finish_checkpoint(&second), Err(FsError::InvalidArgument));
    assert_eq!((jm.head(), jm.tail(), jm.sequence()), (6, 6, 1));
}

#[test]
fn a_commit_at_the_end_of_the_region_is_durable() {
    let mut device = format(256, 64);
    device[START as usize] = superblock(64, 3, 60, 60).to_block();
    let mut jm = open(&device, 64);
    assert_eq!(jm.available_slots(), 62);
    let (mut txn, writes) = two_block_commit(&mut jm);
    assert_eq!(
        writes.iter().map(|w| w.block).collect::<Vec<u64>>(),
        vec![61, 62, 63, 64, 2, 1]
    );
    assert_eq!((jm.head(), jm.tail()), (60, 2));
    apply(&mut device, &writes);
    jm.finish_commit(&mut txn).unwrap();

    assert_eq!(JournalSuperblock::from_block(&device[START as usize]), superblock(64, 3, 60, 2));
    let reopened = open(&device, 64);
    let (count, made) = run_recovery(&reopened, &mut device);
    assert_eq!(count, 1);
    assert_eq!(
        made,
        vec![
            BlockWrite { block: 100, data: vec![0xAA; 4096] },
            BlockWrite { block: 200, data: vec![0xBB; 4096] },
        ]
    );
    assert_eq!(device[100], vec![0xAA; 4096]);
    assert_eq!(device[200], vec![0xBB; 4096]);
    assert_eq!(JournalSuperblock::from_block(&device[START as usize]), superblock(64, 3, 60, 2));
}

#[test]
fn a_payload_after_the_last_slot_goes_to_slot_one() {
    let mut device = format(256, 64);
    device[START as usize] = superblock(64, 0, 63, 63).to_block();
    let mut jm = open(&device, 64);
    let mut txn = jm.begin_transaction().unwrap();
    txn.write_block(100, vec![0xAA; 4096]).unwrap();
    let writes = jm.commit(&mut txn).unwrap();
    assert_eq!(writes.iter().map(|w| w.block).collect::<Vec<u64>>(), vec![64, 2, 3, 1]);
    assert_eq!(writes[1].data, vec![0xAA; 4096]);
    apply(&mut device, &writes);
    jm.finish_commit(&mut txn).unwrap();

    let reopened = open(&device, 64);
    assert_eq!((reopened.head(), reopened.tail()), (63, 3));
    let (count, made) = run_recovery(&reopened, &mut device);
    assert_eq!(count, 1);
    assert_eq!(made, vec![BlockWrite { block: 100, data: vec![0xAA; 4096] }]);
    assert_eq!(device[100], vec![0xAA; 4096]);

    let mut reopened = open(&device, 64);
    assert_eq!(run_checkpoint(&mut reopened, &mut device), 1);
    assert_eq!((reopened.head(), reopened.tail(), reopened.sequence()), (3, 3, 1));
}

#[test]
fn crash_during_a_wrapping_commit_is_all_or_nothing() {
    for tail in [59u32, 60, 61, 62, 63] {
        for done in 0..=6 {
            let mut device = format(256, 64);
            device[START as usize] = superblock(64, 0, tail, tail).to_block();
            let mut jm = open(&device, 64);
            let (_txn, writes) = two_block_commit(&mut jm);
            assert!(writes[..5].iter().all(|w| w.block != START as u64));
            assert_eq!(writes[5].block, START as u64);
            apply(&mut device, &writes[..done]);
            let reopened = open(&device, 64);
            let (count, made) = run_recovery(&reopened, &mut device);
            if done < 6 {
                assert_eq!(count, 0);
                assert!(made.is_empty());
                assert_eq!(device[100], vec![0u8; 4096]);
                assert_eq!(device[200], vec![0u8; 4096]);
            } else {
                assert_eq!(count, 1);
                assert_eq!(device[100], vec![0xAA; 4096]);
                assert_eq!(device[200], vec![0xBB; 4096]);
            }
        }
    }
}

#[test]
fn an_abandoned_commit_gives_its_slots_back() {
    let device = format(256, 64);
    let mut jm = open(&device, 64);
    let (mut txn, writes) = two_block_commit(&mut jm);
    assert_eq!(writes.len(), 6);
    assert_eq!((jm.head(), jm.tail()), (1, 6));
    assert_eq!(jm.abandon_commit(&txn), Ok(()));
    assert_eq!((jm.head(), jm.tail(), jm.sequence()), (1, 1, 0));
    assert_eq!(jm.available_slots(), 62);
    assert_eq!(jm.prepared_transaction(), None);
    assert_eq!(txn.state, TxnState::Active);
    assert_eq!(txn.writes.len(), 2);
    assert!(jm.is_active(txn.id));
    assert_eq!(jm.sync_superblock_to_disk().data, device[START as usize]);
    assert_eq!(jm.abandon_commit(&txn), Err(FsError::InvalidState));
    assert_eq!(jm.finish_commit(&mut txn), Err(FsError::InvalidState));

    let again = jm.commit(&mut txn).unwrap();
    assert_eq!(again, writes);
    assert_eq!(jm.finish_commit(&mut txn), Ok(()));
    assert_eq!(txn.state, TxnState::Committed);
}

#[test]
fn only_a_prepared_commit_can_be_finished() {
    let device = format(256, 64);
    let mut jm = open(&device, 64);
    let mut txn = jm.begin_transaction().unwrap();
    txn.write_block(100, vec![0xAA; 4096]).unwrap();
    assert_eq!(jm.finish_commit(&mut txn), Err(FsError::InvalidState));
    assert_eq!(txn.state, TxnState::Active);
    assert!(jm.is_active(txn.id));
    assert_eq!((jm.head(), jm.tail()), (1, 1));

    let mut other = jm.begin_transaction().unwrap();
    other.write_block(200, vec![0xBB; 4096]).unwrap();
    let writes = jm.commit(&mut txn).unwrap();
    assert_eq!(writes.len(), 4);
    assert_eq!(jm.prepared_transaction(), Some(txn.id));
    assert_eq!(jm.commit(&mut txn), Err(FsError::InvalidState));
    assert_eq!(jm.commit(&mut other), Err(FsError::InvalidState));
    assert_eq!(jm.finish_commit(&mut other), Err(FsError::InvalidState));
    assert_eq!(jm.abandon_commit(&other), Err(FsError::InvalidState));
    assert_eq!(jm.abort(&mut txn), Err(FsError::InvalidState));
    assert_eq!((jm.head(), jm.tail()), (1, 4));
    assert_eq!(txn.state, TxnState::Active);

    let mut empty = jm.begin_transaction().unwrap();
    assert_eq!(jm.commit(&mut empty), Ok(Vec::new()));
    assert_eq!(empty.state, TxnState::Committed);
    assert_eq!(jm.abort(&mut other), Ok(()));
    assert_eq!(other.state, TxnState::Aborted);

    assert_eq!(jm.finish_commit(&mut txn), Ok(()));
    assert_eq!(txn.state, TxnState::Committed);
    assert_eq!(jm.finish_commit(&mut txn), Err(FsError::InvalidState));
}
