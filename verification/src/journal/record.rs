//! What a journal slot holds, read from its bytes, and the checksums the
//! records carry.

use crate::journal::codec::{get_u32, le_u32};
use crate::journal::types::{
    JournalCommitRecord, JournalDataHeader, COMMIT_RECORD_FIELDS, DATA_HEADER_FIELDS,
    JOURNAL_COMMIT_MAGIC, JOURNAL_DATA_MAGIC,
};
use vstd::prelude::*;

verus! {

/// What was read at a journal slot.
#[derive(Debug, Clone, PartialEq, Eq)]
pub enum JournalEntry {
    /// A data header, with the payload read from the slot after it.
    Data { target_block: u32, data: Vec<u8> },
    /// A commit record.
    Commit,
    /// Anything else.
    Other,
}

/// A journal entry as a mathematical value.
pub ghost enum EntryView {
    Data { target_block: u32, data: Seq<u8> },
    Commit,
    Other,
}

impl View for JournalEntry {
    type V = EntryView;

    open spec fn view(&self) -> EntryView {
        match *self {
            JournalEntry::Data { target_block, data } => EntryView::Data {
                target_block,
                data: data@,
            },
            JournalEntry::Commit => EntryView::Commit,
            JournalEntry::Other => EntryView::Other,
        }
    }
}

/// Whether `block` begins with a data header: long enough for its fields and
/// carrying the data magic.
pub open spec fn is_data_header(block: Seq<u8>) -> bool {
    block.len() >= DATA_HEADER_FIELDS && le_u32(block, 0) == JOURNAL_DATA_MAGIC
}

/// Whether `block` begins with a commit record: long enough for its fields
/// and carrying the commit magic.
pub open spec fn is_commit_record(block: Seq<u8>) -> bool {
    block.len() >= COMMIT_RECORD_FIELDS && le_u32(block, 0) == JOURNAL_COMMIT_MAGIC
}

/// The entry that a slot's block makes together with the block of the slot
/// after it. The magic decides: a data header takes the next block as its
/// payload, a commit record and anything else stand alone.
pub open spec fn decode_entry(header: Seq<u8>, payload: Seq<u8>) -> EntryView {
    if is_data_header(header) {
        EntryView::Data { target_block: JournalDataHeader::parse(header).target_block, data: payload }
    } else if is_commit_record(header) {
        EntryView::Commit
    } else {
        EntryView::Other
    }
}

/// Whether the block read at a slot is a data header, so that the slot after
/// it holds its payload and has to be read too.
pub fn holds_data_header(block: &Vec<u8>) -> (r: bool)
    ensures
        r == is_data_header(block@),
{
    block.len() >= DATA_HEADER_FIELDS && get_u32(block, 0) == JOURNAL_DATA_MAGIC
}

/// Makes the entry out of the block read at a slot and, for a data header,
/// the payload read at the slot after it. For any other block the payload is
/// not looked at.
pub fn read_journal_block(header: &Vec<u8>, payload: Vec<u8>) -> (entry: JournalEntry)
    ensures
        entry@ == decode_entry(header@, payload@),
{
    if holds_data_header(header) {
        let fields = JournalDataHeader::from_block(header);
        JournalEntry::Data { target_block: fields.target_block, data: payload }
    } else if header.len() >= COMMIT_RECORD_FIELDS && get_u32(header, 0) == JOURNAL_COMMIT_MAGIC {
        JournalEntry::Commit
    } else {
        JournalEntry::Other
    }
}

/// Byte `i` of `data`, and zero past its end.
pub open spec fn byte_or_zero(data: Seq<u8>, i: int) -> u8 {
    if 0 <= i < data.len() {
        data[i]
    } else {
        0
    }
}

/// The `k`-th 32-bit word of `data`, little-endian; a last word that is cut
/// short counts its missing bytes as zero.
pub open spec fn word_at(data: Seq<u8>, k: int) -> u32 {
    (byte_or_zero(data, 4 * k) + 256 * byte_or_zero(data, 4 * k + 1) + 65536 * byte_or_zero(
        data,
        4 * k + 2,
    ) + 16777216 * byte_or_zero(data, 4 * k + 3)) as u32
}

/// The exclusive-or of the first `words` words of `data`.
pub open spec fn xor_fold(data: Seq<u8>, words: nat) -> u32
    decreases words,
{
    if words == 0 {
        0
    } else {
        xor_fold(data, (words - 1) as nat) ^ word_at(data, words - 1)
    }
}

/// The checksum of a payload: the exclusive-or of its 32-bit words.
pub open spec fn payload_checksum(data: Seq<u8>) -> u32 {
    xor_fold(data, ((data.len() + 3) / 4) as nat)
}

/// The checksum of a commit record: the low 32 bits of the transaction id.
pub open spec fn commit_checksum(txn_id: u64) -> u32 {
    (txn_id % 4294967296) as u32
}

/// Byte `i` of `data`, and zero past its end.
fn byte_at(data: &Vec<u8>, i: usize) -> (b: u32)
    ensures
        b == byte_or_zero(data@, i as int),
{
    if i < data.len() {
        data[i] as u32
    } else {
        0
    }
}

/// Computes the checksum of a payload by folding its words with
/// exclusive-or.
pub fn calculate_checksum(data: &Vec<u8>) -> (sum: u32)
    ensures
        sum == payload_checksum(data@),
{
    let len = data.len();
    let words: usize = len / 4 + if len % 4 == 0 { 0 } else { 1 };
    let mut sum: u32 = 0;
    let mut k: usize = 0;
    while k < words
        invariant
            k <= words,
            words == (data.len() + 3) / 4,
            sum == xor_fold(data@, k as nat),
        decreases words - k,
    {
        let base: usize = 4 * k;
        let b0 = byte_at(data, base);
        let b1 = byte_at(data, base + 1);
        let b2 = byte_at(data, base + 2);
        let b3 = byte_at(data, base + 3);
        let word: u32 = b0 + 256 * b1 + 65536 * b2 + 16777216 * b3;
        sum = sum ^ word;
        k = k + 1;
    }
    sum
}

/// Computes the checksum of a commit record. The journaled slots take no
/// part in it.
pub fn calculate_commit_checksum(txn_id: u64) -> (sum: u32)
    ensures
        sum == commit_checksum(txn_id),
{
    (txn_id % 4294967296) as u32
}

/// The data header journaled for a payload meant for `target_block`.
pub open spec fn data_header_for(target_block: u32, data: Seq<u8>) -> JournalDataHeader {
    JournalDataHeader {
        magic: JOURNAL_DATA_MAGIC,
        target_block,
        checksum: payload_checksum(data),
    }
}

/// The commit record journaled for transaction `txn_id` with `num_blocks`
/// block writes.
pub open spec fn commit_record_for(txn_id: u64, num_blocks: u32) -> JournalCommitRecord {
    JournalCommitRecord {
        magic: JOURNAL_COMMIT_MAGIC,
        txn_id,
        num_blocks,
        checksum: commit_checksum(txn_id),
    }
}

/// A data header written to a slot is read back as a data entry for the same
/// target, with whatever the next slot holds as its payload.
pub proof fn lemma_data_header_decodes(target_block: u32, data: Seq<u8>, payload: Seq<u8>)
    ensures
        decode_entry(data_header_for(target_block, data).image(), payload) == (EntryView::Data {
            target_block,
            data: payload,
        }),
{
    reveal(JournalDataHeader::parse);
    data_header_for(target_block, data).lemma_round_trip();
}

/// A commit record written to a slot is read back as a commit entry.
pub proof fn lemma_commit_record_decodes(txn_id: u64, num_blocks: u32, payload: Seq<u8>)
    ensures
        decode_entry(commit_record_for(txn_id, num_blocks).image(), payload) == EntryView::Commit,
{
    reveal(JournalCommitRecord::parse);
    commit_record_for(txn_id, num_blocks).lemma_round_trip();
}

} // verus!
