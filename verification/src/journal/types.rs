//! The journal's records as they lie on the device, and transactions.

use crate::device::BLOCK_SIZE;
use crate::error::FsError;
use crate::journal::codec::{
    get_u32, get_u64, le_bytes_u32, le_bytes_u64, le_u32, le_u64, lemma_le_u32_round_trip,
    lemma_le_u64_round_trip, pad_block, padded_block, put_u32, put_u64,
};
use vstd::prelude::*;

verus! {

/// Magic of the journal superblock, "JRNL".
pub const JOURNAL_MAGIC: u32 = 0x4A524E4C;

/// Version of the journal format.
pub const JOURNAL_VERSION: u32 = 1;

/// Magic of a data header record, "JDAT".
pub const JOURNAL_DATA_MAGIC: u32 = 0x4A444154;

/// Magic of a commit record, "JCMT".
pub const JOURNAL_COMMIT_MAGIC: u32 = 0x4A434D54;

/// Bytes the superblock's fields take at the start of slot 0.
pub const SUPERBLOCK_FIELDS: usize = 32;

/// Bytes a data header's fields take at the start of its slot.
pub const DATA_HEADER_FIELDS: usize = 12;

/// Bytes a commit record's fields take at the start of its slot.
pub const COMMIT_RECORD_FIELDS: usize = 20;

/// The journal superblock, slot 0 of the journal region.
#[derive(Debug, Clone, Copy, PartialEq, Eq, Structural)]
pub struct JournalSuperblock {
    /// `JOURNAL_MAGIC`.
    pub magic: u32,
    /// Format version.
    pub version: u32,
    /// Bytes per block.
    pub block_size: u32,
    /// Slots in the journal region.
    pub total_blocks: u32,
    /// Counts checkpoints; never goes back.
    pub sequence: u64,
    /// Oldest slot not yet applied.
    pub head: u32,
    /// Next slot to hand out.
    pub tail: u32,
}

impl JournalSuperblock {
    /// The 32 bytes of the fields, each little-endian at its offset.
    pub open spec fn fields(self) -> Seq<u8> {
        le_bytes_u32(self.magic) + le_bytes_u32(self.version) + le_bytes_u32(self.block_size)
            + le_bytes_u32(self.total_blocks) + le_bytes_u64(self.sequence) + le_bytes_u32(
            self.head,
        ) + le_bytes_u32(self.tail)
    }

    /// The block written to slot 0: the fields, then zeros.
    #[verifier::opaque]
    pub open spec fn image(self) -> Seq<u8> {
        padded_block(self.fields())
    }

    /// The superblock a byte string holds at its start.
    #[verifier::opaque]
    pub open spec fn parse(bytes: Seq<u8>) -> JournalSuperblock {
        JournalSuperblock {
            magic: le_u32(bytes, 0),
            version: le_u32(bytes, 4),
            block_size: le_u32(bytes, 8),
            total_blocks: le_u32(bytes, 12),
            sequence: le_u64(bytes, 16),
            head: le_u32(bytes, 24),
            tail: le_u32(bytes, 28),
        }
    }

    /// The layout of the superblock on the device: each field little-endian
    /// at its offset, zeros after the fields, one block in all. A superblock
    /// read back from its own image is itself.
    pub proof fn lemma_round_trip(self)
        ensures
            self.image().len() == BLOCK_SIZE,
            Self::parse(self.image()) == self,
            le_u32(self.image(), 0) == self.magic,
            le_u32(self.image(), 4) == self.version,
            le_u32(self.image(), 8) == self.block_size,
            le_u32(self.image(), 12) == self.total_blocks,
            le_u64(self.image(), 16) == self.sequence,
            le_u32(self.image(), 24) == self.head,
            le_u32(self.image(), 28) == self.tail,
            forall|i: int| 32 <= i < BLOCK_SIZE ==> #[trigger] self.image()[i] == 0,
    {
        reveal(JournalSuperblock::image);
        reveal(JournalSuperblock::parse);
        let image = self.image();
        assert(image.subrange(0, 4) =~= le_bytes_u32(self.magic));
        assert(image.subrange(4, 8) =~= le_bytes_u32(self.version));
        assert(image.subrange(8, 12) =~= le_bytes_u32(self.block_size));
        assert(image.subrange(12, 16) =~= le_bytes_u32(self.total_blocks));
        assert(image.subrange(16, 24) =~= le_bytes_u64(self.sequence));
        assert(image.subrange(24, 28) =~= le_bytes_u32(self.head));
        assert(image.subrange(28, 32) =~= le_bytes_u32(self.tail));
        lemma_le_u32_round_trip(self.magic, image, 0);
        lemma_le_u32_round_trip(self.version, image, 4);
        lemma_le_u32_round_trip(self.block_size, image, 8);
        lemma_le_u32_round_trip(self.total_blocks, image, 12);
        lemma_le_u64_round_trip(self.sequence, image, 16);
        lemma_le_u32_round_trip(self.head, image, 24);
        lemma_le_u32_round_trip(self.tail, image, 28);
    }

    /// Encodes the superblock as the block to write to slot 0.
    pub fn to_block(&self) -> (block: Vec<u8>)
        ensures
            block@ == self.image(),
            block.len() == BLOCK_SIZE,
    {
        let mut block: Vec<u8> = Vec::new();
        put_u32(&mut block, self.magic);
        put_u32(&mut block, self.version);
        put_u32(&mut block, self.block_size);
        put_u32(&mut block, self.total_blocks);
        put_u64(&mut block, self.sequence);
        put_u32(&mut block, self.head);
        put_u32(&mut block, self.tail);
        assert(block@ =~= self.fields());
        pad_block(&mut block);
        proof {
            reveal(JournalSuperblock::image);
        }
        block
    }

    /// Decodes the superblock at the start of `block`.
    pub fn from_block(block: &Vec<u8>) -> (sb: JournalSuperblock)
        requires
            block.len() >= SUPERBLOCK_FIELDS,
        ensures
            sb == Self::parse(block@),
    {
        proof {
            reveal(JournalSuperblock::parse);
        }
        JournalSuperblock {
            magic: get_u32(block, 0),
            version: get_u32(block, 4),
            block_size: get_u32(block, 8),
            total_blocks: get_u32(block, 12),
            sequence: get_u64(block, 16),
            head: get_u32(block, 24),
            tail: get_u32(block, 28),
        }
    }
}

/// The header of one journaled block write; its payload fills the next slot.
#[derive(Debug, Clone, Copy, PartialEq, Eq, Structural)]
pub struct JournalDataHeader {
    /// `JOURNAL_DATA_MAGIC`.
    pub magic: u32,
    /// Device block the payload is meant for.
    pub target_block: u32,
    /// Checksum of the payload.
    pub checksum: u32,
}

impl JournalDataHeader {
    /// The 12 bytes of the fields.
    pub open spec fn fields(self) -> Seq<u8> {
        le_bytes_u32(self.magic) + le_bytes_u32(self.target_block) + le_bytes_u32(self.checksum)
    }

    /// The block written to the header's slot: the fields, then zeros.
    #[verifier::opaque]
    pub open spec fn image(self) -> Seq<u8> {
        padded_block(self.fields())
    }

    /// The header a byte string holds at its start.
    #[verifier::opaque]
    pub open spec fn parse(bytes: Seq<u8>) -> JournalDataHeader {
        JournalDataHeader {
            magic: le_u32(bytes, 0),
            target_block: le_u32(bytes, 4),
            checksum: le_u32(bytes, 8),
        }
    }

    /// The layout of a data header on the device: each field little-endian
    /// at its offset, zeros after the fields, one block in all. A header read
    /// back from its own image is itself.
    pub proof fn lemma_round_trip(self)
        ensures
            self.image().len() == BLOCK_SIZE,
            Self::parse(self.image()) == self,
            le_u32(self.image(), 0) == self.magic,
            le_u32(self.image(), 4) == self.target_block,
            le_u32(self.image(), 8) == self.checksum,
            forall|i: int| 12 <= i < BLOCK_SIZE ==> #[trigger] self.image()[i] == 0,
    {
        reveal(JournalDataHeader::image);
        reveal(JournalDataHeader::parse);
        let image = self.image();
        assert(image.subrange(0, 4) =~= le_bytes_u32(self.magic));
        assert(image.subrange(4, 8) =~= le_bytes_u32(self.target_block));
        assert(image.subrange(8, 12) =~= le_bytes_u32(self.checksum));
        lemma_le_u32_round_trip(self.magic, image, 0);
        lemma_le_u32_round_trip(self.target_block, image, 4);
        lemma_le_u32_round_trip(self.checksum, image, 8);
    }

    /// Encodes the header as the block to write to its slot.
    pub fn to_block(&self) -> (block: Vec<u8>)
        ensures
            block@ == self.image(),
            block.len() == BLOCK_SIZE,
    {
        let mut block: Vec<u8> = Vec::new();
        put_u32(&mut block, self.magic);
        put_u32(&mut block, self.target_block);
        put_u32(&mut block, self.checksum);
        assert(block@ =~= self.fields());
        pad_block(&mut block);
        proof {
            reveal(JournalDataHeader::image);
        }
        block
    }

    /// Decodes the header at the start of `block`.
    pub fn from_block(block: &Vec<u8>) -> (h: JournalDataHeader)
        requires
            block.len() >= DATA_HEADER_FIELDS,
        ensures
            h == Self::parse(block@),
    {
        proof {
            reveal(JournalDataHeader::parse);
        }
        JournalDataHeader {
            magic: get_u32(block, 0),
            target_block: get_u32(block, 4),
            checksum: get_u32(block, 8),
        }
    }
}

/// The record that closes a transaction in the journal.
#[derive(Debug, Clone, Copy, PartialEq, Eq, Structural)]
pub struct JournalCommitRecord {
    /// `JOURNAL_COMMIT_MAGIC`.
    pub magic: u32,
    /// Id of the transaction.
    pub txn_id: u64,
    /// Number of block writes the transaction journaled.
    pub num_blocks: u32,
    /// Checksum of the record.
    pub checksum: u32,
}

impl JournalCommitRecord {
    /// The 20 bytes of the fields.
    pub open spec fn fields(self) -> Seq<u8> {
        le_bytes_u32(self.magic) + le_bytes_u64(self.txn_id) + le_bytes_u32(self.num_blocks)
            + le_bytes_u32(self.checksum)
    }

    /// The block written to the record's slot: the fields, then zeros.
    #[verifier::opaque]
    pub open spec fn image(self) -> Seq<u8> {
        padded_block(self.fields())
    }

    /// The commit record a byte string holds at its start.
    #[verifier::opaque]
    pub open spec fn parse(bytes: Seq<u8>) -> JournalCommitRecord {
        JournalCommitRecord {
            magic: le_u32(bytes, 0),
            txn_id: le_u64(bytes, 4),
            num_blocks: le_u32(bytes, 12),
            checksum: le_u32(bytes, 16),
        }
    }

    /// The layout of a commit record on the device: each field little-endian
    /// at its offset, zeros after the fields, one block in all. A commit
    /// record read back from its own image is itself.
    pub proof fn lemma_round_trip(self)
        ensures
            self.image().len() == BLOCK_SIZE,
            Self::parse(self.image()) == self,
            le_u32(self.image(), 0) == self.magic,
            le_u64(self.image(), 4) == self.txn_id,
            le_u32(self.image(), 12) == self.num_blocks,
            le_u32(self.image(), 16) == self.checksum,
            forall|i: int| 20 <= i < BLOCK_SIZE ==> #[trigger] self.image()[i] == 0,
    {
        reveal(JournalCommitRecord::image);
        reveal(JournalCommitRecord::parse);
        let image = self.image();
        assert(image.subrange(0, 4) =~= le_bytes_u32(self.magic));
        assert(image.subrange(4, 12) =~= le_bytes_u64(self.txn_id));
        assert(image.subrange(12, 16) =~= le_bytes_u32(self.num_blocks));
        assert(image.subrange(16, 20) =~= le_bytes_u32(self.checksum));
        lemma_le_u32_round_trip(self.magic, image, 0);
        lemma_le_u64_round_trip(self.txn_id, image, 4);
        lemma_le_u32_round_trip(self.num_blocks, image, 12);
        lemma_le_u32_round_trip(self.checksum, image, 16);
    }

    /// Encodes the record as the block to write to its slot.
    pub fn to_block(&self) -> (block: Vec<u8>)
        ensures
            block@ == self.image(),
            block.len() == BLOCK_SIZE,
    {
        let mut block: Vec<u8> = Vec::new();
        put_u32(&mut block, self.magic);
        put_u64(&mut block, self.txn_id);
        put_u32(&mut block, self.num_blocks);
        put_u32(&mut block, self.checksum);
        assert(block@ =~= self.fields());
        pad_block(&mut block);
        proof {
            reveal(JournalCommitRecord::image);
        }
        block
    }

    /// Decodes the commit record at the start of `block`.
    pub fn from_block(block: &Vec<u8>) -> (c: JournalCommitRecord)
        requires
            block.len() >= COMMIT_RECORD_FIELDS,
        ensures
            c == Self::parse(block@),
    {
        proof {
            reveal(JournalCommitRecord::parse);
        }
        JournalCommitRecord {
            magic: get_u32(block, 0),
            txn_id: get_u64(block, 4),
            num_blocks: get_u32(block, 12),
            checksum: get_u32(block, 16),
        }
    }
}

/// Where a transaction stands. `Committed` and `Aborted` are final.
#[derive(Debug, Clone, Copy, PartialEq, Eq, Structural)]
pub enum TxnState {
    /// Open for writes.
    Active,
    /// Durably in the journal.
    Committed,
    /// Given up; nothing was journaled.
    Aborted,
}

/// The pending writes of a transaction as mathematical values: each a target
/// block and the payload meant for it.
pub open spec fn writes_view(writes: Seq<(u32, Vec<u8>)>) -> Seq<(u32, Seq<u8>)> {
    Seq::new(writes.len(), |i: int| (writes[i].0, writes[i].1@))
}

/// A transaction: block writes that reach the device together or not at all.
pub struct Transaction {
    /// Id, unique within a mount.
    pub id: u64,
    /// Pending writes, in the order they were made.
    pub writes: Vec<(u32, Vec<u8>)>,
    /// Where the transaction stands.
    pub state: TxnState,
}

/// A transaction as a mathematical value.
pub ghost struct TransactionView {
    pub id: u64,
    pub writes: Seq<(u32, Seq<u8>)>,
    pub state: TxnState,
}

impl View for Transaction {
    type V = TransactionView;

    open spec fn view(&self) -> TransactionView {
        TransactionView { id: self.id, writes: writes_view(self.writes@), state: self.state }
    }
}

/// What `write_block` answers on a transaction in state `state` for a payload
/// of `len` bytes.
pub open spec fn write_block_outcome(state: TxnState, len: nat) -> Result<(), FsError> {
    if state != TxnState::Active {
        Err(FsError::InvalidState)
    } else if len != BLOCK_SIZE {
        Err(FsError::InvalidArgument)
    } else {
        Ok(())
    }
}

impl Transaction {
    /// Adds a block write to an active transaction. Nothing reaches the
    /// device; the write waits for the commit.
    pub fn write_block(&mut self, block_num: u32, data: Vec<u8>) -> (r: Result<(), FsError>)
        ensures
            r == write_block_outcome(old(self).state, data@.len()),
            final(self)@.id == old(self)@.id,
            final(self)@.state == old(self)@.state,
            final(self)@.writes == if r is Ok {
                old(self)@.writes.push((block_num, data@))
            } else {
                old(self)@.writes
            },
    {
        match self.state {
            TxnState::Active => {},
            _ => {
                return Err(FsError::InvalidState);
            },
        }
        if data.len() != BLOCK_SIZE {
            return Err(FsError::InvalidArgument);
        }
        self.writes.push((block_num, data));
        proof {
            assert(self@.writes =~= old(self)@.writes.push((block_num, data@)));
        }
        Ok(())
    }
}

} // verus!
