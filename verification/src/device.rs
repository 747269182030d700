//! What the library asks of the device: block writes for the caller to make.

use vstd::prelude::*;

verus! {

/// Bytes in a device block.
pub const BLOCK_SIZE: usize = 4096;

/// A write for the caller to carry out: `data` goes to the device at byte
/// offset `block * BLOCK_SIZE`.
#[derive(Debug, Clone, PartialEq, Eq)]
pub struct BlockWrite {
    /// Device block at which the data begins.
    pub block: u64,
    /// The bytes to write.
    pub data: Vec<u8>,
}

impl View for BlockWrite {
    type V = (u64, Seq<u8>);

    open spec fn view(&self) -> (u64, Seq<u8>) {
        (self.block, self.data@)
    }
}

} // verus!
