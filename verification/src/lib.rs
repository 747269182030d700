//! Crash-consistency and space-management core of a block-addressable
//! filesystem: a write-ahead journal over a circular on-device region and a
//! bitmap-backed extent allocator.
//!
//! The library computes and decides; it never touches a device. Callers hand
//! it the blocks they read and carry out the block writes it returns.

pub mod device;
pub mod error;
pub mod extent;
pub mod journal;
pub mod layout;

pub use device::BlockWrite;
pub use error::FsError;
pub use extent::ExtentAllocator;
pub use journal::JournalManager;
