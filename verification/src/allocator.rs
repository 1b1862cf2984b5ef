//! The block allocator, re-exported at the crate's top level.

pub use crate::memory::allocator::{BlockAllocator, BlockId};
