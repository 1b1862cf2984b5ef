//! Memory bookkeeping: the virtual block allocator used to parcel out
//! ranges of fixed-size GPU memory chunks.

pub mod allocator;
