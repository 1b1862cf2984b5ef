//! The world model: block types, chunked dimensions and their streaming,
//! and procedural generation.

pub mod block;
pub mod generators;
pub mod dimension;

pub use self::block::{BlockID, BlockName};
pub use self::dimension::Dimension;
