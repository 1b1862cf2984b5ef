//! Core library of a voxel-world game engine: discrete coordinate math,
//! chunked voxel storage with streaming, voxel events and an event bus,
//! a block registry, greedy meshing, GPU-memory bookkeeping, and the
//! decision logic of the client/server game loop.

pub mod allocator;
pub mod game;
pub mod geometry;
pub mod memory;
pub mod network;
pub mod pipeline;
pub mod pool;
pub mod registry;
pub mod mesh_simplifier;
pub mod util;
pub mod voxel;
pub mod world;
