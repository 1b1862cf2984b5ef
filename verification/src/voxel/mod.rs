//! Voxel fundamentals: coordinate math, storage traits, the dense array,
//! and the voxel event model.

pub mod voxelmath;
pub mod voxelarray;
pub mod voxelstorage;
pub mod voxelevent;
