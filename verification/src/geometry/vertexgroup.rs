//! A vertex group: vertex and index lists plus a material id, which is a
//! positional index into the owning mesh's material list.

use vstd::prelude::*;

use crate::voxel::voxelmath::VoxelAxis;

verus! {

/// One chunk-geometry vertex, in exact chunk-local integer coordinates:
/// a corner position, the face normal as a direction, and texture
/// coordinates in whole texture tiles.
#[derive(Clone, Copy, Debug, PartialEq, Eq, Structural)]
pub struct ChunkVertex {
    pub px: u32,
    pub py: u32,
    pub pz: u32,
    pub normal: VoxelAxis,
    pub u: u32,
    pub v: u32,
}

/// A vertex group: vertex data, index data, and the positional id of its
/// material in the owning mesh.
#[derive(Clone, Debug)]
pub struct VertexGroup {
    pub vertices: Vec<ChunkVertex>,
    pub indices: Vec<u32>,
    pub material_id: u8,
}

impl VertexGroup {
    /// Constructs a new vertex group with the given contents.
    pub fn new(verts: Vec<ChunkVertex>, idxs: Vec<u32>, mat_id: u8) -> (r: VertexGroup)
        ensures
            r.vertices@ == verts@,
            r.indices@ == idxs@,
            r.material_id == mat_id,
    {
        VertexGroup { vertices: verts, indices: idxs, material_id: mat_id }
    }
}

} // verus!
