//! A mesh: a transform, an ordered list of vertex groups, and a parallel
//! material list indexed positionally by each group's material id.

use vstd::prelude::*;

use crate::geometry::vertexgroup::VertexGroup;
use crate::geometry::Material;
use crate::voxel::voxelmath::VoxelPos;

verus! {

/// A draw entry for one vertex group: the group's index in its mesh, the
/// material to bind, and the mesh's world-space origin.
#[derive(Clone, Debug)]
pub struct ChunkRenderQueueEntry {
    pub group: usize,
    pub material: Material,
    pub transform: VoxelPos<i32>,
}

/// A mesh: a world-space origin, vertex groups, and materials. A group's
/// material id indexes the material list by position.
pub struct Mesh {
    pub transform: VoxelPos<i32>,
    pub vertex_groups: Vec<VertexGroup>,
    pub materials: Vec<Material>,
}

impl Mesh {
    /// An empty mesh at the world origin.
    pub fn new() -> (r: Mesh)
        ensures
            r.vertex_groups@.len() == 0,
            r.materials@.len() == 0,
            r.transform == (VoxelPos { x: 0i32, y: 0i32, z: 0i32 }),
    {
        Mesh {
            transform: VoxelPos { x: 0, y: 0, z: 0 },
            vertex_groups: Vec::new(),
            materials: Vec::new(),
        }
    }

    /// Emits one draw entry per vertex group whose material id lies
    /// inside the material list; a group whose id points past the list
    /// is skipped rather than read out of bounds.
    pub fn queue(&self) -> (r: Vec<ChunkRenderQueueEntry>)
        ensures
            r@.len() <= self.vertex_groups@.len(),
            forall|k: int|
                0 <= k < r@.len() ==> {
                    let e = #[trigger] r@[k];
                    &&& e.group < self.vertex_groups@.len()
                    &&& self.vertex_groups@[e.group as int].material_id < self.materials@.len()
                    &&& e.material.albedo_map_name@ == self.materials@[self.vertex_groups@[e.group as int].material_id as int].albedo_map_name@
                    &&& e.material.specular_exponent_bits == self.materials@[self.vertex_groups@[e.group as int].material_id as int].specular_exponent_bits
                    &&& e.material.specular_strength_bits == self.materials@[self.vertex_groups@[e.group as int].material_id as int].specular_strength_bits
                    &&& e.transform == self.transform
                },
            forall|g: int|
                0 <= g < self.vertex_groups@.len() && (#[trigger] self.vertex_groups@[g]).material_id
                    < self.materials@.len() ==> exists|k: int|
                    0 <= k < r@.len() && (#[trigger] r@[k]).group == g,
            (forall|g: int|
                0 <= g < self.vertex_groups@.len() ==> (
                #[trigger] self.vertex_groups@[g]).material_id < self.materials@.len()) ==> (
            r@.len() == self.vertex_groups@.len() && forall|k: int|
                0 <= k < r@.len() ==> (#[trigger] r@[k]).group == k),
    {
        let mut out: Vec<ChunkRenderQueueEntry> = Vec::new();
        let mut g: usize = 0;
        while g < self.vertex_groups.len()
            invariant
                g <= self.vertex_groups@.len(),
                out@.len() <= g,
                forall|k: int|
                    0 <= k < out@.len() ==> {
                        let e = #[trigger] out@[k];
                        &&& e.group < self.vertex_groups@.len()
                        &&& self.vertex_groups@[e.group as int].material_id < self.materials@.len()
                        &&& e.material.albedo_map_name@ == self.materials@[self.vertex_groups@[e.group as int].material_id as int].albedo_map_name@
                    &&& e.material.specular_exponent_bits == self.materials@[self.vertex_groups@[e.group as int].material_id as int].specular_exponent_bits
                    &&& e.material.specular_strength_bits == self.materials@[self.vertex_groups@[e.group as int].material_id as int].specular_strength_bits
                        &&& e.transform == self.transform
                    },
                forall|g2: int|
                    0 <= g2 < g && (#[trigger] self.vertex_groups@[g2]).material_id
                        < self.materials@.len() ==> exists|k: int|
                        0 <= k < out@.len() && (#[trigger] out@[k]).group == g2,
                (forall|g2: int|
                    0 <= g2 < self.vertex_groups@.len() ==> (
                    #[trigger] self.vertex_groups@[g2]).material_id < self.materials@.len()) ==> (
                out@.len() == g && forall|k: int|
                    0 <= k < out@.len() ==> (#[trigger] out@[k]).group == k),
            decreases self.vertex_groups@.len() - g,
        {
            let mid = self.vertex_groups[g].material_id as usize;
            if mid < self.materials.len() {
                let mat = Material {
                    albedo_map_name: self.materials[mid].albedo_map_name.clone(),
                    specular_exponent_bits: self.materials[mid].specular_exponent_bits,
                    specular_strength_bits: self.materials[mid].specular_strength_bits,
                };
                let ghost out0 = out@;
                out.push(ChunkRenderQueueEntry { group: g, material: mat, transform: self.transform });
                proof {
                    assert(out@[out@.len() - 1].group == g);
                    assert forall|g2: int|
                        0 <= g2 < g + 1 && (#[trigger] self.vertex_groups@[g2]).material_id
                            < self.materials@.len() implies exists|k: int|
                        0 <= k < out@.len() && (#[trigger] out@[k]).group == g2 by {
                        if g2 == g {
                            assert(out@[out@.len() - 1].group == g2);
                        } else {
                            let k = choose|k: int|
                                0 <= k < out0.len() && (#[trigger] out0[k]).group == g2;
                            assert(out@[k].group == g2);
                        }
                    }
                    if forall|g2: int|
                        0 <= g2 < self.vertex_groups@.len() ==> (
                        #[trigger] self.vertex_groups@[g2]).material_id < self.materials@.len() {
                        assert(out0.len() == g);
                        assert forall|k: int|
                            0 <= k < out@.len() implies (#[trigger] out@[k]).group == k by {
                            if k < out0.len() {
                                assert(out@[k] == out0[k]);
                            }
                        }
                    }
                }
            }
            g = g + 1;
        }
        out
    }
}

} // verus!
