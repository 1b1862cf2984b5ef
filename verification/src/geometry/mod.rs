//! The geometry data model the renderer consumes: meshes, vertex groups,
//! materials, and the per-frame draw entries assembled from them. Vertex
//! data is kept in exact integer coordinates; turning it into the GPU's
//! floating-point vertex formats happens at the rendering boundary.

pub mod mesh;
pub mod vertexgroup;

pub use self::mesh::Mesh;
pub use self::vertexgroup::{ChunkVertex, VertexGroup};

use vstd::prelude::*;

verus! {

/// A material: the name of its albedo texture and its specular response.
/// The specular values are 32-bit float bit patterns; the shading math
/// that consumes them happens at the rendering boundary.
#[derive(Clone, Debug)]
pub struct Material {
    pub albedo_map_name: String,
    pub specular_exponent_bits: u32,
    pub specular_strength_bits: u32,
}

} // verus!
