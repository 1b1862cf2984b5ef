use gestalt::geometry::{Material, Mesh, VertexGroup};
use gestalt::mesh_simplifier::MeshSimplifier;
use gestalt::voxel::voxelmath::{VoxelAxis, VoxelPos, VoxelRange, VoxelRaycast};
use gestalt::voxel::voxelstorage::{voxel_blit, VoxelError};
use gestalt::world::block::Chunk;

fn uniform_chunk(value: u32) -> Chunk {
    Chunk::new_solid(16, 16, 16, value)
}

fn chunk_bounds() -> VoxelRange<i32> {
    VoxelRange { lower: VoxelPos { x: 0, y: 0, z: 0 }, upper: VoxelPos { x: 16, y: 16, z: 16 } }
}

#[test]
fn uniform_chunk_quads_are_outer_faces_only() {
    let chunk = uniform_chunk(2);
    let lists = MeshSimplifier::generate_quads(&chunk, chunk_bounds());
    // Six facings of sixteen layers each.
    assert_eq!(lists.len(), 6 * 16);
    for (facing, layer, quads) in &lists {
        let boundary = match facing {
            VoxelAxis::PosiX | VoxelAxis::PosiY | VoxelAxis::PosiZ => 15,
            VoxelAxis::NegaX | VoxelAxis::NegaY | VoxelAxis::NegaZ => 0,
        };
        if *layer == boundary {
            // The outermost slice of a solid chunk is one full quad.
            assert_eq!(quads.len(), 1);
            let q = &quads[0];
            assert_eq!((q.x, q.y, q.w, q.h, q.block_id), (0, 0, 16, 16, 2));
        } else {
            // Interior faces are occluded by the neighboring solid voxel.
            assert_eq!(quads.len(), 0);
        }
    }
}

#[test]
fn generated_mesh_groups_and_indices() {
    let chunk = uniform_chunk(3);
    let mesh = MeshSimplifier::generate_mesh(&chunk, chunk_bounds()).unwrap();
    assert_eq!(mesh.transform, VoxelPos { x: 0, y: 0, z: 0 });
    assert_eq!(mesh.vertex_groups.len(), 1);
    let vg = &mesh.vertex_groups[0];
    assert_eq!(vg.material_id, 3);
    // Six full-face quads, four vertices and six indices each.
    assert_eq!(vg.vertices.len(), 24);
    assert_eq!(vg.indices.len(), 36);
    assert_eq!(&vg.indices[0..6], &[0, 1, 2, 2, 3, 0]);
    assert_eq!(&vg.indices[6..12], &[4, 5, 6, 6, 7, 4]);
}

#[test]
fn mesh_queue_skips_bad_material_ids() {
    let mut mesh = Mesh::new();
    mesh.transform = VoxelPos { x: 16, y: 0, z: -16 };
    mesh.materials.push(Material {
        albedo_map_name: "stone".to_string(),
        specular_exponent_bits: 128.0f32.to_bits(),
        specular_strength_bits: 1.0f32.to_bits(),
    });
    mesh.vertex_groups.push(VertexGroup::new(Vec::new(), Vec::new(), 0));
    mesh.vertex_groups.push(VertexGroup::new(Vec::new(), Vec::new(), 7));
    let entries = mesh.queue();
    assert_eq!(entries.len(), 1);
    assert_eq!(entries[0].group, 0);
    assert_eq!(entries[0].material.albedo_map_name, "stone");
    assert_eq!(entries[0].transform, VoxelPos { x: 16, y: 0, z: -16 });
}

#[test]
fn blit_copies_a_box() {
    let source: Chunk = Chunk::new_solid(4, 4, 4, 9);
    let mut dest: Chunk = Chunk::new_solid(16, 16, 16, 0);
    let range: VoxelRange<u8> = VoxelRange {
        lower: VoxelPos { x: 0, y: 0, z: 0 },
        upper: VoxelPos { x: 4, y: 4, z: 4 },
    };
    voxel_blit(range, &source, VoxelPos { x: 8u8, y: 8, z: 8 }, &mut dest).unwrap();
    assert_eq!(dest.get(VoxelPos { x: 8u8, y: 8, z: 8 }).unwrap(), 9);
    assert_eq!(dest.get(VoxelPos { x: 11u8, y: 11, z: 11 }).unwrap(), 9);
    assert_eq!(dest.get(VoxelPos { x: 12u8, y: 8, z: 8 }).unwrap(), 0);
    assert_eq!(dest.get(VoxelPos { x: 7u8, y: 8, z: 8 }).unwrap(), 0);
}

#[test]
fn blit_out_of_bounds_is_an_error() {
    let source: Chunk = Chunk::new_solid(4, 4, 4, 9);
    let mut dest: Chunk = Chunk::new_solid(4, 4, 4, 0);
    let range: VoxelRange<u8> = VoxelRange {
        lower: VoxelPos { x: 0, y: 0, z: 0 },
        upper: VoxelPos { x: 4, y: 4, z: 4 },
    };
    let r = voxel_blit(range, &source, VoxelPos { x: 2u8, y: 0, z: 0 }, &mut dest);
    assert_eq!(r.unwrap_err(), VoxelError::OutOfBounds);
}

#[test]
fn raycast_steps_follow_the_dominant_axis() {
    // A ray pointing mostly along +x crosses x boundaries first.
    let mut ray = VoxelRaycast::new((128, 128, 128), (1000, 10, 10));
    assert_eq!(ray.position(), VoxelPos { x: 0, y: 0, z: 0 });
    ray.step();
    assert_eq!(ray.position(), VoxelPos { x: 1, y: 0, z: 0 });
    assert_eq!(ray.get_last_direction(), VoxelAxis::PosiX);
    // A ray pointing along -y steps downward.
    let mut down = VoxelRaycast::new((128, 128, 128), (0, -1000, 0));
    down.step();
    assert_eq!(down.position(), VoxelPos { x: 0, y: -1, z: 0 });
    assert_eq!(down.get_last_direction(), VoxelAxis::NegaY);
}
