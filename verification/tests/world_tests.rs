use gestalt::voxel::voxelevent::{OneVoxelChange, VoxelEvent};
use gestalt::voxel::voxelmath::{VoxelPos, VoxelRange, VoxelSize};
use gestalt::world::block::BlockRegistry;
use gestalt::world::dimension::{
    blockpos_to_chunk, chunkpos_to_block, ChunkEntry, ChunkMeshState, Dimension, WorldPos,
};
use gestalt::world::generators::{chunk_from_columns, ColumnSample, WorldGenerator};
use gestalt::world::block::Chunk;

#[test]
fn test_chunkpos() {
    assert!(
        blockpos_to_chunk(VoxelPos { x: 6, y: -1, z: 7 }, VoxelSize { x: 16, y: 16, z: 16 })
            == VoxelPos { x: 0, y: -1, z: 0 }
    );
    assert!(
        blockpos_to_chunk(VoxelPos { x: 17, y: -25, z: 2 }, VoxelSize { x: 8, y: 24, z: 4 })
            == VoxelPos { x: 2, y: -2, z: 0 }
    );
}

/// A generator producing a uniform solid chunk, for exercising streaming.
struct SolidGenerator {
    value: u32,
}

impl WorldGenerator for SolidGenerator {
    fn generate(&self, bounds: VoxelRange<i32>, _dimension_id: u32) -> Chunk {
        let size = bounds.get_size_unsigned();
        Chunk::new_solid(size.x as u8, size.y as u8, size.z as u8, self.value)
    }
}

#[test]
fn streaming_hysteresis() {
    let gen = SolidGenerator { value: 1 };
    let mut dim = Dimension::new();
    // A chunk whose center sits at (8,8,8) blocks: its chunk-grid cell is the origin.
    let target = VoxelPos { x: 0, y: 0, z: 0 };
    // Observer 65 blocks away on x from the chunk center: not close enough to generate.
    let far = WorldPos { x: (8 + 65) * 256, y: 8 * 256, z: 8 * 256 };
    dim.load_unload_chunks_clientside(&far, &gen);
    assert!(!dim.is_chunk_loaded(target));
    // An observer 30 blocks away, within the scanned cube: close enough
    // to generate.
    let near = WorldPos { x: (8 + 30) * 256, y: 8 * 256, z: 8 * 256 };
    dim.load_unload_chunks_clientside(&near, &gen);
    assert!(dim.is_chunk_loaded(target));
    // Oscillating between 65 and 67 blocks away must not unload it.
    let mid = WorldPos { x: (8 + 67) * 256, y: 8 * 256, z: 8 * 256 };
    dim.load_unload_chunks_clientside(&far, &gen);
    assert!(dim.is_chunk_loaded(target));
    dim.load_unload_chunks_clientside(&mid, &gen);
    assert!(dim.is_chunk_loaded(target));
    dim.load_unload_chunks_clientside(&far, &gen);
    assert!(dim.is_chunk_loaded(target));
    // At 68 blocks the retention radius is reached and the chunk drops.
    let gone = WorldPos { x: (8 + 68) * 256, y: 8 * 256, z: 8 * 256 };
    dim.load_unload_chunks_clientside(&gone, &gen);
    assert!(!dim.is_chunk_loaded(target));
}

#[test]
fn write_short_circuits_remeshing() {
    let gen = SolidGenerator { value: 1 };
    let mut dim = Dimension::new();
    let observer = WorldPos { x: 8 * 256, y: 8 * 256, z: 8 * 256 };
    dim.load_unload_chunks_clientside(&observer, &gen);
    let target = VoxelPos { x: 0, y: 0, z: 0 };
    assert!(dim.is_chunk_loaded(target));
    assert_eq!(dim.get_chunk_state(target).unwrap(), ChunkMeshState::Dirty);
    // Pretend the mesher finished.
    assert!(dim.set_chunk_state(target, ChunkMeshState::Clean));
    // Writing the value already present leaves the state alone.
    let pos = VoxelPos { x: 3, y: 3, z: 3 };
    dim.set(pos, 1).unwrap();
    assert_eq!(dim.get_chunk_state(target).unwrap(), ChunkMeshState::Clean);
    // Writing a different value marks the chunk dirty again.
    dim.set(pos, 2).unwrap();
    assert_eq!(dim.get_chunk_state(target).unwrap(), ChunkMeshState::Dirty);
    assert_eq!(dim.get(pos).unwrap(), 2);
}

#[test]
fn generation_determinism() {
    let bounds = VoxelRange {
        lower: VoxelPos { x: 0, y: 0, z: 0 },
        upper: VoxelPos { x: 16, y: 16, z: 16 },
    };
    let mut columns = Vec::new();
    for x in 0..16i32 {
        for z in 0..16i32 {
            columns.push(ColumnSample { height: (x + z) % 13, block_id: 1 + ((x * z) % 3) as u32 });
        }
    }
    let a = chunk_from_columns(bounds, &columns);
    let b = chunk_from_columns(bounds, &columns);
    for x in 0u8..16 {
        for y in 0u8..16 {
            for z in 0u8..16 {
                let pos = VoxelPos { x, y, z };
                assert_eq!(a.get(pos), b.get(pos));
            }
        }
    }
    // And the contents follow the column rule.
    assert_eq!(a.get(VoxelPos { x: 0u8, y: 0, z: 0 }).unwrap(), 1);
    assert_eq!(a.get(VoxelPos { x: 0u8, y: 15, z: 0 }).unwrap(), 0);
}

#[test]
fn dimension_events_apply() {
    let gen = SolidGenerator { value: 3 };
    let mut dim = Dimension::new();
    let observer = WorldPos { x: 8 * 256, y: 8 * 256, z: 8 * 256 };
    dim.load_unload_chunks_clientside(&observer, &gen);
    let pos = VoxelPos { x: 1, y: 2, z: 3 };
    let evt = VoxelEvent::SetOne(OneVoxelChange { new_value: 0u32, pos });
    dim.apply_event(evt).unwrap();
    assert_eq!(dim.get(pos).unwrap(), 0);
    dim.apply_event(evt).unwrap();
    assert_eq!(dim.get(pos).unwrap(), 0);
    // An event aimed at unloaded space is a not-yet-loaded error.
    let far = VoxelEvent::SetOne(OneVoxelChange { new_value: 1u32, pos: VoxelPos { x: 100000, y: 0, z: 0 } });
    assert!(dim.apply_event(far).is_err());
}

#[test]
fn manual_chunk_insertion() {
    let mut dim = Dimension::new();
    let cpos = VoxelPos { x: 1, y: 0, z: 0 };
    let lower = chunkpos_to_block(cpos, VoxelSize { x: 16, y: 16, z: 16 });
    let entry = ChunkEntry {
        data: Chunk::new_solid(16, 16, 16, 4),
        state: ChunkMeshState::Dirty,
        bounds: VoxelRange {
            lower,
            upper: VoxelPos { x: lower.x + 16, y: lower.y + 16, z: lower.z + 16 },
        },
    };
    assert!(dim.insert_chunk(cpos, entry));
    assert_eq!(dim.get(VoxelPos { x: 17, y: 3, z: 3 }).unwrap(), 4);
    assert!(dim.unload_chunk(cpos));
    assert!(dim.get(VoxelPos { x: 17, y: 3, z: 3 }).is_err());
}

#[test]
fn block_registry_round_trip() {
    let mut reg = BlockRegistry::new();
    let air = reg.register_block(&"air".to_string());
    let stone = reg.register_block(&"stone".to_string());
    assert_eq!(air, 0);
    assert_eq!(stone, 1);
    assert_eq!(reg.name_for_id(&"stone".to_string()), 1);
    assert_eq!(reg.id_for_name(&1), "stone".to_string());
    let all = reg.all_mappings();
    assert_eq!(all.len(), 2);
    assert_eq!(all[0], ("air".to_string(), 0));
    assert_eq!(all[1], ("stone".to_string(), 1));
}
