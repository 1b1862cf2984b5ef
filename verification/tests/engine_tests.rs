use gestalt::game::{
    apply_events, consume_ticks, raycast_to_solid, select_mode, CliError, GameMode, RaycastOutcome,
    TICK_LENGTH_MS,
};
use gestalt::memory::allocator::BlockAllocator;
use gestalt::mesh_simplifier::{InputQuad, MeshSimplifier, OutputQuad};
use gestalt::network::{
    split_frames, upsert_player_position, QualifiedToClientPacket, QualifiedToServerPacket,
    ServerState, ToClientPacket, ToClientPacketData, ToServerPacket, ToServerPacketData,
};
use gestalt::pool::{PoolAllocator, AUTO_POOL_CHUNK_SIZE};
use gestalt::registry::DimensionRegistry;
use gestalt::util::event::SimpleEventBus;
use gestalt::util::generate_chunk_debug_line_indices;
use gestalt::voxel::voxelevent::{OneVoxelChange, VoxelEvent};
use gestalt::voxel::voxelmath::{VoxelPos, VoxelRange, VoxelRaycast};
use gestalt::world::block::Chunk;
use gestalt::world::dimension::{Dimension, WorldPos};
use gestalt::world::generators::WorldGenerator;

#[test]
fn allocator_first_fit_empty_pool() {
    let mut a = BlockAllocator::new(1024);
    let (id, offset) = a.allocate(100, 1).unwrap();
    assert_eq!(offset, 0);
    assert_eq!(id.0, 1);
}

#[test]
fn allocator_reuse_after_free() {
    let mut a = BlockAllocator::new(1024);
    let (id1, off1) = a.allocate(100, 1).unwrap();
    let (id2, off2) = a.allocate(100, 1).unwrap();
    assert_eq!(off1, 0);
    assert_eq!(off2, 100);
    a.free(&id1);
    let (id3, off3) = a.allocate(100, 1).unwrap();
    assert_eq!(off3, 0);
    assert_ne!(id3, id2);
}

#[test]
fn allocator_exhaustion() {
    let mut a = BlockAllocator::new(256);
    let _ = a.allocate(200, 1).unwrap();
    assert!(a.allocate(100, 1).is_none());
}

#[test]
fn allocator_alignment() {
    let mut a = BlockAllocator::new(1024);
    let (_, off1) = a.allocate(10, 1).unwrap();
    assert_eq!(off1, 0);
    let (_, off2) = a.allocate(10, 64).unwrap();
    assert_eq!(off2, 64);
}

#[test]
fn greedy_meshing_uniform_slice() {
    let mut cells = Vec::new();
    for y in 0..16usize {
        for x in 0..16usize {
            cells.push(InputQuad { x, y, present: true, done: false, block_id: 2 });
        }
    }
    let quads = MeshSimplifier::process_slice(cells, 16, 16);
    assert_eq!(quads.len(), 1);
    let q = &quads[0];
    assert_eq!((q.x, q.y, q.w, q.h, q.block_id), (0, 0, 16, 16, 2));
}

#[test]
fn greedy_meshing_exact_cover_with_hole() {
    let mut cells = Vec::new();
    for y in 0..8usize {
        for x in 0..8usize {
            let present = !(x == 3 && y == 4);
            cells.push(InputQuad { x, y, present, done: false, block_id: 7 });
        }
    }
    let quads = MeshSimplifier::process_slice(cells.clone(), 8, 8);
    // Every present cell is covered exactly once, the hole by none.
    for y in 0..8usize {
        for x in 0..8usize {
            let covering = quads
                .iter()
                .filter(|q| q.x <= x && x < q.x + q.w && q.y <= y && y < q.y + q.h)
                .count();
            let present = !(x == 3 && y == 4);
            assert_eq!(covering, if present { 1 } else { 0 });
        }
    }
    for q in &quads {
        assert_eq!(q.block_id, 7);
        assert!(q.w >= 1 && q.h >= 1 && q.x + q.w <= 8 && q.y + q.h <= 8);
    }
}

#[test]
fn greedy_meshing_mixed_ids_stay_uniform() {
    let mut cells = Vec::new();
    for y in 0..4usize {
        for x in 0..4usize {
            let id = if y < 2 { 1 } else { 2 };
            cells.push(InputQuad { x, y, present: true, done: false, block_id: id });
        }
    }
    let quads = MeshSimplifier::process_slice(cells, 4, 4);
    assert_eq!(quads.len(), 2);
    let top: Vec<&OutputQuad> = quads.iter().filter(|q| q.block_id == 1).collect();
    assert_eq!(top.len(), 1);
    assert_eq!((top[0].x, top[0].y, top[0].w, top[0].h), (0, 0, 4, 2));
}

struct EmptyGenerator;

impl WorldGenerator for EmptyGenerator {
    fn generate(&self, bounds: VoxelRange<i32>, _dimension_id: u32) -> Chunk {
        let size = bounds.get_size_unsigned();
        Chunk::new_solid(size.x as u8, size.y as u8, size.z as u8, 0)
    }
}

#[test]
fn raycast_termination_in_empty_world() {
    let gen = EmptyGenerator;
    let mut dim = Dimension::new();
    let observer = WorldPos { x: 8 * 256, y: 8 * 256, z: 8 * 256 };
    dim.load_unload_chunks_clientside(&observer, &gen);
    // Aim along +x from inside the loaded region: all air, so the ray
    // must leave the loaded chunks rather than loop.
    let mut ray = VoxelRaycast::new((8 * 256, 8 * 256, 8 * 256), (256, 13, 7));
    match raycast_to_solid(&dim, &mut ray, 100_000) {
        RaycastOutcome::LeftLoaded(_) => {},
        other => panic!("expected the ray to leave the loaded region, got {:?}", other),
    }
}

#[test]
fn raycast_finds_solid() {
    struct FloorGenerator;
    impl WorldGenerator for FloorGenerator {
        fn generate(&self, bounds: VoxelRange<i32>, _dimension_id: u32) -> Chunk {
            let size = bounds.get_size_unsigned();
            let mut c = Chunk::new_solid(size.x as u8, size.y as u8, size.z as u8, 0);
            if bounds.lower.y <= 0 && 0 < bounds.upper.y {
                for x in 0..size.x as u8 {
                    for z in 0..size.z as u8 {
                        c.set(VoxelPos { x, y: 0, z }, 5);
                    }
                }
            }
            c
        }
    }
    let gen = FloorGenerator;
    let mut dim = Dimension::new();
    let observer = WorldPos { x: 8 * 256, y: 8 * 256, z: 8 * 256 };
    dim.load_unload_chunks_clientside(&observer, &gen);
    // Look straight down from (8, 8, 8).
    let mut ray = VoxelRaycast::new((8 * 256 + 128, 8 * 256 + 128, 8 * 256 + 128), (0, -256, 0));
    match raycast_to_solid(&dim, &mut ray, 1000) {
        RaycastOutcome::HitSolid(p) => {
            assert_eq!((p.x, p.y, p.z), (8, 0, 8));
        },
        other => panic!("expected a hit on the floor, got {:?}", other),
    }
}

#[test]
fn mode_selection() {
    assert_eq!(select_mode(None, None).unwrap(), GameMode::Singleplayer);
    assert_eq!(
        select_mode(Some("127.0.0.1:17242".to_string()), None).unwrap(),
        GameMode::Server("127.0.0.1:17242".to_string())
    );
    assert_eq!(
        select_mode(None, Some("127.0.0.1:17242".to_string())).unwrap(),
        GameMode::JoinServer("127.0.0.1:17242".to_string())
    );
    assert_eq!(
        select_mode(Some("a".to_string()), Some("b".to_string())).unwrap_err(),
        CliError::BothServerAndJoin
    );
}

#[test]
fn tick_accumulation() {
    assert_eq!(consume_ticks(0, 49), (0, 49));
    assert_eq!(consume_ticks(0, 50), (1, 0));
    assert_eq!(consume_ticks(7, 163), (10, 13));
    assert_eq!(TICK_LENGTH_MS, 50);
}

#[test]
fn event_bus_delivers_in_order() {
    let mut bus: SimpleEventBus<u32> = SimpleEventBus::new();
    let a = bus.subscribe();
    bus.send(1);
    let b = bus.subscribe();
    bus.send(2);
    bus.process();
    assert_eq!(bus.poll_all(a), vec![1, 2]);
    assert_eq!(bus.poll_all(b), vec![1, 2]);
    bus.send(3);
    bus.process();
    assert_eq!(bus.poll_all(a), vec![3]);
    assert_eq!(bus.poll_all(b), vec![3]);
}

#[test]
fn server_tick_applies_and_broadcasts() {
    // The decision kernel of a multiplayer edit: a server with two
    // connected clients receives a block-break event, applies it to its
    // dimension within the tick, and queues the event back out to every
    // client, the originator included.
    struct StoneGenerator;
    impl WorldGenerator for StoneGenerator {
        fn generate(&self, bounds: VoxelRange<i32>, _dimension_id: u32) -> Chunk {
            let size = bounds.get_size_unsigned();
            Chunk::new_solid(size.x as u8, size.y as u8, size.z as u8, 1)
        }
    }
    let mut registry = DimensionRegistry::new();
    registry.insert(0, Dimension::new());
    let mut dim = registry.take_dimension(0).unwrap();
    let gen = StoneGenerator;
    dim.load_unload_chunks_serverside(
        &vec![WorldPos { x: 8 * 256, y: 8 * 256, z: 8 * 256 }],
        &gen,
    );

    let mut srv = ServerState::new();
    assert!(srv.client_connected(11));
    assert!(srv.client_connected(22));

    let broken = VoxelPos { x: 4, y: 4, z: 4 };
    assert_eq!(dim.get(broken).unwrap(), 1);
    srv.push_inbound(QualifiedToServerPacket {
        client_id: 11,
        pak: ToServerPacket {
            data: ToServerPacketData::VoxEv(VoxelEvent::SetOne(OneVoxelChange {
                new_value: 0,
                pos: broken,
            })),
        },
    });

    let mut events = Vec::new();
    for qpak in srv.poll() {
        if let ToServerPacketData::VoxEv(e) = qpak.pak.data {
            events.push(e);
        }
    }
    let report = apply_events(&mut dim, events);
    assert!(report.fatal.is_none());
    assert_eq!(dim.get(broken).unwrap(), 0);
    for e in &report.applied {
        srv.queue_broadcast(QualifiedToClientPacket {
            client_id: 11,
            pak: ToClientPacket { data: ToClientPacketData::VoxEv(*e) },
        });
    }
    for id in [11u64, 22u64] {
        let out = srv.take_outbound(id).unwrap();
        assert_eq!(out.len(), 1);
        match out[0].data {
            ToClientPacketData::VoxEv(VoxelEvent::SetOne(c)) => {
                assert_eq!(c.new_value, 0);
                assert_eq!(c.pos, broken);
            },
            _ => panic!("expected the voxel event to be echoed"),
        }
    }
    registry.put_dimension(0, dim);
}

#[test]
fn frame_splitting() {
    let mut buf: Vec<u8> = b"abc\nde\nxy".to_vec();
    let frames = split_frames(&mut buf);
    assert_eq!(frames.len(), 2);
    assert_eq!(frames[0], b"abc".to_vec());
    assert_eq!(frames[1], b"de".to_vec());
    assert_eq!(buf, b"xy".to_vec());
}

#[test]
fn pool_reuses_and_grows() {
    let mut pool = PoolAllocator::new();
    let a = pool.allocate(1000, 1);
    assert_eq!(a.chunk_id, 1);
    assert_eq!(a.offset, 0);
    let b = pool.allocate(1000, 1);
    assert_eq!(b.chunk_id, 1);
    assert_eq!(b.offset, 1000);
    // A whole-chunk request cannot share, so a second chunk appears.
    let big = pool.allocate(AUTO_POOL_CHUNK_SIZE, 1);
    assert_eq!(big.chunk_id, 2);
    assert!(pool.contains_chunk(2));
    assert!(pool.free_block(a.chunk_id, &a.block_id));
}

#[test]
fn debug_line_indices() {
    let idx = generate_chunk_debug_line_indices(2);
    assert_eq!(idx.len(), 24);
    assert_eq!(idx[0], 16);
    assert_eq!(idx[1], 17);
    assert_eq!(idx[23], 20);
}

#[test]
fn test_upsert_player_position() {
    let a = WorldPos { x: 1, y: 2, z: 3 };
    let b = WorldPos { x: 4, y: 5, z: 6 };
    let c = WorldPos { x: 7, y: 8, z: 9 };
    let mut table: Vec<(u64, WorldPos)> = Vec::new();
    upsert_player_position(&mut table, 10, a);
    upsert_player_position(&mut table, 20, b);
    assert_eq!(table, vec![(10, a), (20, b)]);
    upsert_player_position(&mut table, 10, c);
    assert_eq!(table, vec![(20, b), (10, c)]);
}
