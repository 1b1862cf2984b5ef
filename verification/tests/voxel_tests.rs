use gestalt::voxel::voxelarray::VoxelArray;
use gestalt::voxel::voxelevent::{OneVoxelChange, SetVoxelRange, VoxelEvent, VoxelEventUntyped};
use gestalt::voxel::voxelmath::{VoxelPos, VoxelRange};
use gestalt::voxel::voxelstorage::{VoxelError, VoxelStorage, VoxelStorageBounded};

#[test]
fn test_array_raccess() {
    const OURSIZE: usize = 16 * 16 * 16;
    let mut test_chunk: Vec<u16> = Vec::with_capacity(OURSIZE);
    for i in 0..OURSIZE {
        test_chunk.push(i as u16);
    }

    let mut test_va: VoxelArray<u16, u16> = VoxelArray::load_new(16, 16, 16, test_chunk);

    let testpos = VoxelPos { x: 14, y: 14, z: 14 };
    assert!(test_va.get(testpos).unwrap() == 3822);
    test_va.set(testpos, 9);
    assert!(test_va.get(testpos).unwrap() == 9);
}

#[test]
fn test_array_iterative() {
    const OURSIZE: usize = 16 * 16 * 16;
    let mut test_chunk: Vec<u16> = Vec::with_capacity(OURSIZE);
    for _i in 0..OURSIZE {
        test_chunk.push(16);
    }

    let mut test_va: VoxelArray<u16, u16> = VoxelArray::load_new(16, 16, 16, test_chunk);
    let bounds = test_va.get_bounds();
    for x in bounds.lower.x..bounds.upper.x {
        for y in bounds.lower.y..bounds.upper.y {
            for z in bounds.lower.z..bounds.upper.z {
                let pos = VoxelPos { x, y, z };
                assert!(test_va.get(pos).unwrap() == 16);
                test_va.set(pos, pos.x as u16 % 10);
            }
        }
    }
    assert!(test_va.get(VoxelPos { x: 10, y: 0, z: 0 }).unwrap() == 0);
    assert!(test_va.get(VoxelPos { x: 11, y: 0, z: 0 }).unwrap() == 1);
}

#[test]
fn test_apply_voxel_event() {
    const OURSIZE: usize = (16 * 16 * 16) as usize;
    let array: Vec<String> = vec!["Hello!".to_string(); OURSIZE];
    let mut storage: VoxelArray<String, u32> = VoxelArray::load_new(16, 16, 16, array);
    let evt: OneVoxelChange<String, u32> =
        OneVoxelChange { new_value: "World!".to_string(), pos: VoxelPos { x: 7, y: 7, z: 7 } };
    evt.apply_blind(&mut storage).unwrap();
    assert_eq!(storage.get(VoxelPos { x: 6, y: 6, z: 6 }).unwrap(), "Hello!".to_string());
    assert_eq!(storage.get(VoxelPos { x: 7, y: 7, z: 7 }).unwrap(), "World!".to_string());
}

#[test]
fn voxel_array_round_trip_and_bounds() {
    let mut va: VoxelArray<u16, u16> = VoxelArray::new_solid(8, 8, 8, 5);
    let inside = VoxelPos { x: 3u16, y: 7, z: 0 };
    va.set(inside, 44);
    assert_eq!(va.get(inside).unwrap(), 44);
    let outside = VoxelPos { x: 3u16, y: 8, z: 0 };
    assert!(va.get(outside).is_none());
    va.set(outside, 99);
    assert!(va.get(outside).is_none());
    assert_eq!(va.get(inside).unwrap(), 44);
}

#[test]
fn voxel_event_idempotent() {
    let mut va: VoxelArray<u32, u8> = VoxelArray::new_solid(4, 4, 4, 1);
    let evt = VoxelEvent::SetOne(OneVoxelChange { new_value: 9u32, pos: VoxelPos { x: 2u8, y: 2, z: 2 } });
    evt.apply_blind(&mut va).unwrap();
    let after_once: Vec<u32> = collect_contents(&va);
    evt.apply_blind(&mut va).unwrap();
    let after_twice: Vec<u32> = collect_contents(&va);
    assert_eq!(after_once, after_twice);
}

#[test]
fn voxel_range_event_fills_box() {
    let mut va: VoxelArray<u32, u8> = VoxelArray::new_solid(4, 4, 4, 0);
    let evt = VoxelEvent::SetRange(SetVoxelRange {
        new_value: 7u32,
        range: VoxelRange {
            lower: VoxelPos { x: 1u8, y: 1, z: 1 },
            upper: VoxelPos { x: 3u8, y: 3, z: 3 },
        },
    });
    evt.apply_blind(&mut va).unwrap();
    for x in 0u8..4 {
        for y in 0u8..4 {
            for z in 0u8..4 {
                let inside = (1..3).contains(&x) && (1..3).contains(&y) && (1..3).contains(&z);
                let v = va.get(VoxelPos { x, y, z }).unwrap();
                assert_eq!(v, if inside { 7 } else { 0 });
            }
        }
    }
}

#[test]
fn out_of_bounds_event_reports_error() {
    let mut va: VoxelArray<u32, u8> = VoxelArray::new_solid(4, 4, 4, 0);
    let evt = VoxelEvent::SetOne(OneVoxelChange { new_value: 1u32, pos: VoxelPos { x: 9u8, y: 0, z: 0 } });
    assert_eq!(evt.apply_blind(&mut va).unwrap_err(), VoxelError::OutOfBounds);
}

fn collect_contents(va: &VoxelArray<u32, u8>) -> Vec<u32> {
    let mut out = Vec::new();
    for x in 0u8..4 {
        for y in 0u8..4 {
            for z in 0u8..4 {
                out.push(va.get(VoxelPos { x, y, z }).unwrap());
            }
        }
    }
    out
}

#[test]
fn test_range_positions_order() {
    let range: VoxelRange<i32> = VoxelRange {
        lower: VoxelPos { x: 1, y: 0, z: -1 },
        upper: VoxelPos { x: 3, y: 1, z: 2 },
    };
    let ps = range.positions();
    assert_eq!(ps.len(), 2 * 1 * 3);
    assert_eq!(ps[0], VoxelPos { x: 1, y: 0, z: -1 });
    assert_eq!(ps[1], VoxelPos { x: 1, y: 0, z: 0 });
    assert_eq!(ps[2], VoxelPos { x: 1, y: 0, z: 1 });
    assert_eq!(ps[3], VoxelPos { x: 2, y: 0, z: -1 });
    assert_eq!(ps[4], VoxelPos { x: 2, y: 0, z: 0 });
    assert_eq!(ps[5], VoxelPos { x: 2, y: 0, z: 1 });
    for p in ps.iter() {
        assert!(range.contains(*p));
    }
}

#[test]
fn test_range_positions_empty() {
    let range: VoxelRange<i32> = VoxelRange {
        lower: VoxelPos { x: 5, y: 5, z: 5 },
        upper: VoxelPos { x: 5, y: 9, z: 9 },
    };
    assert!(range.positions().is_empty());
}
