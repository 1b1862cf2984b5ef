//! Various utility types: debug wireframe geometry for chunk boundaries
//! and the in-process event bus.

pub mod event;

use vstd::prelude::*;

verus! {

/// Emits the 24 line-list indices (top face, four vertical edges, bottom
/// face) for the cube at position `offset` in a packed vertex buffer,
/// where `offset` counts cubes of eight vertices each.
pub fn generate_chunk_debug_line_indices(offset: u32) -> (r: [u32; 24])
    requires
        offset * 8 + 7 <= u32::MAX,
    ensures
        forall|k: int| 0 <= k < 24 ==> #[trigger] r@[k] == offset * 8 + cube_edge_pattern(k),
{
    let o = offset * 8;
    let r = [
        o,
        1 + o,
        1 + o,
        2 + o,
        2 + o,
        3 + o,
        3 + o,
        o,
        o,
        4 + o,
        1 + o,
        5 + o,
        2 + o,
        6 + o,
        3 + o,
        7 + o,
        4 + o,
        5 + o,
        5 + o,
        6 + o,
        6 + o,
        7 + o,
        7 + o,
        4 + o,
    ];
    proof {
        assert forall|k: int| 0 <= k < 24 implies #[trigger] r@[k] == offset * 8
            + cube_edge_pattern(k) by {
            assert(r@ =~= seq![
                o,
                (1 + o) as u32,
                (1 + o) as u32,
                (2 + o) as u32,
                (2 + o) as u32,
                (3 + o) as u32,
                (3 + o) as u32,
                o,
                o,
                (4 + o) as u32,
                (1 + o) as u32,
                (5 + o) as u32,
                (2 + o) as u32,
                (6 + o) as u32,
                (3 + o) as u32,
                (7 + o) as u32,
                (4 + o) as u32,
                (5 + o) as u32,
                (5 + o) as u32,
                (6 + o) as u32,
                (6 + o) as u32,
                (7 + o) as u32,
                (7 + o) as u32,
                (4 + o) as u32,
            ]);
        }
    }
    r
}

/// The vertex offset, within one cube's eight corners, of the k-th entry
/// of the line list: the top face loop, the four vertical edges, and the
/// bottom face loop.
pub open spec fn cube_edge_pattern(k: int) -> int {
    seq![0int, 1, 1, 2, 2, 3, 3, 0, 0, 4, 1, 5, 2, 6, 3, 7, 4, 5, 5, 6, 6, 7, 7, 4][k]
}

} // verus!
