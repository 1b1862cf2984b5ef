//! World generator types: the capability of producing a chunk's voxel
//! contents for a region of world space.

use vstd::prelude::*;

use crate::voxel::voxelarray::{
    lemma_flat_index_bound, lemma_flat_index_injective, spec_xyz_to_i, VoxelArray,
};
use crate::voxel::voxelmath::VoxelRange;
use crate::voxel::voxelstorage::VoxelStorage;
use crate::world::block::{BlockID, Chunk};

verus! {

/// Trait for world generators. The dimension validates the produced
/// chunk's shape defensively, so implementations owe nothing beyond a
/// chunk value.
pub trait WorldGenerator {
    /// Generates a chunk covering the given world-space bounds.
    fn generate(&self, bounds: VoxelRange<i32>, dimension_id: u32) -> (r: Chunk);
}

/// What terrain sampling decided for one (x, z) column of a chunk: the
/// absolute height up to which blocks are solid, and the block id the
/// solid cells hold.
#[derive(Clone, Copy, Debug, PartialEq, Eq, Structural)]
pub struct ColumnSample {
    pub height: i32,
    pub block_id: BlockID,
}

/// The block a cell of a column-sampled chunk holds: the column's block
/// id up to the column's height, and air above it. Columns are indexed
/// x-major.
pub open spec fn column_cell(
    columns: Seq<ColumnSample>,
    lower_y: int,
    sz: int,
    x: int,
    y: int,
    z: int,
) -> BlockID {
    let col = columns[x * sz + z];
    if lower_y + y <= col.height {
        col.block_id
    } else {
        0
    }
}

/// Builds a chunk's voxel contents from per-column terrain samples: for
/// every column, cells at or below the sampled height hold the sampled
/// block id and cells above hold air. The contents are a pure function
/// of the bounds and samples, so generation is deterministic.
pub fn chunk_from_columns(bounds: VoxelRange<i32>, columns: &Vec<ColumnSample>) -> (r: Chunk)
    requires
        bounds.valid(),
        1 <= VoxelRange::spec_extent(bounds.lower.x, bounds.upper.x) <= 255,
        1 <= VoxelRange::spec_extent(bounds.lower.y, bounds.upper.y) <= 255,
        1 <= VoxelRange::spec_extent(bounds.lower.z, bounds.upper.z) <= 255,
        columns@.len() == VoxelRange::spec_extent(bounds.lower.x, bounds.upper.x)
            * VoxelRange::spec_extent(bounds.lower.z, bounds.upper.z),
    ensures
        r.spec_size() == (
            VoxelRange::spec_extent(bounds.lower.x, bounds.upper.x),
            VoxelRange::spec_extent(bounds.lower.y, bounds.upper.y),
            VoxelRange::spec_extent(bounds.lower.z, bounds.upper.z),
        ),
        forall|p: (int, int, int)| #[trigger]
            r.cells().dom().contains(p) ==> r.cells()[p] == column_cell(
                columns@,
                bounds.lower.y as int,
                VoxelRange::spec_extent(bounds.lower.z, bounds.upper.z),
                p.0,
                p.1,
                p.2,
            ),
{
    let size = bounds.get_size_unsigned();
    let sx = size.x as usize;
    let sy = size.y as usize;
    let sz = size.z as usize;
    let mut dat: Vec<BlockID> = Vec::new();
    let mut z: usize = 0;
    while z < sz
        invariant
            1 <= sx <= 255,
            1 <= sy <= 255,
            1 <= sz <= 255,
            columns@.len() == sx * sz,
            0 <= z <= sz,
            dat@.len() == z * (sx * sy),
            forall|x2: int, y2: int, z2: int|
                0 <= x2 < sx && 0 <= y2 < sy && 0 <= z2 < sz && spec_xyz_to_i(x2, y2, z2, sx as int, sy as int)
                    < dat@.len() ==> #[trigger] dat@[spec_xyz_to_i(x2, y2, z2, sx as int, sy as int)]
                    == column_cell(columns@, bounds.lower.y as int, sz as int, x2, y2, z2),
        decreases sz - z,
    {
        let mut y: usize = 0;
        while y < sy
            invariant
                1 <= sx <= 255,
                1 <= sy <= 255,
                1 <= sz <= 255,
                columns@.len() == sx * sz,
                0 <= z < sz,
                0 <= y <= sy,
                dat@.len() == z * (sx * sy) + y * sx,
                forall|x2: int, y2: int, z2: int|
                    0 <= x2 < sx && 0 <= y2 < sy && 0 <= z2 < sz && spec_xyz_to_i(x2, y2, z2, sx as int, sy as int)
                        < dat@.len() ==> #[trigger] dat@[spec_xyz_to_i(x2, y2, z2, sx as int, sy as int)]
                        == column_cell(columns@, bounds.lower.y as int, sz as int, x2, y2, z2),
            decreases sy - y,
        {
            let mut x: usize = 0;
            while x < sx
                invariant
                    1 <= sx <= 255,
                    1 <= sy <= 255,
                    1 <= sz <= 255,
                    columns@.len() == sx * sz,
                    0 <= z < sz,
                    0 <= y < sy,
                    0 <= x <= sx,
                    dat@.len() == z * (sx * sy) + y * sx + x,
                    forall|x2: int, y2: int, z2: int|
                        0 <= x2 < sx && 0 <= y2 < sy && 0 <= z2 < sz && spec_xyz_to_i(x2, y2, z2, sx as int, sy as int)
                            < dat@.len() ==> #[trigger] dat@[spec_xyz_to_i(x2, y2, z2, sx as int, sy as int)]
                            == column_cell(columns@, bounds.lower.y as int, sz as int, x2, y2, z2),
                decreases sx - x,
            {
                proof {
                    lemma_flat_index_bound(z as int, x as int, 0, sz as int, sx as int, 1);
                    assert((sz as int) * (sx as int) == (sx as int) * (sz as int) && (sz as int) * (
                    sx as int) <= 255 * 255) by (nonlinear_arith)
                        requires
                            1 <= sx <= 255,
                            1 <= sz <= 255,
                    ;
                }
                let ci = x * sz + z;
                let col = columns[ci];
                let lower_plus = (bounds.lower.y as i64) + (y as i64);
                let cell: BlockID = if lower_plus <= (col.height as i64) {
                    col.block_id
                } else {
                    0
                };
                dat.push(cell);
                proof {
                    lemma_flat_index_bound(x as int, y as int, z as int, sx as int, sy as int, sz as int);
                    assert(spec_xyz_to_i(x as int, y as int, z as int, sx as int, sy as int)
                        == dat@.len() - 1);
                    assert forall|x2: int, y2: int, z2: int|
                        0 <= x2 < sx && 0 <= y2 < sy && 0 <= z2 < sz && spec_xyz_to_i(x2, y2, z2, sx as int, sy as int)
                            < dat@.len() implies #[trigger] dat@[spec_xyz_to_i(x2, y2, z2, sx as int, sy as int)]
                        == column_cell(columns@, bounds.lower.y as int, sz as int, x2, y2, z2) by {
                        lemma_flat_index_bound(x2, y2, z2, sx as int, sy as int, sz as int);
                        if spec_xyz_to_i(x2, y2, z2, sx as int, sy as int) == dat@.len() - 1 {
                            if x2 != x || y2 != y || z2 != z {
                                lemma_flat_index_injective(
                                    sx as int,
                                    sy as int,
                                    (x2, y2, z2),
                                    (x as int, y as int, z as int),
                                );
                            }
                            assert(dat@[dat@.len() - 1] == cell);
                        }
                    }
                }
                x = x + 1;
            }
            proof {
                assert((y + 1) * (sx as int) == y * (sx as int) + sx) by (nonlinear_arith);
            }
            y = y + 1;
        }
        proof {
            assert(z * ((sx as int) * (sy as int)) + (sy as int) * (sx as int) == (z + 1) * ((
            sx as int) * (sy as int))) by (nonlinear_arith);
        }
        z = z + 1;
    }
    proof {
        assert((sx as int) * (sy as int) <= 255 * 255) by (nonlinear_arith)
            requires
                1 <= sx <= 255,
                1 <= sy <= 255,
        ;
        assert((sz as int) * ((sx as int) * (sy as int)) <= 255 * 255 * 255 && (sz as int) * ((
        sx as int) * (sy as int)) == (sx as int) * (sy as int) * (sz as int)) by (nonlinear_arith)
            requires
                1 <= sx <= 255,
                1 <= sy <= 255,
                1 <= sz <= 255,
        ;
    }
    let r = VoxelArray::load_new(size.x as u8, size.y as u8, size.z as u8, dat);
    proof {
        assert forall|p: (int, int, int)| #[trigger]
            r.cells().dom().contains(p) implies r.cells()[p] == column_cell(
            columns@,
            bounds.lower.y as int,
            sz as int,
            p.0,
            p.1,
            p.2,
        ) by {
            lemma_flat_index_bound(p.0, p.1, p.2, sx as int, sy as int, sz as int);
        }
    }
    r
}

/// Chunk generation from column samples is deterministic: two chunks
/// whose cells both follow the same bounds and column samples hold
/// identical contents.
pub proof fn lemma_generation_deterministic(
    c1: Chunk,
    c2: Chunk,
    columns: Seq<ColumnSample>,
    lower_y: int,
    sz: int,
)
    requires
        c1.spec_size() == c2.spec_size(),
        forall|p: (int, int, int)| #[trigger]
            c1.cells().dom().contains(p) ==> c1.cells()[p] == column_cell(
                columns,
                lower_y,
                sz,
                p.0,
                p.1,
                p.2,
            ),
        forall|p: (int, int, int)| #[trigger]
            c2.cells().dom().contains(p) ==> c2.cells()[p] == column_cell(
                columns,
                lower_y,
                sz,
                p.0,
                p.1,
                p.2,
            ),
    ensures
        c1.cells() == c2.cells(),
{
    assert(c1.cells() =~= c2.cells());
}

} // verus!
