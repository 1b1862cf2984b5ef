//! Simplified mesh generator: turns a dense block grid into a small
//! number of textured quads using greedy meshing, with inner faces culled.

use vstd::prelude::*;

use crate::voxel::voxelarray::{lemma_flat_index_bound, lemma_flat_index_injective, spec_xyz_to_i};
use crate::voxel::voxelmath::{VoxelAxis, VoxelAxisUnsigned, VoxelPos, VoxelRange};
use crate::voxel::voxelstorage::VoxelStorage;
use crate::world::block::{BlockID, Chunk};
use crate::geometry::mesh::Mesh;
use crate::geometry::vertexgroup::{ChunkVertex, VertexGroup};

verus! {

/// The world-space bounds of the chunk being meshed.
pub type ChunkBounds = VoxelRange<i32>;

/// One cell of a 2D slice mask, used internally to represent unoptimized
/// quads: its slice coordinates, whether a face must be drawn there, a
/// claim marker, and the block id of the voxel behind the face.
#[derive(Clone, Copy, Debug, PartialEq, Eq, Structural)]
pub struct InputQuad {
    pub x: usize,
    pub y: usize,
    pub present: bool,
    pub done: bool,
    pub block_id: BlockID,
}

/// A quad of an optimized mesh: position and extent within its slice,
/// and the block id its face shows.
#[derive(Clone, Copy, Debug, PartialEq, Eq, Structural)]
pub struct OutputQuad {
    pub x: usize,
    pub y: usize,
    pub w: usize,
    pub h: usize,
    pub block_id: BlockID,
}

/// The mask cell of a slice at the given coordinates.
pub open spec fn slice_cell(s: Seq<InputQuad>, w: int, i: int, j: int) -> InputQuad {
    s[j * w + i]
}

/// Whether an output quad covers a slice cell.
pub open spec fn quad_covers(q: OutputQuad, i: int, j: int) -> bool {
    q.x <= i < q.x + q.w && q.y <= j < q.y + q.h
}

/// Whether a quad list is an exact cover of the present cells of a
/// slice: every quad lies inside the slice over cells that are present
/// and share its block id, no two quads overlap, and every present cell
/// is covered.
pub open spec fn exact_cover(r: Seq<OutputQuad>, s: Seq<InputQuad>, w: int, h: int) -> bool {
    &&& forall|k: int|
        0 <= k < r.len() ==> {
            let q = #[trigger] r[k];
            1 <= q.w && 1 <= q.h && q.x + q.w <= w && q.y + q.h <= h
        }
    &&& forall|k: int, i: int, j: int|
        0 <= k < r.len() && 0 <= i && 0 <= j && #[trigger] quad_covers(r[k], i, j) ==> (
        #[trigger] slice_cell(s, w, i, j)).present && slice_cell(s, w, i, j).block_id
            == r[k].block_id
    &&& forall|k1: int, k2: int, i: int, j: int|
        0 <= k1 < k2 < r.len() ==> !(#[trigger] quad_covers(r[k1], i, j)
            && #[trigger] quad_covers(r[k2], i, j))
    &&& forall|i: int, j: int|
        0 <= i < w && 0 <= j < h && (#[trigger] slice_cell(s, w, i, j)).present ==> exists|k: int|
            0 <= k < r.len() && quad_covers(#[trigger] r[k], i, j)
}

/// Whether a slice cell is covered by one of the first `k` quads.
pub open spec fn covered_by_prefix(r: Seq<OutputQuad>, k: int, i: int, j: int) -> bool {
    exists|k2: int| 0 <= k2 < k && #[trigger] quad_covers(r[k2], i, j)
}

/// Whether a slice cell could extend a quad: present with the quad's
/// block id.
pub open spec fn cell_extends(s: Seq<InputQuad>, w: int, q: OutputQuad, i: int, j: int) -> bool {
    (slice_cell(s, w, i, j)).present && slice_cell(s, w, i, j).block_id == q.block_id
}

/// Whether one quad of a list is greedily placed: every present cell
/// scanned before its corner is covered by an earlier quad, it cannot
/// grow one cell to the right, and it cannot grow one full row down,
/// relative to the cells the earlier quads left unclaimed.
pub open spec fn greedy_at(r: Seq<OutputQuad>, s: Seq<InputQuad>, w: int, h: int, k: int) -> bool {
    greedy_scan_part(r, s, w, h, k) && greedy_width_part(r, s, w, h, k) && greedy_height_part(
        r,
        s,
        w,
        h,
        k,
    )
}

/// Every present cell scanned before the quad's corner is covered by an
/// earlier quad.
pub open spec fn greedy_scan_part(
    r: Seq<OutputQuad>,
    s: Seq<InputQuad>,
    w: int,
    h: int,
    k: int,
) -> bool {
    forall|i: int, j: int|
        0 <= i < w && 0 <= j < h && (j < r[k].y || (j == r[k].y && i < r[k].x)) && (
        #[trigger] slice_cell(s, w, i, j)).present ==> covered_by_prefix(r, k, i, j)
}

/// The quad cannot grow one cell to the right over what the earlier
/// quads left unclaimed.
pub open spec fn greedy_width_part(
    r: Seq<OutputQuad>,
    s: Seq<InputQuad>,
    w: int,
    h: int,
    k: int,
) -> bool {
    r[k].x + r[k].w < w ==> !cell_extends(s, w, r[k], r[k].x + r[k].w, r[k].y as int)
        || covered_by_prefix(r, k, r[k].x + r[k].w, r[k].y as int)
}

/// The quad cannot grow one full row down over what the earlier quads
/// left unclaimed.
pub open spec fn greedy_height_part(
    r: Seq<OutputQuad>,
    s: Seq<InputQuad>,
    w: int,
    h: int,
    k: int,
) -> bool {
    r[k].y + r[k].h < h ==> exists|t: int|
        #![trigger slice_cell(s, w, t, r[k].y + r[k].h)]
        r[k].x <= t < r[k].x + r[k].w && (!cell_extends(s, w, r[k], t, r[k].y + r[k].h)
            || covered_by_prefix(r, k, t, r[k].y + r[k].h))
}

/// Whether a quad list is the greedy tiling of a slice: quads appear in
/// row-major discovery order and each is maximal over what the earlier
/// quads left unclaimed.
pub open spec fn greedy_cover(r: Seq<OutputQuad>, s: Seq<InputQuad>, w: int, h: int) -> bool {
    forall|k: int| 0 <= k < r.len() ==> #[trigger] greedy_at(r, s, w, h, k)
}

/// Greedy placement of a quad depends only on the quads before it, so
/// extending the list does not disturb it.
proof fn lemma_greedy_at_prefix(
    r0: Seq<OutputQuad>,
    r1: Seq<OutputQuad>,
    s: Seq<InputQuad>,
    w: int,
    h: int,
    k: int,
)
    requires
        r1.len() >= r0.len(),
        forall|k3: int| 0 <= k3 < r0.len() ==> r1[k3] == r0[k3],
        0 <= k < r0.len(),
        greedy_at(r0, s, w, h, k),
    ensures
        greedy_at(r1, s, w, h, k),
{
    let q = r0[k];
    assert(r1[k] == q);
    assert forall|i: int, j: int|
        0 <= i < w && 0 <= j < h && (j < q.y || (j == q.y && i < q.x)) && (#[trigger] slice_cell(
            s,
            w,
            i,
            j,
        )).present implies covered_by_prefix(r1, k, i, j) by {
        assert(covered_by_prefix(r0, k, i, j));
        let k2 = choose|k2: int| 0 <= k2 < k && #[trigger] quad_covers(r0[k2], i, j);
        assert(quad_covers(r1[k2], i, j));
    }
    if q.x + q.w < w {
        if covered_by_prefix(r0, k, q.x + q.w, q.y as int) {
            let k2 = choose|k2: int|
                0 <= k2 < k && #[trigger] quad_covers(r0[k2], q.x + q.w, q.y as int);
            assert(quad_covers(r1[k2], q.x + q.w, q.y as int));
        }
    }
    if q.y + q.h < h {
        let t = choose|t: int|
            #![trigger slice_cell(s, w, t, r0[k].y + r0[k].h)]
            r0[k].x <= t < r0[k].x + r0[k].w && (!cell_extends(s, w, r0[k], t, r0[k].y + r0[k].h)
                || covered_by_prefix(r0, k, t, r0[k].y + r0[k].h));
        if covered_by_prefix(r0, k, t, q.y + q.h) {
            let k2 = choose|k2: int|
                0 <= k2 < k && #[trigger] quad_covers(r0[k2], t, q.y + q.h);
            assert(quad_covers(r1[k2], t, q.y + q.h));
            assert(covered_by_prefix(r1, k, t, q.y + q.h));
        }
        assert(r1[k].x <= t < r1[k].x + r1[k].w && (!cell_extends(s, w, r1[k], t, r1[k].y + r1[k].h)
            || covered_by_prefix(r1, k, t, r1[k].y + r1[k].h)));
        assert(slice_cell(s, w, t, r1[k].y + r1[k].h) == slice_cell(s, w, t, r0[k].y + r0[k].h));
    }
}

/// On a slice whose every cell is present with one shared block id, a
/// greedy exact cover is a single quad spanning the whole slice.
pub proof fn lemma_uniform_slice_single_quad(
    r: Seq<OutputQuad>,
    s: Seq<InputQuad>,
    w: int,
    h: int,
    b: BlockID,
)
    requires
        exact_cover(r, s, w, h),
        greedy_cover(r, s, w, h),
        1 <= w,
        1 <= h,
        forall|i: int, j: int|
            0 <= i < w && 0 <= j < h ==> (#[trigger] slice_cell(s, w, i, j)).present && slice_cell(
                s,
                w,
                i,
                j,
            ).block_id == b,
    ensures
        r.len() == 1,
        r[0] == (OutputQuad { x: 0, y: 0, w: w as usize, h: h as usize, block_id: b }),
{
    assert(slice_cell(s, w, 0, 0).present);
    assert(exists|k: int| 0 <= k < r.len() && quad_covers(#[trigger] r[k], 0, 0));
    let k0 = choose|k: int| 0 <= k < r.len() && quad_covers(#[trigger] r[k], 0, 0);
    assert(r.len() >= 1);
    let q = r[0];
    assert(greedy_at(r, s, w, h, 0));
    assert(q.x == 0 && q.y == 0) by {
        if q.y > 0 || q.x > 0 {
            assert(slice_cell(s, w, 0, 0).present);
            assert(covered_by_prefix(r, 0, 0, 0));
        }
    }
    assert(q.block_id == b) by {
        assert(quad_covers(q, 0, 0));
        assert(slice_cell(s, w, 0, 0).block_id == q.block_id);
    }
    assert(q.x + q.w == w) by {
        if q.x + q.w < w {
            assert(cell_extends(s, w, q, q.x + q.w, q.y as int));
            assert(!covered_by_prefix(r, 0, q.x + q.w, q.y as int));
        }
    }
    assert(q.y + q.h == h) by {
        if q.y + q.h < h {
            let t = choose|t: int|
                q.x <= t < q.x + q.w && (!(#[trigger] cell_extends(s, w, q, t, q.y + q.h))
                    || covered_by_prefix(r, 0, t, q.y + q.h));
            assert(cell_extends(s, w, q, t, q.y + q.h));
            assert(!covered_by_prefix(r, 0, t, q.y + q.h));
        }
    }
    assert(r.len() == 1) by {
        if r.len() >= 2 {
            let q1 = r[1];
            assert(quad_covers(q1, q1.x as int, q1.y as int));
            assert(0 <= q1.x < w && 0 <= q1.y < h);
            assert(quad_covers(q, q1.x as int, q1.y as int));
            assert(!(quad_covers(r[0], q1.x as int, q1.y as int) && quad_covers(
                r[1],
                q1.x as int,
                q1.y as int,
            )));
        }
    }
}

/// An exact cover holds at most one quad per slice cell.
pub proof fn lemma_exact_cover_count(r: Seq<OutputQuad>, s: Seq<InputQuad>, w: int, h: int)
    requires
        exact_cover(r, s, w, h),
        0 <= w,
        0 <= h,
    ensures
        r.len() <= w * h,
{
    broadcast use vstd::seq_lib::seq_to_set_is_finite;

    if r.len() == 0 {
        assert(0 <= w * h) by (nonlinear_arith)
            requires
                0 <= w,
                0 <= h,
        ;
    } else {
        let corners = Seq::new(r.len(), |k: int| r[k].y * w + r[k].x);
        assert forall|k1: int, k2: int|
            0 <= k1 < k2 < r.len() implies corners[k1] != corners[k2] by {
            assert(quad_covers(r[k1], r[k1].x as int, r[k1].y as int));
            assert(quad_covers(r[k2], r[k2].x as int, r[k2].y as int));
            if corners[k1] == corners[k2] {
                if r[k1].x == r[k2].x && r[k1].y == r[k2].y {
                    assert(quad_covers(r[k1], r[k2].x as int, r[k2].y as int));
                    assert(!(quad_covers(r[k1], r[k2].x as int, r[k2].y as int) && quad_covers(
                        r[k2],
                        r[k2].x as int,
                        r[k2].y as int,
                    )));
                } else {
                    lemma_flat_index_injective(
                        w,
                        h,
                        (r[k1].x as int, r[k1].y as int, 0),
                        (r[k2].x as int, r[k2].y as int, 0),
                    );
                }
            }
        }
        corners.unique_seq_to_set();
        let cells = vstd::set_lib::set_int_range(0, w * h);
        vstd::set_lib::lemma_int_range(0, w * h);
        assert forall|x: int| corners.to_set().contains(x) implies cells.contains(x) by {
            let k = choose|k: int| 0 <= k < corners.len() && corners[k] == x;
            lemma_flat_index_bound(r[k].x as int, r[k].y as int, 0, w, h, 1);
        }
        vstd::set_lib::lemma_len_subset(corners.to_set(), cells);
    }
}

/// Whether the chunk shows at least one visible face of this block id.
pub open spec fn chunk_has_face(c: &Chunk, b: BlockID) -> bool {
    exists|facing: VoxelAxis, layer: int, xi: int, yi: int| #[trigger]
        face_visible(c, facing, layer, xi, yi) && face_block(c, facing, layer, xi, yi) == b
}

/// Whether one vertex group is backed by a visible face: its material
/// is the low byte of a non-air block id that the chunk shows, and it
/// holds at least one quad.
pub open spec fn group_backed(chunk: &Chunk, groups: Seq<VertexGroup>, g: int) -> bool {
    exists|b: BlockID|
        b != 0 && #[trigger] chunk_has_face(chunk, b) && groups[g].material_id == b as u8
            && groups[g].vertices@.len() >= 4
}

/// A visible face lies inside its facing's slice ranges.
pub proof fn lemma_face_visible_bounds(
    c: &Chunk,
    facing: VoxelAxis,
    layer: int,
    xi: int,
    yi: int,
)
    requires
        face_visible(c, facing, layer, xi, yi),
    ensures
        0 <= layer < layer_count(c, facing),
        0 <= xi < slice_width(c, facing),
        0 <= yi < slice_height(c, facing),
{
    assert(c.in_bounds(slice_local(facing, layer, xi, yi)));
}

/// Simplified mesh generator.
///
/// Generates a list of quads to render a chunk, optimized using greedy
/// meshing.
pub struct MeshSimplifier;

/// Placeholder error for mesh generation; no failure path constructs it.
#[derive(Debug, Clone, Copy, PartialEq, Eq, Structural)]
pub struct ChunkMeshError;

/// Whether every cell of a row segment is present with the given block
/// id and unclaimed.
spec fn row_segment_free(
    s: Seq<InputQuad>,
    claimed: Seq<bool>,
    w: int,
    x: int,
    qw: int,
    row: int,
    id: BlockID,
) -> bool {
    forall|t: int|
        x <= t < x + qw ==> (#[trigger] slice_cell(s, w, t, row)).present && slice_cell(
            s,
            w,
            t,
            row,
        ).block_id == id && !claimed[row * w + t]
}

/// A row segment that is not free has a failing cell in it.
proof fn lemma_not_row_free_witness(
    s: Seq<InputQuad>,
    claimed: Seq<bool>,
    w: int,
    x: int,
    qw: int,
    row: int,
    id: BlockID,
)
    requires
        !row_segment_free(s, claimed, w, x, qw, row, id),
    ensures
        exists|t: int|
            x <= t < x + qw && !((#[trigger] slice_cell(s, w, t, row)).present && slice_cell(
                s,
                w,
                t,
                row,
            ).block_id == id && !claimed[row * w + t]),
{
    if forall|t: int|
        x <= t < x + qw ==> ((#[trigger] slice_cell(s, w, t, row)).present && slice_cell(
            s,
            w,
            t,
            row,
        ).block_id == id && !claimed[row * w + t]) {
        assert(row_segment_free(s, claimed, w, x, qw, row, id));
    }
}

impl MeshSimplifier {
    /// Checks one row segment for extension: every cell present,
    /// unclaimed, and of the given block id.
    fn row_matches(
        cells: &Vec<InputQuad>,
        claimed: &Vec<bool>,
        w: usize,
        h: usize,
        x: usize,
        qw: usize,
        row: usize,
        id: BlockID,
    ) -> (r: bool)
        requires
            cells@.len() == w * h,
            claimed@.len() == w * h,
            w * h <= usize::MAX,
            x + qw <= w,
            row < h,
            qw >= 1,
        ensures
            r == row_segment_free(cells@, claimed@, w as int, x as int, qw as int, row as int, id),
    {
        let mut t: usize = 0;
        while t < qw
            invariant
                cells@.len() == w * h,
                claimed@.len() == w * h,
                w * h <= usize::MAX,
                x + qw <= w,
                row < h,
                t <= qw,
                forall|u: int|
                    x <= u < x + t ==> (#[trigger] slice_cell(
                        cells@,
                        w as int,
                        u,
                        row as int,
                    )).present && slice_cell(cells@, w as int, u, row as int).block_id == id
                        && !claimed@[row as int * w + u],
            decreases qw - t,
        {
            proof {
                lemma_flat_index_bound(x + t, row as int, 0, w as int, h as int, 1);
            }
            let idx = row * w + (x + t);
            let c = cells[idx];
            if !c.present || claimed[idx] || c.block_id != id {
                proof {
                    assert(slice_cell(cells@, w as int, x + t, row as int) == cells@[idx as int]);
                }
                return false;
            }
            t = t + 1;
        }
        true
    }

    /// Generates one 2D slice of the mesh: greedily merges the present
    /// cells of the slice into maximal axis-aligned rectangles of uniform
    /// block id that cover every present cell exactly once.
    pub fn process_slice(input_quads: Vec<InputQuad>, slice_width: usize, slice_height: usize) -> (r:
        Vec<OutputQuad>)
        requires
            input_quads@.len() == slice_width * slice_height,
            slice_width * slice_height <= usize::MAX,
        ensures
            exact_cover(r@, input_quads@, slice_width as int, slice_height as int),
            greedy_cover(r@, input_quads@, slice_width as int, slice_height as int),
    {
        let w = slice_width;
        let h = slice_height;
        let ghost cellsq = input_quads@;
        let mut claimed: Vec<bool> = Vec::new();
        let total = w * h;
        while claimed.len() < total
            invariant
                claimed@.len() <= total,
                forall|idx: int| 0 <= idx < claimed@.len() ==> !(#[trigger] claimed@[idx]),
            decreases total - claimed@.len(),
        {
            claimed.push(false);
        }
        proof {
            assert forall|i2: int, j2: int| 0 <= i2 < w && 0 <= j2 < h implies !(
            #[trigger] claimed@[j2 * w + i2]) by {
                lemma_flat_index_bound(i2, j2, 0, w as int, h as int, 1);
            }
        }
        let mut out: Vec<OutputQuad> = Vec::new();
        let mut j: usize = 0;
        while j < h
            invariant
                cellsq == input_quads@,
                cellsq.len() == w * h,
                claimed@.len() == w * h,
                w * h <= usize::MAX,
                j <= h,
                slice_loop_inv(out@, cellsq, claimed@, w as int, h as int),
                greedy_cover(out@, cellsq, w as int, h as int),
                forall|i2: int, j2: int|
                    0 <= i2 < w && 0 <= j2 < j && (#[trigger] slice_cell(
                        cellsq,
                        w as int,
                        i2,
                        j2,
                    )).present ==> claimed@[j2 * w + i2],
            decreases h - j,
        {
            let mut i: usize = 0;
            while i < w
                invariant
                    cellsq == input_quads@,
                    cellsq.len() == w * h,
                    claimed@.len() == w * h,
                    w * h <= usize::MAX,
                    j < h,
                    i <= w,
                    slice_loop_inv(out@, cellsq, claimed@, w as int, h as int),
                    greedy_cover(out@, cellsq, w as int, h as int),
                    forall|i2: int, j2: int|
                        0 <= i2 < w && 0 <= j2 < j && (#[trigger] slice_cell(
                            cellsq,
                            w as int,
                            i2,
                            j2,
                        )).present ==> claimed@[j2 * w + i2],
                    forall|i2: int|
                        0 <= i2 < i && (#[trigger] slice_cell(
                            cellsq,
                            w as int,
                            i2,
                            j as int,
                        )).present ==> claimed@[j as int * w + i2],
                decreases w - i,
            {
                proof {
                    lemma_flat_index_bound(i as int, j as int, 0, w as int, h as int, 1);
                }
                let idx = j * w + i;
                let c = input_quads[idx];
                if c.present && !claimed[idx] {
                    let id = c.block_id;
                    let mut qw: usize = 1;
                    while i + qw < w
                        invariant_except_break
                            cellsq == input_quads@,
                            cellsq.len() == w * h,
                            claimed@.len() == w * h,
                            w * h <= usize::MAX,
                            j < h,
                            i < w,
                            1 <= qw,
                            i + qw <= w,
                            row_segment_free(
                                cellsq,
                                claimed@,
                                w as int,
                                i as int,
                                qw as int,
                                j as int,
                                id,
                            ),
                        ensures
                            1 <= qw,
                            i + qw <= w,
                            row_segment_free(
                                cellsq,
                                claimed@,
                                w as int,
                                i as int,
                                qw as int,
                                j as int,
                                id,
                            ),
                            i + qw == w || !((slice_cell(cellsq, w as int, i + qw, j as int)).present
                                && !claimed@[j as int * w + (i + qw)] && slice_cell(
                                cellsq,
                                w as int,
                                i + qw,
                                j as int,
                            ).block_id == id),
                        decreases w - i - qw,
                    {
                        proof {
                            lemma_flat_index_bound(
                                i + qw,
                                j as int,
                                0,
                                w as int,
                                h as int,
                                1,
                            );
                        }
                        let nidx = j * w + (i + qw);
                        let nc = input_quads[nidx];
                        if nc.present && !claimed[nidx] && nc.block_id == id {
                            qw = qw + 1;
                        } else {
                            proof {
                                assert(slice_cell(cellsq, w as int, i + qw, j as int) == nc);
                            }
                            break ;
                        }
                    }
                    let mut qh: usize = 1;
                    while j + qh < h
                        invariant_except_break
                            cellsq == input_quads@,
                            cellsq.len() == w * h,
                            claimed@.len() == w * h,
                            w * h <= usize::MAX,
                            j < h,
                            i < w,
                            1 <= qw,
                            i + qw <= w,
                            1 <= qh,
                            j + qh <= h,
                            forall|row: int|
                                j <= row < j + qh ==> row_segment_free(
                                    cellsq,
                                    claimed@,
                                    w as int,
                                    i as int,
                                    qw as int,
                                    row,
                                    id,
                                ),
                        ensures
                            1 <= qh,
                            j + qh <= h,
                            forall|row: int|
                                j <= row < j + qh ==> row_segment_free(
                                    cellsq,
                                    claimed@,
                                    w as int,
                                    i as int,
                                    qw as int,
                                    row,
                                    id,
                                ),
                            j + qh == h || !row_segment_free(
                                cellsq,
                                claimed@,
                                w as int,
                                i as int,
                                qw as int,
                                j + qh,
                                id,
                            ),
                        decreases h - j - qh,
                    {
                        if MeshSimplifier::row_matches(
                            &input_quads,
                            &claimed,
                            w,
                            h,
                            i,
                            qw,
                            j + qh,
                            id,
                        ) {
                            proof {
                                assert(row_segment_free(
                                    cellsq,
                                    claimed@,
                                    w as int,
                                    i as int,
                                    qw as int,
                                    j + qh,
                                    id,
                                ));
                            }
                            qh = qh + 1;
                        } else {
                            break ;
                        }
                    }
                    let quad = OutputQuad { x: i, y: j, w: qw, h: qh, block_id: id };
                    let ghost claimed0 = claimed@;
                    let mut jj: usize = j;
                    while jj < j + qh
                        invariant
                            cellsq.len() == w * h,
                            claimed@.len() == w * h,
                            w * h <= usize::MAX,
                            j <= jj <= j + qh,
                            j + qh <= h,
                            i + qw <= w,
                            1 <= qw,
                            quad == (OutputQuad { x: i, y: j, w: qw, h: qh, block_id: id }),
                            forall|idx: int|
                                0 <= idx < claimed@.len() ==> #[trigger] claimed@[idx] == (
                                claimed0[idx] || exists|i2: int, j2: int|
                                    0 <= i2 && 0 <= j2 && idx == j2 * w + i2 && i2 < w && j2 < h
                                        && quad_covers(quad, i2, j2) && j2 < jj),
                        decreases j + qh - jj,
                    {
                        let mut ii: usize = i;
                        while ii < i + qw
                            invariant
                                cellsq.len() == w * h,
                                claimed@.len() == w * h,
                                w * h <= usize::MAX,
                                j <= jj < j + qh,
                                j + qh <= h,
                                i <= ii <= i + qw,
                                i + qw <= w,
                                1 <= qw,
                                quad == (OutputQuad { x: i, y: j, w: qw, h: qh, block_id: id }),
                                forall|idx: int|
                                    0 <= idx < claimed@.len() ==> #[trigger] claimed@[idx] == (
                                    claimed0[idx] || exists|i2: int, j2: int|
                                        0 <= i2 && 0 <= j2 && idx == j2 * w + i2 && i2 < w && j2
                                            < h && quad_covers(quad, i2, j2) && (j2 < jj || (j2
                                            == jj && i2 < ii))),
                            decreases i + qw - ii,
                        {
                            proof {
                                lemma_flat_index_bound(
                                    ii as int,
                                    jj as int,
                                    0,
                                    w as int,
                                    h as int,
                                    1,
                                );
                            }
                            let cidx = jj * w + ii;
                            let ghost prevclaimed = claimed@;
                            let slot = &mut claimed[cidx];
                            *slot = true;
                            proof {
                                assert forall|idx: int|
                                    0 <= idx < claimed@.len() implies #[trigger] claimed@[idx] == (
                                claimed0[idx] || exists|i2: int, j2: int|
                                    0 <= i2 && 0 <= j2 && idx == j2 * w + i2 && i2 < w && j2 < h
                                        && quad_covers(quad, i2, j2) && (j2 < jj || (j2 == jj && i2
                                        < ii + 1))) by {
                                    if idx == cidx {
                                        assert(quad_covers(quad, ii as int, jj as int));
                                    } else {
                                        assert(claimed@[idx] == prevclaimed[idx]);
                                        if exists|i2: int, j2: int|
                                            0 <= i2 && 0 <= j2 && idx == j2 * w + i2 && i2 < w
                                                && j2 < h && quad_covers(quad, i2, j2) && (j2 < jj
                                                || (j2 == jj && i2 < ii + 1)) {
                                            let (i2, j2) = choose|i2: int, j2: int|
                                                0 <= i2 && 0 <= j2 && idx == j2 * w + i2 && i2 < w
                                                    && j2 < h && quad_covers(quad, i2, j2) && (j2
                                                    < jj || (j2 == jj && i2 < ii + 1));
                                            if j2 == jj && i2 == ii {
                                                lemma_flat_index_injective(
                                                    w as int,
                                                    h as int,
                                                    (i2, j2, 0),
                                                    (ii as int, jj as int, 0),
                                                );
                                            } else {
                                                assert(exists|i3: int, j3: int|
                                                    0 <= i3 && 0 <= j3 && idx == j3 * w + i3 && i3
                                                        < w && j3 < h && quad_covers(quad, i3, j3)
                                                        && (j3 < jj || (j3 == jj && i3 < ii)));
                                            }
                                        }
                                    }
                                }
                            }
                            ii = ii + 1;
                        }
                        jj = jj + 1;
                        proof {
                            assert forall|idx: int|
                                0 <= idx < claimed@.len() implies #[trigger] claimed@[idx] == (
                            claimed0[idx] || exists|i2: int, j2: int|
                                0 <= i2 && 0 <= j2 && idx == j2 * w + i2 && i2 < w && j2 < h
                                    && quad_covers(quad, i2, j2) && j2 < jj) by {
                                if claimed@[idx] && !claimed0[idx] {
                                    let (i2, j2) = choose|i2: int, j2: int|
                                        0 <= i2 && 0 <= j2 && idx == j2 * w + i2 && i2 < w && j2
                                            < h && quad_covers(quad, i2, j2) && (j2 < jj - 1 || (j2
                                            == jj - 1 && i2 < i + qw));
                                    assert(j2 < jj);
                                }
                                if exists|i2: int, j2: int|
                                    0 <= i2 && 0 <= j2 && idx == j2 * w + i2 && i2 < w && j2 < h
                                        && quad_covers(quad, i2, j2) && j2 < jj {
                                    let (i2, j2) = choose|i2: int, j2: int|
                                        0 <= i2 && 0 <= j2 && idx == j2 * w + i2 && i2 < w && j2
                                            < h && quad_covers(quad, i2, j2) && j2 < jj;
                                    assert(j2 < jj - 1 || (j2 == jj - 1 && i2 < i + qw));
                                }
                            }
                        }
                    }
                    let ghost out0 = out@;
                    out.push(quad);
                    proof {
                        assert(out@.drop_last() =~= out0);
                        assert forall|i2: int, j2: int| #[trigger] quad_covers(quad, i2, j2) implies
                            (slice_cell(cellsq, w as int, i2, j2)).present && slice_cell(
                            cellsq,
                            w as int,
                            i2,
                            j2,
                        ).block_id == id && !claimed0[j2 * w + i2] by {
                            assert(row_segment_free(
                                cellsq,
                                claimed0,
                                w as int,
                                i as int,
                                qw as int,
                                j2,
                                id,
                            ));
                            assert((slice_cell(cellsq, w as int, i2, j2)).present);
                        }
                        lemma_claim_extends(
                            out@,
                            cellsq,
                            claimed0,
                            claimed@,
                            w as int,
                            h as int,
                            quad,
                        );
                        assert(forall|idx: int|
                            0 <= idx < claimed@.len() && claimed0[idx] ==> #[trigger] claimed@[idx]);
                        assert forall|i2: int, j2: int|
                            0 <= i2 < w && 0 <= j2 < h && quad_covers(quad, i2, j2) implies
                            #[trigger] claimed@[j2 * w + i2] by {
                            lemma_flat_index_bound(i2, j2, 0, w as int, h as int, 1);
                            assert(quad_covers(out@[out@.len() - 1], i2, j2));
                        }
                        let kq = out@.len() - 1;
                        assert(out@[kq] == quad);
                            assert forall|i2: int, j2: int|
                                0 <= i2 < w && 0 <= j2 < h && (j2 < quad.y || (j2 == quad.y && i2
                                    < quad.x)) && (#[trigger] slice_cell(
                                cellsq,
                                w as int,
                                i2,
                                j2,
                            )).present implies covered_by_prefix(out@, kq, i2, j2) by {
                                assert(claimed0[j2 * w + i2]);
                                let k2 = choose|k2: int|
                                    0 <= k2 < out0.len() && quad_covers(
                                        #[trigger] out0[k2],
                                        i2,
                                        j2,
                                    );
                                assert(quad_covers(out@[k2], i2, j2));
                        }
                        assert(greedy_scan_part(out@, cellsq, w as int, h as int, kq));
                        if quad.x + quad.w < w {
                                assert(quad.x + quad.w == i + qw && quad.y == j);
                                if cell_extends(
                                    cellsq,
                                    w as int,
                                    quad,
                                    quad.x + quad.w,
                                    quad.y as int,
                                ) {
                                    assert((slice_cell(cellsq, w as int, i + qw, j as int)).present
                                        && slice_cell(
                                        cellsq,
                                        w as int,
                                        i + qw,
                                        j as int,
                                    ).block_id == id);
                                    assert(claimed0[j as int * w + (i + qw)]);
                                    let k2 = choose|k2: int|
                                        0 <= k2 < out0.len() && quad_covers(
                                            #[trigger] out0[k2],
                                            i + qw,
                                            j as int,
                                        );
                                    assert(quad_covers(out@[k2], i + qw, j as int));
                                    assert(covered_by_prefix(
                                        out@,
                                        kq,
                                        quad.x + quad.w,
                                        quad.y as int,
                                    ));
                                }
                                assert(!cell_extends(
                                    cellsq,
                                    w as int,
                                    out@[kq],
                                    out@[kq].x + out@[kq].w,
                                    out@[kq].y as int,
                                ) || covered_by_prefix(
                                    out@,
                                    kq,
                                    out@[kq].x + out@[kq].w,
                                    out@[kq].y as int,
                                ));
                        }
                        assert(greedy_width_part(out@, cellsq, w as int, h as int, kq));
                        if quad.y + quad.h < h {
                                lemma_not_row_free_witness(
                                    cellsq,
                                    claimed0,
                                    w as int,
                                    i as int,
                                    qw as int,
                                    j + qh,
                                    id,
                                );
                                let t = choose|t: int|
                                    i <= t < i + qw && !((#[trigger] slice_cell(
                                        cellsq,
                                        w as int,
                                        t,
                                        j + qh,
                                    )).present && slice_cell(
                                        cellsq,
                                        w as int,
                                        t,
                                        j + qh,
                                    ).block_id == id && !claimed0[(j + qh) * w + t]);
                                assert(quad.y + quad.h == j + qh);
                                if claimed0[(j + qh) * w + t] {
                                    let k2 = choose|k2: int|
                                        0 <= k2 < out0.len() && quad_covers(
                                            #[trigger] out0[k2],
                                            t,
                                            j + qh,
                                        );
                                    assert(quad_covers(out@[k2], t, j + qh));
                                    assert(covered_by_prefix(out@, kq, t, quad.y + quad.h));
                                } else {
                                    assert(!cell_extends(
                                        cellsq,
                                        w as int,
                                        quad,
                                        t,
                                        quad.y + quad.h,
                                    ));
                                }
                                assert(quad.x <= t < quad.x + quad.w && (!cell_extends(
                                    cellsq,
                                    w as int,
                                    quad,
                                    t,
                                    quad.y + quad.h,
                                ) || covered_by_prefix(out@, kq, t, quad.y + quad.h)));
                                assert(out@[kq].x <= t < out@[kq].x + out@[kq].w && (!cell_extends(
                                    cellsq,
                                    w as int,
                                    out@[kq],
                                    t,
                                    out@[kq].y + out@[kq].h,
                                ) || covered_by_prefix(out@, kq, t, out@[kq].y + out@[kq].h)));
                                assert(slice_cell(cellsq, w as int, t, out@[kq].y + out@[kq].h)
                                    == slice_cell(cellsq, w as int, t, j + qh));
                        }
                        assert(greedy_height_part(out@, cellsq, w as int, h as int, kq));
                        assert(greedy_at(out@, cellsq, w as int, h as int, kq));
                        assert forall|k2: int|
                            0 <= k2 < out@.len() implies #[trigger] greedy_at(
                            out@,
                            cellsq,
                            w as int,
                            h as int,
                            k2,
                        ) by {
                            if k2 < out0.len() {
                                assert(greedy_at(out0, cellsq, w as int, h as int, k2));
                                lemma_greedy_at_prefix(
                                    out0,
                                    out@,
                                    cellsq,
                                    w as int,
                                    h as int,
                                    k2,
                                );
                            }
                        }
                    }
                    i = i + qw;
                } else {
                    i = i + 1;
                }
            }
            j = j + 1;
        }
        proof {
            assert forall|i2: int, j2: int|
                0 <= i2 < w && 0 <= j2 < h && (#[trigger] slice_cell(
                    cellsq,
                    w as int,
                    i2,
                    j2,
                )).present implies exists|k: int|
                0 <= k < out@.len() && quad_covers(#[trigger] out@[k], i2, j2) by {
                assert(claimed@[j2 * w + i2]);
            }
        }
        out
    }
}

/// The chunk-local cell a slice coordinate denotes: the facing's axis
/// holds the layer, and the slice's across and up coordinates map onto
/// the remaining two axes.
pub open spec fn slice_local(facing: VoxelAxis, layer: int, xi: int, yi: int) -> (int, int, int) {
    match facing.spec_unsigned_axis() {
        VoxelAxisUnsigned::X => (layer, yi, xi),
        VoxelAxisUnsigned::Y => (xi, layer, yi),
        VoxelAxisUnsigned::Z => (xi, yi, layer),
    }
}

/// The width of a facing's slices: the extent of its across axis.
pub open spec fn slice_width(c: &Chunk, facing: VoxelAxis) -> int {
    match facing.spec_unsigned_axis() {
        VoxelAxisUnsigned::X => c.spec_size().2,
        VoxelAxisUnsigned::Y => c.spec_size().0,
        VoxelAxisUnsigned::Z => c.spec_size().0,
    }
}

/// The height of a facing's slices: the extent of its up axis.
pub open spec fn slice_height(c: &Chunk, facing: VoxelAxis) -> int {
    match facing.spec_unsigned_axis() {
        VoxelAxisUnsigned::X => c.spec_size().1,
        VoxelAxisUnsigned::Y => c.spec_size().2,
        VoxelAxisUnsigned::Z => c.spec_size().1,
    }
}

/// The number of slices a facing has: the extent of its own axis.
pub open spec fn layer_count(c: &Chunk, facing: VoxelAxis) -> int {
    match facing.spec_unsigned_axis() {
        VoxelAxisUnsigned::X => c.spec_size().0,
        VoxelAxisUnsigned::Y => c.spec_size().1,
        VoxelAxisUnsigned::Z => c.spec_size().2,
    }
}

/// Whether a face must be drawn at a slice cell: the voxel there is
/// solid, and its neighbor one step along the facing is air or lies
/// outside the chunk, so nothing occludes the face.
pub open spec fn face_visible(c: &Chunk, facing: VoxelAxis, layer: int, xi: int, yi: int) -> bool {
    let lp = slice_local(facing, layer, xi, yi);
    let st = facing.spec_step();
    let np = (lp.0 + st.0, lp.1 + st.1, lp.2 + st.2);
    &&& c.cells().dom().contains(lp)
    &&& c.cells()[lp] != 0
    &&& (!c.cells().dom().contains(np) || c.cells()[np] == 0)
}

/// The block id behind a slice cell, or air for a cell outside the
/// chunk.
pub open spec fn face_block(c: &Chunk, facing: VoxelAxis, layer: int, xi: int, yi: int) -> BlockID {
    let lp = slice_local(facing, layer, xi, yi);
    if c.cells().dom().contains(lp) {
        c.cells()[lp]
    } else {
        0
    }
}

/// The input mask of one slice: which cells show a face and which block
/// each face belongs to, in row-major order.
pub open spec fn face_mask(c: &Chunk, facing: VoxelAxis, layer: int, w: int, h: int) -> Seq<
    InputQuad,
> {
    Seq::new(
        (w * h) as nat,
        |idx: int|
            InputQuad {
                x: (idx % w) as usize,
                y: (idx / w) as usize,
                present: face_visible(c, facing, layer, idx % w, idx / w),
                done: false,
                block_id: face_block(c, facing, layer, idx % w, idx / w),
            },
    )
}

impl MeshSimplifier {
    /// Builds and simplifies the slices of one facing direction: one
    /// entry per layer, whose quads exactly cover that layer's visible
    /// faces.
    fn slices_for_facing(chunk: &Chunk, facing: VoxelAxis) -> (r: Vec<
        (VoxelAxis, usize, Vec<OutputQuad>),
    >)
        ensures
            r@.len() == layer_count(chunk, facing),
            forall|k: int|
                0 <= k < r@.len() ==> {
                    let e = #[trigger] r@[k];
                    &&& e.0 == facing
                    &&& e.1 == k
                    &&& exact_cover(
                        e.2@,
                        face_mask(
                            chunk,
                            facing,
                            k,
                            slice_width(chunk, facing),
                            slice_height(chunk, facing),
                        ),
                        slice_width(chunk, facing),
                        slice_height(chunk, facing),
                    )
                },
    {
        let dims = chunk.dimensions();
        let axis = facing.unsigned_axis();
        let (wd, hd, layers): (u8, u8, u8) = match axis {
            VoxelAxisUnsigned::X => (dims.2, dims.1, dims.0),
            VoxelAxisUnsigned::Y => (dims.0, dims.2, dims.1),
            VoxelAxisUnsigned::Z => (dims.0, dims.1, dims.2),
        };
        let w = wd as usize;
        let h = hd as usize;
        let mut out: Vec<(VoxelAxis, usize, Vec<OutputQuad>)> = Vec::new();
        let mut layer: usize = 0;
        while layer < layers as usize
            invariant
                axis == facing.spec_unsigned_axis(),
                w == slice_width(chunk, facing),
                h == slice_height(chunk, facing),
                w <= 255 && h <= 255,
                layers as int == layer_count(chunk, facing),
                0 <= layer <= layers as int,
                out@.len() == layer,
                forall|k: int|
                    0 <= k < out@.len() ==> {
                        let e = #[trigger] out@[k];
                        &&& e.0 == facing
                        &&& e.1 == k
                        &&& exact_cover(
                            e.2@,
                            face_mask(chunk, facing, k, w as int, h as int),
                            w as int,
                            h as int,
                        )
                    },
            decreases layers as int - layer,
        {
            let mut mask: Vec<InputQuad> = Vec::new();
            let mut yi: usize = 0;
            while yi < h
                invariant
                    axis == facing.spec_unsigned_axis(),
                    w == slice_width(chunk, facing),
                    h == slice_height(chunk, facing),
                    w <= 255 && h <= 255,
                    layers as int == layer_count(chunk, facing),
                    0 <= layer < layers as int,
                    0 <= yi <= h,
                    mask@.len() == yi * w,
                    forall|idx: int|
                        0 <= idx < mask@.len() ==> #[trigger] mask@[idx] == face_mask(
                            chunk,
                            facing,
                            layer as int,
                            w as int,
                            h as int,
                        )[idx],
                decreases h - yi,
            {
                let mut xi: usize = 0;
                while xi < w
                    invariant
                        axis == facing.spec_unsigned_axis(),
                        w == slice_width(chunk, facing),
                        h == slice_height(chunk, facing),
                        w <= 255 && h <= 255,
                        layers as int == layer_count(chunk, facing),
                        0 <= layer < layers as int,
                        0 <= yi < h,
                        0 <= xi <= w,
                        mask@.len() == yi * w + xi,
                        forall|idx: int|
                            0 <= idx < mask@.len() ==> #[trigger] mask@[idx] == face_mask(
                                chunk,
                                facing,
                                layer as int,
                                w as int,
                                h as int,
                            )[idx],
                    decreases w - xi,
                {
                    let lp: VoxelPos<u8> = match axis {
                        VoxelAxisUnsigned::X => VoxelPos {
                            x: layer as u8,
                            y: yi as u8,
                            z: xi as u8,
                        },
                        VoxelAxisUnsigned::Y => VoxelPos {
                            x: xi as u8,
                            y: layer as u8,
                            z: yi as u8,
                        },
                        VoxelAxisUnsigned::Z => VoxelPos {
                            x: xi as u8,
                            y: yi as u8,
                            z: layer as u8,
                        },
                    };
                    let cell = chunk.get(lp);
                    let (solid, id): (bool, BlockID) = match cell {
                        Some(v) => (v != 0, v),
                        None => (false, 0),
                    };
                    let neighbor_open: bool = match lp.get_neighbor_unsigned(facing) {
                        Some(np) => match chunk.get(np) {
                            Some(nv) => nv == 0,
                            None => true,
                        },
                        None => true,
                    };
                    let present = solid && neighbor_open;
                    let cellq = InputQuad { x: xi, y: yi, present, done: false, block_id: id };
                    mask.push(cellq);
                    proof {
                        assert(lp.as_tuple() == slice_local(
                            facing,
                            layer as int,
                            xi as int,
                            yi as int,
                        ));
                        assert(present == face_visible(
                            chunk,
                            facing,
                            layer as int,
                            xi as int,
                            yi as int,
                        ));
                        assert(id == face_block(chunk, facing, layer as int, xi as int, yi as int));
                        let widths = w as int;
                        let idx = yi * widths + xi;
                        lemma_flat_index_bound(xi as int, yi as int, 0, widths, h as int, 1);
                        vstd::arithmetic::div_mod::lemma_fundamental_div_mod_converse_div(
                            idx,
                            widths,
                            yi as int,
                            xi as int,
                        );
                        vstd::arithmetic::div_mod::lemma_fundamental_div_mod_converse_mod(
                            idx,
                            widths,
                            yi as int,
                            xi as int,
                        );
                        assert(mask@[idx] == face_mask(
                            chunk,
                            facing,
                            layer as int,
                            widths,
                            h as int,
                        )[idx]);
                    }
                    xi = xi + 1;
                }
                proof {
                    assert((yi + 1) * (w as int) == yi * (w as int) + w) by (nonlinear_arith);
                }
                yi = yi + 1;
            }
            proof {
                assert((w as int) * (h as int) == (h as int) * (w as int)) by (nonlinear_arith);
                assert(mask@ =~= face_mask(chunk, facing, layer as int, w as int, h as int));
                lemma_flat_index_bound(0, 0, 0, 256, 256, 1);
                assert((w as int) * (h as int) <= 255 * 255) by (nonlinear_arith)
                    requires
                        w <= 255,
                        h <= 255,
                ;
            }
            let quads = MeshSimplifier::process_slice(mask, w, h);
            out.push((facing, layer, quads));
            layer = layer + 1;
        }
        out
    }

    /// Generates a simplified mesh from the given chunk: for each of the
    /// six facing directions and each layer along it, the list of quads
    /// that exactly covers that slice's visible faces.
    pub fn generate_quads(chunk: &Chunk, range: ChunkBounds) -> (r: Vec<
        (VoxelAxis, usize, Vec<OutputQuad>),
    >)
        ensures
            forall|k: int|
                0 <= k < r@.len() ==> {
                    let e = #[trigger] r@[k];
                    &&& e.1 < layer_count(chunk, e.0)
                    &&& exact_cover(
                        e.2@,
                        face_mask(
                            chunk,
                            e.0,
                            e.1 as int,
                            slice_width(chunk, e.0),
                            slice_height(chunk, e.0),
                        ),
                        slice_width(chunk, e.0),
                        slice_height(chunk, e.0),
                    )
                },
            forall|facing: VoxelAxis, layer: int|
                0 <= layer < layer_count(chunk, facing) ==> #[trigger] has_slice(
                    r@,
                    facing,
                    layer,
                ),
            r@.len() == facing_total_prefix(chunk, 6),
            forall|k1: int, k2: int|
                0 <= k1 < k2 < r@.len() ==> (#[trigger] r@[k1]).0 != (#[trigger] r@[k2]).0
                    || r@[k1].1 != r@[k2].1,
            forall|facing: VoxelAxis|
                0 <= #[trigger] layer_count(chunk, facing) <= 255 && 0 <= slice_width(chunk, facing)
                    <= 255 && 0 <= slice_height(chunk, facing) <= 255,
    {
        let dims = chunk.dimensions();
        proof {
            assert forall|facing: VoxelAxis|
                0 <= #[trigger] layer_count(chunk, facing) <= 255 && 0 <= slice_width(chunk, facing)
                    <= 255 && 0 <= slice_height(chunk, facing) <= 255 by {
                assert(chunk.spec_size() == (dims.0 as int, dims.1 as int, dims.2 as int));
            }
        }
        let mut out: Vec<(VoxelAxis, usize, Vec<OutputQuad>)> = Vec::new();
        let mut fi: usize = 0;
        while fi < 6
            invariant
                0 <= fi <= 6,
                out@.len() == facing_total_prefix(chunk, fi as int),
                forall|k: int| 0 <= k < out@.len() ==> facing_rank((#[trigger] out@[k]).0) < fi,
                forall|k1: int, k2: int|
                    0 <= k1 < k2 < out@.len() ==> (#[trigger] out@[k1]).0 != (#[trigger] out@[k2]).0
                        || out@[k1].1 != out@[k2].1,
                forall|k: int|
                    0 <= k < out@.len() ==> {
                        let e = #[trigger] out@[k];
                        &&& e.1 < layer_count(chunk, e.0)
                        &&& exact_cover(
                            e.2@,
                            face_mask(
                                chunk,
                                e.0,
                                e.1 as int,
                                slice_width(chunk, e.0),
                                slice_height(chunk, e.0),
                            ),
                            slice_width(chunk, e.0),
                            slice_height(chunk, e.0),
                        )
                    },
                forall|facing: VoxelAxis, layer: int|
                    facing_rank(facing) < fi && 0 <= layer < layer_count(chunk, facing)
                        ==> #[trigger] has_slice(out@, facing, layer),
            decreases 6 - fi,
        {
            let facing = if fi == 0 {
                VoxelAxis::PosiX
            } else if fi == 1 {
                VoxelAxis::NegaX
            } else if fi == 2 {
                VoxelAxis::PosiY
            } else if fi == 3 {
                VoxelAxis::NegaY
            } else if fi == 4 {
                VoxelAxis::PosiZ
            } else {
                VoxelAxis::NegaZ
            };
            proof {
                assert(facing_rank(facing) == fi as int);
            }
            let ghost out0 = out@;
            let mut slices = MeshSimplifier::slices_for_facing(chunk, facing);
            let ghost slices0 = slices@;
            let n0 = slices.len();
            let mut si: usize = 0;
            while slices.len() > 0
                invariant
                    n0 == slices0.len(),
                    si <= slices0.len(),
                    si + slices@.len() == slices0.len(),
                    slices@ =~= slices0.subrange(si as int, slices0.len() as int),
                    out@.len() == out0.len() + si,
                    forall|k: int| 0 <= k < out0.len() ==> #[trigger] out@[k] == out0[k],
                    forall|k: int|
                        out0.len() <= k < out@.len() ==> #[trigger] out@[k] == slices0[k - out0.len()],
                decreases slices@.len(),
            {
                let e = slices.remove(0);
                out.push(e);
                si = si + 1;
            }
            proof {
                assert forall|facing2: VoxelAxis, layer: int|
                    facing_rank(facing2) < fi + 1 && 0 <= layer < layer_count(
                        chunk,
                        facing2,
                    ) implies #[trigger] has_slice(out@, facing2, layer) by {
                    if facing_rank(facing2) < fi {
                        assert(has_slice(out0, facing2, layer));
                        let k = choose|k: int|
                            0 <= k < out0.len() && (#[trigger] out0[k]).0 == facing2 && out0[k].1
                                == layer;
                        assert(out@[k] == out0[k]);
                        assert((out@[k]).0 == facing2 && out@[k].1 == layer);
                    } else {
                        assert(facing2 == facing);
                        assert(out@[out0.len() + layer] == slices0[layer]);
                        assert(slices0[layer].0 == facing2 && slices0[layer].1 == layer);
                        assert((out@[out0.len() + layer]).0 == facing2 && out@[out0.len() + layer].1 == layer);
                    }
                }
                assert forall|k: int|
                    0 <= k < out@.len() implies {
                    let e = #[trigger] out@[k];
                    &&& e.1 < layer_count(chunk, e.0)
                    &&& exact_cover(
                        e.2@,
                        face_mask(
                            chunk,
                            e.0,
                            e.1 as int,
                            slice_width(chunk, e.0),
                            slice_height(chunk, e.0),
                        ),
                        slice_width(chunk, e.0),
                        slice_height(chunk, e.0),
                    )
                } by {
                    if k >= out0.len() {
                        assert(out@[k] == slices0[k - out0.len()]);
                    }
                }
                assert(out@.len() == facing_total_prefix(chunk, fi + 1));
                assert forall|k: int|
                    0 <= k < out@.len() implies facing_rank((#[trigger] out@[k]).0) < fi + 1 by {
                    if k >= out0.len() {
                        assert(out@[k] == slices0[k - out0.len()]);
                        assert(out@[k].0 == facing);
                    }
                }
                assert forall|k1: int, k2: int|
                    0 <= k1 < k2 < out@.len() implies (#[trigger] out@[k1]).0 != (
                #[trigger] out@[k2]).0 || out@[k1].1 != out@[k2].1 by {
                    if k1 < out0.len() && k2 >= out0.len() {
                        assert(facing_rank(out@[k1].0) < fi);
                        assert(out@[k2] == slices0[k2 - out0.len()]);
                        assert(out@[k2].0 == facing);
                    } else if k1 >= out0.len() {
                        assert(out@[k1] == slices0[k1 - out0.len()]);
                        assert(out@[k2] == slices0[k2 - out0.len()]);
                        assert(out@[k1].1 == k1 - out0.len() && out@[k2].1 == k2 - out0.len());
                    }
                }
            }
            fi = fi + 1;
        }
        out
    }
}

/// Whether some quad of some slice list carries this block id.
pub open spec fn lists_has_id(
    lists: Seq<(VoxelAxis, usize, Vec<OutputQuad>)>,
    b: BlockID,
) -> bool {
    exists|l: int, q: int|
        0 <= l < lists.len() && 0 <= q < lists[l].2@.len() && (#[trigger] lists[l].2@[q]).block_id
            == b
}

/// Whether a slice-list entry carries the exact cover of its facing and
/// layer.
pub open spec fn lists_entry_ok(c: &Chunk, e: (VoxelAxis, usize, Vec<OutputQuad>)) -> bool {
    &&& e.1 < layer_count(c, e.0)
    &&& exact_cover(
        e.2@,
        face_mask(c, e.0, e.1 as int, slice_width(c, e.0), slice_height(c, e.0)),
        slice_width(c, e.0),
        slice_height(c, e.0),
    )
}

/// A non-air quad in a slice list witnesses a visible face of its id.
proof fn lemma_list_quad_face(
    c: &Chunk,
    lists: Seq<(VoxelAxis, usize, Vec<OutputQuad>)>,
    l: int,
    q: int,
)
    requires
        0 <= l < lists.len(),
        lists_entry_ok(c, lists[l]),
        0 <= q < lists[l].2@.len(),
        lists[l].2@[q].block_id != 0,
    ensures
        chunk_has_face(c, lists[l].2@[q].block_id),
{
    let e = lists[l];
    let qd = e.2@[q];
    let w = slice_width(c, e.0);
    let h = slice_height(c, e.0);
    let mask = face_mask(c, e.0, e.1 as int, w, h);
    assert(quad_covers(qd, qd.x as int, qd.y as int));
    assert((slice_cell(mask, w, qd.x as int, qd.y as int)).present && slice_cell(
        mask,
        w,
        qd.x as int,
        qd.y as int,
    ).block_id == qd.block_id);
    let idx = qd.y * w + qd.x;
    lemma_flat_index_bound(qd.x as int, qd.y as int, 0, w, h, 1);
    vstd::arithmetic::div_mod::lemma_fundamental_div_mod_converse_div(
        idx,
        w,
        qd.y as int,
        qd.x as int,
    );
    vstd::arithmetic::div_mod::lemma_fundamental_div_mod_converse_mod(
        idx,
        w,
        qd.y as int,
        qd.x as int,
    );
    assert(face_visible(c, e.0, e.1 as int, qd.x as int, qd.y as int) && face_block(
        c,
        e.0,
        e.1 as int,
        qd.x as int,
        qd.y as int,
    ) == qd.block_id);
}

/// Every visible face of a block id puts a quad of that id into the
/// slice lists.
proof fn lemma_face_has_quad(
    c: &Chunk,
    lists: Seq<(VoxelAxis, usize, Vec<OutputQuad>)>,
    b: BlockID,
)
    requires
        b != 0,
        chunk_has_face(c, b),
        forall|k: int| 0 <= k < lists.len() ==> lists_entry_ok(c, #[trigger] lists[k]),
        forall|facing: VoxelAxis, layer: int|
            0 <= layer < layer_count(c, facing) ==> #[trigger] has_slice(lists, facing, layer),
    ensures
        lists_has_id(lists, b),
{
    let (facing, layer, xi, yi) = choose|facing: VoxelAxis, layer: int, xi: int, yi: int| #[trigger]
        face_visible(c, facing, layer, xi, yi) && face_block(c, facing, layer, xi, yi) == b;
    lemma_face_visible_bounds(c, facing, layer, xi, yi);
    assert(has_slice(lists, facing, layer));
    let k = choose|k: int|
        0 <= k < lists.len() && (#[trigger] lists[k]).0 == facing && lists[k].1 == layer;
    let e = lists[k];
    let w = slice_width(c, facing);
    let h = slice_height(c, facing);
    let mask = face_mask(c, facing, layer, w, h);
    let idx = yi * w + xi;
    lemma_flat_index_bound(xi, yi, 0, w, h, 1);
    vstd::arithmetic::div_mod::lemma_fundamental_div_mod_converse_div(idx, w, yi, xi);
    vstd::arithmetic::div_mod::lemma_fundamental_div_mod_converse_mod(idx, w, yi, xi);
    assert((slice_cell(mask, w, xi, yi)).present);
    assert(exists|qk: int| 0 <= qk < e.2@.len() && quad_covers(#[trigger] e.2@[qk], xi, yi));
    let qk = choose|qk: int| 0 <= qk < e.2@.len() && quad_covers(#[trigger] e.2@[qk], xi, yi);
    assert(slice_cell(mask, w, xi, yi).block_id == e.2@[qk].block_id);
    assert(lists[k].2@[qk].block_id == b);
}

impl MeshSimplifier {
    /// Generates a mesh for a chunk: quads are grouped into one vertex
    /// group per distinct non-air block id, four vertices and six indices
    /// per quad in the standard two-triangle winding, with the chunk's
    /// lower corner as the mesh origin. A vertex group with at least one
    /// quad exists for a block id exactly when the chunk shows a visible
    /// face of that id. The placeholder error has no constructor, so
    /// generation always succeeds.
    #[verifier::rlimit(100)]
    pub fn generate_mesh(chunk: &Chunk, range: ChunkBounds) -> (r: Result<Mesh, ChunkMeshError>)
        ensures
            r is Ok,
            r matches Ok(mesh) ==> {
                &&& mesh.transform == range.lower
                &&& mesh.materials@.len() == 0
                &&& forall|g: int|
                    0 <= g < mesh.vertex_groups@.len() ==> quad_group_wf(
                        #[trigger] mesh.vertex_groups@[g],
                    )
            },
            r matches Ok(mesh) ==> forall|b: BlockID|
                b != 0 && #[trigger] chunk_has_face(chunk, b) ==> exists|g: int|
                    0 <= g < mesh.vertex_groups@.len() && (#[trigger] mesh.vertex_groups@[g]).material_id
                        == b as u8 && mesh.vertex_groups@[g].vertices@.len() >= 4,
            r matches Ok(mesh) ==> forall|g: int|
                0 <= g < mesh.vertex_groups@.len() ==> #[trigger] group_backed(
                    chunk,
                    mesh.vertex_groups@,
                    g,
                ),
    {
        let quad_lists = MeshSimplifier::generate_quads(chunk, range);
        let ghost lists = quad_lists@;
        proof {
            assert(lists.len() == facing_total_prefix(chunk, 6));
            assert(lists.len() <= 1530);
        }
        let mut unique_ids: Vec<BlockID> = Vec::new();
        let mut li: usize = 0;
        while li < quad_lists.len()
            invariant
                quad_lists@ == lists,
                li <= lists.len(),
                forall|u: int| 0 <= u < unique_ids@.len() ==> #[trigger] unique_ids@[u] != 0,
                forall|u: int|
                    0 <= u < unique_ids@.len() ==> lists_has_id(lists, #[trigger] unique_ids@[u]),
                forall|l: int, q: int|
                    0 <= l < li && 0 <= q < lists[l].2@.len() && (#[trigger] lists[l].2@[q]).block_id
                        != 0 ==> unique_ids@.contains(lists[l].2@[q].block_id),
            decreases lists.len() - li,
        {
            let list = &quad_lists[li].2;
            let mut qi: usize = 0;
            while qi < list.len()
                invariant
                    quad_lists@ == lists,
                    li < lists.len(),
                    list@ == lists[li as int].2@,
                    qi <= list@.len(),
                    forall|u: int| 0 <= u < unique_ids@.len() ==> #[trigger] unique_ids@[u] != 0,
                    forall|u: int|
                        0 <= u < unique_ids@.len() ==> lists_has_id(
                            lists,
                            #[trigger] unique_ids@[u],
                        ),
                    forall|l: int, q: int|
                        0 <= l < li && 0 <= q < lists[l].2@.len() && (
                        #[trigger] lists[l].2@[q]).block_id != 0 ==> unique_ids@.contains(
                            lists[l].2@[q].block_id,
                        ),
                    forall|q: int|
                        0 <= q < qi && (#[trigger] lists[li as int].2@[q]).block_id != 0
                            ==> unique_ids@.contains(lists[li as int].2@[q].block_id),
                decreases list@.len() - qi,
            {
                let id = list[qi].block_id;
                if id != 0 && !contains_id(&unique_ids, id) {
                    let ghost ids0 = unique_ids@;
                    unique_ids.push(id);
                    proof {
                        assert(lists[li as int].2@[qi as int].block_id == id);
                        assert(lists_has_id(lists, id));
                        assert forall|u: int|
                            0 <= u < unique_ids@.len() implies lists_has_id(
                            lists,
                            #[trigger] unique_ids@[u],
                        ) by {
                            if u < ids0.len() {
                                assert(unique_ids@[u] == ids0[u]);
                            } else {
                                assert(unique_ids@[u] == id);
                            }
                        }
                        assert forall|b: BlockID| ids0.contains(b) implies unique_ids@.contains(
                            b,
                        ) by {
                            let j = choose|j: int| 0 <= j < ids0.len() && ids0[j] == b;
                            assert(unique_ids@[j] == b);
                        }
                        assert(unique_ids@[ids0.len() as int] == id);
                        assert(unique_ids@.contains(id));
                    }
                }
                qi = qi + 1;
                proof {
                    assert forall|q: int|
                        0 <= q < qi && (#[trigger] lists[li as int].2@[q]).block_id != 0
                            implies unique_ids@.contains(lists[li as int].2@[q].block_id) by {
                        if q == qi - 1 && lists[li as int].2@[q].block_id != 0 {
                            assert(lists[li as int].2@[q].block_id == id);
                        }
                    }
                }
            }
            li = li + 1;
        }
        let mut mesh = Mesh::new();
        mesh.transform = range.lower;
        let mut ui: usize = 0;
        while ui < unique_ids.len()
            invariant
                quad_lists@ == lists,
                lists.len() <= 1530,
                mesh.transform == range.lower,
                mesh.materials@.len() == 0,
                ui <= unique_ids@.len(),
                mesh.vertex_groups@.len() == ui as int,
                forall|k: int| 0 <= k < lists.len() ==> lists_entry_ok(chunk, #[trigger] lists[k]),
                forall|facing: VoxelAxis, layer: int|
                    0 <= layer < layer_count(chunk, facing) ==> #[trigger] has_slice(
                        lists,
                        facing,
                        layer,
                    ),
                forall|facing: VoxelAxis|
                    0 <= #[trigger] layer_count(chunk, facing) <= 255 && 0 <= slice_width(
                        chunk,
                        facing,
                    ) <= 255 && 0 <= slice_height(chunk, facing) <= 255,
                forall|u: int| 0 <= u < unique_ids@.len() ==> #[trigger] unique_ids@[u] != 0,
                forall|u: int|
                    0 <= u < unique_ids@.len() ==> lists_has_id(lists, #[trigger] unique_ids@[u]),
                forall|l: int, q: int|
                    0 <= l < lists.len() && 0 <= q < lists[l].2@.len() && (
                    #[trigger] lists[l].2@[q]).block_id != 0 ==> unique_ids@.contains(
                        lists[l].2@[q].block_id,
                    ),
                forall|u: int|
                    0 <= u < ui ==> quad_group_wf(#[trigger] mesh.vertex_groups@[u])
                        && mesh.vertex_groups@[u].material_id == unique_ids@[u] as u8
                        && mesh.vertex_groups@[u].vertices@.len() >= 4 && chunk_has_face(
                        chunk,
                        unique_ids@[u],
                    ),
            decreases unique_ids@.len() - ui,
        {
            let id = unique_ids[ui];
            let mut vertices: Vec<ChunkVertex> = Vec::new();
            let mut indices: Vec<u32> = Vec::new();
            let mut li2: usize = 0;
            while li2 < quad_lists.len()
                invariant
                    quad_lists@ == lists,
                    lists.len() <= 1530,
                    li2 <= lists.len(),
                    forall|k: int|
                        0 <= k < lists.len() ==> lists_entry_ok(chunk, #[trigger] lists[k]),
                    forall|facing: VoxelAxis|
                        0 <= #[trigger] layer_count(chunk, facing) <= 255 && 0 <= slice_width(
                            chunk,
                            facing,
                        ) <= 255 && 0 <= slice_height(chunk, facing) <= 255,
                    vertices@.len() % 4 == 0,
                    vertices@.len() <= 260100 * li2,
                    indices@.len() == vertices@.len() / 4 * 6,
                    forall|q: int|
                        0 <= q < vertices@.len() / 4 ==> standard_quad_indices(indices@, q),
                    (exists|l: int, q: int|
                        0 <= l < li2 && 0 <= q < lists[l].2@.len() && (
                        #[trigger] lists[l].2@[q]).block_id == id) ==> vertices@.len() >= 4,
                decreases lists.len() - li2,
            {
                let entry = &quad_lists[li2];
                let facing = entry.0;
                let layer = entry.1;
                proof {
                    assert(lists_entry_ok(chunk, lists[li2 as int]));
                    let w = slice_width(chunk, facing);
                    let h = slice_height(chunk, facing);
                    lemma_exact_cover_count(
                        lists[li2 as int].2@,
                        face_mask(chunk, facing, layer as int, w, h),
                        w,
                        h,
                    );
                    assert(w * h <= 65025) by (nonlinear_arith)
                        requires
                            0 <= w <= 255,
                            0 <= h <= 255,
                    ;
                }
                let mut qi2: usize = 0;
                while qi2 < entry.2.len()
                    invariant
                        quad_lists@ == lists,
                        lists.len() <= 1530,
                        li2 < lists.len(),
                        entry == &quad_lists[li2 as int],
                        facing == lists[li2 as int].0,
                        layer == lists[li2 as int].1,
                        qi2 <= lists[li2 as int].2@.len(),
                        lists[li2 as int].2@.len() <= 65025,
                        vertices@.len() % 4 == 0,
                        vertices@.len() <= 260100 * li2 + 4 * qi2,
                        indices@.len() == vertices@.len() / 4 * 6,
                        forall|q: int|
                            0 <= q < vertices@.len() / 4 ==> standard_quad_indices(indices@, q),
                        (exists|l: int, q: int|
                            (0 <= l < li2 && 0 <= q < lists[l].2@.len() || l == li2 && 0 <= q
                                < qi2) && (#[trigger] lists[l].2@[q]).block_id == id)
                            ==> vertices@.len() >= 4,
                    decreases lists[li2 as int].2@.len() - qi2,
                {
                    let quad = entry.2[qi2];
                    if quad.block_id == id {
                        proof {
                            assert(260100 * li2 + 4 * qi2 + 4 <= 260100 * li2 + 260100);
                            assert(260100 * li2 + 260100 <= 260100 * lists.len());
                            assert(260100 * lists.len() <= 260100 * 1530);
                        }
                        let o = (vertices.len() / 4) as u32;
                        push_quad_vertices(&mut vertices, facing, layer, &quad);
                        let ghost idx0 = indices@;
                        indices.push(4 * o);
                        indices.push(4 * o + 1);
                        indices.push(4 * o + 2);
                        indices.push(4 * o + 2);
                        indices.push(4 * o + 3);
                        indices.push(4 * o);
                        proof {
                            assert(indices@.len() == idx0.len() + 6);
                            assert(vertices@.len() / 4 == o + 1);
                            assert forall|q: int|
                                0 <= q < vertices@.len() / 4 implies standard_quad_indices(
                                indices@,
                                q,
                            ) by {
                                if q < o {
                                    assert(standard_quad_indices(idx0, q));
                                    assert(indices@[6 * q] == idx0[6 * q]);
                                    assert(indices@[6 * q + 1] == idx0[6 * q + 1]);
                                    assert(indices@[6 * q + 2] == idx0[6 * q + 2]);
                                    assert(indices@[6 * q + 3] == idx0[6 * q + 3]);
                                    assert(indices@[6 * q + 4] == idx0[6 * q + 4]);
                                    assert(indices@[6 * q + 5] == idx0[6 * q + 5]);
                                } else {
                                    assert(q == o);
                                    assert(indices@[6 * q] == 4 * o);
                                }
                            }
                        }
                    }
                    qi2 = qi2 + 1;
                    proof {
                        if exists|l: int, q: int|
                            (0 <= l < li2 && 0 <= q < lists[l].2@.len() || l == li2 && 0 <= q
                                < qi2) && (#[trigger] lists[l].2@[q]).block_id == id {
                            let (l, q) = choose|l: int, q: int|
                                (0 <= l < li2 && 0 <= q < lists[l].2@.len() || l == li2 && 0 <= q
                                    < qi2) && (#[trigger] lists[l].2@[q]).block_id == id;
                            if l == li2 && q == qi2 - 1 {
                                assert(lists[li2 as int].2@[q] == quad);
                                assert(vertices@.len() >= 4);
                            } else {
                                assert((0 <= l < li2 && 0 <= q < lists[l].2@.len() || l == li2 && 0
                                    <= q < qi2 - 1) && lists[l].2@[q].block_id == id);
                            }
                        }
                    }
                }
                li2 = li2 + 1;
                proof {
                    if exists|l: int, q: int|
                        0 <= l < li2 && 0 <= q < lists[l].2@.len() && (
                        #[trigger] lists[l].2@[q]).block_id == id {
                        let (l, q) = choose|l: int, q: int|
                            0 <= l < li2 && 0 <= q < lists[l].2@.len() && (
                            #[trigger] lists[l].2@[q]).block_id == id;
                        if l == li2 - 1 {
                            assert((0 <= l < li2 - 1 && 0 <= q < lists[l].2@.len() || l == li2 - 1
                                && 0 <= q < lists[li2 - 1].2@.len())
                                && lists[l].2@[q].block_id == id);
                        }
                        assert(vertices@.len() >= 4);
                    }
                    assert(vertices@.len() <= 260100 * li2);
                }
            }
            proof {
                assert(lists_has_id(lists, id));
                let (l, q) = choose|l: int, q: int|
                    0 <= l < lists.len() && 0 <= q < lists[l].2@.len() && (
                    #[trigger] lists[l].2@[q]).block_id == id;
                assert(vertices@.len() >= 4);
                lemma_list_quad_face(chunk, lists, l, q);
                assert(chunk_has_face(chunk, id));
                assert((id % 256) as u8 == id as u8) by (bit_vector);
            }
            let group = VertexGroup::new(vertices, indices, (id % 256) as u8);
            let ghost groups0 = mesh.vertex_groups@;
            mesh.vertex_groups.push(group);
            ui = ui + 1;
            proof {
                assert forall|u: int|
                    0 <= u < ui implies quad_group_wf(#[trigger] mesh.vertex_groups@[u])
                        && mesh.vertex_groups@[u].material_id == unique_ids@[u] as u8
                        && mesh.vertex_groups@[u].vertices@.len() >= 4 && chunk_has_face(
                        chunk,
                        unique_ids@[u],
                    ) by {
                    if u < ui - 1 {
                        assert(mesh.vertex_groups@[u] == groups0[u]);
                    } else if u == ui - 1 {
                        assert(mesh.vertex_groups@[u] == group);
                        assert(group.material_id == id as u8);
                        assert(group.vertices@.len() >= 4);
                    }
                }
            }
        }
        proof {
            lemma_groups_tied(chunk, lists, unique_ids@, mesh.vertex_groups@);
        }
        Ok(mesh)
    }
}

/// When the collected ids cover every non-air quad of the slice lists
/// and each id owns a nonempty group, the groups mirror the chunk's
/// visible faces exactly.
#[verifier::rlimit(60)]
proof fn lemma_groups_tied(
    chunk: &Chunk,
    lists: Seq<(VoxelAxis, usize, Vec<OutputQuad>)>,
    ids: Seq<BlockID>,
    groups: Seq<VertexGroup>,
)
    requires
        forall|k: int| 0 <= k < lists.len() ==> lists_entry_ok(chunk, #[trigger] lists[k]),
        forall|facing: VoxelAxis, layer: int|
            0 <= layer < layer_count(chunk, facing) ==> #[trigger] has_slice(
                lists,
                facing,
                layer,
            ),
        forall|l: int, q: int|
            0 <= l < lists.len() && 0 <= q < lists[l].2@.len() && (
            #[trigger] lists[l].2@[q]).block_id != 0 ==> ids.contains(lists[l].2@[q].block_id),
        groups.len() == ids.len(),
        forall|u: int| 0 <= u < ids.len() ==> #[trigger] ids[u] != 0,
        forall|u: int|
            0 <= u < ids.len() ==> (#[trigger] groups[u]).material_id == ids[u] as u8
                && groups[u].vertices@.len() >= 4 && chunk_has_face(chunk, ids[u]),
    ensures
        forall|b: BlockID|
            b != 0 && #[trigger] chunk_has_face(chunk, b) ==> exists|g: int|
                0 <= g < groups.len() && (#[trigger] groups[g]).material_id == b as u8
                    && groups[g].vertices@.len() >= 4,
        forall|g: int| 0 <= g < groups.len() ==> #[trigger] group_backed(chunk, groups, g),
{
    assert forall|b: BlockID| b != 0 && #[trigger] chunk_has_face(chunk, b) implies exists|g: int|
        0 <= g < groups.len() && (#[trigger] groups[g]).material_id == b as u8
            && groups[g].vertices@.len() >= 4 by {
        lemma_face_has_quad(chunk, lists, b);
        let (l, q) = choose|l: int, q: int|
            0 <= l < lists.len() && 0 <= q < lists[l].2@.len() && (
            #[trigger] lists[l].2@[q]).block_id == b;
        assert(ids.contains(b));
        let u = choose|u: int| 0 <= u < ids.len() && ids[u] == b;
        assert(groups[u].material_id == b as u8 && groups[u].vertices@.len() >= 4);
    }
    assert forall|g: int| 0 <= g < groups.len() implies #[trigger] group_backed(
        chunk,
        groups,
        g,
    ) by {
        let b = ids[g];
        assert(ids[g] != 0);
        assert((#[trigger] groups[g]).material_id == ids[g] as u8 && groups[g].vertices@.len() >= 4
            && chunk_has_face(chunk, ids[g]));
        assert(b != 0 && chunk_has_face(chunk, b) && groups[g].material_id == b as u8
            && groups[g].vertices@.len() >= 4);
    }
}

/// The running relation between the emitted quads and the claim mask: a
/// cell is claimed exactly when some emitted quad covers it, the quads
/// are disjoint and uniform over present matching cells, and each lies
/// inside the slice.
spec fn slice_loop_inv(
    out: Seq<OutputQuad>,
    s: Seq<InputQuad>,
    claimed: Seq<bool>,
    w: int,
    h: int,
) -> bool {
    &&& forall|k: int|
        0 <= k < out.len() ==> {
            let q = #[trigger] out[k];
            1 <= q.w && 1 <= q.h && q.x + q.w <= w && q.y + q.h <= h
        }
    &&& forall|k: int, i: int, j: int|
        0 <= k < out.len() && 0 <= i && 0 <= j && #[trigger] quad_covers(out[k], i, j) ==> (
        #[trigger] slice_cell(s, w, i, j)).present && slice_cell(s, w, i, j).block_id
            == out[k].block_id
    &&& forall|k1: int, k2: int, i: int, j: int|
        0 <= k1 < k2 < out.len() ==> !(#[trigger] quad_covers(out[k1], i, j)
            && #[trigger] quad_covers(out[k2], i, j))
    &&& forall|i: int, j: int|
        0 <= i < w && 0 <= j < h ==> #[trigger] claimed[j * w + i] == exists|k: int|
            0 <= k < out.len() && quad_covers(#[trigger] out[k], i, j)
}

/// Emitting a quad over a freshly claimed region extends the running
/// relation.
proof fn lemma_claim_extends(
    out: Seq<OutputQuad>,
    s: Seq<InputQuad>,
    claimed0: Seq<bool>,
    claimed: Seq<bool>,
    w: int,
    h: int,
    quad: OutputQuad,
)
    requires
        out.len() >= 1,
        quad == out[out.len() - 1],
        slice_loop_inv(out.drop_last(), s, claimed0, w, h),
        claimed.len() == w * h,
        claimed0.len() == w * h,
        1 <= quad.w && 1 <= quad.h && quad.x + quad.w <= w && quad.y + quad.h <= h,
        forall|row: int|
            quad.y <= row < quad.y + quad.h ==> row_segment_free(
                s,
                claimed0,
                w,
                quad.x as int,
                quad.w as int,
                row,
                quad.block_id,
            ),
        forall|idx: int|
            0 <= idx < claimed.len() ==> #[trigger] claimed[idx] == (claimed0[idx] || exists|
                i2: int,
                j2: int,
            |
                0 <= i2 && 0 <= j2 && idx == j2 * w + i2 && i2 < w && j2 < h && quad_covers(
                    quad,
                    i2,
                    j2,
                ) && j2 < quad.y + quad.h),
    ensures
        slice_loop_inv(out, s, claimed, w, h),
{
    let prev = out.drop_last();
    let n = out.len() - 1;
    assert(forall|k: int| 0 <= k < n ==> #[trigger] out[k] == prev[k]);
    assert forall|k: int, i: int, j: int|
        0 <= k < out.len() && 0 <= i && 0 <= j && #[trigger] quad_covers(out[k], i, j) implies (
    #[trigger] slice_cell(s, w, i, j)).present && slice_cell(s, w, i, j).block_id
        == out[k].block_id by {
        if k == n {
            assert(row_segment_free(s, claimed0, w, quad.x as int, quad.w as int, j, quad.block_id));
            assert(slice_cell(s, w, i, j).present);
        } else {
            assert(quad_covers(prev[k], i, j));
        }
    }
    assert forall|k1: int, k2: int, i: int, j: int|
        0 <= k1 < k2 < out.len() implies !(#[trigger] quad_covers(out[k1], i, j)
        && #[trigger] quad_covers(out[k2], i, j)) by {
        if k2 == n {
            if quad_covers(out[k1], i, j) && quad_covers(quad, i, j) {
                assert(quad_covers(prev[k1], i, j));
                assert(0 <= i < w && 0 <= j < h);
                lemma_flat_index_bound(i, j, 0, w, h, 1);
                assert(claimed0[j * w + i]);
                assert(row_segment_free(
                    s,
                    claimed0,
                    w,
                    quad.x as int,
                    quad.w as int,
                    j,
                    quad.block_id,
                ));
                assert((slice_cell(s, w, i, j)).present);
                assert(!claimed0[j * w + i]);
            }
        }
    }
    assert forall|i: int, j: int|
        0 <= i < w && 0 <= j < h implies #[trigger] claimed[j * w + i] == exists|k: int|
        0 <= k < out.len() && quad_covers(#[trigger] out[k], i, j) by {
        lemma_flat_index_bound(i, j, 0, w, h, 1);
        if claimed[j * w + i] {
            if claimed0[j * w + i] {
                let k = choose|k: int| 0 <= k < prev.len() && quad_covers(#[trigger] prev[k], i, j);
                assert(quad_covers(out[k], i, j));
            } else {
                let (i2, j2) = choose|i2: int, j2: int|
                    0 <= i2 && 0 <= j2 && j * w + i == j2 * w + i2 && i2 < w && j2 < h
                        && quad_covers(quad, i2, j2) && j2 < quad.y + quad.h;
                if i2 != i || j2 != j {
                    lemma_flat_index_injective(w, h, (i2, j2, 0), (i, j, 0));
                }
                assert(quad_covers(out[n], i, j));
            }
        }
        if exists|k: int| 0 <= k < out.len() && quad_covers(#[trigger] out[k], i, j) {
            let k = choose|k: int| 0 <= k < out.len() && quad_covers(#[trigger] out[k], i, j);
            if k < n {
                assert(quad_covers(prev[k], i, j));
                assert(claimed0[j * w + i]);
            } else {
                assert(quad_covers(quad, i, j));
            }
        }
    }
}

/// Whether a quad-list collection holds an entry for a facing and layer.
pub open spec fn has_slice(
    r: Seq<(VoxelAxis, usize, Vec<OutputQuad>)>,
    facing: VoxelAxis,
    layer: int,
) -> bool {
    exists|k: int| 0 <= k < r.len() && (#[trigger] r[k]).0 == facing && r[k].1 == layer
}

/// The position of a facing in the fixed scan order.
pub open spec fn facing_rank(facing: VoxelAxis) -> int {
    match facing {
        VoxelAxis::PosiX => 0,
        VoxelAxis::NegaX => 1,
        VoxelAxis::PosiY => 2,
        VoxelAxis::NegaY => 3,
        VoxelAxis::PosiZ => 4,
        VoxelAxis::NegaZ => 5,
    }
}

/// The number of quad-list entries emitted by the facings before scan
/// position `fi`.
pub open spec fn facing_total_prefix(c: &Chunk, fi: int) -> int {
    if fi <= 0 {
        0
    } else if fi == 1 {
        layer_count(c, VoxelAxis::PosiX)
    } else if fi == 2 {
        2 * layer_count(c, VoxelAxis::PosiX)
    } else if fi == 3 {
        2 * layer_count(c, VoxelAxis::PosiX) + layer_count(c, VoxelAxis::PosiY)
    } else if fi == 4 {
        2 * layer_count(c, VoxelAxis::PosiX) + 2 * layer_count(c, VoxelAxis::PosiY)
    } else if fi == 5 {
        2 * layer_count(c, VoxelAxis::PosiX) + 2 * layer_count(c, VoxelAxis::PosiY) + layer_count(
            c,
            VoxelAxis::PosiZ,
        )
    } else {
        2 * layer_count(c, VoxelAxis::PosiX) + 2 * layer_count(c, VoxelAxis::PosiY) + 2
            * layer_count(c, VoxelAxis::PosiZ)
    }
}

/// Whether a vertex list's id list pairs each quad's four vertices with
/// the standard two-triangle winding.
pub open spec fn quad_group_wf(vg: VertexGroup) -> bool {
    &&& vg.vertices@.len() % 4 == 0
    &&& vg.indices@.len() == vg.vertices@.len() / 4 * 6
    &&& forall|q: int| 0 <= q < vg.vertices@.len() / 4 ==> standard_quad_indices(vg.indices@, q)
}

/// The six indices of one quad: triangles 0-1-2 and 2-3-0 over its four
/// vertices.
pub open spec fn standard_quad_indices(indices: Seq<u32>, q: int) -> bool {
    &&& indices[6 * q] == 4 * q
    &&& indices[6 * q + 1] == 4 * q + 1
    &&& indices[6 * q + 2] == 4 * q + 2
    &&& indices[6 * q + 3] == 4 * q + 2
    &&& indices[6 * q + 4] == 4 * q + 3
    &&& indices[6 * q + 5] == 4 * q
}

/// Whether a block id was already collected.
fn contains_id(ids: &Vec<BlockID>, id: BlockID) -> (r: bool)
    ensures
        r == ids@.contains(id),
{
    let mut k: usize = 0;
    while k < ids.len()
        invariant
            k <= ids@.len(),
            forall|j: int| 0 <= j < k ==> ids@[j] != id,
        decreases ids@.len() - k,
    {
        if ids[k] == id {
            proof {
                assert(ids@[k as int] == id);
            }
            return true;
        }
        k = k + 1;
    }
    proof {
        if ids@.contains(id) {
            let j = choose|j: int| 0 <= j < ids@.len() && ids@[j] == id;
        }
    }
    false
}

/// Appends the four corner vertices of one quad, laid out per facing so
/// both sides of an axis wind front-facing.
fn push_quad_vertices(
    vertices: &mut Vec<ChunkVertex>,
    facing: VoxelAxis,
    layer: usize,
    quad: &OutputQuad,
)
    requires
        old(vertices)@.len() + 4 <= 0xffff_ffff,
    ensures
        final(vertices)@.len() == old(vertices)@.len() + 4,
{
    let l = cap_u32(layer);
    let x = cap_u32(quad.x);
    let y = cap_u32(quad.y);
    let wq = cap_u32(quad.w);
    let hq = cap_u32(quad.h);
    let xw = if x <= 0xffff_0000 && wq <= 0xffff {
        x + wq
    } else {
        x
    };
    let yh = if y <= 0xffff_0000 && hq <= 0xffff {
        y + hq
    } else {
        y
    };
    let l1 = if l < 0xffff_ffff {
        l + 1
    } else {
        l
    };
    match facing {
        VoxelAxis::NegaX => {
            vertices.push(ChunkVertex { px: l, py: y, pz: x, normal: facing, u: 0, v: hq });
            vertices.push(ChunkVertex { px: l, py: y, pz: xw, normal: facing, u: wq, v: hq });
            vertices.push(ChunkVertex { px: l, py: yh, pz: xw, normal: facing, u: wq, v: 0 });
            vertices.push(ChunkVertex { px: l, py: yh, pz: x, normal: facing, u: 0, v: 0 });
        },
        VoxelAxis::PosiX => {
            vertices.push(ChunkVertex { px: l1, py: yh, pz: x, normal: facing, u: 0, v: 0 });
            vertices.push(ChunkVertex { px: l1, py: yh, pz: xw, normal: facing, u: wq, v: 0 });
            vertices.push(ChunkVertex { px: l1, py: y, pz: xw, normal: facing, u: wq, v: hq });
            vertices.push(ChunkVertex { px: l1, py: y, pz: x, normal: facing, u: 0, v: hq });
        },
        VoxelAxis::NegaY => {
            vertices.push(ChunkVertex { px: xw, py: l, pz: yh, normal: facing, u: wq, v: 0 });
            vertices.push(ChunkVertex { px: x, py: l, pz: yh, normal: facing, u: 0, v: 0 });
            vertices.push(ChunkVertex { px: x, py: l, pz: y, normal: facing, u: 0, v: hq });
            vertices.push(ChunkVertex { px: xw, py: l, pz: y, normal: facing, u: wq, v: hq });
        },
        VoxelAxis::PosiY => {
            vertices.push(ChunkVertex { px: x, py: l1, pz: yh, normal: facing, u: 0, v: 0 });
            vertices.push(ChunkVertex { px: xw, py: l1, pz: yh, normal: facing, u: wq, v: 0 });
            vertices.push(ChunkVertex { px: xw, py: l1, pz: y, normal: facing, u: wq, v: hq });
            vertices.push(ChunkVertex { px: x, py: l1, pz: y, normal: facing, u: 0, v: hq });
        },
        VoxelAxis::NegaZ => {
            vertices.push(ChunkVertex { px: x, py: yh, pz: l, normal: facing, u: 0, v: 0 });
            vertices.push(ChunkVertex { px: xw, py: yh, pz: l, normal: facing, u: wq, v: 0 });
            vertices.push(ChunkVertex { px: xw, py: y, pz: l, normal: facing, u: wq, v: hq });
            vertices.push(ChunkVertex { px: x, py: y, pz: l, normal: facing, u: 0, v: hq });
        },
        VoxelAxis::PosiZ => {
            vertices.push(ChunkVertex { px: xw, py: yh, pz: l1, normal: facing, u: wq, v: 0 });
            vertices.push(ChunkVertex { px: x, py: yh, pz: l1, normal: facing, u: 0, v: 0 });
            vertices.push(ChunkVertex { px: x, py: y, pz: l1, normal: facing, u: 0, v: hq });
            vertices.push(ChunkVertex { px: xw, py: y, pz: l1, normal: facing, u: wq, v: hq });
        },
    }
}

/// A machine-word coordinate clamped into a 32-bit vertex coordinate.
fn cap_u32(v: usize) -> (r: u32)
    ensures
        v <= u32::MAX ==> r == v,
{
    if v <= 0xffff_ffff {
        v as u32
    } else {
        0xffff_ffff
    }
}

} // verus!
