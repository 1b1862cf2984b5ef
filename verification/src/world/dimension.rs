//! A dimension: an unbounded, chunked voxel world presented as one flat
//! storage, materializing chunks only near observers.

use vstd::prelude::*;

use crate::voxel::voxelmath::{VoxelPos, VoxelRange, VoxelSize};
use crate::voxel::voxelstorage::{VoxelError, VoxelStorage};
use crate::voxel::voxelevent::{VoxelEvent, VoxelEventUntyped};
use crate::world::block::{BlockID, Chunk};
use crate::world::generators::WorldGenerator;

verus! {

/// An error reported upon trying to get or set a voxel in a chunk that is
/// not currently loaded, or whose recorded bounds disagree with the
/// dimension's chunk size.
#[derive(Clone, Copy, Debug)]
pub enum ChunkedVoxelError<T, S> {
    NotLoaded(VoxelPos<T>, VoxelPos<T>),
    ChunkBoundsInvalid(VoxelPos<T>, VoxelPos<T>, VoxelSize<S>, VoxelSize<S>, VoxelRange<T>),
}

/// The three states of a chunk's mesh freshness: needs remeshing,
/// currently being remeshed, or current.
#[derive(Clone, Copy, Debug, PartialEq, Eq, Structural)]
pub enum ChunkMeshState {
    Dirty,
    Writing,
    Clean,
}

/// One resident chunk: its voxel data, its mesh freshness, and its
/// absolute world-space bounds.
pub struct ChunkEntry {
    pub data: Chunk,
    pub state: ChunkMeshState,
    pub bounds: VoxelRange<i32>,
}

/// Floor division of a block coordinate by a chunk extent.
fn floor_div(a: i32, b: u32) -> (r: i32)
    requires
        b >= 1,
    ensures
        r == a as int / b as int,
{
    if a >= 0 {
        proof {
            lemma_nonneg_div_bounds(a as int, b as int);
        }
        ((a as u64) / (b as u64)) as i32
    } else {
        let m: u64 = (-(a as i64)) as u64;
        let q: u64 = (m + (b as u64) - 1) / (b as u64);
        proof {
            lemma_neg_floor_div(a as int, b as int, m as int, q as int);
        }
        (-(q as i64)) as i32
    }
}

/// For a nonnegative dividend the quotient stays between zero and the
/// dividend.
proof fn lemma_nonneg_div_bounds(a: int, b: int)
    requires
        a >= 0,
        b >= 1,
    ensures
        0 <= a / b <= a,
{
    vstd::arithmetic::div_mod::lemma_fundamental_div_mod(a, b);
    vstd::arithmetic::div_mod::lemma_mod_bound(a, b);
    assert(0 <= a / b <= a) by (nonlinear_arith)
        requires
            a >= 0,
            b >= 1,
            a == b * (a / b) + a % b,
            0 <= a % b < b,
    ;
}

/// For a negative dividend, the floor quotient is the negated ceiling
/// quotient of its magnitude.
proof fn lemma_neg_floor_div(a: int, b: int, m: int, q: int)
    requires
        a < 0,
        b >= 1,
        m == -a,
        q == (m + b - 1) / b,
    ensures
        a / b == -q,
        0 < q <= m,
{
    vstd::arithmetic::div_mod::lemma_fundamental_div_mod(a, b);
    vstd::arithmetic::div_mod::lemma_mod_bound(a, b);
    let q0 = a / b;
    let r0 = a % b;
    assert(m + b - 1 == b * (-q0) + (b - 1 - r0)) by (nonlinear_arith)
        requires
            m == -a,
            a == b * q0 + r0,
    ;
    vstd::arithmetic::div_mod::lemma_fundamental_div_mod_converse_div(
        m + b - 1,
        b,
        -q0,
        b - 1 - r0,
    );
    assert(q == -q0);
    assert(q0 < 0) by (nonlinear_arith)
        requires
            b * q0 + r0 < 0,
            0 <= r0 < b,
            b >= 1,
    ;
    assert(b * q == m + r0) by (nonlinear_arith)
        requires
            q == -q0,
            m + b - 1 == b * (-q0) + (b - 1 - r0),
    ;
    assert(q <= m) by (nonlinear_arith)
        requires
            b >= 1,
            m >= 1,
            b * q == m + r0,
            0 <= r0 < b,
    ;
}

/// The chunk-grid coordinates owning a block position: the block position
/// divided by the chunk size, floored, on each axis.
pub open spec fn spec_blockpos_to_chunk(p: (int, int, int), cs: (int, int, int)) -> (
    int,
    int,
    int,
) {
    (p.0 / cs.0, p.1 / cs.1, p.2 / cs.2)
}

/// Computes the chunk-grid position whose chunk contains a block position.
pub fn blockpos_to_chunk(point: VoxelPos<i32>, chunk_size: VoxelSize<u32>) -> (r: VoxelPos<i32>)
    requires
        chunk_size.x >= 1,
        chunk_size.y >= 1,
        chunk_size.z >= 1,
    ensures
        r.as_tuple() == spec_blockpos_to_chunk(
            point.as_tuple(),
            (chunk_size.x as int, chunk_size.y as int, chunk_size.z as int),
        ),
{
    VoxelPos {
        x: floor_div(point.x, chunk_size.x),
        y: floor_div(point.y, chunk_size.y),
        z: floor_div(point.z, chunk_size.z),
    }
}

/// Computes the absolute block position of a chunk's lower corner.
pub fn chunkpos_to_block(point: VoxelPos<i32>, chunk_size: VoxelSize<u32>) -> (r: VoxelPos<i32>)
    requires
        i32::MIN <= point.x * chunk_size.x <= i32::MAX,
        i32::MIN <= point.y * chunk_size.y <= i32::MAX,
        i32::MIN <= point.z * chunk_size.z <= i32::MAX,
    ensures
        r.x == point.x * chunk_size.x,
        r.y == point.y * chunk_size.y,
        r.z == point.z * chunk_size.z,
{
    VoxelPos {
        x: ((point.x as i64) * (chunk_size.x as i64)) as i32,
        y: ((point.y as i64) * (chunk_size.y as i64)) as i32,
        z: ((point.z as i64) * (chunk_size.z as i64)) as i32,
    }
}

/// Computes twice the world-space center of a chunk: the doubled lower
/// corner plus the chunk size, exact in integers.
pub fn chunkpos_to_center(point: VoxelPos<i32>, chunk_size: VoxelSize<u32>) -> (r: (i64, i64, i64))
    requires
        chunk_size.x <= 255,
        chunk_size.y <= 255,
        chunk_size.z <= 255,
    ensures
        r.0 == 2 * point.x * chunk_size.x + chunk_size.x,
        r.1 == 2 * point.y * chunk_size.y + chunk_size.y,
        r.2 == 2 * point.z * chunk_size.z + chunk_size.z,
        -0x200_0000_0000 <= r.0 <= 0x200_0000_0000,
        -0x200_0000_0000 <= r.1 <= 0x200_0000_0000,
        -0x200_0000_0000 <= r.2 <= 0x200_0000_0000,
{
    proof {
        assert(2 * (point.x as int) * (chunk_size.x as int) + chunk_size.x < 0x200_0000_0000int
            && 2 * (point.x as int) * (chunk_size.x as int) + chunk_size.x > -0x200_0000_0000int)
            by (nonlinear_arith)
            requires
                -0x8000_0000 <= point.x as int <= 0x7fff_ffff,
                0 <= chunk_size.x as int <= 255,
        ;
        assert(2 * (point.y as int) * (chunk_size.y as int) + chunk_size.y < 0x200_0000_0000int
            && 2 * (point.y as int) * (chunk_size.y as int) + chunk_size.y > -0x200_0000_0000int)
            by (nonlinear_arith)
            requires
                -0x8000_0000 <= point.y as int <= 0x7fff_ffff,
                0 <= chunk_size.y as int <= 255,
        ;
        assert(2 * (point.z as int) * (chunk_size.z as int) + chunk_size.z < 0x200_0000_0000int
            && 2 * (point.z as int) * (chunk_size.z as int) + chunk_size.z > -0x200_0000_0000int)
            by (nonlinear_arith)
            requires
                -0x8000_0000 <= point.z as int <= 0x7fff_ffff,
                0 <= chunk_size.z as int <= 255,
        ;
    }
    (
        2 * (point.x as i64) * (chunk_size.x as i64) + (chunk_size.x as i64),
        2 * (point.y as i64) * (chunk_size.y as i64) + (chunk_size.y as i64),
        2 * (point.z as i64) * (chunk_size.z as i64) + (chunk_size.z as i64),
    )
}

/// A dimension: a sparse map from chunk-grid position to resident chunk,
/// over a fixed chunk size.
pub struct Dimension {
    chunks: Vec<(VoxelPos<i32>, ChunkEntry)>,
    chunk_size: VoxelSize<u32>,
}

impl Dimension {
    /// The chunk size on each axis.
    pub closed spec fn spec_chunk_size(&self) -> (int, int, int) {
        (self.chunk_size.x as int, self.chunk_size.y as int, self.chunk_size.z as int)
    }

    /// The resident chunks, in storage order.
    pub closed spec fn entries(&self) -> Seq<((int, int, int), ChunkEntry)> {
        Seq::new(self.chunks@.len(), |k: int| (self.chunks@[k].0.as_tuple(), self.chunks@[k].1))
    }

    /// Whether the chunk at a chunk-grid position is resident.
    pub open spec fn is_loaded(&self, cp: (int, int, int)) -> bool {
        exists|k: int| 0 <= k < self.entries().len() && (#[trigger] self.entries()[k]).0 == cp
    }

    /// The resident entry at a chunk-grid position.
    pub open spec fn entry_at(&self, cp: (int, int, int)) -> ChunkEntry {
        self.entries()[self.index_of(cp)].1
    }

    /// The storage index of a resident chunk.
    pub open spec fn index_of(&self, cp: (int, int, int)) -> int {
        choose|k: int| 0 <= k < self.entries().len() && (#[trigger] self.entries()[k]).0 == cp
    }

    /// Chunk keys are unique, and the chunk size is positive and small
    /// enough for chunk-local coordinates to fit in a byte.
    #[verifier::type_invariant]
    spec fn wf(&self) -> bool {
        &&& forall|k1: int, k2: int|
            0 <= k1 < k2 < self.entries().len() ==> (#[trigger] self.entries()[k1]).0 != (
            #[trigger] self.entries()[k2]).0
        &&& 1 <= self.spec_chunk_size().0 <= 255
        &&& 1 <= self.spec_chunk_size().1 <= 255
        &&& 1 <= self.spec_chunk_size().2 <= 255
    }

    /// A new, empty dimension with the standard sixteen-cubed chunks.
    pub fn new() -> (r: Dimension)
        ensures
            r.entries().len() == 0,
            r.spec_chunk_size() == (16int, 16int, 16int),
    {
        Dimension { chunks: Vec::new(), chunk_size: VoxelSize { x: 16, y: 16, z: 16 } }
    }

    /// The chunk size of this dimension.
    pub fn chunk_size(&self) -> (r: VoxelSize<u32>)
        ensures
            (r.x as int, r.y as int, r.z as int) == self.spec_chunk_size(),
            1 <= r.x <= 255 && 1 <= r.y <= 255 && 1 <= r.z <= 255,
    {
        proof {
            use_type_invariant(self);
        }
        self.chunk_size
    }

    /// Finds the storage index of a resident chunk.
    fn find_chunk(&self, chunk_pos: &VoxelPos<i32>) -> (r: Option<usize>)
        ensures
            match r {
                Some(k) => k < self.entries().len() && self.entries()[k as int].0
                    == chunk_pos.as_tuple() && k == self.index_of(chunk_pos.as_tuple()),
                None => !self.is_loaded(chunk_pos.as_tuple()),
            },
    {
        proof {
            use_type_invariant(self);
        }
        let mut k: usize = 0;
        while k < self.chunks.len()
            invariant
                k <= self.entries().len(),
                self.entries().len() == self.chunks@.len(),
                self.wf(),
                forall|j: int| 0 <= j < k ==> (#[trigger] self.entries()[j]).0 != chunk_pos.as_tuple(),
            decreases self.chunks@.len() - k,
        {
            let p = self.chunks[k].0;
            if p.x == chunk_pos.x && p.y == chunk_pos.y && p.z == chunk_pos.z {
                proof {
                    assert((self.entries()[k as int]).0 == chunk_pos.as_tuple());
                    let j = self.index_of(chunk_pos.as_tuple());
                    if j != k {
                        assert(self.entries()[j].0 == self.entries()[k as int].0);
                    }
                }
                return Some(k);
            }
            k = k + 1;
        }
        None
    }

    /// Whether the chunk at a chunk-grid position is currently loaded.
    pub fn is_chunk_loaded(&self, chunk_pos: VoxelPos<i32>) -> (r: bool)
        ensures
            r == self.is_loaded(chunk_pos.as_tuple()),
    {
        self.find_chunk(&chunk_pos).is_some()
    }

    /// The chunk-grid positions of every loaded chunk, in storage order.
    pub fn loaded_chunk_list(&self) -> (r: Vec<VoxelPos<i32>>)
        ensures
            r@.len() == self.entries().len(),
            forall|k: int|
                0 <= k < r@.len() ==> (#[trigger] r@[k]).as_tuple() == self.entries()[k].0,
    {
        let mut out: Vec<VoxelPos<i32>> = Vec::new();
        let mut k: usize = 0;
        while k < self.chunks.len()
            invariant
                k <= self.chunks@.len(),
                self.entries().len() == self.chunks@.len(),
                out@.len() == k,
                forall|j: int|
                    0 <= j < k ==> (#[trigger] out@[j]).as_tuple() == self.entries()[j].0,
            decreases self.chunks@.len() - k,
        {
            out.push(self.chunks[k].0);
            k = k + 1;
        }
        out
    }

    /// Whether a chunk entry can serve reads and writes for blocks it
    /// owns: its bounds extents equal the dimension's chunk size, the
    /// block lies inside the bounds, and the chunk's data defines the
    /// chunk-local cell.
    pub open spec fn entry_serves(&self, en: ChunkEntry, p: (int, int, int)) -> bool {
        &&& VoxelRange::spec_extent(en.bounds.lower.x, en.bounds.upper.x)
            == self.spec_chunk_size().0
        &&& VoxelRange::spec_extent(en.bounds.lower.y, en.bounds.upper.y)
            == self.spec_chunk_size().1
        &&& VoxelRange::spec_extent(en.bounds.lower.z, en.bounds.upper.z)
            == self.spec_chunk_size().2
        &&& en.bounds.contains_int(p)
        &&& en.data.in_bounds(self.local_of(en, p))
    }

    /// The chunk-local coordinates of a block position within an entry.
    pub open spec fn local_of(&self, en: ChunkEntry, p: (int, int, int)) -> (int, int, int) {
        (p.0 - en.bounds.lower.x, p.1 - en.bounds.lower.y, p.2 - en.bounds.lower.z)
    }

    /// The chunk-grid position owning a block position.
    pub open spec fn owner_of(&self, p: (int, int, int)) -> (int, int, int) {
        spec_blockpos_to_chunk(p, self.spec_chunk_size())
    }

    /// Whether a block position can be read or written.
    pub open spec fn block_defined(&self, p: (int, int, int)) -> bool {
        &&& self.is_loaded(self.owner_of(p))
        &&& self.entry_serves(self.entry_at(self.owner_of(p)), p)
    }

    /// The value stored at a readable block position.
    pub open spec fn block_value(&self, p: (int, int, int)) -> BlockID {
        let en = self.entry_at(self.owner_of(p));
        en.data.cells()[self.local_of(en, p)]
    }

    /// Reads the block at an absolute position, locating the owning chunk
    /// and delegating to it.
    pub fn get(&self, coord: VoxelPos<i32>) -> (r: Result<BlockID, ChunkedVoxelError<i32, u32>>)
        ensures
            match r {
                Ok(v) => self.block_defined(coord.as_tuple()) && v == self.block_value(
                    coord.as_tuple(),
                ),
                Err(e) => !self.block_defined(coord.as_tuple()) && ((e matches
                    ChunkedVoxelError::NotLoaded(cp, bp) && !self.is_loaded(self.owner_of(coord.as_tuple()))
                    && cp.as_tuple() == self.owner_of(coord.as_tuple()) && bp == coord) || (e matches
                    ChunkedVoxelError::ChunkBoundsInvalid(bp, cp, _, _, _) && self.is_loaded(self.owner_of(coord.as_tuple()))
                    && bp == coord && cp.as_tuple() == self.owner_of(coord.as_tuple()))),
            },
    {
        proof {
            use_type_invariant(self);
        }
        let size = self.chunk_size;
        let chunkpos = blockpos_to_chunk(coord, size);
        match self.find_chunk(&chunkpos) {
            Some(k) => {
                let entry = &self.chunks[k].1;
                proof {
                    assert(self.entries()[k as int].1 == self.chunks@[k as int].1);
                    assert(self.entry_at(self.owner_of(coord.as_tuple())) == self.chunks@[
                        k as int].1);
                }
                let bounds = entry.bounds;
                let found_size = bounds.get_size_unsigned();
                if found_size.x != size.x || found_size.y != size.y || found_size.z != size.z {
                    return Err(
                        ChunkedVoxelError::ChunkBoundsInvalid(
                            coord,
                            chunkpos,
                            size,
                            found_size,
                            bounds,
                        ),
                    );
                }
                match bounds.get_local_unsigned(coord) {
                    Some(local) => {
                        let lp: VoxelPos<u8> = VoxelPos {
                            x: local.x as u8,
                            y: local.y as u8,
                            z: local.z as u8,
                        };
                        match entry.data.get(lp) {
                            Some(v) => Ok(v),
                            None => Err(
                                ChunkedVoxelError::ChunkBoundsInvalid(
                                    coord,
                                    chunkpos,
                                    size,
                                    found_size,
                                    bounds,
                                ),
                            ),
                        }
                    },
                    None => Err(
                        ChunkedVoxelError::ChunkBoundsInvalid(
                            coord,
                            chunkpos,
                            size,
                            found_size,
                            bounds,
                        ),
                    ),
                }
            },
            None => Err(ChunkedVoxelError::NotLoaded(chunkpos, coord)),
        }
    }

    /// Writes the block at an absolute position. The write reaches the
    /// owning chunk only when the new value differs from the stored one;
    /// a differing write also marks the chunk's mesh dirty, and a write
    /// of the stored value changes nothing at all.
    pub fn set(&mut self, coord: VoxelPos<i32>, value: BlockID) -> (r: Result<
        (),
        ChunkedVoxelError<i32, u32>,
    >)
        ensures
            match r {
                Ok(_) => {
                    let p = coord.as_tuple();
                    let cp = old(self).owner_of(p);
                    let k = old(self).index_of(cp);
                    &&& old(self).block_defined(p)
                    &&& (old(self).block_value(p) == value ==> *final(self) == *old(self))
                    &&& (old(self).block_value(p) != value ==> {
                        &&& final(self).spec_chunk_size() == old(self).spec_chunk_size()
                        &&& final(self).entries().len() == old(self).entries().len()
                        &&& forall|j: int|
                            0 <= j < final(self).entries().len() ==> (#[trigger] final(self).entries()[j]).0 == old(self).entries()[j].0
                        &&& forall|j: int|
                            0 <= j < final(self).entries().len() && j != k ==> (#[trigger] final(self).entries()[j]).1 == old(self).entries()[j].1
                        &&& final(self).entries()[k].1.state == ChunkMeshState::Dirty
                        &&& final(self).entries()[k].1.bounds == old(self).entries()[k].1.bounds
                        &&& final(self).entries()[k].1.data.spec_size() == old(self).entries()[k].1.data.spec_size()
                        &&& final(self).entries()[k].1.data.cells() == old(self).entries()[k].1.data.cells().insert(
                            old(self).local_of(old(self).entries()[k].1, p),
                            value,
                        )
                    })
                },
                Err(e) => {
                    let p = coord.as_tuple();
                    &&& !old(self).block_defined(p)
                    &&& *final(self) == *old(self)
                    &&& ((e matches ChunkedVoxelError::NotLoaded(cp, bp) && !old(self).is_loaded(
                        old(self).owner_of(p),
                    ) && cp.as_tuple() == old(self).owner_of(p) && bp == coord) || (e matches
                    ChunkedVoxelError::ChunkBoundsInvalid(bp, cp, _, _, _) && old(self).is_loaded(
                        old(self).owner_of(p),
                    ) && bp == coord && cp.as_tuple() == old(self).owner_of(p)))
                },
            },
    {
        proof {
            use_type_invariant(&*self);
        }
        let size = self.chunk_size;
        let chunkpos = blockpos_to_chunk(coord, size);
        let k = match self.find_chunk(&chunkpos) {
            Some(k) => k,
            None => {
                return Err(ChunkedVoxelError::NotLoaded(chunkpos, coord));
            },
        };
        proof {
            assert(self.entries()[k as int].1 == self.chunks@[k as int].1);
            assert(self.entry_at(self.owner_of(coord.as_tuple())) == self.chunks@[k as int].1);
        }
        let entry_ref = &self.chunks[k].1;
        let bounds = entry_ref.bounds;
        let found_size = bounds.get_size_unsigned();
        if found_size.x != size.x || found_size.y != size.y || found_size.z != size.z {
            return Err(ChunkedVoxelError::ChunkBoundsInvalid(coord, chunkpos, size, found_size, bounds));
        }
        let local = match bounds.get_local_unsigned(coord) {
            Some(local) => local,
            None => {
                return Err(
                    ChunkedVoxelError::ChunkBoundsInvalid(coord, chunkpos, size, found_size, bounds),
                );
            },
        };
        let lp: VoxelPos<u8> = VoxelPos { x: local.x as u8, y: local.y as u8, z: local.z as u8 };
        let current = match entry_ref.data.get(lp) {
            Some(v) => v,
            None => {
                return Err(
                    ChunkedVoxelError::ChunkBoundsInvalid(coord, chunkpos, size, found_size, bounds),
                );
            },
        };
        if current == value {
            return Ok(());
        }
        let ghost pre = *self;
        let mut chunks: Vec<(VoxelPos<i32>, ChunkEntry)> = Vec::new();
        std::mem::swap(&mut chunks, &mut self.chunks);
        let (cpos, mut entry) = chunks.remove(k);
        entry.data.set(lp, value);
        entry.state = ChunkMeshState::Dirty;
        chunks.insert(k, (cpos, entry));
        proof {
            assert(chunks@ =~= pre.chunks@.update(k as int, chunks@[k as int]));
            assert(forall|j: int|
                0 <= j < chunks@.len() ==> (#[trigger] chunks@[j]).0 == pre.chunks@[j].0);
            assert forall|k1: int, k2: int|
                0 <= k1 < k2 < chunks@.len() implies (#[trigger] chunks@[k1]).0.as_tuple() != (
            #[trigger] chunks@[k2]).0.as_tuple() by {
                assert(pre.entries()[k1].0 != pre.entries()[k2].0);
                assert(pre.entries()[k1].0 == pre.chunks@[k1].0.as_tuple());
                assert(pre.entries()[k2].0 == pre.chunks@[k2].0.as_tuple());
            }
        }
        self.chunks = chunks;
        proof {
            assert(forall|j: int|
                0 <= j < self.entries().len() ==> (#[trigger] self.entries()[j]).0
                    == pre.entries()[j].0);
            assert(forall|j: int|
                0 <= j < self.entries().len() && j != k ==> (#[trigger] self.entries()[j]).1
                    == pre.entries()[j].1);
        }
        Ok(())
    }
}

impl Dimension {
    /// Applies a voxel event to this dimension by delegating to the
    /// event's own application logic.
    pub fn apply_event(&mut self, e: VoxelEvent<BlockID, i32>) -> (r: Result<(), VoxelError>)
        ensures
            (r is Ok) == (forall|p: (int, int, int)| #[trigger]
                e.targets().contains(p) ==> old(self).block_defined(p)),
            r is Ok ==> forall|p: (int, int, int)| #[trigger]
                e.targets().contains(p) ==> final(self).cells().dom().contains(p) && final(self).cells()[p] == e.source_value(),
            forall|p: (int, int, int)|
                !(#[trigger] e.targets().contains(p)) ==> final(self).cells().dom().contains(p)
                    == old(self).cells().dom().contains(p),
            forall|p: (int, int, int)|
                !(#[trigger] e.targets().contains(p)) && old(self).cells().dom().contains(p)
                    ==> final(self).cells()[p] == old(self).cells()[p],
            r matches Err(err) ==> (exists|p: (int, int, int)| #[trigger]
                e.targets().contains(p) && !old(self).block_defined(p)) && (err
                == VoxelError::NotYetLoaded || err == VoxelError::Other),
            forall|p: (int, int, int)| #[trigger] final(self).block_defined(p) == old(self).block_defined(p),
            forall|p: (int, int, int)| #[trigger]
                e.targets().contains(p) && !old(self).block_defined(p) ==> final(self).cells().dom().contains(p) == old(self).cells().dom().contains(p) && (old(self).cells().dom().contains(p) ==> final(self).cells()[p] == old(self).cells()[p]),
    {
        let r = e.apply_blind(self);
        proof {
            if r is Err {
                let err = r->Err_0;
                let p = choose|p: (int, int, int)| #[trigger]
                    e.targets().contains(p) && !old(self).settable(p) && err == old(self).set_error(p);
                assert(e.targets().contains(p) && !old(self).block_defined(p));
            }
            if r is Ok {
                assert forall|p: (int, int, int)| #[trigger]
                    e.targets().contains(p) implies final(self).cells().dom().contains(p)
                    && final(self).cells()[p] == e.source_value() by {
                    assert(cloned(e.source_value(), final(self).cells()[p]));
                }
            }
            assert forall|p: (int, int, int)| #[trigger] self.block_defined(p) == old(self).block_defined(p) by {
                assert(self.settable(p) == old(self).settable(p));
            }
        }
        r
    }

    /// The bounds of a loaded chunk.
    pub fn chunk_bounds(&self, chunk_pos: VoxelPos<i32>) -> (r: Option<VoxelRange<i32>>)
        ensures
            match r {
                Some(b) => self.is_loaded(chunk_pos.as_tuple()) && b == self.entry_at(
                    chunk_pos.as_tuple(),
                ).bounds,
                None => !self.is_loaded(chunk_pos.as_tuple()),
            },
    {
        match self.find_chunk(&chunk_pos) {
            Some(k) => {
                proof {
                    assert(self.entries()[k as int].1 == self.chunks@[k as int].1);
                }
                Some(self.chunks[k].1.bounds)
            },
            None => None,
        }
    }

    /// The mesh freshness of a loaded chunk.
    pub fn get_chunk_state(&self, chunk_pos: VoxelPos<i32>) -> (r: Option<ChunkMeshState>)
        ensures
            match r {
                Some(st) => self.is_loaded(chunk_pos.as_tuple()) && st == self.entry_at(
                    chunk_pos.as_tuple(),
                ).state,
                None => !self.is_loaded(chunk_pos.as_tuple()),
            },
    {
        match self.find_chunk(&chunk_pos) {
            Some(k) => {
                proof {
                    assert(self.entries()[k as int].1 == self.chunks@[k as int].1);
                }
                Some(self.chunks[k].1.state)
            },
            None => None,
        }
    }

    /// A cell-by-cell copy of a loaded chunk's voxel data.
    pub fn chunk_data_copy(&self, chunk_pos: VoxelPos<i32>) -> (r: Option<Chunk>)
        ensures
            match r {
                Some(c) => {
                    let en = self.entry_at(chunk_pos.as_tuple());
                    &&& self.is_loaded(chunk_pos.as_tuple())
                    &&& c.spec_size() == en.data.spec_size()
                    &&& c.data_seq() == en.data.data_seq()
                },
                None => !self.is_loaded(chunk_pos.as_tuple()),
            },
    {
        match self.find_chunk(&chunk_pos) {
            Some(k) => {
                proof {
                    assert(self.entries()[k as int].1 == self.chunks@[k as int].1);
                }
                let c = self.chunks[k].1.data.duplicate();
                proof {
                    assert forall|i: int|
                        0 <= i < c.data_seq().len() implies c.data_seq()[i] == self.entry_at(
                        chunk_pos.as_tuple(),
                    ).data.data_seq()[i] by {
                        assert(cloned(
                            self.entry_at(chunk_pos.as_tuple()).data.data_seq()[i],
                            c.data_seq()[i],
                        ));
                    }
                    assert(c.data_seq() =~= self.entry_at(chunk_pos.as_tuple()).data.data_seq());
                }
                Some(c)
            },
            None => None,
        }
    }

    /// Installs a chunk entry at an unoccupied chunk-grid position;
    /// reports whether the position was free.
    pub fn insert_chunk(&mut self, chunk_pos: VoxelPos<i32>, entry: ChunkEntry) -> (r: bool)
        ensures
            r == !old(self).is_loaded(chunk_pos.as_tuple()),
            r ==> final(self).entries() == old(self).entries().push(
                (chunk_pos.as_tuple(), entry),
            ) && final(self).spec_chunk_size() == old(self).spec_chunk_size(),
            !r ==> *final(self) == *old(self),
    {
        proof {
            use_type_invariant(&*self);
        }
        if self.find_chunk(&chunk_pos).is_some() {
            return false;
        }
        let ghost pre = *self;
        let mut chunks: Vec<(VoxelPos<i32>, ChunkEntry)> = Vec::new();
        std::mem::swap(&mut chunks, &mut self.chunks);
        chunks.push((chunk_pos, entry));
        proof {
            assert forall|k1: int, k2: int|
                0 <= k1 < k2 < chunks@.len() implies (#[trigger] chunks@[k1]).0.as_tuple() != (
            #[trigger] chunks@[k2]).0.as_tuple() by {
                if k2 == chunks@.len() - 1 {
                    assert(pre.entries()[k1].0 == pre.chunks@[k1].0.as_tuple());
                    if chunks@[k1].0.as_tuple() == chunk_pos.as_tuple() {
                        assert(pre.is_loaded(chunk_pos.as_tuple()));
                    }
                } else {
                    assert(pre.entries()[k1].0 != pre.entries()[k2].0);
                    assert(pre.entries()[k1].0 == pre.chunks@[k1].0.as_tuple());
                    assert(pre.entries()[k2].0 == pre.chunks@[k2].0.as_tuple());
                }
            }
        }
        self.chunks = chunks;
        proof {
            assert(self.entries() =~= pre.entries().push((chunk_pos.as_tuple(), entry)));
        }
        true
    }

    /// Removes a chunk entry; reports whether one was present.
    pub fn unload_chunk(&mut self, chunk_pos: VoxelPos<i32>) -> (r: bool)
        ensures
            r == old(self).is_loaded(chunk_pos.as_tuple()),
            r ==> final(self).entries() == old(self).entries().remove(
                old(self).index_of(chunk_pos.as_tuple()),
            ) && final(self).spec_chunk_size() == old(self).spec_chunk_size(),
            !r ==> *final(self) == *old(self),
            !final(self).is_loaded(chunk_pos.as_tuple()),
    {
        proof {
            use_type_invariant(&*self);
        }
        let k = match self.find_chunk(&chunk_pos) {
            Some(k) => k,
            None => {
                return false;
            },
        };
        let ghost pre = *self;
        let mut chunks: Vec<(VoxelPos<i32>, ChunkEntry)> = Vec::new();
        std::mem::swap(&mut chunks, &mut self.chunks);
        chunks.remove(k);
        proof {
            assert forall|k1: int, k2: int|
                0 <= k1 < k2 < chunks@.len() implies (#[trigger] chunks@[k1]).0.as_tuple() != (
            #[trigger] chunks@[k2]).0.as_tuple() by {
                let m1: int = if k1 < k {
                    k1
                } else {
                    k1 + 1
                };
                let m2: int = if k2 < k {
                    k2
                } else {
                    k2 + 1
                };
                assert(chunks@[k1] == pre.chunks@[m1]);
                assert(chunks@[k2] == pre.chunks@[m2]);
                assert(pre.entries()[m1].0 != pre.entries()[m2].0);
                assert(pre.entries()[m1].0 == pre.chunks@[m1].0.as_tuple());
                assert(pre.entries()[m2].0 == pre.chunks@[m2].0.as_tuple());
            }
        }
        self.chunks = chunks;
        proof {
            assert(self.entries() =~= pre.entries().remove(k as int));
            assert forall|j: int|
                0 <= j < self.entries().len() implies (#[trigger] self.entries()[j]).0
                != chunk_pos.as_tuple() by {
                let m: int = if j < k {
                    j
                } else {
                    j + 1
                };
                assert(self.entries()[j] == pre.entries()[m]);
                if m != k {
                    assert(pre.entries()[m].0 != pre.entries()[k as int].0);
                }
            }
        }
        true
    }

    /// Sets the mesh freshness of a loaded chunk; reports whether the
    /// chunk was present.
    pub fn set_chunk_state(&mut self, chunk_pos: VoxelPos<i32>, st: ChunkMeshState) -> (r: bool)
        ensures
            r == old(self).is_loaded(chunk_pos.as_tuple()),
            !r ==> *final(self) == *old(self),
            r ==> {
                let k = old(self).index_of(chunk_pos.as_tuple());
                &&& final(self).spec_chunk_size() == old(self).spec_chunk_size()
                &&& final(self).entries().len() == old(self).entries().len()
                &&& forall|j: int|
                    0 <= j < final(self).entries().len() ==> (#[trigger] final(self).entries()[j]).0
                        == old(self).entries()[j].0
                &&& forall|j: int|
                    0 <= j < final(self).entries().len() && j != k ==> (#[trigger] final(self).entries()[j]).1 == old(self).entries()[j].1
                &&& final(self).entries()[k].1.state == st
                &&& final(self).entries()[k].1.data == old(self).entries()[k].1.data
                &&& final(self).entries()[k].1.bounds == old(self).entries()[k].1.bounds
            },
    {
        proof {
            use_type_invariant(&*self);
        }
        let k = match self.find_chunk(&chunk_pos) {
            Some(k) => k,
            None => {
                return false;
            },
        };
        let ghost pre = *self;
        let mut chunks: Vec<(VoxelPos<i32>, ChunkEntry)> = Vec::new();
        std::mem::swap(&mut chunks, &mut self.chunks);
        let (cpos, mut entry) = chunks.remove(k);
        entry.state = st;
        chunks.insert(k, (cpos, entry));
        proof {
            assert(chunks@ =~= pre.chunks@.update(k as int, chunks@[k as int]));
            assert forall|k1: int, k2: int|
                0 <= k1 < k2 < chunks@.len() implies (#[trigger] chunks@[k1]).0.as_tuple() != (
            #[trigger] chunks@[k2]).0.as_tuple() by {
                assert(pre.entries()[k1].0 != pre.entries()[k2].0);
                assert(pre.entries()[k1].0 == pre.chunks@[k1].0.as_tuple());
                assert(pre.entries()[k2].0 == pre.chunks@[k2].0.as_tuple());
                assert(chunks@[k1].0 == pre.chunks@[k1].0);
                assert(chunks@[k2].0 == pre.chunks@[k2].0);
            }
        }
        self.chunks = chunks;
        true
    }
}

impl VoxelStorage<BlockID, i32> for Dimension {
    open spec fn cells(&self) -> Map<(int, int, int), BlockID> {
        Map::new(|p: (int, int, int)| self.block_defined(p), |p: (int, int, int)| self.block_value(p))
    }

    open spec fn settable(&self, p: (int, int, int)) -> bool {
        self.block_defined(p)
    }

    open spec fn get_error(&self, p: (int, int, int)) -> VoxelError {
        if self.is_loaded(self.owner_of(p)) {
            VoxelError::Other
        } else {
            VoxelError::NotYetLoaded
        }
    }

    open spec fn set_error(&self, p: (int, int, int)) -> VoxelError {
        if self.is_loaded(self.owner_of(p)) {
            VoxelError::Other
        } else {
            VoxelError::NotYetLoaded
        }
    }

    fn get(&self, coord: VoxelPos<i32>) -> (r: Result<BlockID, VoxelError>) {
        match Dimension::get(self, coord) {
            Ok(v) => Ok(v),
            Err(ChunkedVoxelError::NotLoaded(_, _)) => Err(VoxelError::NotYetLoaded),
            Err(ChunkedVoxelError::ChunkBoundsInvalid(_, _, _, _, _)) => Err(VoxelError::Other),
        }
    }

    fn set(&mut self, coord: VoxelPos<i32>, value: BlockID) -> (r: Result<(), VoxelError>) {
        proof {
            use_type_invariant(&*self);
        }
        let r = Dimension::set(self, coord, value);
        proof {
            if r is Ok {
                lemma_set_updates_cells(*old(self), *self, coord.as_tuple(), value);
            }
        }
        match r {
            Ok(_) => Ok(()),
            Err(ChunkedVoxelError::NotLoaded(_, _)) => Err(VoxelError::NotYetLoaded),
            Err(ChunkedVoxelError::ChunkBoundsInvalid(_, _, _, _, _)) => Err(VoxelError::Other),
        }
    }
}

/// After a successful dimension write the cell map is the old map with
/// the written position updated, and nothing else about readability or
/// errors changes.
proof fn lemma_set_updates_cells(pre: Dimension, post: Dimension, p: (int, int, int), value: BlockID)
    requires
        pre.wf(),
        pre.block_defined(p),
        pre.block_value(p) == value ==> post == pre,
        pre.block_value(p) != value ==> {
            let cp = pre.owner_of(p);
            let k = pre.index_of(cp);
            &&& post.spec_chunk_size() == pre.spec_chunk_size()
            &&& post.entries().len() == pre.entries().len()
            &&& forall|j: int|
                0 <= j < post.entries().len() ==> (#[trigger] post.entries()[j]).0
                    == pre.entries()[j].0
            &&& forall|j: int|
                0 <= j < post.entries().len() && j != k ==> (#[trigger] post.entries()[j]).1
                    == pre.entries()[j].1
            &&& post.entries()[k].1.bounds == pre.entries()[k].1.bounds
            &&& post.entries()[k].1.data.spec_size() == pre.entries()[k].1.data.spec_size()
            &&& post.entries()[k].1.data.cells() == pre.entries()[k].1.data.cells().insert(
                pre.local_of(pre.entries()[k].1, p),
                value,
            )
        },
    ensures
        post.cells() == pre.cells().insert(p, value),
        forall|q: (int, int, int)| #[trigger] post.block_defined(q) == pre.block_defined(q),
        forall|q: (int, int, int)| #[trigger] post.get_error(q) == pre.get_error(q),
        forall|q: (int, int, int)| #[trigger] post.set_error(q) == pre.set_error(q),
{
    if pre.block_value(p) == value {
        assert(pre.cells().dom().contains(p));
        assert(pre.cells()[p] == value);
        assert(post.cells() =~= pre.cells().insert(p, value));
    } else {
        let cp = pre.owner_of(p);
        let k = pre.index_of(cp);
        lemma_same_keys_same_index(pre, post);
        assert(pre.entries()[k].0 == cp);
        assert(post.entry_at(cp) == post.entries()[k].1);
        assert forall|q: (int, int, int)| true implies {
            &&& #[trigger] post.block_defined(q) == pre.block_defined(q)
            &&& post.get_error(q) == pre.get_error(q)
            &&& post.set_error(q) == pre.set_error(q)
            &&& (post.block_defined(q) && q != p ==> post.block_value(q) == pre.block_value(q))
            &&& (post.block_defined(q) && q == p ==> post.block_value(q) == value)
        } by {
            let cq = pre.owner_of(q);
            assert(post.owner_of(q) == cq);
            if pre.is_loaded(cq) {
                let j = pre.index_of(cq);
                assert(post.index_of(cq) == j);
                if cq != cp {
                    assert(pre.entries()[j].0 == cq);
                    if j == k {
                        assert(pre.entries()[k].0 == cp);
                        assert(false);
                    }
                    assert(post.entries()[j].1 == pre.entries()[j].1);
                } else {
                    assert(j == k) by {
                        if j != k {
                            assert(pre.entries()[j].0 == pre.entries()[k].0);
                        }
                    }
                    let en_pre = pre.entries()[k].1;
                    let en_post = post.entries()[k].1;
                    assert(en_post.bounds == en_pre.bounds);
                    assert(pre.local_of(en_pre, q) == post.local_of(en_post, q));
                    if q != p {
                        assert(pre.local_of(en_pre, q) != pre.local_of(en_pre, p));
                    }
                }
            }
        }
        assert(post.cells() =~= pre.cells().insert(p, value));
    }
}

/// A world-space position in fixed-point units of 1/256 block.
#[derive(Clone, Copy, Debug, PartialEq, Eq, Structural)]
pub struct WorldPos {
    pub x: i64,
    pub y: i64,
    pub z: i64,
}

/// Fixed-point world units per block.
pub const POS_UNITS_PER_BLOCK: i64 = 256;

/// Radius, in chunks, of the cube scanned around each observer for
/// chunks to generate.
pub const CHUNK_RADIUS: i32 = 2;

/// Distance from an observer, in world units, under which a missing
/// chunk is generated: the chunk radius doubled, in blocks, scaled.
pub const CHUNK_DISTANCE_UNITS: i64 = 2 * 2 * 16 * 256;

/// Distance from every observer, in world units, at which a loaded chunk
/// is dropped; the margin over the generation distance prevents a chunk
/// from flapping in and out at the boundary.
pub const RETAIN_RADIUS_UNITS: i64 = 2 * 2 * 16 * 256 + 4 * 256;

/// Largest observer coordinate magnitude, in world units, accepted by
/// the streaming passes.
pub const OBSERVER_RANGE_UNITS: i64 = 0x4000_0000;

/// The world-space center of a chunk, in fixed-point units.
pub open spec fn center_units(cp: (int, int, int), cs: (int, int, int)) -> (int, int, int) {
    (256 * cp.0 * cs.0 + 128 * cs.0, 256 * cp.1 * cs.1 + 128 * cs.1, 256 * cp.2 * cs.2 + 128
        * cs.2)
}

/// Squared Euclidean distance between two points.
pub open spec fn dist_sq(a: (int, int, int), b: (int, int, int)) -> int {
    (a.0 - b.0) * (a.0 - b.0) + (a.1 - b.1) * (a.1 - b.1) + (a.2 - b.2) * (a.2 - b.2)
}

/// Whether an observer stands strictly within `radius_units` of a
/// chunk's center.
pub open spec fn observer_within(
    obs: WorldPos,
    cp: (int, int, int),
    cs: (int, int, int),
    radius_units: int,
) -> bool {
    dist_sq((obs.x as int, obs.y as int, obs.z as int), center_units(cp, cs)) < radius_units
        * radius_units
}

/// Whether any observer in a list stands strictly within the radius.
pub open spec fn any_observer_within(
    observers: Seq<WorldPos>,
    cp: (int, int, int),
    cs: (int, int, int),
    radius_units: int,
) -> bool {
    exists|i: int|
        0 <= i < observers.len() && observer_within(#[trigger] observers[i], cp, cs, radius_units)
}

/// The chunk-grid cell an observer stands in.
pub open spec fn observer_chunk(obs: WorldPos, cs: (int, int, int)) -> (int, int, int) {
    (obs.x as int / (256 * cs.0), obs.y as int / (256 * cs.1), obs.z as int / (256 * cs.2))
}

/// Whether a chunk-grid cell lies in the generation cube around an
/// observer.
pub open spec fn in_generation_cube(obs: WorldPos, cp: (int, int, int), cs: (int, int, int)) -> bool {
    let oc = observer_chunk(obs, cs);
    &&& oc.0 - CHUNK_RADIUS <= cp.0 <= oc.0 + CHUNK_RADIUS
    &&& oc.1 - CHUNK_RADIUS <= cp.1 <= oc.1 + CHUNK_RADIUS
    &&& oc.2 - CHUNK_RADIUS <= cp.2 <= oc.2 + CHUNK_RADIUS
}

/// Whether some observer both scans a chunk-grid cell and stands close
/// enough for it to be generated.
pub open spec fn generation_target(
    observers: Seq<WorldPos>,
    cp: (int, int, int),
    cs: (int, int, int),
) -> bool {
    exists|i: int|
        0 <= i < observers.len() && in_generation_cube(#[trigger] observers[i], cp, cs)
            && observer_within(observers[i], cp, cs, CHUNK_DISTANCE_UNITS as int)
}

/// Whether an observer list keeps every coordinate within the accepted
/// range.
pub open spec fn observers_in_range(observers: Seq<WorldPos>) -> bool {
    forall|i: int|
        0 <= i < observers.len() ==> {
            let o = #[trigger] observers[i];
            &&& -OBSERVER_RANGE_UNITS <= o.x <= OBSERVER_RANGE_UNITS
            &&& -OBSERVER_RANGE_UNITS <= o.y <= OBSERVER_RANGE_UNITS
            &&& -OBSERVER_RANGE_UNITS <= o.z <= OBSERVER_RANGE_UNITS
        }
}

/// The square of a bounded value is bounded by the square of the bound.
proof fn lemma_square_bound(x: int, b: int)
    requires
        -b <= x <= b,
        0 <= b,
    ensures
        0 <= x * x <= b * b,
{
    assert(0 <= x * x <= b * b) by (nonlinear_arith)
        requires
            -b <= x <= b,
            0 <= b,
    ;
}

/// Decides whether an observer stands strictly within the radius of a
/// chunk's center.
fn observer_within_exec(
    obs: &WorldPos,
    cpos: VoxelPos<i32>,
    chunk_size: VoxelSize<u32>,
    radius_units: i64,
) -> (r: bool)
    requires
        1 <= chunk_size.x <= 255,
        1 <= chunk_size.y <= 255,
        1 <= chunk_size.z <= 255,
        -0x1_0000_0000_0000 <= obs.x <= 0x1_0000_0000_0000,
        -0x1_0000_0000_0000 <= obs.y <= 0x1_0000_0000_0000,
        -0x1_0000_0000_0000 <= obs.z <= 0x1_0000_0000_0000,
        0 < radius_units <= 0x10_0000,
    ensures
        r == observer_within(
            *obs,
            cpos.as_tuple(),
            (chunk_size.x as int, chunk_size.y as int, chunk_size.z as int),
            radius_units as int,
        ),
{
    let c2 = chunkpos_to_center(cpos, chunk_size);
    let cx: i64 = c2.0 * 128;
    let cy: i64 = c2.1 * 128;
    let cz: i64 = c2.2 * 128;
    let dx: i128 = (obs.x as i128) - (cx as i128);
    let dy: i128 = (obs.y as i128) - (cy as i128);
    let dz: i128 = (obs.z as i128) - (cz as i128);
    proof {
        assert((2 * (cpos.x as int) * (chunk_size.x as int) + (chunk_size.x as int)) * 128 == 256
            * (cpos.x as int) * (chunk_size.x as int) + 128 * (chunk_size.x as int))
            by (nonlinear_arith);
        assert((2 * (cpos.y as int) * (chunk_size.y as int) + (chunk_size.y as int)) * 128 == 256
            * (cpos.y as int) * (chunk_size.y as int) + 128 * (chunk_size.y as int))
            by (nonlinear_arith);
        assert((2 * (cpos.z as int) * (chunk_size.z as int) + (chunk_size.z as int)) * 128 == 256
            * (cpos.z as int) * (chunk_size.z as int) + 128 * (chunk_size.z as int))
            by (nonlinear_arith);
        lemma_square_bound(dx as int, 0x2_0000_0000_0000int);
        lemma_square_bound(dy as int, 0x2_0000_0000_0000int);
        lemma_square_bound(dz as int, 0x2_0000_0000_0000int);
        lemma_square_bound(radius_units as int, 0x10_0000int);
    }
    let d2: i128 = dx * dx + dy * dy + dz * dz;
    let r2: i128 = (radius_units as i128) * (radius_units as i128);
    d2 < r2
}

/// Decides whether any observer stands strictly within the radius of a
/// chunk's center.
fn any_observer_within_exec(
    observers: &Vec<WorldPos>,
    cpos: VoxelPos<i32>,
    chunk_size: VoxelSize<u32>,
    radius_units: i64,
) -> (r: bool)
    requires
        1 <= chunk_size.x <= 255,
        1 <= chunk_size.y <= 255,
        1 <= chunk_size.z <= 255,
        observers_in_range(observers@),
        0 < radius_units <= 0x10_0000,
    ensures
        r == any_observer_within(
            observers@,
            cpos.as_tuple(),
            (chunk_size.x as int, chunk_size.y as int, chunk_size.z as int),
            radius_units as int,
        ),
{
    let mut i: usize = 0;
    while i < observers.len()
        invariant
            i <= observers@.len(),
            1 <= chunk_size.x <= 255,
            1 <= chunk_size.y <= 255,
            1 <= chunk_size.z <= 255,
            observers_in_range(observers@),
            0 < radius_units <= 0x10_0000,
            forall|j: int|
                0 <= j < i ==> !observer_within(
                    #[trigger] observers@[j],
                    cpos.as_tuple(),
                    (chunk_size.x as int, chunk_size.y as int, chunk_size.z as int),
                    radius_units as int,
                ),
        decreases observers@.len() - i,
    {
        let o = observers[i];
        if observer_within_exec(&o, cpos, chunk_size, radius_units) {
            return true;
        }
        i = i + 1;
    }
    false
}

/// Whether a sequence of keyed chunk entries holds a key.
spec fn seq_has_key(s: Seq<(VoxelPos<i32>, ChunkEntry)>, cp: (int, int, int)) -> bool {
    exists|j: int| 0 <= j < s.len() && (#[trigger] s[j]).0.as_tuple() == cp
}

/// Floor division of a fixed-point coordinate by a positive extent.
fn floor_div_i64(a: i64, b: i64) -> (r: i64)
    requires
        1 <= b <= 0x1_0000_0000,
        -0x1000_0000_0000_0000 <= a <= 0x1000_0000_0000_0000,
    ensures
        r == a as int / b as int,
        b * r <= a < b * r + b,
        -0x1000_0000_0000_0000 <= r <= 0x1000_0000_0000_0000,
{
    proof {
        vstd::arithmetic::div_mod::lemma_fundamental_div_mod(a as int, b as int);
        vstd::arithmetic::div_mod::lemma_mod_bound(a as int, b as int);
    }
    if a >= 0 {
        proof {
            lemma_nonneg_div_bounds(a as int, b as int);
        }
        ((a as u64) / (b as u64)) as i64
    } else {
        let m: u64 = (-(a as i128)) as u64;
        let q: u64 = (m + (b as u64) - 1) / (b as u64);
        proof {
            lemma_neg_floor_div(a as int, b as int, m as int, q as int);
        }
        (-(q as i128)) as i64
    }
}

/// The chunk-grid cells in the generation cube around an observer, each
/// exactly once, with small coordinates.
fn cube_cells(obs: &WorldPos, chunk_size: VoxelSize<u32>) -> (r: Vec<VoxelPos<i32>>)
    requires
        1 <= chunk_size.x <= 255,
        1 <= chunk_size.y <= 255,
        1 <= chunk_size.z <= 255,
        -OBSERVER_RANGE_UNITS <= obs.x <= OBSERVER_RANGE_UNITS,
        -OBSERVER_RANGE_UNITS <= obs.y <= OBSERVER_RANGE_UNITS,
        -OBSERVER_RANGE_UNITS <= obs.z <= OBSERVER_RANGE_UNITS,
    ensures
        forall|ci: int|
            0 <= ci < r@.len() ==> in_generation_cube(
                *obs,
                (#[trigger] r@[ci]).as_tuple(),
                (chunk_size.x as int, chunk_size.y as int, chunk_size.z as int),
            ),
        forall|cp: (int, int, int)| #[trigger]
            in_generation_cube(
                *obs,
                cp,
                (chunk_size.x as int, chunk_size.y as int, chunk_size.z as int),
            ) ==> exists|ci: int| 0 <= ci < r@.len() && (#[trigger] r@[ci]).as_tuple() == cp,
        forall|ci: int|
            0 <= ci < r@.len() ==> {
                let c = #[trigger] r@[ci];
                -0x41_0000 <= c.x <= 0x41_0000 && -0x41_0000 <= c.y <= 0x41_0000 && -0x41_0000
                    <= c.z <= 0x41_0000
            },
{
    let bx: i64 = 256 * (chunk_size.x as i64);
    let by: i64 = 256 * (chunk_size.y as i64);
    let bz: i64 = 256 * (chunk_size.z as i64);
    let qx = floor_div_i64(obs.x, bx);
    let qy = floor_div_i64(obs.y, by);
    let qz = floor_div_i64(obs.z, bz);
    proof {
        lemma_observer_chunk_bound(obs.x as int, bx as int, qx as int);
        lemma_observer_chunk_bound(obs.y as int, by as int, qy as int);
        lemma_observer_chunk_bound(obs.z as int, bz as int, qz as int);
    }
    let ocx: i32 = qx as i32;
    let ocy: i32 = qy as i32;
    let ocz: i32 = qz as i32;
    let ghost cs = (chunk_size.x as int, chunk_size.y as int, chunk_size.z as int);
    let mut out: Vec<VoxelPos<i32>> = Vec::new();
    let mut ix: i32 = 0;
    while ix < 5
        invariant
            0 <= ix <= 5,
            -0x40_0001 <= ocx <= 0x40_0001,
            -0x40_0001 <= ocy <= 0x40_0001,
            -0x40_0001 <= ocz <= 0x40_0001,
            observer_chunk(*obs, cs) == (ocx as int, ocy as int, ocz as int),
            cs == (chunk_size.x as int, chunk_size.y as int, chunk_size.z as int),
            out@.len() == ix * 25,
            forall|ci: int|
                0 <= ci < out@.len() ==> {
                    let c = #[trigger] out@[ci];
                    &&& c.as_tuple() == cell_at(ocx as int, ocy as int, ocz as int, ci)
                    &&& -0x41_0000 <= c.x <= 0x41_0000
                    &&& -0x41_0000 <= c.y <= 0x41_0000
                    &&& -0x41_0000 <= c.z <= 0x41_0000
                },
        decreases 5 - ix,
    {
        let mut iy: i32 = 0;
        while iy < 5
            invariant
                0 <= ix < 5,
                0 <= iy <= 5,
                -0x40_0001 <= ocx <= 0x40_0001,
                -0x40_0001 <= ocy <= 0x40_0001,
                -0x40_0001 <= ocz <= 0x40_0001,
                out@.len() == ix * 25 + iy * 5,
                forall|ci: int|
                    0 <= ci < out@.len() ==> {
                        let c = #[trigger] out@[ci];
                        &&& c.as_tuple() == cell_at(ocx as int, ocy as int, ocz as int, ci)
                        &&& -0x41_0000 <= c.x <= 0x41_0000
                        &&& -0x41_0000 <= c.y <= 0x41_0000
                        &&& -0x41_0000 <= c.z <= 0x41_0000
                    },
            decreases 5 - iy,
        {
            let mut iz: i32 = 0;
            while iz < 5
                invariant
                    0 <= ix < 5,
                    0 <= iy < 5,
                    0 <= iz <= 5,
                    -0x40_0001 <= ocx <= 0x40_0001,
                    -0x40_0001 <= ocy <= 0x40_0001,
                    -0x40_0001 <= ocz <= 0x40_0001,
                    out@.len() == ix * 25 + iy * 5 + iz,
                    forall|ci: int|
                        0 <= ci < out@.len() ==> {
                            let c = #[trigger] out@[ci];
                            &&& c.as_tuple() == cell_at(ocx as int, ocy as int, ocz as int, ci)
                            &&& -0x41_0000 <= c.x <= 0x41_0000
                            &&& -0x41_0000 <= c.y <= 0x41_0000
                            &&& -0x41_0000 <= c.z <= 0x41_0000
                        },
                decreases 5 - iz,
            {
                out.push(
                    VoxelPos {
                        x: ocx - CHUNK_RADIUS + ix,
                        y: ocy - CHUNK_RADIUS + iy,
                        z: ocz - CHUNK_RADIUS + iz,
                    },
                );
                iz = iz + 1;
            }
            iy = iy + 1;
        }
        ix = ix + 1;
    }
    proof {
        assert forall|cp: (int, int, int)| #[trigger]
            in_generation_cube(*obs, cp, cs) implies exists|ci: int|
            0 <= ci < out@.len() && (#[trigger] out@[ci]).as_tuple() == cp by {
            let jx = cp.0 - (ocx - 2);
            let jy = cp.1 - (ocy - 2);
            let jz = cp.2 - (ocz - 2);
            let ci = jx * 25 + jy * 5 + jz;
            assert(0 <= ci < 125);
            assert(out@[ci].as_tuple() == cell_at(ocx as int, ocy as int, ocz as int, ci));
            assert(cell_at(ocx as int, ocy as int, ocz as int, ci) == cp) by {
                vstd::arithmetic::div_mod::lemma_fundamental_div_mod_converse_div(
                    ci,
                    25,
                    jx,
                    jy * 5 + jz,
                );
                vstd::arithmetic::div_mod::lemma_fundamental_div_mod_converse_mod(
                    ci,
                    25,
                    jx,
                    jy * 5 + jz,
                );
                vstd::arithmetic::div_mod::lemma_fundamental_div_mod_converse_div(
                    jy * 5 + jz,
                    5,
                    jy,
                    jz,
                );
                vstd::arithmetic::div_mod::lemma_fundamental_div_mod_converse_mod(
                    jy * 5 + jz,
                    5,
                    jy,
                    jz,
                );
            }
        }
        assert forall|ci: int|
            0 <= ci < out@.len() implies in_generation_cube(
            *obs,
            (#[trigger] out@[ci]).as_tuple(),
            cs,
        ) by {
            assert(out@[ci].as_tuple() == cell_at(ocx as int, ocy as int, ocz as int, ci));
            vstd::arithmetic::div_mod::lemma_mod_bound(ci % 25, 5);
            vstd::arithmetic::div_mod::lemma_mod_bound(ci, 25);
            vstd::arithmetic::div_mod::lemma_mod_bound(ci / 25, 5);
            lemma_nonneg_div_bounds(ci, 25);
            lemma_nonneg_div_bounds(ci % 25, 5);
        }
    }
    out
}

/// The cube cell a flat scan index denotes, in x-major, then y, then z
/// order.
spec fn cell_at(ocx: int, ocy: int, ocz: int, ci: int) -> (int, int, int) {
    (ocx - 2 + ci / 25, ocy - 2 + (ci % 25) / 5, ocz - 2 + ci % 5)
}

/// An observer inside the accepted range stands in a chunk-grid cell
/// with small coordinates.
proof fn lemma_observer_chunk_bound(a: int, b: int, q: int)
    requires
        256 <= b,
        -OBSERVER_RANGE_UNITS <= a <= OBSERVER_RANGE_UNITS,
        b * q <= a < b * q + b,
    ensures
        -0x40_0001 <= q <= 0x40_0000,
{
    assert(-0x40_0001 <= q <= 0x40_0000) by (nonlinear_arith)
        requires
            256 <= b,
            -0x4000_0000 <= a <= 0x4000_0000,
            b * q <= a < b * q + b,
    ;
}

impl Dimension {
    /// Drops every chunk whose center lies at or beyond the retention
    /// radius from all observers; keeps the rest untouched.
    #[verifier::rlimit(100)]
    fn retain_near(&mut self, observers: &Vec<WorldPos>)
        requires
            observers_in_range(observers@),
        ensures
            final(self).spec_chunk_size() == old(self).spec_chunk_size(),
            forall|cp: (int, int, int)| #[trigger]
                final(self).is_loaded(cp) == (old(self).is_loaded(cp) && any_observer_within(
                    observers@,
                    cp,
                    old(self).spec_chunk_size(),
                    RETAIN_RADIUS_UNITS as int,
                )),
            forall|cp: (int, int, int)| #[trigger]
                final(self).is_loaded(cp) ==> final(self).entry_at(cp) == old(self).entry_at(cp),
    {
        proof {
            use_type_invariant(&*self);
        }
        let ghost pre = *self;
        let cs = self.chunk_size;
        let ghost cst = pre.spec_chunk_size();
        let mut chunks: Vec<(VoxelPos<i32>, ChunkEntry)> = Vec::new();
        std::mem::swap(&mut chunks, &mut self.chunks);
        let ghost orig = chunks@;
        let n_count = chunks.len();
        let ghost n = n_count as int;
        proof {
            assert forall|j1: int, j2: int|
                0 <= j1 < j2 < orig.len() implies (#[trigger] orig[j1]).0.as_tuple() != (
            #[trigger] orig[j2]).0.as_tuple() by {
                assert(pre.entries()[j1].0 == orig[j1].0.as_tuple());
                assert(pre.entries()[j2].0 == orig[j2].0.as_tuple());
                assert(pre.entries()[j1].0 != pre.entries()[j2].0);
            }
        }
        let mut kept: Vec<(VoxelPos<i32>, ChunkEntry)> = Vec::new();
        let ghost mut sel: Seq<int> = Seq::empty();
        let mut m: usize = 0;
        while chunks.len() > 0
            invariant
                observers_in_range(observers@),
                cst == chunk_size_of(cs),
                1 <= cst.0 <= 255 && 1 <= cst.1 <= 255 && 1 <= cst.2 <= 255,
                0 <= m <= n,
                n == orig.len(),
                n <= usize::MAX,
                chunks@ =~= orig.subrange(m as int, n),
                m == n - chunks@.len(),
                sel.len() == kept@.len(),
                forall|j: int|
                    0 <= j < sel.len() ==> 0 <= #[trigger] sel[j] < m && kept@[j] == orig[sel[j]]
                        && pair_kept(observers@, orig[sel[j]], cst),
                forall|j1: int, j2: int| 0 <= j1 < j2 < sel.len() ==> sel[j1] < sel[j2],
                forall|j0: int|
                    0 <= j0 < m && pair_kept(observers@, #[trigger] orig[j0], cst) ==> exists|
                        j: int,
                    | 0 <= j < sel.len() && sel[j] == j0,
            decreases chunks@.len(),
        {
            let pair = chunks.remove(0);
            proof {
                assert(pair == orig[m as int]);
            }
            let key = pair.0;
            if any_observer_within_exec(observers, key, cs, RETAIN_RADIUS_UNITS) {
                kept.push(pair);
                proof {
                    let sel0 = sel;
                    sel = sel.push(m as int);
                    assert(kept@[sel.len() - 1] == orig[m as int]);
                    assert(pair_kept(observers@, orig[m as int], cst));
                    assert forall|j0: int|
                        0 <= j0 < m + 1 && pair_kept(observers@, #[trigger] orig[j0], cst) implies
                        exists|j: int| 0 <= j < sel.len() && sel[j] == j0 by {
                        if j0 == m {
                            assert(sel[sel.len() - 1] == j0);
                        } else {
                            let j = choose|j: int| 0 <= j < sel0.len() && #[trigger] sel0[j] == j0;
                            assert(sel[j] == j0);
                        }
                    }
                }
            } else {
                proof {
                    assert(!pair_kept(observers@, orig[m as int], cst));
                }
            }
            m = m + 1;
            proof {
                assert(chunks@ =~= orig.subrange(m as int, n));
            }
        }
        proof {
            assert(m == n);
            assert forall|j1: int, j2: int|
                0 <= j1 < j2 < kept@.len() implies (#[trigger] kept@[j1]).0.as_tuple() != (
            #[trigger] kept@[j2]).0.as_tuple() by {
                assert(kept@[j1] == orig[sel[j1]]);
                assert(kept@[j2] == orig[sel[j2]]);
                assert(sel[j1] < sel[j2]);
            }
        }
        self.chunks = kept;
        proof {
            assert forall|cp: (int, int, int)| #[trigger]
                self.is_loaded(cp) == (pre.is_loaded(cp) && any_observer_within(
                    observers@,
                    cp,
                    cst,
                    RETAIN_RADIUS_UNITS as int,
                )) by {
                if self.is_loaded(cp) {
                    let j = choose|j: int|
                        0 <= j < self.entries().len() && (#[trigger] self.entries()[j]).0 == cp;
                    assert(self.entries()[j].0 == kept@[j].0.as_tuple());
                    assert(kept@[j] == orig[sel[j]]);
                    assert(pair_kept(observers@, orig[sel[j]], cst));
                    assert(pre.entries()[sel[j]].0 == orig[sel[j]].0.as_tuple());
                    assert(pre.is_loaded(cp));
                }
                if pre.is_loaded(cp) && any_observer_within(
                    observers@,
                    cp,
                    cst,
                    RETAIN_RADIUS_UNITS as int,
                ) {
                    let j0 = pre.index_of(cp);
                    assert(pre.entries()[j0].0 == cp);
                    assert(orig[j0].0.as_tuple() == cp);
                    assert(pair_kept(observers@, orig[j0], cst));
                    let j = choose|j: int| 0 <= j < sel.len() && #[trigger] sel[j] == j0;
                    assert(kept@[j] == orig[j0]);
                    assert(self.entries()[j].0 == cp);
                    assert(self.is_loaded(cp));
                }
            }
            assert forall|cp: (int, int, int)| #[trigger]
                self.is_loaded(cp) implies self.entry_at(cp) == pre.entry_at(cp) by {
                let j = self.index_of(cp);
                assert(self.entries()[j].0 == cp);
                assert(self.entries()[j].0 == kept@[j].0.as_tuple());
                assert(kept@[j] == orig[sel[j]]);
                assert(pre.entries()[sel[j]].0 == orig[sel[j]].0.as_tuple());
                assert(pre.is_loaded(cp));
                let j1 = pre.index_of(cp);
                assert(pre.entries()[j1].0 == cp);
                if sel[j] != j1 {
                    assert(pre.entries()[sel[j]].0 == pre.entries()[j1].0);
                }
                assert(self.entry_at(cp) == self.entries()[j].1);
                assert(self.entries()[j].1 == kept@[j].1);
                assert(pre.entry_at(cp) == pre.entries()[j1].1);
                assert(pre.entries()[j1].1 == orig[j1].1);
            }
        }
    }
}

/// The helper view of a chunk size value.
pub open spec fn chunk_size_of(cs: VoxelSize<u32>) -> (int, int, int) {
    (cs.x as int, cs.y as int, cs.z as int)
}

/// Whether a keyed chunk entry survives retention: some observer stands
/// within the retention radius of its chunk's center.
spec fn pair_kept(
    observers: Seq<WorldPos>,
    pair: (VoxelPos<i32>, ChunkEntry),
    cst: (int, int, int),
) -> bool {
    any_observer_within(observers, pair.0.as_tuple(), cst, RETAIN_RADIUS_UNITS as int)
}

/// A freshly generated chunk entry: marked dirty, with bounds covering
/// exactly its chunk's block range.
pub open spec fn new_chunk_entry_ok(en: ChunkEntry, cp: (int, int, int), cs: (int, int, int)) -> bool {
    &&& en.state == ChunkMeshState::Dirty
    &&& en.bounds.lower.as_tuple() == (cp.0 * cs.0, cp.1 * cs.1, cp.2 * cs.2)
    &&& en.bounds.upper.as_tuple() == ((cp.0 + 1) * cs.0, (cp.1 + 1) * cs.1, (cp.2 + 1) * cs.2)
}

/// The generation condition restricted to the first `n` observers.
spec fn gen_prefix(observers: Seq<WorldPos>, n: int, cp: (int, int, int), cst: (int, int, int)) -> bool {
    exists|i: int|
        0 <= i < n && in_generation_cube(#[trigger] observers[i], cp, cst) && observer_within(
            observers[i],
            cp,
            cst,
            CHUNK_DISTANCE_UNITS as int,
        )
}

/// The generation condition restricted to the first `nc` scanned cells
/// of one observer's cube.
spec fn cand_prefix(
    cands: Seq<VoxelPos<i32>>,
    nc: int,
    obs: WorldPos,
    cp: (int, int, int),
    cst: (int, int, int),
) -> bool {
    exists|q: int|
        0 <= q < nc && (#[trigger] cands[q]).as_tuple() == cp && observer_within(
            obs,
            cp,
            cst,
            CHUNK_DISTANCE_UNITS as int,
        )
}

/// The product of bounded factors is bounded.
proof fn lemma_small_product(a: int, b: int, abound: int, bbound: int)
    requires
        -abound <= a <= abound,
        0 <= b <= bbound,
        0 <= abound,
    ensures
        -abound * bbound <= a * b <= abound * bbound,
{
    assert(-abound * bbound <= a * b <= abound * bbound) by (nonlinear_arith)
        requires
            -abound <= a <= abound,
            0 <= b <= bbound,
            0 <= abound,
    ;
}

/// Appending a fresh key leaves every resident chunk where it was and
/// adds exactly the new one.
proof fn lemma_push_entry(pre: Dimension, post: Dimension, key: (int, int, int), en: ChunkEntry)
    requires
        post.entries() == pre.entries().push((key, en)),
        !pre.is_loaded(key),
        forall|k1: int, k2: int|
            0 <= k1 < k2 < pre.entries().len() ==> (#[trigger] pre.entries()[k1]).0 != (
            #[trigger] pre.entries()[k2]).0,
    ensures
        forall|cp: (int, int, int)| #[trigger]
            post.is_loaded(cp) == (pre.is_loaded(cp) || cp == key),
        forall|cp: (int, int, int)| #[trigger]
            pre.is_loaded(cp) ==> post.entry_at(cp) == pre.entry_at(cp),
        post.entry_at(key) == en,
{
    let n = pre.entries().len() as int;
    assert forall|cp: (int, int, int)| #[trigger]
        post.is_loaded(cp) == (pre.is_loaded(cp) || cp == key) by {
        if pre.is_loaded(cp) {
            let j = choose|j: int|
                0 <= j < pre.entries().len() && (#[trigger] pre.entries()[j]).0 == cp;
            assert(post.entries()[j].0 == cp);
        }
        if cp == key {
            assert(post.entries()[n].0 == cp);
        }
        if post.is_loaded(cp) && !pre.is_loaded(cp) {
            let j = choose|j: int|
                0 <= j < post.entries().len() && (#[trigger] post.entries()[j]).0 == cp;
            if j < n {
                assert(pre.entries()[j].0 == cp);
            }
            assert(cp == key);
        }
    }
    assert forall|cp: (int, int, int)| #[trigger]
        pre.is_loaded(cp) implies post.entry_at(cp) == pre.entry_at(cp) by {
        let j0 = pre.index_of(cp);
        assert(pre.entries()[j0].0 == cp);
        assert(post.entries()[j0].0 == cp);
        assert(post.is_loaded(cp));
        let j1 = post.index_of(cp);
        assert(post.entries()[j1].0 == cp);
        if j1 == n {
            assert(pre.is_loaded(key));
        }
        assert(pre.entries()[j1].0 == cp);
        if j0 != j1 {
            assert(pre.entries()[j0].0 == pre.entries()[j1].0);
        }
    }
    assert(post.entries()[n].0 == key);
    let jk = post.index_of(key);
    assert(post.is_loaded(key));
    assert(post.entries()[jk].0 == key);
    if jk != n {
        assert(pre.entries()[jk].0 == key);
        assert(pre.is_loaded(key));
    }
}

impl Dimension {
    /// Generates and installs every missing chunk inside some observer's
    /// generation cube whose center lies strictly within the generation
    /// distance of that observer.
    #[verifier::rlimit(100)]
    fn generate_missing_near<G: WorldGenerator>(
        &mut self,
        observers: &Vec<WorldPos>,
        generator: &G,
    )
        requires
            observers_in_range(observers@),
        ensures
            final(self).spec_chunk_size() == old(self).spec_chunk_size(),
            forall|cp: (int, int, int)| #[trigger]
                final(self).is_loaded(cp) == (old(self).is_loaded(cp) || generation_target(
                    observers@,
                    cp,
                    old(self).spec_chunk_size(),
                )),
            forall|cp: (int, int, int)| #[trigger]
                old(self).is_loaded(cp) ==> final(self).entry_at(cp) == old(self).entry_at(cp),
            forall|cp: (int, int, int)|
                !old(self).is_loaded(cp) && #[trigger] final(self).is_loaded(cp)
                    ==> new_chunk_entry_ok(
                    final(self).entry_at(cp),
                    cp,
                    old(self).spec_chunk_size(),
                ),
            forall|cp: (int, int, int)|
                !old(self).is_loaded(cp) && #[trigger] final(self).is_loaded(cp)
                    ==> call_ensures(
                    G::generate,
                    (generator, final(self).entry_at(cp).bounds, 0u32),
                    final(self).entry_at(cp).data,
                ),
    {
        proof {
            use_type_invariant(&*self);
        }
        let ghost pre = *self;
        let cs = self.chunk_size();
        let ghost cst = pre.spec_chunk_size();
        let mut oi: usize = 0;
        while oi < observers.len()
            invariant
                observers_in_range(observers@),
                cst == chunk_size_of(cs),
                1 <= cs.x <= 255 && 1 <= cs.y <= 255 && 1 <= cs.z <= 255,
                0 <= oi <= observers@.len(),
                self.spec_chunk_size() == cst,
                cst == pre.spec_chunk_size(),
                forall|cp: (int, int, int)| #[trigger]
                    self.is_loaded(cp) == (pre.is_loaded(cp) || gen_prefix(
                        observers@,
                        oi as int,
                        cp,
                        cst,
                    )),
                forall|cp: (int, int, int)| #[trigger]
                    pre.is_loaded(cp) ==> self.entry_at(cp) == pre.entry_at(cp),
                forall|cp: (int, int, int)|
                    !pre.is_loaded(cp) && #[trigger] self.is_loaded(cp) ==> new_chunk_entry_ok(
                        self.entry_at(cp),
                        cp,
                        cst,
                    ),
                forall|cp: (int, int, int)|
                    !pre.is_loaded(cp) && #[trigger] self.is_loaded(cp) ==> call_ensures(
                        G::generate,
                        (generator, self.entry_at(cp).bounds, 0u32),
                        self.entry_at(cp).data,
                    ),
            decreases observers@.len() - oi,
        {
            let obs = observers[oi];
            let cands = cube_cells(&obs, cs);
            let ghost candseq = cands@;
            let mut ci: usize = 0;
            while ci < cands.len()
                invariant
                    observers_in_range(observers@),
                    cst == chunk_size_of(cs),
                    1 <= cs.x <= 255 && 1 <= cs.y <= 255 && 1 <= cs.z <= 255,
                    0 <= oi < observers@.len(),
                    obs == observers@[oi as int],
                    candseq == cands@,
                    0 <= ci <= candseq.len(),
                    forall|q: int|
                        0 <= q < candseq.len() ==> in_generation_cube(
                            obs,
                            (#[trigger] candseq[q]).as_tuple(),
                            cst,
                        ),
                    forall|q: int|
                        0 <= q < candseq.len() ==> {
                            let c = #[trigger] candseq[q];
                            -0x41_0000 <= c.x <= 0x41_0000 && -0x41_0000 <= c.y <= 0x41_0000
                                && -0x41_0000 <= c.z <= 0x41_0000
                        },
                    self.spec_chunk_size() == cst,
                    forall|cp: (int, int, int)| #[trigger]
                        self.is_loaded(cp) == (pre.is_loaded(cp) || gen_prefix(
                            observers@,
                            oi as int,
                            cp,
                            cst,
                        ) || cand_prefix(candseq, ci as int, obs, cp, cst)),
                    forall|cp: (int, int, int)| #[trigger]
                        pre.is_loaded(cp) ==> self.entry_at(cp) == pre.entry_at(cp),
                    forall|cp: (int, int, int)|
                        !pre.is_loaded(cp) && #[trigger] self.is_loaded(cp) ==> new_chunk_entry_ok(
                            self.entry_at(cp),
                            cp,
                            cst,
                        ),
                    forall|cp: (int, int, int)|
                        !pre.is_loaded(cp) && #[trigger] self.is_loaded(cp) ==> call_ensures(
                            G::generate,
                            (generator, self.entry_at(cp).bounds, 0u32),
                            self.entry_at(cp).data,
                        ),
                decreases candseq.len() - ci,
            {
                let cpos = cands[ci];
                let within = observer_within_exec(&obs, cpos, cs, CHUNK_DISTANCE_UNITS);
                if within && !self.is_chunk_loaded(cpos) {
                    proof {
                        use_type_invariant(&*self);
                        lemma_small_product(cpos.x as int, cs.x as int, 0x41_0001int, 255int);
                        lemma_small_product(cpos.y as int, cs.y as int, 0x41_0001int, 255int);
                        lemma_small_product(cpos.z as int, cs.z as int, 0x41_0001int, 255int);
                        lemma_small_product(
                            cpos.x as int + 1,
                            cs.x as int,
                            0x41_0001int,
                            255int,
                        );
                        lemma_small_product(
                            cpos.y as int + 1,
                            cs.y as int,
                            0x41_0001int,
                            255int,
                        );
                        lemma_small_product(
                            cpos.z as int + 1,
                            cs.z as int,
                            0x41_0001int,
                            255int,
                        );
                    }
                    let lower = chunkpos_to_block(cpos, cs);
                    let upper = chunkpos_to_block(
                        VoxelPos { x: cpos.x + 1, y: cpos.y + 1, z: cpos.z + 1 },
                        cs,
                    );
                    let range = VoxelRange { lower, upper };
                    let data = generator.generate(range, 0);
                    let entry = ChunkEntry { data, state: ChunkMeshState::Dirty, bounds: range };
                    let ghost mid = *self;
                    let inserted = self.insert_chunk(cpos, entry);
                    proof {
                        assert(inserted);
                        lemma_push_entry(mid, *self, cpos.as_tuple(), entry);
                        assert(new_chunk_entry_ok(entry, cpos.as_tuple(), cst));
                        assert forall|cp: (int, int, int)| #[trigger]
                            pre.is_loaded(cp) implies self.entry_at(cp) == pre.entry_at(cp) by {
                            assert(mid.is_loaded(cp));
                            assert(mid.entry_at(cp) == pre.entry_at(cp));
                            assert(self.entry_at(cp) == mid.entry_at(cp));
                        }
                        assert forall|cp: (int, int, int)|
                            !pre.is_loaded(cp) && #[trigger] self.is_loaded(cp) implies
                            new_chunk_entry_ok(self.entry_at(cp), cp, cst) by {
                            if cp == cpos.as_tuple() {
                                assert(self.entry_at(cp) == entry);
                            } else {
                                assert(mid.is_loaded(cp));
                                assert(self.entry_at(cp) == mid.entry_at(cp));
                            }
                        }
                        assert forall|cp: (int, int, int)|
                            !pre.is_loaded(cp) && #[trigger] self.is_loaded(cp) implies
                            call_ensures(
                            G::generate,
                            (generator, self.entry_at(cp).bounds, 0u32),
                            self.entry_at(cp).data,
                        ) by {
                            if cp == cpos.as_tuple() {
                                assert(self.entry_at(cp) == entry);
                                assert(entry.bounds == range && entry.data == data);
                            } else {
                                assert(mid.is_loaded(cp));
                                assert(self.entry_at(cp) == mid.entry_at(cp));
                            }
                        }
                        assert forall|cp: (int, int, int)| #[trigger]
                            self.is_loaded(cp) == (pre.is_loaded(cp) || gen_prefix(
                                observers@,
                                oi as int,
                                cp,
                                cst,
                            ) || cand_prefix(candseq, ci + 1, obs, cp, cst)) by {
                            if cp == cpos.as_tuple() {
                                assert(candseq[ci as int].as_tuple() == cp && observer_within(
                                    obs,
                                    cp,
                                    cst,
                                    CHUNK_DISTANCE_UNITS as int,
                                ));
                                assert(cand_prefix(candseq, ci + 1, obs, cp, cst));
                            } else {
                                assert(self.is_loaded(cp) == mid.is_loaded(cp));
                                if cand_prefix(candseq, ci + 1, obs, cp, cst) && !cand_prefix(
                                    candseq,
                                    ci as int,
                                    obs,
                                    cp,
                                    cst,
                                ) {
                                    let q = choose|q: int|
                                        0 <= q < ci + 1 && (#[trigger] candseq[q]).as_tuple() == cp
                                            && observer_within(
                                            obs,
                                            cp,
                                            cst,
                                            CHUNK_DISTANCE_UNITS as int,
                                        );
                                    assert(q == ci);
                                    assert(false);
                                }
                            }
                        }
                    }
                } else {
                    proof {
                        assert forall|cp: (int, int, int)| #[trigger]
                            self.is_loaded(cp) == (pre.is_loaded(cp) || gen_prefix(
                                observers@,
                                oi as int,
                                cp,
                                cst,
                            ) || cand_prefix(candseq, ci + 1, obs, cp, cst)) by {
                            if cand_prefix(candseq, ci + 1, obs, cp, cst) && !cand_prefix(
                                candseq,
                                ci as int,
                                obs,
                                cp,
                                cst,
                            ) {
                                let q = choose|q: int|
                                    0 <= q < ci + 1 && (#[trigger] candseq[q]).as_tuple() == cp
                                        && observer_within(
                                        obs,
                                        cp,
                                        cst,
                                        CHUNK_DISTANCE_UNITS as int,
                                    );
                                assert(q == ci);
                                assert(cp == cpos.as_tuple());
                                assert(observer_within(obs, cp, cst, CHUNK_DISTANCE_UNITS as int));
                                assert(self.is_loaded(cp));
                            }
                        }
                    }
                }
                ci = ci + 1;
            }
            proof {
                assert forall|cp: (int, int, int)| #[trigger]
                    self.is_loaded(cp) == (pre.is_loaded(cp) || gen_prefix(
                        observers@,
                        oi + 1,
                        cp,
                        cst,
                    )) by {
                    if cand_prefix(candseq, candseq.len() as int, obs, cp, cst) {
                        let q = choose|q: int|
                            0 <= q < candseq.len() && (#[trigger] candseq[q]).as_tuple() == cp
                                && observer_within(obs, cp, cst, CHUNK_DISTANCE_UNITS as int);
                        assert(in_generation_cube(observers@[oi as int], cp, cst));
                        assert(gen_prefix(observers@, oi + 1, cp, cst));
                    }
                    if gen_prefix(observers@, oi + 1, cp, cst) && !gen_prefix(
                        observers@,
                        oi as int,
                        cp,
                        cst,
                    ) {
                        let i = choose|i: int|
                            0 <= i < oi + 1 && in_generation_cube(
                                #[trigger] observers@[i],
                                cp,
                                cst,
                            ) && observer_within(observers@[i], cp, cst, CHUNK_DISTANCE_UNITS as int);
                        assert(i == oi);
                        assert(in_generation_cube(obs, cp, cst));
                        let q = choose|q: int|
                            0 <= q < candseq.len() && (#[trigger] candseq[q]).as_tuple() == cp;
                        assert(cand_prefix(candseq, candseq.len() as int, obs, cp, cst));
                        assert(self.is_loaded(cp));
                    }
                    if gen_prefix(observers@, oi as int, cp, cst) {
                        let i = choose|i: int|
                            0 <= i < oi && in_generation_cube(#[trigger] observers@[i], cp, cst)
                                && observer_within(
                                observers@[i],
                                cp,
                                cst,
                                CHUNK_DISTANCE_UNITS as int,
                            );
                        assert(gen_prefix(observers@, oi + 1, cp, cst));
                    }
                }
            }
            oi = oi + 1;
        }
        proof {
            assert forall|cp: (int, int, int)| #[trigger]
                self.is_loaded(cp) == (pre.is_loaded(cp) || generation_target(
                    observers@,
                    cp,
                    cst,
                )) by {
                assert(gen_prefix(observers@, observers@.len() as int, cp, cst)
                    == generation_target(observers@, cp, cst));
            }
        }
    }

    /// One pass of chunk streaming for a server: drops chunks beyond the
    /// retention radius of every listed observer, then generates missing
    /// chunks near each observer. The gap between the two radii keeps a
    /// chunk from flapping in and out at the boundary.
    pub fn load_unload_chunks_serverside<G: WorldGenerator>(
        &mut self,
        player_positions: &Vec<WorldPos>,
        generator: &G,
    )
        requires
            observers_in_range(player_positions@),
        ensures
            final(self).spec_chunk_size() == old(self).spec_chunk_size(),
            forall|cp: (int, int, int)| #[trigger]
                old(self).is_loaded(cp) ==> (final(self).is_loaded(cp) == any_observer_within(
                    player_positions@,
                    cp,
                    old(self).spec_chunk_size(),
                    RETAIN_RADIUS_UNITS as int,
                )),
            forall|cp: (int, int, int)|
                !(#[trigger] old(self).is_loaded(cp)) ==> (final(self).is_loaded(cp)
                    == generation_target(player_positions@, cp, old(self).spec_chunk_size())),
            forall|cp: (int, int, int)| #[trigger]
                old(self).is_loaded(cp) && final(self).is_loaded(cp) ==> final(self).entry_at(cp)
                    == old(self).entry_at(cp),
            forall|cp: (int, int, int)|
                !old(self).is_loaded(cp) && #[trigger] final(self).is_loaded(cp)
                    ==> new_chunk_entry_ok(
                    final(self).entry_at(cp),
                    cp,
                    old(self).spec_chunk_size(),
                ),
            forall|cp: (int, int, int)|
                !old(self).is_loaded(cp) && #[trigger] final(self).is_loaded(cp)
                    ==> call_ensures(
                    G::generate,
                    (generator, final(self).entry_at(cp).bounds, 0u32),
                    final(self).entry_at(cp).data,
                ),
    {
        let ghost pre = *self;
        let ghost cst = pre.spec_chunk_size();
        self.retain_near(player_positions);
        let ghost mid = *self;
        self.generate_missing_near(player_positions, generator);
        proof {
            assert forall|cp: (int, int, int)| #[trigger]
                pre.is_loaded(cp) implies (self.is_loaded(cp) == any_observer_within(
                    player_positions@,
                    cp,
                    cst,
                    RETAIN_RADIUS_UNITS as int,
                )) by {
                if any_observer_within(player_positions@, cp, cst, RETAIN_RADIUS_UNITS as int) {
                    assert(mid.is_loaded(cp));
                    assert(self.is_loaded(cp));
                } else {
                    assert(!mid.is_loaded(cp));
                    if generation_target(player_positions@, cp, cst) {
                        let i = choose|i: int|
                            0 <= i < player_positions@.len() && in_generation_cube(
                                #[trigger] player_positions@[i],
                                cp,
                                cst,
                            ) && observer_within(
                                player_positions@[i],
                                cp,
                                cst,
                                CHUNK_DISTANCE_UNITS as int,
                            );
                        lemma_within_widens(
                            player_positions@[i],
                            cp,
                            cst,
                            CHUNK_DISTANCE_UNITS as int,
                            RETAIN_RADIUS_UNITS as int,
                        );
                        assert(any_observer_within(
                            player_positions@,
                            cp,
                            cst,
                            RETAIN_RADIUS_UNITS as int,
                        ));
                    }
                    assert(!self.is_loaded(cp));
                }
            }
            assert forall|cp: (int, int, int)|
                !(#[trigger] pre.is_loaded(cp)) implies (self.is_loaded(cp) == generation_target(
                    player_positions@,
                    cp,
                    cst,
                )) by {
                assert(!mid.is_loaded(cp));
            }
            assert forall|cp: (int, int, int)| #[trigger]
                pre.is_loaded(cp) && self.is_loaded(cp) implies self.entry_at(cp) == pre.entry_at(
                cp,
            ) by {
                assert(mid.is_loaded(cp));
                assert(mid.entry_at(cp) == pre.entry_at(cp));
                assert(self.entry_at(cp) == mid.entry_at(cp));
            }
            assert forall|cp: (int, int, int)|
                !pre.is_loaded(cp) && #[trigger] self.is_loaded(cp) implies new_chunk_entry_ok(
                self.entry_at(cp),
                cp,
                cst,
            ) by {
                assert(!mid.is_loaded(cp));
            }
        }
    }

    /// One pass of chunk streaming for the local client, around a single
    /// observer.
    pub fn load_unload_chunks_clientside<G: WorldGenerator>(
        &mut self,
        player_pos: &WorldPos,
        generator: &G,
    )
        requires
            -OBSERVER_RANGE_UNITS <= player_pos.x <= OBSERVER_RANGE_UNITS,
            -OBSERVER_RANGE_UNITS <= player_pos.y <= OBSERVER_RANGE_UNITS,
            -OBSERVER_RANGE_UNITS <= player_pos.z <= OBSERVER_RANGE_UNITS,
        ensures
            final(self).spec_chunk_size() == old(self).spec_chunk_size(),
            forall|cp: (int, int, int)| #[trigger]
                old(self).is_loaded(cp) ==> (final(self).is_loaded(cp) == observer_within(
                    *player_pos,
                    cp,
                    old(self).spec_chunk_size(),
                    RETAIN_RADIUS_UNITS as int,
                )),
            forall|cp: (int, int, int)|
                !(#[trigger] old(self).is_loaded(cp)) ==> (final(self).is_loaded(cp) == (
                in_generation_cube(*player_pos, cp, old(self).spec_chunk_size())
                    && observer_within(
                    *player_pos,
                    cp,
                    old(self).spec_chunk_size(),
                    CHUNK_DISTANCE_UNITS as int,
                ))),
            forall|cp: (int, int, int)| #[trigger]
                old(self).is_loaded(cp) && final(self).is_loaded(cp) ==> final(self).entry_at(cp)
                    == old(self).entry_at(cp),
            forall|cp: (int, int, int)|
                !old(self).is_loaded(cp) && #[trigger] final(self).is_loaded(cp)
                    ==> new_chunk_entry_ok(
                    final(self).entry_at(cp),
                    cp,
                    old(self).spec_chunk_size(),
                ),
            forall|cp: (int, int, int)|
                !old(self).is_loaded(cp) && #[trigger] final(self).is_loaded(cp)
                    ==> call_ensures(
                    G::generate,
                    (generator, final(self).entry_at(cp).bounds, 0u32),
                    final(self).entry_at(cp).data,
                ),
    {
        let ghost cst = old(self).spec_chunk_size();
        let observers: Vec<WorldPos> = vec![*player_pos];
        proof {
            assert(observers@.len() == 1);
            assert(observers@[0] == *player_pos);
        }
        self.load_unload_chunks_serverside(&observers, generator);
        proof {
            assert forall|cp: (int, int, int)| true implies {
                &&& (any_observer_within(observers@, cp, cst, RETAIN_RADIUS_UNITS as int)
                    == observer_within(*player_pos, cp, cst, RETAIN_RADIUS_UNITS as int))
                &&& (generation_target(observers@, cp, cst) == (in_generation_cube(
                    *player_pos,
                    cp,
                    cst,
                ) && observer_within(*player_pos, cp, cst, CHUNK_DISTANCE_UNITS as int)))
            } by {
                if observer_within(*player_pos, cp, cst, RETAIN_RADIUS_UNITS as int) {
                    assert(observer_within(observers@[0], cp, cst, RETAIN_RADIUS_UNITS as int));
                }
                if in_generation_cube(*player_pos, cp, cst) && observer_within(
                    *player_pos,
                    cp,
                    cst,
                    CHUNK_DISTANCE_UNITS as int,
                ) {
                    assert(in_generation_cube(observers@[0], cp, cst) && observer_within(
                        observers@[0],
                        cp,
                        cst,
                        CHUNK_DISTANCE_UNITS as int,
                    ));
                }
            }
        }
    }
}

impl Dimension {
    /// Whether every loaded chunk's grid coordinates lie within a bound.
    pub open spec fn span_bounded(&self, b: int) -> bool {
        forall|cp: (int, int, int)| #[trigger]
            self.is_loaded(cp) ==> -b <= cp.0 <= b && -b <= cp.1 <= b && -b <= cp.2 <= b
    }
}

/// A readable block lies inside the block range spanned by the loaded
/// chunks.
pub proof fn lemma_defined_block_bounded(dim: &Dimension, p: (int, int, int), b: int)
    requires
        dim.block_defined(p),
        dim.span_bounded(b),
        0 <= b,
        1 <= dim.spec_chunk_size().0 <= 255,
        1 <= dim.spec_chunk_size().1 <= 255,
        1 <= dim.spec_chunk_size().2 <= 255,
    ensures
        -(b + 1) * 256 <= p.0 <= (b + 1) * 256,
        -(b + 1) * 256 <= p.1 <= (b + 1) * 256,
        -(b + 1) * 256 <= p.2 <= (b + 1) * 256,
{
    let cs = dim.spec_chunk_size();
    let cp = dim.owner_of(p);
    assert(dim.is_loaded(cp));
    vstd::arithmetic::div_mod::lemma_fundamental_div_mod(p.0, cs.0);
    vstd::arithmetic::div_mod::lemma_mod_bound(p.0, cs.0);
    vstd::arithmetic::div_mod::lemma_fundamental_div_mod(p.1, cs.1);
    vstd::arithmetic::div_mod::lemma_mod_bound(p.1, cs.1);
    vstd::arithmetic::div_mod::lemma_fundamental_div_mod(p.2, cs.2);
    vstd::arithmetic::div_mod::lemma_mod_bound(p.2, cs.2);
    assert(-(b + 1) * 256 <= p.0 <= (b + 1) * 256) by (nonlinear_arith)
        requires
            p.0 == cs.0 * cp.0 + p.0 % cs.0,
            0 <= p.0 % cs.0 < cs.0,
            -b <= cp.0 <= b,
            1 <= cs.0 <= 255,
            0 <= b,
    ;
    assert(-(b + 1) * 256 <= p.1 <= (b + 1) * 256) by (nonlinear_arith)
        requires
            p.1 == cs.1 * cp.1 + p.1 % cs.1,
            0 <= p.1 % cs.1 < cs.1,
            -b <= cp.1 <= b,
            1 <= cs.1 <= 255,
            0 <= b,
    ;
    assert(-(b + 1) * 256 <= p.2 <= (b + 1) * 256) by (nonlinear_arith)
        requires
            p.2 == cs.2 * cp.2 + p.2 % cs.2,
            0 <= p.2 % cs.2 < cs.2,
            -b <= cp.2 <= b,
            1 <= cs.2 <= 255,
            0 <= b,
    ;
}

/// A point within a smaller radius of a center is within any larger one.
proof fn lemma_within_widens(
    obs: WorldPos,
    cp: (int, int, int),
    cs: (int, int, int),
    small: int,
    large: int,
)
    requires
        observer_within(obs, cp, cs, small),
        0 < small <= large,
    ensures
        observer_within(obs, cp, cs, large),
{
    assert(small * small <= large * large) by (nonlinear_arith)
        requires
            0 < small <= large,
    ;
}


/// Keys and their order fix which chunk serves each block: two dimensions
/// with the same chunk size and the same keys in the same order agree on
/// residency and on chunk indices.
proof fn lemma_same_keys_same_index(pre: Dimension, post: Dimension)
    requires
        post.entries().len() == pre.entries().len(),
        forall|j: int|
            0 <= j < post.entries().len() ==> (#[trigger] post.entries()[j]).0
                == pre.entries()[j].0,
        forall|k1: int, k2: int|
            0 <= k1 < k2 < pre.entries().len() ==> (#[trigger] pre.entries()[k1]).0 != (
            #[trigger] pre.entries()[k2]).0,
    ensures
        forall|cp: (int, int, int)| #[trigger] post.is_loaded(cp) == pre.is_loaded(cp),
        forall|cp: (int, int, int)| #[trigger]
            pre.is_loaded(cp) ==> post.index_of(cp) == pre.index_of(cp) && 0 <= pre.index_of(cp)
                < pre.entries().len() && pre.entries()[pre.index_of(cp)].0 == cp,
{
    assert forall|cp: (int, int, int)| #[trigger] post.is_loaded(cp) == pre.is_loaded(cp) by {
        if pre.is_loaded(cp) {
            let j = pre.index_of(cp);
            assert(pre.entries()[j].0 == cp);
            assert(post.entries()[j].0 == cp);
            assert(post.is_loaded(cp));
        }
        if post.is_loaded(cp) {
            let j = choose|j: int|
                0 <= j < post.entries().len() && (#[trigger] post.entries()[j]).0 == cp;
            assert(pre.entries()[j].0 == cp);
            assert(pre.is_loaded(cp));
        }
    }
    assert forall|cp: (int, int, int)| #[trigger]
        pre.is_loaded(cp) implies post.index_of(cp) == pre.index_of(cp) && 0 <= pre.index_of(cp)
        < pre.entries().len() && pre.entries()[pre.index_of(cp)].0 == cp by {
        let j = pre.index_of(cp);
        assert(pre.entries()[j].0 == cp);
        assert(post.entries()[j].0 == cp);
        assert(post.is_loaded(cp));
        let j2 = post.index_of(cp);
        assert(post.entries()[j2].0 == cp);
        assert(pre.entries()[j2].0 == cp);
        if j != j2 {
            assert(false);
        }
    }
}

} // verus!
