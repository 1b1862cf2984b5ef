//! A dense 3D voxel grid backed by a single flat buffer, indexed by
//! position with the packing `z * (size_x * size_y) + y * size_x + x`.

use vstd::prelude::*;

use crate::voxel::voxelmath::{StepCoord, USizeAble, VoxelCoord, VoxelPos, VoxelRange};
use crate::voxel::voxelstorage::{Voxel, VoxelError, VoxelStorage, VoxelStorageBounded};

verus! {

/// The flat index of a position in a grid of the given size.
pub open spec fn spec_xyz_to_i(x: int, y: int, z: int, size_x: int, size_y: int) -> int {
    z * (size_x * size_y) + y * size_x + x
}

/// Converts grid coordinates to a flat buffer index.
pub fn xyz_to_i<P: USizeAble>(x: P, y: P, z: P, size_x: P, size_y: P, size_z: P) -> (r: usize)
    requires
        0 <= x.as_int() < size_x.as_int(),
        0 <= y.as_int() < size_y.as_int(),
        0 <= z.as_int() < size_z.as_int(),
        size_x.as_int() * size_y.as_int() * size_z.as_int() <= usize::MAX,
    ensures
        r == spec_xyz_to_i(x.as_int(), y.as_int(), z.as_int(), size_x.as_int(), size_y.as_int()),
        r < size_x.as_int() * size_y.as_int() * size_z.as_int(),
{
    proof {
        lemma_flat_index_bound(
            x.as_int(),
            y.as_int(),
            z.as_int(),
            size_x.as_int(),
            size_y.as_int(),
            size_z.as_int(),
        );
    }
    (z.as_usize() * (size_x.as_usize() * size_y.as_usize())) + (y.as_usize() * size_x.as_usize())
        + x.as_usize()
}

/// The flat index of an in-bounds position stays below the grid volume,
/// and so does every partial sum on the way to it.
pub proof fn lemma_flat_index_bound(x: int, y: int, z: int, sx: int, sy: int, sz: int)
    requires
        0 <= x < sx,
        0 <= y < sy,
        0 <= z < sz,
    ensures
        0 <= spec_xyz_to_i(x, y, z, sx, sy) < sx * sy * sz,
        0 <= sx * sy <= sx * sy * sz,
        0 <= y * sx <= sx * sy * sz,
        0 <= z * (sx * sy) <= sx * sy * sz,
        z * (sx * sy) + y * sx <= sx * sy * sz,
        sx * sy * sz == sx * (sy * sz),
{
    assert(0 <= z * (sx * sy) + y * sx + x < sx * sy * sz && 0 <= sx * sy <= sx * sy * sz && 0 <= y
        * sx <= sx * sy * sz && 0 <= z * (sx * sy) <= sx * sy * sz && z * (sx * sy) + y * sx <= sx
        * sy * sz && sx * sy * sz == sx * (sy * sz)) by (nonlinear_arith)
        requires
            0 <= x < sx,
            0 <= y < sy,
            0 <= z < sz,
    ;
}

/// Distinct in-bounds positions have distinct flat indices.
pub proof fn lemma_flat_index_injective(sx: int, sy: int, p: (int, int, int), q: (int, int, int))
    requires
        0 <= p.0 < sx,
        0 <= p.1 < sy,
        0 <= q.0 < sx,
        0 <= q.1 < sy,
        p != q,
    ensures
        spec_xyz_to_i(p.0, p.1, p.2, sx, sy) != spec_xyz_to_i(q.0, q.1, q.2, sx, sy),
{
    assert(p.2 * (sx * sy) + p.1 * sx + p.0 != q.2 * (sx * sy) + q.1 * sx + q.0)
        by (nonlinear_arith)
        requires
            0 <= p.0 < sx,
            0 <= p.1 < sy,
            0 <= q.0 < sx,
            0 <= q.1 < sy,
            p.0 != q.0 || p.1 != q.1 || p.2 != q.2,
    ;
}

/// A 3D packed array of voxels: a single flat buffer in memory, with a
/// fixed, constant size after creation.
#[derive(Debug)]
pub struct VoxelArray<T: Clone + core::fmt::Debug, P: USizeAble + StepCoord> {
    size_x: P,
    size_y: P,
    size_z: P,
    data: Vec<T>,
}

impl<T: Clone + core::fmt::Debug, P: USizeAble + StepCoord> VoxelArray<T, P> {
    /// The declared extent on each axis.
    pub closed spec fn spec_size(&self) -> (int, int, int) {
        (self.size_x.as_int(), self.size_y.as_int(), self.size_z.as_int())
    }

    /// The backing buffer contents, in flat-index order.
    pub closed spec fn data_seq(&self) -> Seq<T> {
        self.data@
    }

    /// The buffer length always agrees with the declared size.
    #[verifier::type_invariant]
    spec fn wf(&self) -> bool {
        &&& 0 <= self.spec_size().0
        &&& 0 <= self.spec_size().1
        &&& 0 <= self.spec_size().2
        &&& self.spec_size().0 * self.spec_size().1 * self.spec_size().2 <= usize::MAX
        &&& self.data_seq().len() == self.spec_size().0 * self.spec_size().1 * self.spec_size().2
    }

    /// Whether a coordinate triple is inside the declared size.
    pub open spec fn in_bounds(&self, p: (int, int, int)) -> bool {
        0 <= p.0 < self.spec_size().0 && 0 <= p.1 < self.spec_size().1 && 0 <= p.2
            < self.spec_size().2
    }

    /// The flat index of a coordinate triple.
    pub open spec fn flat_index(&self, p: (int, int, int)) -> int {
        spec_xyz_to_i(p.0, p.1, p.2, self.spec_size().0, self.spec_size().1)
    }

    /// The declared extents of the grid, as coordinate values.
    pub fn dimensions(&self) -> (r: (P, P, P))
        ensures
            (r.0.as_int(), r.1.as_int(), r.2.as_int()) == self.spec_size(),
    {
        (self.size_x, self.size_y, self.size_z)
    }

    /// The number of cells in the grid, which is also the buffer length.
    pub fn cell_count(&self) -> (r: usize)
        ensures
            r == self.data_seq().len(),
            r == self.spec_size().0 * self.spec_size().1 * self.spec_size().2,
            0 <= self.spec_size().0 && 0 <= self.spec_size().1 && 0 <= self.spec_size().2,
    {
        proof {
            use_type_invariant(self);
        }
        self.data.len()
    }

    /// Loads a voxel array from an existing buffer, which must hold one
    /// element per grid cell.
    pub fn load_new(szx: P, szy: P, szz: P, dat: Vec<T>) -> (r: VoxelArray<T, P>)
        requires
            0 <= szx.as_int(),
            0 <= szy.as_int(),
            0 <= szz.as_int(),
            szx.as_int() * szy.as_int() * szz.as_int() <= usize::MAX,
            dat@.len() == szx.as_int() * szy.as_int() * szz.as_int(),
        ensures
            r.spec_size() == (szx.as_int(), szy.as_int(), szz.as_int()),
            r.data_seq() == dat@,
    {
        VoxelArray { size_x: szx, size_y: szy, size_z: szz, data: dat }
    }

    /// Makes a new voxel array wherein every cell is set to `val`.
    pub fn new_solid(szx: P, szy: P, szz: P, val: T) -> (r: VoxelArray<T, P>)
        requires
            0 <= szx.as_int(),
            0 <= szy.as_int(),
            0 <= szz.as_int(),
            szx.as_int() * szy.as_int() <= usize::MAX,
            szx.as_int() * szy.as_int() * szz.as_int() <= usize::MAX,
        ensures
            r.spec_size() == (szx.as_int(), szy.as_int(), szz.as_int()),
            forall|i: int| 0 <= i < r.data_seq().len() ==> cloned(val, #[trigger] r.data_seq()[i]),
    {
        proof {
            assert((szx.as_int() * szy.as_int()) * szz.as_int() == szx.as_int() * szy.as_int()
                * szz.as_int() && (szz.as_int() > 0 ==> szx.as_int() * szy.as_int() <= szx.as_int()
                * szy.as_int() * szz.as_int()) && (szz.as_int() == 0 ==> szx.as_int() * szy.as_int()
                * szz.as_int() == 0)) by (nonlinear_arith)
                requires
                    0 <= szx.as_int(),
                    0 <= szy.as_int(),
                    0 <= szz.as_int(),
            ;
        }
        let n = (szx.as_usize() * szy.as_usize()) * szz.as_usize();
        let mut dat: Vec<T> = Vec::new();
        while dat.len() < n
            invariant
                dat@.len() <= n,
                forall|i: int| 0 <= i < dat@.len() ==> cloned(val, #[trigger] dat@[i]),
            decreases n - dat@.len(),
        {
            dat.push(val.clone());
        }
        VoxelArray { size_x: szx, size_y: szy, size_z: szz, data: dat }
    }

    /// A cell-by-cell copy of this array.
    pub fn duplicate(&self) -> (r: Self)
        ensures
            r.spec_size() == self.spec_size(),
            r.data_seq().len() == self.data_seq().len(),
            forall|i: int|
                0 <= i < r.data_seq().len() ==> cloned(
                    self.data_seq()[i],
                    #[trigger] r.data_seq()[i],
                ),
    {
        proof {
            use_type_invariant(self);
        }
        let mut dat: Vec<T> = Vec::new();
        let mut i: usize = 0;
        while i < self.data.len()
            invariant
                i <= self.data_seq().len(),
                dat@.len() == i,
                forall|j: int|
                    0 <= j < i ==> cloned(self.data_seq()[j], #[trigger] dat@[j]),
            decreases self.data_seq().len() - i,
        {
            dat.push(self.data[i].clone());
            i = i + 1;
        }
        VoxelArray { size_x: self.size_x, size_y: self.size_y, size_z: self.size_z, data: dat }
    }

    /// Replaces the data inside the array all at once, dropping the old
    /// buffer. The new buffer must have the same length as the old one.
    pub fn replace_data(&mut self, data: Vec<T>)
        requires
            data@.len() == old(self).data_seq().len(),
        ensures
            final(self).spec_size() == old(self).spec_size(),
            final(self).data_seq() == data@,
    {
        proof {
            use_type_invariant(&*self);
        }
        self.data = data;
    }

    /// Reads the voxel at a position, or absent when the position is
    /// outside the declared size.
    pub fn get(&self, coord: VoxelPos<P>) -> (r: Option<T>)
        ensures
            match r {
                Some(v) => self.cells().dom().contains(coord.as_tuple()) && cloned(
                    self.cells()[coord.as_tuple()],
                    v,
                ),
                None => !self.cells().dom().contains(coord.as_tuple()),
            },
    {
        proof {
            use_type_invariant(self);
        }
        if !coord.x.coord_lt(&self.size_x) || !coord.y.coord_lt(&self.size_y) || !coord.z.coord_lt(
            &self.size_z,
        ) {
            return None;
        }
        proof {
            coord.x.nonneg();
            coord.y.nonneg();
            coord.z.nonneg();
        }
        let i = xyz_to_i(coord.x, coord.y, coord.z, self.size_x, self.size_y, self.size_z);
        Some(self.data[i].clone())
    }

    /// Writes the voxel at a position; a position outside the declared
    /// size is left alone.
    pub fn set(&mut self, coord: VoxelPos<P>, value: T)
        ensures
            final(self).spec_size() == old(self).spec_size(),
            old(self).settable(coord.as_tuple()) ==> final(self).cells() == old(
                self,
            ).cells().insert(coord.as_tuple(), value),
            !old(self).settable(coord.as_tuple()) ==> *final(self) == *old(self),
    {
        proof {
            use_type_invariant(&*self);
        }
        if !coord.x.coord_lt(&self.size_x) || !coord.y.coord_lt(&self.size_y) || !coord.z.coord_lt(
            &self.size_z,
        ) {
            return ;
        }
        proof {
            coord.x.nonneg();
            coord.y.nonneg();
            coord.z.nonneg();
        }
        let i = xyz_to_i(coord.x, coord.y, coord.z, self.size_x, self.size_y, self.size_z);
        let slot = &mut self.data[i];
        *slot = value;
        proof {
            lemma_cells_after_write(*old(self), *self, coord.as_tuple(), value);
        }
    }
}

/// The voxel-array round trip: after a write at an in-bounds position
/// the same position reads back exactly the written value; a position
/// with any coordinate at or past the declared size on that axis reads
/// absent, and a write there changes nothing. Stated over the cell views
/// that `set` and `get` are specified by.
pub proof fn lemma_set_get_round_trip<T: Voxel, P: USizeAble + StepCoord>(
    pre: VoxelArray<T, P>,
    post: VoxelArray<T, P>,
    p: (int, int, int),
    v: T,
)
    requires
        pre.settable(p) ==> post.cells() == pre.cells().insert(p, v),
        !pre.settable(p) ==> post == pre,
    ensures
        pre.in_bounds(p) ==> post.cells().dom().contains(p) && post.cells()[p] == v,
        !pre.in_bounds(p) ==> !post.cells().dom().contains(p) && post.cells() == pre.cells(),
{
}

/// After an in-place buffer write, the cell map is the old map with the
/// written position updated.
proof fn lemma_cells_after_write<T: Clone + core::fmt::Debug, P: USizeAble + StepCoord>(
    pre: VoxelArray<T, P>,
    post: VoxelArray<T, P>,
    p: (int, int, int),
    v: T,
)
    requires
        pre.in_bounds(p),
        0 <= pre.flat_index(p) < pre.data_seq().len(),
        pre.data_seq().len() == pre.spec_size().0 * pre.spec_size().1 * pre.spec_size().2,
        post.spec_size() == pre.spec_size(),
        post.data_seq() == pre.data_seq().update(pre.flat_index(p), v),
    ensures
        post.cells() == pre.cells().insert(p, v),
{
    assert forall|q: (int, int, int)| #[trigger] post.in_bounds(q) implies {
        &&& 0 <= post.flat_index(q) < post.data_seq().len()
        &&& (q == p ==> post.data_seq()[post.flat_index(q)] == v)
        &&& (q != p ==> post.data_seq()[post.flat_index(q)] == pre.data_seq()[pre.flat_index(q)])
    } by {
        lemma_flat_index_bound(
            q.0,
            q.1,
            q.2,
            pre.spec_size().0,
            pre.spec_size().1,
            pre.spec_size().2,
        );
        if q != p {
            lemma_flat_index_injective(pre.spec_size().0, pre.spec_size().1, p, q);
        }
    }
    assert(post.cells() =~= pre.cells().insert(p, v));
}

impl<T: Clone + core::fmt::Debug + Default, P: USizeAble + StepCoord> VoxelArray<T, P> {
    /// Makes a new voxel array wherein every cell is the type's default.
    pub fn new_empty(szx: P, szy: P, szz: P) -> (r: VoxelArray<T, P>)
        requires
            0 <= szx.as_int(),
            0 <= szy.as_int(),
            0 <= szz.as_int(),
            szx.as_int() * szy.as_int() <= usize::MAX,
            szx.as_int() * szy.as_int() * szz.as_int() <= usize::MAX,
        ensures
            r.spec_size() == (szx.as_int(), szy.as_int(), szz.as_int()),
            exists|d: T|
                #[trigger] call_ensures(T::default, (), d) && forall|i: int|
                    0 <= i < r.data_seq().len() ==> cloned::<T>(d, #[trigger] r.data_seq()[i]),
    {
        let d = T::default();
        let r = VoxelArray::new_solid(szx, szy, szz, d);
        proof {
            assert(call_ensures(T::default, (), d) && forall|i: int|
                0 <= i < r.data_seq().len() ==> cloned::<T>(d, #[trigger] r.data_seq()[i]));
        }
        r
    }
}

impl<T: Voxel, P: USizeAble + StepCoord> VoxelStorage<T, P> for VoxelArray<T, P> {
    open spec fn cells(&self) -> Map<(int, int, int), T> {
        Map::new(
            |p: (int, int, int)| self.in_bounds(p),
            |p: (int, int, int)| self.data_seq()[self.flat_index(p)],
        )
    }

    open spec fn settable(&self, p: (int, int, int)) -> bool {
        self.in_bounds(p)
    }

    open spec fn get_error(&self, p: (int, int, int)) -> VoxelError {
        VoxelError::OutOfBounds
    }

    open spec fn set_error(&self, p: (int, int, int)) -> VoxelError {
        VoxelError::OutOfBounds
    }

    fn get(&self, coord: VoxelPos<P>) -> (r: Result<T, VoxelError>) {
        match VoxelArray::get(self, coord) {
            Some(v) => Ok(v),
            None => Err(VoxelError::OutOfBounds),
        }
    }

    fn set(&mut self, coord: VoxelPos<P>, value: T) -> (r: Result<(), VoxelError>) {
        proof {
            use_type_invariant(&*self);
        }
        if !coord.x.coord_lt(&self.size_x) || !coord.y.coord_lt(&self.size_y) || !coord.z.coord_lt(
            &self.size_z,
        ) {
            proof {
                coord.x.nonneg();
                coord.y.nonneg();
                coord.z.nonneg();
            }
            return Err(VoxelError::OutOfBounds);
        }
        proof {
            coord.x.nonneg();
            coord.y.nonneg();
            coord.z.nonneg();
        }
        VoxelArray::set(self, coord, value);
        Ok(())
    }
}

impl<T: Voxel, P: USizeAble + StepCoord> VoxelStorageBounded<T, P> for VoxelArray<T, P> {
    open spec fn spec_bounds(&self) -> VoxelRange<P> {
        VoxelRange {
            lower: VoxelPos { x: P::spec_zero(), y: P::spec_zero(), z: P::spec_zero() },
            upper: VoxelPos { x: self.spec_size_x(), y: self.spec_size_y(), z: self.spec_size_z() },
        }
    }

    fn get_bounds(&self) -> (r: VoxelRange<P>) {
        proof {
            P::zero_ok();
        }
        VoxelRange {
            lower: VoxelPos { x: P::zero_value(), y: P::zero_value(), z: P::zero_value() },
            upper: VoxelPos { x: self.size_x, y: self.size_y, z: self.size_z },
        }
    }
}

impl<T: Clone + core::fmt::Debug, P: USizeAble + StepCoord> VoxelArray<T, P> {
    /// The size field on the x axis, as a coordinate value.
    pub closed spec fn spec_size_x(&self) -> P {
        self.size_x
    }

    /// The size field on the y axis, as a coordinate value.
    pub closed spec fn spec_size_y(&self) -> P {
        self.size_y
    }

    /// The size field on the z axis, as a coordinate value.
    pub closed spec fn spec_size_z(&self) -> P {
        self.size_z
    }
}

} // verus!
