//! Discrete 3D positions, sizes, axis-aligned ranges and facing directions:
//! the shared vocabulary of every component that touches world or chunk
//! coordinates.

use vstd::prelude::*;

verus! {

/// An integer coordinate type usable in voxel positions. Gives every
/// coordinate a mathematical value that contracts can speak about.
pub trait VoxelCoord: Copy {
    /// The mathematical value of this coordinate.
    spec fn as_int(&self) -> int;

    /// The coordinate with value zero.
    spec fn spec_zero() -> Self;

    /// Zero means zero.
    proof fn zero_ok()
        ensures
            Self::spec_zero().as_int() == 0,
    ;

    /// The zero coordinate, as a value.
    fn zero_value() -> (r: Self)
        ensures
            r == Self::spec_zero(),
    ;

    /// Executable comparison, tied to the mathematical value.
    fn coord_lt(&self, other: &Self) -> (r: bool)
        ensures
            r == (self.as_int() < other.as_int()),
    ;
}

/// A coordinate type that can index into a flat buffer.
pub trait USizeAble: VoxelCoord {
    fn as_usize(&self) -> (r: usize)
        ensures
            r == self.as_int(),
    ;

    /// An indexable coordinate is never negative.
    proof fn nonneg(&self)
        ensures
            self.as_int() >= 0,
    ;
}

/// A coordinate type that positions can be built from when walking a range.
pub trait StepCoord: VoxelCoord {
    /// Smallest value of the coordinate type.
    spec fn min_val() -> int;

    /// Largest value of the coordinate type.
    spec fn max_val() -> int;

    /// Every coordinate lies between the type's bounds.
    proof fn bounds_ok(&self)
        ensures
            Self::min_val() <= self.as_int() <= Self::max_val(),
    ;

    /// The whole coordinate range fits in a machine word.
    proof fn type_range_fits()
        ensures
            Self::max_val() - Self::min_val() <= usize::MAX,
    ;

    /// Steps a coordinate forward by a machine-word amount.
    fn add_offset(&self, d: usize) -> (r: Self)
        requires
            self.as_int() + d <= Self::max_val(),
        ensures
            r.as_int() == self.as_int() + d,
    ;

    /// The distance from a smaller coordinate up to this one.
    fn diff_usize(&self, other: &Self) -> (r: usize)
        requires
            other.as_int() <= self.as_int(),
            self.as_int() - other.as_int() <= usize::MAX,
        ensures
            r == self.as_int() - other.as_int(),
    ;
}

impl VoxelCoord for u8 {
    open spec fn as_int(&self) -> int {
        *self as int
    }

    open spec fn spec_zero() -> Self {
        0
    }

    proof fn zero_ok() {
    }

    fn zero_value() -> (r: Self) {
        0
    }

    fn coord_lt(&self, other: &Self) -> (r: bool) {
        *self < *other
    }
}

impl USizeAble for u8 {
    fn as_usize(&self) -> (r: usize) {
        *self as usize
    }

    proof fn nonneg(&self) {
    }
}

impl StepCoord for u8 {
    open spec fn min_val() -> int {
        0
    }

    open spec fn max_val() -> int {
        u8::MAX as int
    }

    proof fn bounds_ok(&self) {
    }

    proof fn type_range_fits() {
    }

    fn add_offset(&self, d: usize) -> (r: Self) {
        *self + (d as u8)
    }

    fn diff_usize(&self, other: &Self) -> (r: usize) {
        (*self - *other) as usize
    }
}

impl VoxelCoord for u16 {
    open spec fn as_int(&self) -> int {
        *self as int
    }

    open spec fn spec_zero() -> Self {
        0
    }

    proof fn zero_ok() {
    }

    fn zero_value() -> (r: Self) {
        0
    }

    fn coord_lt(&self, other: &Self) -> (r: bool) {
        *self < *other
    }
}

impl USizeAble for u16 {
    fn as_usize(&self) -> (r: usize) {
        *self as usize
    }

    proof fn nonneg(&self) {
    }
}

impl StepCoord for u16 {
    open spec fn min_val() -> int {
        0
    }

    open spec fn max_val() -> int {
        u16::MAX as int
    }

    proof fn bounds_ok(&self) {
    }

    proof fn type_range_fits() {
    }

    fn add_offset(&self, d: usize) -> (r: Self) {
        *self + (d as u16)
    }

    fn diff_usize(&self, other: &Self) -> (r: usize) {
        (*self - *other) as usize
    }
}

impl VoxelCoord for u32 {
    open spec fn as_int(&self) -> int {
        *self as int
    }

    open spec fn spec_zero() -> Self {
        0
    }

    proof fn zero_ok() {
    }

    fn zero_value() -> (r: Self) {
        0
    }

    fn coord_lt(&self, other: &Self) -> (r: bool) {
        *self < *other
    }
}

impl USizeAble for u32 {
    fn as_usize(&self) -> (r: usize) {
        *self as usize
    }

    proof fn nonneg(&self) {
    }
}

impl StepCoord for u32 {
    open spec fn min_val() -> int {
        0
    }

    open spec fn max_val() -> int {
        u32::MAX as int
    }

    proof fn bounds_ok(&self) {
    }

    proof fn type_range_fits() {
    }

    fn add_offset(&self, d: usize) -> (r: Self) {
        *self + (d as u32)
    }

    fn diff_usize(&self, other: &Self) -> (r: usize) {
        (*self - *other) as usize
    }
}

impl VoxelCoord for i32 {
    open spec fn as_int(&self) -> int {
        *self as int
    }

    open spec fn spec_zero() -> Self {
        0
    }

    proof fn zero_ok() {
    }

    fn zero_value() -> (r: Self) {
        0
    }

    fn coord_lt(&self, other: &Self) -> (r: bool) {
        *self < *other
    }
}

impl StepCoord for i32 {
    open spec fn min_val() -> int {
        i32::MIN as int
    }

    open spec fn max_val() -> int {
        i32::MAX as int
    }

    proof fn bounds_ok(&self) {
    }

    proof fn type_range_fits() {
    }

    fn add_offset(&self, d: usize) -> (r: Self) {
        ((*self as i64) + (d as i64)) as i32
    }

    fn diff_usize(&self, other: &Self) -> (r: usize) {
        ((*self as i64) - (*other as i64)) as usize
    }
}

/// One of the three coordinate axes, without a direction.
#[derive(Clone, Copy, Debug, PartialEq, Eq, Structural)]
pub enum VoxelAxisUnsigned {
    X,
    Y,
    Z,
}

/// The sign of a facing direction along an axis.
#[derive(Clone, Copy, Debug, PartialEq, Eq, Structural)]
pub enum VoxelAxisSign {
    POSI,
    NEGA,
}

/// One of the six facing directions of a voxel.
#[derive(Clone, Copy, Debug, PartialEq, Eq, Structural)]
pub enum VoxelAxis {
    PosiX,
    NegaX,
    PosiY,
    NegaY,
    PosiZ,
    NegaZ,
}

impl VoxelAxis {
    /// The axis this direction runs along.
    pub open spec fn spec_unsigned_axis(self) -> VoxelAxisUnsigned {
        match self {
            VoxelAxis::PosiX | VoxelAxis::NegaX => VoxelAxisUnsigned::X,
            VoxelAxis::PosiY | VoxelAxis::NegaY => VoxelAxisUnsigned::Y,
            VoxelAxis::PosiZ | VoxelAxis::NegaZ => VoxelAxisUnsigned::Z,
        }
    }

    pub fn unsigned_axis(self) -> (r: VoxelAxisUnsigned)
        ensures
            r == self.spec_unsigned_axis(),
    {
        match self {
            VoxelAxis::PosiX | VoxelAxis::NegaX => VoxelAxisUnsigned::X,
            VoxelAxis::PosiY | VoxelAxis::NegaY => VoxelAxisUnsigned::Y,
            VoxelAxis::PosiZ | VoxelAxis::NegaZ => VoxelAxisUnsigned::Z,
        }
    }

    /// The sign of this direction.
    pub open spec fn spec_sign(self) -> VoxelAxisSign {
        match self {
            VoxelAxis::PosiX | VoxelAxis::PosiY | VoxelAxis::PosiZ => VoxelAxisSign::POSI,
            VoxelAxis::NegaX | VoxelAxis::NegaY | VoxelAxis::NegaZ => VoxelAxisSign::NEGA,
        }
    }

    pub fn get_sign(self) -> (r: VoxelAxisSign)
        ensures
            r == self.spec_sign(),
    {
        match self {
            VoxelAxis::PosiX | VoxelAxis::PosiY | VoxelAxis::PosiZ => VoxelAxisSign::POSI,
            VoxelAxis::NegaX | VoxelAxis::NegaY | VoxelAxis::NegaZ => VoxelAxisSign::NEGA,
        }
    }

    /// The opposite facing direction.
    pub open spec fn spec_opposite(self) -> VoxelAxis {
        match self {
            VoxelAxis::PosiX => VoxelAxis::NegaX,
            VoxelAxis::NegaX => VoxelAxis::PosiX,
            VoxelAxis::PosiY => VoxelAxis::NegaY,
            VoxelAxis::NegaY => VoxelAxis::PosiY,
            VoxelAxis::PosiZ => VoxelAxis::NegaZ,
            VoxelAxis::NegaZ => VoxelAxis::PosiZ,
        }
    }

    pub fn opposite(self) -> (r: VoxelAxis)
        ensures
            r == self.spec_opposite(),
            r.spec_opposite() == self,
    {
        match self {
            VoxelAxis::PosiX => VoxelAxis::NegaX,
            VoxelAxis::NegaX => VoxelAxis::PosiX,
            VoxelAxis::PosiY => VoxelAxis::NegaY,
            VoxelAxis::NegaY => VoxelAxis::PosiY,
            VoxelAxis::PosiZ => VoxelAxis::NegaZ,
            VoxelAxis::NegaZ => VoxelAxis::PosiZ,
        }
    }

    /// The signed unit step this direction takes on each axis.
    pub open spec fn spec_step(self) -> (int, int, int) {
        match self {
            VoxelAxis::PosiX => (1, 0, 0),
            VoxelAxis::NegaX => (-1, 0, 0),
            VoxelAxis::PosiY => (0, 1, 0),
            VoxelAxis::NegaY => (0, -1, 0),
            VoxelAxis::PosiZ => (0, 0, 1),
            VoxelAxis::NegaZ => (0, 0, -1),
        }
    }
}

/// A position in a 3D voxel grid. Used both in world-block space
/// (`P = i32`, unbounded) and in chunk-local space (`P = u8`).
#[derive(Clone, Copy, Debug, PartialEq, Eq, Hash, Structural)]
pub struct VoxelPos<P> {
    pub x: P,
    pub y: P,
    pub z: P,
}

impl<P: VoxelCoord> VoxelPos<P> {
    /// The mathematical coordinates of this position.
    pub open spec fn as_tuple(&self) -> (int, int, int) {
        (self.x.as_int(), self.y.as_int(), self.z.as_int())
    }
}

impl VoxelPos<u8> {
    /// The coordinate on the given axis.
    pub open spec fn spec_coord_for_axis(&self, axis: VoxelAxisUnsigned) -> u8 {
        match axis {
            VoxelAxisUnsigned::X => self.x,
            VoxelAxisUnsigned::Y => self.y,
            VoxelAxisUnsigned::Z => self.z,
        }
    }

    pub fn coord_for_axis(&self, axis: VoxelAxisUnsigned) -> (r: u8)
        ensures
            r == self.spec_coord_for_axis(axis),
    {
        match axis {
            VoxelAxisUnsigned::X => self.x,
            VoxelAxisUnsigned::Y => self.y,
            VoxelAxisUnsigned::Z => self.z,
        }
    }

    /// Replaces the coordinate on the given axis.
    pub fn set_coord_for_axis(&mut self, axis: VoxelAxisUnsigned, v: u8)
        ensures
            final(self).spec_coord_for_axis(axis) == v,
            forall|a: VoxelAxisUnsigned|
                a != axis ==> final(self).spec_coord_for_axis(a) == old(self).spec_coord_for_axis(a),
    {
        match axis {
            VoxelAxisUnsigned::X => {
                self.x = v;
            },
            VoxelAxisUnsigned::Y => {
                self.y = v;
            },
            VoxelAxisUnsigned::Z => {
                self.z = v;
            },
        }
    }

    /// The neighboring position one step along the given direction, or
    /// `None` when the step would leave the unsigned coordinate range
    /// (underflow below zero, or overflow past the type's maximum).
    pub open spec fn spec_neighbor_unsigned(&self, dir: VoxelAxis) -> Option<VoxelPos<u8>> {
        let (dx, dy, dz) = dir.spec_step();
        let nx = self.x + dx;
        let ny = self.y + dy;
        let nz = self.z + dz;
        if 0 <= nx <= u8::MAX && 0 <= ny <= u8::MAX && 0 <= nz <= u8::MAX {
            Some(VoxelPos { x: nx as u8, y: ny as u8, z: nz as u8 })
        } else {
            None
        }
    }

    pub fn get_neighbor_unsigned(&self, dir: VoxelAxis) -> (r: Option<VoxelPos<u8>>)
        ensures
            r == self.spec_neighbor_unsigned(dir),
    {
        match dir {
            VoxelAxis::PosiX => {
                if self.x < u8::MAX {
                    Some(VoxelPos { x: self.x + 1, y: self.y, z: self.z })
                } else {
                    None
                }
            },
            VoxelAxis::NegaX => {
                if self.x > 0 {
                    Some(VoxelPos { x: self.x - 1, y: self.y, z: self.z })
                } else {
                    None
                }
            },
            VoxelAxis::PosiY => {
                if self.y < u8::MAX {
                    Some(VoxelPos { x: self.x, y: self.y + 1, z: self.z })
                } else {
                    None
                }
            },
            VoxelAxis::NegaY => {
                if self.y > 0 {
                    Some(VoxelPos { x: self.x, y: self.y - 1, z: self.z })
                } else {
                    None
                }
            },
            VoxelAxis::PosiZ => {
                if self.z < u8::MAX {
                    Some(VoxelPos { x: self.x, y: self.y, z: self.z + 1 })
                } else {
                    None
                }
            },
            VoxelAxis::NegaZ => {
                if self.z > 0 {
                    Some(VoxelPos { x: self.x, y: self.y, z: self.z - 1 })
                } else {
                    None
                }
            },
        }
    }
}

impl VoxelPos<i32> {
    /// The neighboring position one step along the given direction.
    pub fn get_neighbor(&self, dir: VoxelAxis) -> (r: VoxelPos<i32>)
        requires
            i32::MIN < self.x < i32::MAX,
            i32::MIN < self.y < i32::MAX,
            i32::MIN < self.z < i32::MAX,
        ensures
            ({
                let (dx, dy, dz) = dir.spec_step();
                r.x == self.x + dx && r.y == self.y + dy && r.z == self.z + dz
            }),
    {
        match dir {
            VoxelAxis::PosiX => VoxelPos { x: self.x + 1, y: self.y, z: self.z },
            VoxelAxis::NegaX => VoxelPos { x: self.x - 1, y: self.y, z: self.z },
            VoxelAxis::PosiY => VoxelPos { x: self.x, y: self.y + 1, z: self.z },
            VoxelAxis::NegaY => VoxelPos { x: self.x, y: self.y - 1, z: self.z },
            VoxelAxis::PosiZ => VoxelPos { x: self.x, y: self.y, z: self.z + 1 },
            VoxelAxis::NegaZ => VoxelPos { x: self.x, y: self.y, z: self.z - 1 },
        }
    }
}

/// A width/height/depth triple.
#[derive(Clone, Copy, Debug, PartialEq, Eq, Hash, Structural)]
pub struct VoxelSize<P> {
    pub x: P,
    pub y: P,
    pub z: P,
}

/// An axis-aligned box of voxel positions: inclusive lower corner,
/// exclusive upper corner.
#[derive(Clone, Copy, Debug, PartialEq, Eq, Structural)]
pub struct VoxelRange<P> {
    pub lower: VoxelPos<P>,
    pub upper: VoxelPos<P>,
}

impl<P: VoxelCoord> VoxelRange<P> {
    /// A range is valid when the lower corner is at or below the upper
    /// corner on every axis.
    pub open spec fn valid(&self) -> bool {
        self.lower.x.as_int() <= self.upper.x.as_int()
            && self.lower.y.as_int() <= self.upper.y.as_int()
            && self.lower.z.as_int() <= self.upper.z.as_int()
    }

    /// Whether a position lies inside the range.
    pub open spec fn spec_contains(&self, pos: VoxelPos<P>) -> bool {
        self.lower.x.as_int() <= pos.x.as_int() < self.upper.x.as_int()
            && self.lower.y.as_int() <= pos.y.as_int() < self.upper.y.as_int()
            && self.lower.z.as_int() <= pos.z.as_int() < self.upper.z.as_int()
    }

    /// Whether a mathematical coordinate triple lies inside the range.
    pub open spec fn contains_int(&self, p: (int, int, int)) -> bool {
        self.lower.x.as_int() <= p.0 < self.upper.x.as_int()
            && self.lower.y.as_int() <= p.1 < self.upper.y.as_int()
            && self.lower.z.as_int() <= p.2 < self.upper.z.as_int()
    }

    /// Containment test.
    pub fn contains(&self, pos: VoxelPos<P>) -> (r: bool)
        ensures
            r == self.spec_contains(pos),
    {
        !pos.x.coord_lt(&self.lower.x) && pos.x.coord_lt(&self.upper.x)
            && !pos.y.coord_lt(&self.lower.y) && pos.y.coord_lt(&self.upper.y)
            && !pos.z.coord_lt(&self.lower.z) && pos.z.coord_lt(&self.upper.z)
    }
}

impl VoxelRange<i32> {
    /// Every position of the range as a list, x outermost and z
    /// innermost: the position (x, y, z) stands at index
    /// ((x - lower.x) * ey + (y - lower.y)) * ez + (z - lower.z), where
    /// ey and ez are the y and z extents.
    pub fn positions(&self) -> (r: Vec<VoxelPos<i32>>)
        requires
            self.valid(),
            (self.upper.x - self.lower.x) * (self.upper.y - self.lower.y) * (self.upper.z
                - self.lower.z) <= usize::MAX,
        ensures
            r@.len() == (self.upper.x - self.lower.x) * (self.upper.y - self.lower.y) * (
            self.upper.z - self.lower.z),
            forall|k: int| 0 <= k < r@.len() ==> self.spec_contains(#[trigger] r@[k]),
            forall|p: VoxelPos<i32>| #[trigger]
                self.spec_contains(p) ==> r@[((p.x - self.lower.x) * (self.upper.y - self.lower.y)
                    + (p.y - self.lower.y)) * (self.upper.z - self.lower.z) + (p.z
                    - self.lower.z)] == p,
    {
        let ghost ey = self.upper.y - self.lower.y;
        let ghost ez = self.upper.z - self.lower.z;
        let mut out: Vec<VoxelPos<i32>> = Vec::new();
        let mut x = self.lower.x;
        while x < self.upper.x
            invariant
                self.valid(),
                ey == self.upper.y - self.lower.y,
                ez == self.upper.z - self.lower.z,
                self.lower.x <= x <= self.upper.x,
                out@.len() == (x - self.lower.x) * ey * ez,
                forall|k: int| 0 <= k < out@.len() ==> self.spec_contains(#[trigger] out@[k]),
                forall|p: VoxelPos<i32>| #[trigger]
                    self.spec_contains(p) && p.x < x ==> out@[((p.x - self.lower.x) * ey + (p.y
                        - self.lower.y)) * ez + (p.z - self.lower.z)] == p,
            decreases self.upper.x - x,
        {
            let mut y = self.lower.y;
            while y < self.upper.y
                invariant
                    self.valid(),
                    ey == self.upper.y - self.lower.y,
                    ez == self.upper.z - self.lower.z,
                    self.lower.x <= x < self.upper.x,
                    self.lower.y <= y <= self.upper.y,
                    out@.len() == ((x - self.lower.x) * ey + (y - self.lower.y)) * ez,
                    forall|k: int| 0 <= k < out@.len() ==> self.spec_contains(#[trigger] out@[k]),
                    forall|p: VoxelPos<i32>| #[trigger]
                        self.spec_contains(p) && (p.x < x || (p.x == x && p.y < y)) ==> out@[((p.x
                            - self.lower.x) * ey + (p.y - self.lower.y)) * ez + (p.z
                            - self.lower.z)] == p,
                decreases self.upper.y - y,
            {
                let mut z = self.lower.z;
                while z < self.upper.z
                    invariant
                        self.valid(),
                        ey == self.upper.y - self.lower.y,
                        ez == self.upper.z - self.lower.z,
                        self.lower.x <= x < self.upper.x,
                        self.lower.y <= y < self.upper.y,
                        self.lower.z <= z <= self.upper.z,
                        out@.len() == ((x - self.lower.x) * ey + (y - self.lower.y)) * ez + (z
                            - self.lower.z),
                        forall|k: int|
                            0 <= k < out@.len() ==> self.spec_contains(#[trigger] out@[k]),
                        forall|p: VoxelPos<i32>| #[trigger]
                            self.spec_contains(p) && (p.x < x || (p.x == x && p.y < y) || (p.x == x
                                && p.y == y && p.z < z)) ==> out@[((p.x - self.lower.x) * ey + (p.y
                                - self.lower.y)) * ez + (p.z - self.lower.z)] == p,
                    decreases self.upper.z - z,
                {
                    let ghost out0 = out@;
                    out.push(VoxelPos { x, y, z });
                    proof {
                        assert(out@[out@.len() - 1] == (VoxelPos { x, y, z }));
                        assert forall|p: VoxelPos<i32>| #[trigger]
                            self.spec_contains(p) && (p.x < x || (p.x == x && p.y < y) || (p.x == x
                                && p.y == y && p.z < z + 1)) implies out@[((p.x - self.lower.x)
                                * ey + (p.y - self.lower.y)) * ez + (p.z - self.lower.z)] == p by {
                            if p.x == x && p.y == y && p.z == z {
                                assert(((p.x - self.lower.x) * ey + (p.y - self.lower.y)) * ez + (
                                p.z - self.lower.z) == out0.len());
                            } else {
                                let i = ((p.x - self.lower.x) * ey + (p.y - self.lower.y)) * ez + (
                                p.z - self.lower.z);
                                assert(out0[i] == p);
                                assert(0 <= i < out0.len()) by (nonlinear_arith)
                                    requires
                                        i == ((p.x - self.lower.x) * ey + (p.y - self.lower.y))
                                            * ez + (p.z - self.lower.z),
                                        out0.len() == ((x - self.lower.x) * ey + (y
                                            - self.lower.y)) * ez + (z - self.lower.z),
                                        self.lower.x <= p.x,
                                        self.lower.y <= p.y < self.lower.y + ey,
                                        self.lower.z <= p.z < self.lower.z + ez,
                                        self.lower.y <= y,
                                        self.lower.z <= z,
                                        p.x < x || (p.x == x && p.y < y) || (p.x == x && p.y == y
                                            && p.z < z),
                                ;
                                assert(out@[i] == out0[i]);
                            }
                        }
                    }
                    z = z + 1;
                }
                proof {
                    assert(((x - self.lower.x) * ey + (y - self.lower.y)) * ez + ez == ((x
                        - self.lower.x) * ey + (y + 1 - self.lower.y)) * ez) by (nonlinear_arith);
                }
                y = y + 1;
            }
            proof {
                assert(((x - self.lower.x) * ey + ey) * ez == (x + 1 - self.lower.x) * ey * ez)
                    by (nonlinear_arith);
            }
            x = x + 1;
        }
        out
    }

    /// The extent of the range on one axis: zero when the corners are
    /// inverted on that axis.
    pub open spec fn spec_extent(lower: i32, upper: i32) -> int {
        if lower <= upper {
            upper - lower
        } else {
            0
        }
    }

    /// Whether the lower corner is at or below the upper corner on every
    /// axis.
    pub fn is_valid(&self) -> (r: bool)
        ensures
            r == self.valid(),
    {
        self.lower.x <= self.upper.x && self.lower.y <= self.upper.y && self.lower.z
            <= self.upper.z
    }

    /// The extent of the range on each axis, as unsigned sizes; an axis
    /// with inverted corners counts as zero.
    pub fn get_size_unsigned(&self) -> (r: VoxelSize<u32>)
        ensures
            r.x == Self::spec_extent(self.lower.x, self.upper.x),
            r.y == Self::spec_extent(self.lower.y, self.upper.y),
            r.z == Self::spec_extent(self.lower.z, self.upper.z),
    {
        VoxelSize {
            x: if self.lower.x <= self.upper.x {
                ((self.upper.x as i64) - (self.lower.x as i64)) as u32
            } else {
                0
            },
            y: if self.lower.y <= self.upper.y {
                ((self.upper.y as i64) - (self.lower.y as i64)) as u32
            } else {
                0
            },
            z: if self.lower.z <= self.upper.z {
                ((self.upper.z as i64) - (self.lower.z as i64)) as u32
            } else {
                0
            },
        }
    }

    /// Translates an absolute position into coordinates local to the
    /// range's lower corner; absent when the position is outside.
    pub fn get_local_unsigned(&self, pos: VoxelPos<i32>) -> (r: Option<VoxelPos<u32>>)
        requires
            self.valid(),
        ensures
            match r {
                Some(local) => self.spec_contains(pos) && local.x == pos.x - self.lower.x
                    && local.y == pos.y - self.lower.y && local.z == pos.z - self.lower.z,
                None => !self.spec_contains(pos),
            },
    {
        if self.contains(pos) {
            Some(
                VoxelPos {
                    x: ((pos.x as i64) - (self.lower.x as i64)) as u32,
                    y: ((pos.y as i64) - (self.lower.y as i64)) as u32,
                    z: ((pos.z as i64) - (self.lower.z as i64)) as u32,
                },
            )
        } else {
            None
        }
    }

    /// Normalizes the range so that the lower corner is at or below the
    /// upper corner on every axis, swapping coordinates where needed.
    pub fn validate(&mut self)
        ensures
            final(self).valid(),
            final(self).lower.x == min_i32(old(self).lower.x, old(self).upper.x),
            final(self).upper.x == max_i32(old(self).lower.x, old(self).upper.x),
            final(self).lower.y == min_i32(old(self).lower.y, old(self).upper.y),
            final(self).upper.y == max_i32(old(self).lower.y, old(self).upper.y),
            final(self).lower.z == min_i32(old(self).lower.z, old(self).upper.z),
            final(self).upper.z == max_i32(old(self).lower.z, old(self).upper.z),
    {
        if self.upper.x < self.lower.x {
            let t = self.upper.x;
            self.upper.x = self.lower.x;
            self.lower.x = t;
        }
        if self.upper.y < self.lower.y {
            let t = self.upper.y;
            self.upper.y = self.lower.y;
            self.lower.y = t;
        }
        if self.upper.z < self.lower.z {
            let t = self.upper.z;
            self.upper.z = self.lower.z;
            self.lower.z = t;
        }
    }
}

/// The smaller of two coordinates.
pub open spec fn min_i32(a: i32, b: i32) -> i32 {
    if a <= b {
        a
    } else {
        b
    }
}

/// The larger of two coordinates.
pub open spec fn max_i32(a: i32, b: i32) -> i32 {
    if a <= b {
        b
    } else {
        a
    }
}

/// A stateful raycast stepper: advances through successive integer voxel
/// positions one axis-aligned step at a time, recording which direction
/// was last crossed. Start point and direction are given in fixed-point
/// units of 1/256 block; crossing times are kept as exact fractions, one
/// numerator and denominator per axis.
pub struct VoxelRaycast {
    pos: VoxelPos<i32>,
    sign_x: i32,
    sign_y: i32,
    sign_z: i32,
    num_x: u64,
    num_y: u64,
    num_z: u64,
    den_x: u64,
    den_y: u64,
    den_z: u64,
    last_dir: VoxelAxis,
}

impl VoxelRaycast {
    /// The current voxel position of the ray.
    pub closed spec fn spec_pos(&self) -> VoxelPos<i32> {
        self.pos
    }

    /// The current voxel position of the ray.
    pub fn position(&self) -> (r: VoxelPos<i32>)
        ensures
            r == self.spec_pos(),
    {
        self.pos
    }

    /// The per-axis step direction, as a sign.
    pub closed spec fn spec_sign_x(&self) -> int {
        self.sign_x as int
    }

    pub closed spec fn spec_sign_y(&self) -> int {
        self.sign_y as int
    }

    pub closed spec fn spec_sign_z(&self) -> int {
        self.sign_z as int
    }

    /// The per-axis crossing-time numerators.
    pub closed spec fn spec_nums(&self) -> (int, int, int) {
        (self.num_x as int, self.num_y as int, self.num_z as int)
    }

    /// The per-axis direction magnitudes; a zero means the ray never
    /// crosses a boundary of that axis.
    pub closed spec fn spec_dens(&self) -> (int, int, int) {
        (self.den_x as int, self.den_y as int, self.den_z as int)
    }

    /// A stepper is usable when some axis moves and each sign is a unit.
    pub open spec fn wf(&self) -> bool {
        &&& (self.spec_dens().0 > 0 || self.spec_dens().1 > 0 || self.spec_dens().2 > 0)
        &&& (self.spec_sign_x() == 1 || self.spec_sign_x() == -1)
        &&& (self.spec_sign_y() == 1 || self.spec_sign_y() == -1)
        &&& (self.spec_sign_z() == 1 || self.spec_sign_z() == -1)
    }

    /// Whether the next step crosses an x boundary: the x crossing time
    /// is no later than both others, compared exactly by cross
    /// multiplication; an axis that never crosses never wins.
    pub open spec fn spec_steps_x(&self) -> bool {
        &&& self.spec_dens().0 > 0
        &&& (self.spec_dens().1 == 0 || self.spec_nums().0 * self.spec_dens().1
            <= self.spec_nums().1 * self.spec_dens().0)
        &&& (self.spec_dens().2 == 0 || self.spec_nums().0 * self.spec_dens().2
            <= self.spec_nums().2 * self.spec_dens().0)
    }

    /// Whether the next step crosses a y boundary: x does not win, and
    /// the y crossing time is no later than z's.
    pub open spec fn spec_steps_y(&self) -> bool {
        &&& !self.spec_steps_x()
        &&& self.spec_dens().1 > 0
        &&& (self.spec_dens().2 == 0 || self.spec_nums().1 * self.spec_dens().2
            <= self.spec_nums().2 * self.spec_dens().1)
    }

    /// Whether the next step crosses a z boundary: neither x nor y wins.
    pub open spec fn spec_steps_z(&self) -> bool {
        !self.spec_steps_x() && !self.spec_steps_y()
    }

    /// The last direction the ray crossed a boundary in.
    pub fn get_last_direction(&self) -> (r: VoxelAxis)
        ensures
            r == self.spec_last_direction(),
    {
        self.last_dir
    }

    pub closed spec fn spec_last_direction(&self) -> VoxelAxis {
        self.last_dir
    }

    /// Starts a raycast at a fixed-point origin along a fixed-point
    /// direction vector. At least one direction component must be
    /// nonzero.
    pub fn new(origin: (i64, i64, i64), direction: (i64, i64, i64)) -> (r: VoxelRaycast)
        requires
            -0x40_0000_0000 <= origin.0 <= 0x40_0000_0000,
            -0x40_0000_0000 <= origin.1 <= 0x40_0000_0000,
            -0x40_0000_0000 <= origin.2 <= 0x40_0000_0000,
            direction.0 != 0 || direction.1 != 0 || direction.2 != 0,
            -0x7fff_ffff_ffff_ffff <= direction.0 <= 0x7fff_ffff_ffff_ffff,
            -0x7fff_ffff_ffff_ffff <= direction.1 <= 0x7fff_ffff_ffff_ffff,
            -0x7fff_ffff_ffff_ffff <= direction.2 <= 0x7fff_ffff_ffff_ffff,
        ensures
            r.wf(),
            r.spec_pos().x == origin.0 / 256,
            r.spec_pos().y == origin.1 / 256,
            r.spec_pos().z == origin.2 / 256,
            -0x2_0000_0000 <= r.spec_pos().x <= 0x2_0000_0000,
            -0x2_0000_0000 <= r.spec_pos().y <= 0x2_0000_0000,
            -0x2_0000_0000 <= r.spec_pos().z <= 0x2_0000_0000,
            r.spec_nums().0 <= 512 && r.spec_nums().1 <= 512 && r.spec_nums().2 <= 512,
            r.spec_nums().0 >= 1 && r.spec_nums().1 >= 1 && r.spec_nums().2 >= 1,
            r.spec_dens() == (
                (if direction.0 >= 0 {
                    direction.0 as int
                } else {
                    -(direction.0 as int)
                }),
                (if direction.1 >= 0 {
                    direction.1 as int
                } else {
                    -(direction.1 as int)
                }),
                (if direction.2 >= 0 {
                    direction.2 as int
                } else {
                    -(direction.2 as int)
                }),
            ),
            direction.0 > 0 ==> r.spec_sign_x() == 1,
            direction.0 < 0 ==> r.spec_sign_x() == -1,
            direction.1 > 0 ==> r.spec_sign_y() == 1,
            direction.1 < 0 ==> r.spec_sign_y() == -1,
            direction.2 > 0 ==> r.spec_sign_z() == 1,
            direction.2 < 0 ==> r.spec_sign_z() == -1,
    {
        let px = fixed_to_block(origin.0);
        let py = fixed_to_block(origin.1);
        let pz = fixed_to_block(origin.2);
        let (sx, nx, dx) = axis_setup(origin.0, direction.0);
        let (sy, ny, dy) = axis_setup(origin.1, direction.1);
        let (sz, nz, dz) = axis_setup(origin.2, direction.2);
        VoxelRaycast {
            pos: VoxelPos { x: px, y: py, z: pz },
            sign_x: sx,
            sign_y: sy,
            sign_z: sz,
            num_x: nx,
            num_y: ny,
            num_z: nz,
            den_x: dx,
            den_y: dy,
            den_z: dz,
            last_dir: VoxelAxis::PosiX,
        }
    }

    /// Advances the ray one voxel along the axis whose next boundary
    /// crossing comes soonest, moving that coordinate one unit in the
    /// ray's fixed direction for that axis.
    pub fn step(&mut self)
        requires
            old(self).wf(),
            i32::MIN < old(self).spec_pos().x < i32::MAX,
            i32::MIN < old(self).spec_pos().y < i32::MAX,
            i32::MIN < old(self).spec_pos().z < i32::MAX,
            old(self).spec_nums().0 + 256 <= u64::MAX,
            old(self).spec_nums().1 + 256 <= u64::MAX,
            old(self).spec_nums().2 + 256 <= u64::MAX,
        ensures
            final(self).wf(),
            final(self).spec_sign_x() == old(self).spec_sign_x(),
            final(self).spec_sign_y() == old(self).spec_sign_y(),
            final(self).spec_sign_z() == old(self).spec_sign_z(),
            final(self).spec_dens() == old(self).spec_dens(),
            final(self).spec_nums().0 <= old(self).spec_nums().0 + 256,
            final(self).spec_nums().1 <= old(self).spec_nums().1 + 256,
            final(self).spec_nums().2 <= old(self).spec_nums().2 + 256,
            old(self).spec_steps_x() ==> final(self).spec_pos().x == old(self).spec_pos().x + old(self).spec_sign_x() && final(self).spec_pos().y == old(self).spec_pos().y && final(self).spec_pos().z == old(self).spec_pos().z && final(self).spec_nums() == (
                old(self).spec_nums().0 + 256,
                old(self).spec_nums().1,
                old(self).spec_nums().2,
            ) && final(self).spec_last_direction() == (if old(self).spec_sign_x() == 1 {
                VoxelAxis::PosiX
            } else {
                VoxelAxis::NegaX
            }),
            old(self).spec_steps_y() ==> final(self).spec_pos().y == old(self).spec_pos().y + old(self).spec_sign_y() && final(self).spec_pos().x == old(self).spec_pos().x && final(self).spec_pos().z == old(self).spec_pos().z && final(self).spec_nums() == (
                old(self).spec_nums().0,
                old(self).spec_nums().1 + 256,
                old(self).spec_nums().2,
            ) && final(self).spec_last_direction() == (if old(self).spec_sign_y() == 1 {
                VoxelAxis::PosiY
            } else {
                VoxelAxis::NegaY
            }),
            old(self).spec_steps_z() ==> final(self).spec_pos().z == old(self).spec_pos().z + old(self).spec_sign_z() && final(self).spec_pos().x == old(self).spec_pos().x && final(self).spec_pos().y == old(self).spec_pos().y && final(self).spec_nums() == (
                old(self).spec_nums().0,
                old(self).spec_nums().1,
                old(self).spec_nums().2 + 256,
            ) && final(self).spec_last_direction() == (if old(self).spec_sign_z() == 1 {
                VoxelAxis::PosiZ
            } else {
                VoxelAxis::NegaZ
            }),
            (final(self).spec_pos().x == old(self).spec_pos().x + old(self).spec_sign_x()
                && final(self).spec_pos().y == old(self).spec_pos().y && final(self).spec_pos().z
                == old(self).spec_pos().z) || (final(self).spec_pos().x == old(self).spec_pos().x
                && final(self).spec_pos().y == old(self).spec_pos().y + old(self).spec_sign_y()
                && final(self).spec_pos().z == old(self).spec_pos().z) || (final(self).spec_pos().x
                == old(self).spec_pos().x && final(self).spec_pos().y == old(self).spec_pos().y
                && final(self).spec_pos().z == old(self).spec_pos().z + old(self).spec_sign_z()),
    {
        proof {
            lemma_u64_product_fits(self.num_x as int, self.den_y as int);
            lemma_u64_product_fits(self.num_y as int, self.den_x as int);
            lemma_u64_product_fits(self.num_x as int, self.den_z as int);
            lemma_u64_product_fits(self.num_z as int, self.den_x as int);
            lemma_u64_product_fits(self.num_y as int, self.den_z as int);
            lemma_u64_product_fits(self.num_z as int, self.den_y as int);
        }
        let use_x = self.den_x > 0 && (self.den_y == 0 || (self.num_x as u128) * (self.den_y
            as u128) <= (self.num_y as u128) * (self.den_x as u128)) && (self.den_z == 0 || (
        self.num_x as u128) * (self.den_z as u128) <= (self.num_z as u128) * (self.den_x
            as u128));
        if use_x {
            self.pos.x = if self.sign_x >= 0 {
                self.pos.x + 1
            } else {
                self.pos.x - 1
            };
            self.num_x = self.num_x + 256;
            self.last_dir = if self.sign_x >= 0 {
                VoxelAxis::PosiX
            } else {
                VoxelAxis::NegaX
            };
            return ;
        }
        let use_y = self.den_y > 0 && (self.den_z == 0 || (self.num_y as u128) * (self.den_z
            as u128) <= (self.num_z as u128) * (self.den_y as u128));
        if use_y {
            self.pos.y = if self.sign_y >= 0 {
                self.pos.y + 1
            } else {
                self.pos.y - 1
            };
            self.num_y = self.num_y + 256;
            self.last_dir = if self.sign_y >= 0 {
                VoxelAxis::PosiY
            } else {
                VoxelAxis::NegaY
            };
            return ;
        }
        self.pos.z = if self.sign_z >= 0 {
            self.pos.z + 1
        } else {
            self.pos.z - 1
        };
        self.num_z = self.num_z + 256;
        self.last_dir = if self.sign_z >= 0 {
            VoxelAxis::PosiZ
        } else {
            VoxelAxis::NegaZ
        };
    }
}

/// The product of two machine-word values fits in a double word.
proof fn lemma_u64_product_fits(a: int, b: int)
    requires
        0 <= a <= 0xffff_ffff_ffff_ffff,
        0 <= b <= 0xffff_ffff_ffff_ffff,
    ensures
        0 <= a * b <= u128::MAX,
{
    assert(0 <= a * b && a * b <= 0xffff_ffff_ffff_ffff * 0xffff_ffff_ffff_ffff)
        by (nonlinear_arith)
        requires
            0 <= a <= 0xffff_ffff_ffff_ffff,
            0 <= b <= 0xffff_ffff_ffff_ffff,
    ;
}

/// The block coordinate containing a fixed-point world coordinate.
fn fixed_to_block(o: i64) -> (r: i32)
    requires
        -0x40_0000_0000 <= o <= 0x40_0000_0000,
    ensures
        r == o as int / 256,
        -0x2_0000_0000 <= r <= 0x2_0000_0000,
{
    proof {
        vstd::arithmetic::div_mod::lemma_fundamental_div_mod(o as int, 256);
        vstd::arithmetic::div_mod::lemma_mod_bound(o as int, 256);
        assert(-0x2_0000_0000 <= (o as int) / 256 <= 0x2_0000_0000) by (nonlinear_arith)
            requires
                -0x40_0000_0000 <= o as int <= 0x40_0000_0000,
                o as int == 256 * ((o as int) / 256) + (o as int) % 256,
                0 <= (o as int) % 256 < 256,
        ;
    }
    if o >= 0 {
        ((o as u64) / 256) as i32
    } else {
        let m: u64 = (-(o as i128)) as u64;
        let q: u64 = (m + 255) / 256;
        proof {
            lemma_fixed_neg_div(o as int, m as int, q as int);
        }
        (-(q as i128)) as i32
    }
}

/// Floor division by the fixed-point scale for negative coordinates.
proof fn lemma_fixed_neg_div(o: int, m: int, q: int)
    requires
        o < 0,
        m == -o,
        q == (m + 255) / 256,
    ensures
        o / 256 == -q,
        0 < q <= m,
{
    vstd::arithmetic::div_mod::lemma_fundamental_div_mod(o, 256);
    vstd::arithmetic::div_mod::lemma_mod_bound(o, 256);
    let q0 = o / 256;
    let r0 = o % 256;
    assert(m + 255 == 256 * (-q0) + (255 - r0)) by (nonlinear_arith)
        requires
            m == -o,
            o == 256 * q0 + r0,
    ;
    vstd::arithmetic::div_mod::lemma_fundamental_div_mod_converse_div(m + 255, 256, -q0, 255 - r0);
    assert(q0 < 0) by (nonlinear_arith)
        requires
            256 * q0 + r0 < 0,
            0 <= r0 < 256,
    ;
    assert(256 * q == m + r0) by (nonlinear_arith)
        requires
            q == -q0,
            m + 255 == 256 * (-q0) + (255 - r0),
    ;
    assert(q <= m) by (nonlinear_arith)
        requires
            m >= 1,
            256 * q == m + r0,
            0 <= r0 < 256,
    ;
}

/// The step sign, initial crossing-time numerator, and denominator for
/// one axis of a raycast.
fn axis_setup(o: i64, d: i64) -> (r: (i32, u64, u64))
    requires
        -0x40_0000_0000 <= o <= 0x40_0000_0000,
        -0x7fff_ffff_ffff_ffff <= d <= 0x7fff_ffff_ffff_ffff,
    ensures
        (r.0 == 1 || r.0 == -1),
        d > 0 ==> r.0 == 1,
        d < 0 ==> r.0 == -1,
        1 <= r.1 <= 512,
        r.2 == (if d >= 0 {
            d as int
        } else {
            -(d as int)
        }),
        d != 0 ==> r.2 > 0,
    {
    proof {
        vstd::arithmetic::div_mod::lemma_mod_bound(o as int, 256);
    }
    let rem: u64 = (((o as i128) % 256 + 256) % 256) as u64;
    if d > 0 {
        let num = if rem == 0 {
            256
        } else {
            256 - rem
        };
        (1, num, d as u64)
    } else if d < 0 {
        let num = if rem == 0 {
            256
        } else {
            rem
        };
        (-1, num, (-(d as i128)) as u64)
    } else {
        (1, 256, 0)
    }
}


} // verus!
