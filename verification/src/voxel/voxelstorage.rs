//! The storage abstraction every 3D voxel grid implements, together with
//! the error vocabulary shared by all implementers.

use vstd::prelude::*;

use crate::voxel::voxelmath::{StepCoord, VoxelPos, VoxelRange};

verus! {

/// Any type that can live in a voxel cell.
pub trait Voxel: Clone + core::fmt::Debug {

}

impl<T: Clone + core::fmt::Debug> Voxel for T {

}

/// The kind of a voxel access failure, without any payload.
#[derive(Clone, Copy, Debug, PartialEq, Eq, Structural)]
pub enum VoxelErrorKind {
    OutOfBounds,
    NotYetLoaded,
    SetInvalidValue,
    InvalidValueAt,
    Other,
}

/// An error reported upon trying to get or set a voxel.
#[derive(Clone, Copy, Debug, PartialEq, Eq, Structural)]
pub enum VoxelError {
    OutOfBounds,
    NotYetLoaded,
    SetInvalidValue,
    InvalidValueAt,
    Other,
}

impl VoxelError {
    /// The kind of this error.
    pub open spec fn spec_kind(&self) -> VoxelErrorKind {
        match self {
            VoxelError::OutOfBounds => VoxelErrorKind::OutOfBounds,
            VoxelError::NotYetLoaded => VoxelErrorKind::NotYetLoaded,
            VoxelError::SetInvalidValue => VoxelErrorKind::SetInvalidValue,
            VoxelError::InvalidValueAt => VoxelErrorKind::InvalidValueAt,
            VoxelError::Other => VoxelErrorKind::Other,
        }
    }

    pub fn kind(&self) -> (r: VoxelErrorKind)
        ensures
            r == self.spec_kind(),
    {
        match self {
            VoxelError::OutOfBounds => VoxelErrorKind::OutOfBounds,
            VoxelError::NotYetLoaded => VoxelErrorKind::NotYetLoaded,
            VoxelError::SetInvalidValue => VoxelErrorKind::SetInvalidValue,
            VoxelError::InvalidValueAt => VoxelErrorKind::InvalidValueAt,
            VoxelError::Other => VoxelErrorKind::Other,
        }
    }
}

/// A basic capability for any 3D grid data structure: get and set over
/// positions of coordinate type `P`, holding values of type `T`.
///
/// The logical contents are the partial map [`VoxelStorage::cells`]; a
/// position outside its domain cannot be read, and [`VoxelStorage::settable`]
/// says where a write succeeds.
pub trait VoxelStorage<T: Voxel, P: StepCoord>: Sized {
    /// The cells this storage currently defines.
    spec fn cells(&self) -> Map<(int, int, int), T>;

    /// Whether a set at this coordinate succeeds.
    spec fn settable(&self, p: (int, int, int)) -> bool;

    /// The error a failed get at this coordinate reports.
    spec fn get_error(&self, p: (int, int, int)) -> VoxelError;

    /// The error a failed set at this coordinate reports.
    spec fn set_error(&self, p: (int, int, int)) -> VoxelError;

    fn get(&self, coord: VoxelPos<P>) -> (r: Result<T, VoxelError>)
        ensures
            match r {
                Ok(v) => self.cells().dom().contains(coord.as_tuple()) && cloned(
                    self.cells()[coord.as_tuple()],
                    v,
                ),
                Err(e) => !self.cells().dom().contains(coord.as_tuple()) && e == self.get_error(
                    coord.as_tuple(),
                ),
            },
    ;

    fn set(&mut self, coord: VoxelPos<P>, value: T) -> (r: Result<(), VoxelError>)
        ensures
            match r {
                Ok(_) => old(self).settable(coord.as_tuple()) && final(self).cells() == old(
                    self,
                ).cells().insert(coord.as_tuple(), value),
                Err(e) => !old(self).settable(coord.as_tuple()) && e == old(self).set_error(
                    coord.as_tuple(),
                ) && final(self).cells() == old(self).cells(),
            },
            forall|p: (int, int, int)| final(self).settable(p) == old(self).settable(p),
            forall|p: (int, int, int)| final(self).get_error(p) == old(self).get_error(p),
            forall|p: (int, int, int)| final(self).set_error(p) == old(self).set_error(p),
    ;

}

/// The destination cell a source position lands on: the source position
/// relative to the source range's lower corner, offset by the
/// destination origin.
pub open spec fn blit_target(
    p: (int, int, int),
    lower: (int, int, int),
    origin: (int, int, int),
) -> (int, int, int) {
    (p.0 - lower.0 + origin.0, p.1 - lower.1 + origin.1, p.2 - lower.2 + origin.2)
}

/// Whether a destination cell lies in the image of the blit: inside the
/// source box shifted onto the destination origin.
pub open spec fn in_blit_image<P: StepCoord>(
    source_range: VoxelRange<P>,
    dest_origin: VoxelPos<P>,
    q: (int, int, int),
) -> bool {
    let lo = source_range.lower.as_tuple();
    let up = source_range.upper.as_tuple();
    let org = dest_origin.as_tuple();
    &&& org.0 <= q.0 < org.0 + (up.0 - lo.0)
    &&& org.1 <= q.1 < org.1 + (up.1 - lo.1)
    &&& org.2 <= q.2 < org.2 + (up.2 - lo.2)
}

/// The scan order of a blit: later z planes first differ, then rows,
/// then columns.
pub open spec fn blit_before(a: (int, int, int), b: (int, int, int)) -> bool {
    a.2 < b.2 || (a.2 == b.2 && (a.1 < b.1 || (a.1 == b.1 && a.0 < b.0)))
}

/// Copies every voxel in a source range into a destination storage,
/// shifted so the range's lower corner lands on the destination origin,
/// short-circuiting on the first error.
pub fn voxel_blit<T: Voxel, P: StepCoord, S1: VoxelStorage<T, P>, S2: VoxelStorage<T, P>>(
    source_range: VoxelRange<P>,
    source: &S1,
    dest_origin: VoxelPos<P>,
    dest: &mut S2,
) -> (r: Result<(), VoxelError>)
    requires
        dest_origin.x.as_int() + (source_range.upper.x.as_int() - source_range.lower.x.as_int())
            <= P::max_val(),
        dest_origin.y.as_int() + (source_range.upper.y.as_int() - source_range.lower.y.as_int())
            <= P::max_val(),
        dest_origin.z.as_int() + (source_range.upper.z.as_int() - source_range.lower.z.as_int())
            <= P::max_val(),
    ensures
        ({
            let lo = source_range.lower.as_tuple();
            let org = dest_origin.as_tuple();
            &&& (r is Ok) == (forall|p: (int, int, int)| #[trigger]
                source_range.contains_int(p) ==> source.cells().dom().contains(p) && old(dest).settable(blit_target(p, lo, org)))
            &&& (r is Ok ==> forall|p: (int, int, int)| #[trigger]
                source_range.contains_int(p) ==> final(dest).cells().dom().contains(
                    blit_target(p, lo, org),
                ) && cloned(source.cells()[p], final(dest).cells()[blit_target(p, lo, org)]))
            &&& forall|q: (int, int, int)|
                !(#[trigger] in_blit_image(source_range, dest_origin, q))
                    ==> final(dest).cells().dom().contains(q) == old(dest).cells().dom().contains(
                    q,
                ) && (old(dest).cells().dom().contains(q) ==> final(dest).cells()[q] == old(dest).cells()[q])
            &&& (r matches Err(e) ==> exists|p: (int, int, int)|
                {
                    &&& #[trigger] source_range.contains_int(p)
                    &&& !(source.cells().dom().contains(p) && old(dest).settable(
                        blit_target(p, lo, org),
                    ))
                    &&& e == (if !source.cells().dom().contains(p) {
                        source.get_error(p)
                    } else {
                        old(dest).set_error(blit_target(p, lo, org))
                    })
                    &&& forall|p2: (int, int, int)| #[trigger]
                        source_range.contains_int(p2) && blit_before(p2, p)
                            ==> source.cells().dom().contains(p2) && old(dest).settable(
                            blit_target(p2, lo, org),
                        ) && final(dest).cells().dom().contains(blit_target(p2, lo, org))
                            && cloned(
                            source.cells()[p2],
                            final(dest).cells()[blit_target(p2, lo, org)],
                        )
                    &&& forall|p2: (int, int, int)| #[trigger]
                        source_range.contains_int(p2) && !blit_before(p2, p) ==> final(dest).cells().dom().contains(blit_target(p2, lo, org)) == old(dest).cells().dom().contains(blit_target(p2, lo, org)) && (old(dest).cells().dom().contains(blit_target(p2, lo, org)) ==> final(dest).cells()[blit_target(p2, lo, org)] == old(dest).cells()[blit_target(
                            p2,
                            lo,
                            org,
                        )])
                })
        }),
        forall|q: (int, int, int)| #[trigger] final(dest).settable(q) == old(dest).settable(q),
        forall|q: (int, int, int)| #[trigger] final(dest).get_error(q) == old(dest).get_error(q),
        forall|q: (int, int, int)| #[trigger] final(dest).set_error(q) == old(dest).set_error(q),
{
    let ghost lo = source_range.lower.as_tuple();
    let ghost org = dest_origin.as_tuple();
    if !source_range.lower.x.coord_lt(&source_range.upper.x) || !source_range.lower.y.coord_lt(
        &source_range.upper.y,
    ) || !source_range.lower.z.coord_lt(&source_range.upper.z) {
        return Ok(());
    }
    proof {
        source_range.upper.x.bounds_ok();
        source_range.upper.y.bounds_ok();
        source_range.upper.z.bounds_ok();
        source_range.lower.x.bounds_ok();
        source_range.lower.y.bounds_ok();
        source_range.lower.z.bounds_ok();
        dest_origin.x.bounds_ok();
        dest_origin.y.bounds_ok();
        dest_origin.z.bounds_ok();
        P::type_range_fits();
    }
    let sx: usize = source_range.upper.x.diff_usize(&source_range.lower.x);
    let sy: usize = source_range.upper.y.diff_usize(&source_range.lower.y);
    let sz: usize = source_range.upper.z.diff_usize(&source_range.lower.z);
    let mut kz: usize = 0;
    while kz < sz
        invariant
            0 <= kz <= sz,
            sx == source_range.upper.x.as_int() - source_range.lower.x.as_int(),
            sy == source_range.upper.y.as_int() - source_range.lower.y.as_int(),
            sz == source_range.upper.z.as_int() - source_range.lower.z.as_int(),
            sx > 0 && sy > 0 && sz > 0,
            lo == source_range.lower.as_tuple(),
            org == dest_origin.as_tuple(),
            source_range.upper.x.as_int() <= P::max_val(),
            source_range.upper.y.as_int() <= P::max_val(),
            source_range.upper.z.as_int() <= P::max_val(),
            org.0 + sx <= P::max_val(),
            org.1 + sy <= P::max_val(),
            org.2 + sz <= P::max_val(),
            forall|q: (int, int, int)| #[trigger] dest.settable(q) == old(dest).settable(q),
            forall|q: (int, int, int)| #[trigger] dest.get_error(q) == old(dest).get_error(q),
            forall|q: (int, int, int)| #[trigger] dest.set_error(q) == old(dest).set_error(q),
            forall|q: (int, int, int)|
                !(#[trigger] in_blit_image(source_range, dest_origin, q))
                    ==> dest.cells().dom().contains(q) == old(dest).cells().dom().contains(q)
                    && (old(dest).cells().dom().contains(q) ==> dest.cells()[q] == old(dest).cells()[q]),
            forall|p: (int, int, int)| #[trigger]
                source_range.contains_int(p) && p.2 < lo.2 + kz ==> source.cells().dom().contains(
                    p,
                ) && old(dest).settable(blit_target(p, lo, org)) && dest.cells().dom().contains(
                    blit_target(p, lo, org),
                ) && cloned(source.cells()[p], dest.cells()[blit_target(p, lo, org)]),
            forall|p: (int, int, int)| #[trigger]
                source_range.contains_int(p) && p.2 >= lo.2 + kz ==> dest.cells().dom().contains(
                    blit_target(p, lo, org),
                ) == old(dest).cells().dom().contains(blit_target(p, lo, org)) && (old(dest).cells().dom().contains(blit_target(p, lo, org)) ==> dest.cells()[blit_target(
                    p,
                    lo,
                    org,
                )] == old(dest).cells()[blit_target(p, lo, org)]),
        decreases sz - kz,
    {
        let mut ky: usize = 0;
        while ky < sy
            invariant
                0 <= kz < sz,
                0 <= ky <= sy,
                sx == source_range.upper.x.as_int() - source_range.lower.x.as_int(),
                sy == source_range.upper.y.as_int() - source_range.lower.y.as_int(),
                sz == source_range.upper.z.as_int() - source_range.lower.z.as_int(),
                sx > 0 && sy > 0 && sz > 0,
                lo == source_range.lower.as_tuple(),
                org == dest_origin.as_tuple(),
                source_range.upper.x.as_int() <= P::max_val(),
                source_range.upper.y.as_int() <= P::max_val(),
                source_range.upper.z.as_int() <= P::max_val(),
                org.0 + sx <= P::max_val(),
                org.1 + sy <= P::max_val(),
                org.2 + sz <= P::max_val(),
                forall|q: (int, int, int)| #[trigger] dest.settable(q) == old(dest).settable(q),
                forall|q: (int, int, int)| #[trigger] dest.get_error(q) == old(dest).get_error(q),
                forall|q: (int, int, int)| #[trigger] dest.set_error(q) == old(dest).set_error(q),
                forall|q: (int, int, int)|
                !(#[trigger] in_blit_image(source_range, dest_origin, q))
                    ==> dest.cells().dom().contains(q) == old(dest).cells().dom().contains(q)
                    && (old(dest).cells().dom().contains(q) ==> dest.cells()[q] == old(dest).cells()[q]),
                forall|p: (int, int, int)| #[trigger]
                    source_range.contains_int(p) && (p.2 < lo.2 + kz || (p.2 == lo.2 + kz && p.1
                        < lo.1 + ky)) ==> source.cells().dom().contains(p) && old(dest).settable(
                        blit_target(p, lo, org),
                    ) && dest.cells().dom().contains(blit_target(p, lo, org)) && cloned(
                        source.cells()[p],
                        dest.cells()[blit_target(p, lo, org)],
                    ),
                forall|p: (int, int, int)| #[trigger]
                    source_range.contains_int(p) && (p.2 > lo.2 + kz || (p.2 == lo.2 + kz && p.1
                        >= lo.1 + ky)) ==> dest.cells().dom().contains(blit_target(p, lo, org))
                        == old(dest).cells().dom().contains(blit_target(p, lo, org)) && (old(dest).cells().dom().contains(blit_target(p, lo, org)) ==> dest.cells()[blit_target(
                        p,
                        lo,
                        org,
                    )] == old(dest).cells()[blit_target(p, lo, org)]),
            decreases sy - ky,
        {
            let mut kx: usize = 0;
            while kx < sx
                invariant
                    0 <= kz < sz,
                    0 <= ky < sy,
                    0 <= kx <= sx,
                    sx == source_range.upper.x.as_int() - source_range.lower.x.as_int(),
                    sy == source_range.upper.y.as_int() - source_range.lower.y.as_int(),
                    sz == source_range.upper.z.as_int() - source_range.lower.z.as_int(),
                    sx > 0 && sy > 0 && sz > 0,
                    lo == source_range.lower.as_tuple(),
                    org == dest_origin.as_tuple(),
                    source_range.upper.x.as_int() <= P::max_val(),
                    source_range.upper.y.as_int() <= P::max_val(),
                    source_range.upper.z.as_int() <= P::max_val(),
                    org.0 + sx <= P::max_val(),
                    org.1 + sy <= P::max_val(),
                    org.2 + sz <= P::max_val(),
                    forall|q: (int, int, int)| #[trigger] dest.settable(q) == old(dest).settable(q),
                    forall|q: (int, int, int)| #[trigger] dest.get_error(q) == old(dest).get_error(q),
                    forall|q: (int, int, int)| #[trigger] dest.set_error(q) == old(dest).set_error(q),
                    forall|q: (int, int, int)|
                !(#[trigger] in_blit_image(source_range, dest_origin, q))
                    ==> dest.cells().dom().contains(q) == old(dest).cells().dom().contains(q)
                    && (old(dest).cells().dom().contains(q) ==> dest.cells()[q] == old(dest).cells()[q]),
                    forall|p: (int, int, int)| #[trigger]
                        source_range.contains_int(p) && (p.2 < lo.2 + kz || (p.2 == lo.2 + kz && (
                        p.1 < lo.1 + ky || (p.1 == lo.1 + ky && p.0 < lo.0 + kx))))
                            ==> source.cells().dom().contains(p) && old(dest).settable(
                            blit_target(p, lo, org),
                        ) && dest.cells().dom().contains(blit_target(p, lo, org)) && cloned(
                            source.cells()[p],
                            dest.cells()[blit_target(p, lo, org)],
                        ),
                    forall|p: (int, int, int)| #[trigger]
                        source_range.contains_int(p) && (p.2 > lo.2 + kz || (p.2 == lo.2 + kz && (
                        p.1 > lo.1 + ky || (p.1 == lo.1 + ky && p.0 >= lo.0 + kx))))
                            ==> dest.cells().dom().contains(blit_target(p, lo, org)) == old(dest).cells().dom().contains(blit_target(p, lo, org)) && (old(dest).cells().dom().contains(blit_target(p, lo, org))
                            ==> dest.cells()[blit_target(p, lo, org)] == old(dest).cells()[blit_target(p, lo, org)]),
                decreases sx - kx,
            {
                let pos = VoxelPos {
                    x: source_range.lower.x.add_offset(kx),
                    y: source_range.lower.y.add_offset(ky),
                    z: source_range.lower.z.add_offset(kz),
                };
                let tpos = VoxelPos {
                    x: dest_origin.x.add_offset(kx),
                    y: dest_origin.y.add_offset(ky),
                    z: dest_origin.z.add_offset(kz),
                };
                proof {
                    assert(source_range.contains_int(pos.as_tuple()));
                    assert(blit_target(pos.as_tuple(), lo, org) == tpos.as_tuple());
                }
                let voxel = match source.get(pos) {
                    Ok(v) => v,
                    Err(e) => {
                        proof {
                            let ghost pt = pos.as_tuple();
                            assert(source_range.contains_int(pt));
                            assert(!source.cells().dom().contains(pt));
                            assert forall|p2: (int, int, int)| #[trigger]
                                source_range.contains_int(p2) && blit_before(p2, pt)
                                    implies source.cells().dom().contains(p2) && old(dest).settable(blit_target(p2, lo, org)) && dest.cells().dom().contains(
                                blit_target(p2, lo, org),
                            ) && cloned(
                                source.cells()[p2],
                                dest.cells()[blit_target(p2, lo, org)],
                            ) by {
                                assert(p2.2 < lo.2 + kz || (p2.2 == lo.2 + kz && (p2.1 < lo.1 + ky
                                    || (p2.1 == lo.1 + ky && p2.0 < lo.0 + kx))));
                            }
                            assert forall|p2: (int, int, int)| #[trigger]
                                source_range.contains_int(p2) && !blit_before(p2, pt)
                                    implies dest.cells().dom().contains(blit_target(p2, lo, org))
                                    == old(dest).cells().dom().contains(blit_target(p2, lo, org))
                                    && (old(dest).cells().dom().contains(blit_target(p2, lo, org))
                                    ==> dest.cells()[blit_target(p2, lo, org)] == old(dest).cells()[blit_target(p2, lo, org)]) by {
                                assert(p2.2 > lo.2 + kz || (p2.2 == lo.2 + kz && (p2.1 > lo.1 + ky
                                    || (p2.1 == lo.1 + ky && p2.0 >= lo.0 + kx))));
                            }
                        }
                        return Err(e);
                    },
                };
                match dest.set(tpos, voxel) {
                    Ok(_) => {
                        proof {
                            assert(in_blit_image(source_range, dest_origin, tpos.as_tuple()));
                        }
                    },
                    Err(e) => {
                        proof {
                            let ghost pt = pos.as_tuple();
                            assert(!old(dest).settable(tpos.as_tuple()));
                            assert(source_range.contains_int(pt));
                            assert(source.cells().dom().contains(pt));
                            assert(e == old(dest).set_error(blit_target(pt, lo, org)));
                            assert forall|p2: (int, int, int)| #[trigger]
                                source_range.contains_int(p2) && blit_before(p2, pt)
                                    implies source.cells().dom().contains(p2) && old(dest).settable(blit_target(p2, lo, org)) && dest.cells().dom().contains(
                                blit_target(p2, lo, org),
                            ) && cloned(
                                source.cells()[p2],
                                dest.cells()[blit_target(p2, lo, org)],
                            ) by {
                                assert(p2.2 < lo.2 + kz || (p2.2 == lo.2 + kz && (p2.1 < lo.1 + ky
                                    || (p2.1 == lo.1 + ky && p2.0 < lo.0 + kx))));
                            }
                            assert forall|p2: (int, int, int)| #[trigger]
                                source_range.contains_int(p2) && !blit_before(p2, pt)
                                    implies dest.cells().dom().contains(blit_target(p2, lo, org))
                                    == old(dest).cells().dom().contains(blit_target(p2, lo, org))
                                    && (old(dest).cells().dom().contains(blit_target(p2, lo, org))
                                    ==> dest.cells()[blit_target(p2, lo, org)] == old(dest).cells()[blit_target(p2, lo, org)]) by {
                                assert(p2.2 > lo.2 + kz || (p2.2 == lo.2 + kz && (p2.1 > lo.1 + ky
                                    || (p2.1 == lo.1 + ky && p2.0 >= lo.0 + kx))));
                            }
                        }
                        return Err(e);
                    },
                }
                kx = kx + 1;
            }
            ky = ky + 1;
        }
        kz = kz + 1;
    }
    Ok(())
}

/// A voxel storage with defined, finite bounds: every position within the
/// bounds holds a valid voxel.
pub trait VoxelStorageBounded<T: Voxel, P: StepCoord>: VoxelStorage<T, P> {
    /// The bounds of this storage.
    spec fn spec_bounds(&self) -> VoxelRange<P>;

    fn get_bounds(&self) -> (r: VoxelRange<P>)
        ensures
            r == self.spec_bounds(),
            forall|p: (int, int, int)| #[trigger] self.cells().dom().contains(p) == r.contains_int(
                p,
            ),
            forall|p: (int, int, int)| #[trigger] self.settable(p) == r.contains_int(p),
    ;
}

} // verus!
