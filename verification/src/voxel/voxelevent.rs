//! Serializable descriptions of world mutations: a closed union of event
//! kinds, each able to replay itself against any voxel storage.

use vstd::prelude::*;
use vstd::map::*;

use crate::voxel::voxelmath::{StepCoord, VoxelPos, VoxelRange};
use crate::voxel::voxelstorage::{Voxel, VoxelError, VoxelStorage};

verus! {

/// Sets a single voxel to a new value.
#[derive(Clone, Copy, Debug)]
pub struct OneVoxelChange<T, P> {
    pub new_value: T,
    pub pos: VoxelPos<P>,
}

/// Sets every voxel in a range to one value.
#[derive(Clone, Copy, Debug)]
pub struct SetVoxelRange<T, P> {
    pub new_value: T,
    pub range: VoxelRange<P>,
}

/// A change to the contents of a voxel storage, carrying everything needed
/// to replay the mutation without additional context.
#[derive(Clone, Copy, Debug)]
pub enum VoxelEvent<T, P> {
    SetOne(OneVoxelChange<T, P>),
    SetRange(SetVoxelRange<T, P>),
}

/// The capability of applying a change to any voxel storage.
///
/// Every event writes one value to a set of target positions; applying
/// succeeds exactly when every target accepts a write.
pub trait VoxelEventUntyped<T: Voxel, P: StepCoord>: Sized {
    /// The positions this event writes.
    spec fn targets(&self) -> Set<(int, int, int)>;

    /// The value this event writes to each target.
    spec fn source_value(&self) -> T;

    /// Applies this event to a storage.
    fn apply_blind<S: VoxelStorage<T, P>>(&self, stor: &mut S) -> (r: Result<(), VoxelError>)
        ensures
            (r is Ok) == (forall|p: (int, int, int)| #[trigger]
                self.targets().contains(p) ==> old(stor).settable(p)),
            r is Ok ==> forall|p: (int, int, int)| #[trigger]
                self.targets().contains(p) ==> final(stor).cells().dom().contains(p) && cloned(
                    self.source_value(),
                    final(stor).cells()[p],
                ),
            forall|p: (int, int, int)|
                !(#[trigger] self.targets().contains(p)) ==> final(stor).cells().dom().contains(p)
                    == old(stor).cells().dom().contains(p),
            forall|p: (int, int, int)|
                !(#[trigger] self.targets().contains(p)) && old(stor).cells().dom().contains(p)
                    ==> final(stor).cells()[p] == old(stor).cells()[p],
            r matches Err(err) ==> exists|p: (int, int, int)| #[trigger]
                self.targets().contains(p) && !old(stor).settable(p) && err == old(stor).set_error(
                    p,
                ),
            forall|p: (int, int, int)| #[trigger] final(stor).settable(p) == old(stor).settable(p),
            forall|p: (int, int, int)| #[trigger] final(stor).get_error(p) == old(stor).get_error(
                p,
            ),
            forall|p: (int, int, int)| #[trigger] final(stor).set_error(p) == old(stor).set_error(
                p,
            ),
            forall|p: (int, int, int)| #[trigger]
                self.targets().contains(p) && final(stor).cells().dom().contains(p) && old(stor).cells().dom().contains(p) ==> final(stor).cells()[p] == old(stor).cells()[p]
                    || cloned(self.source_value(), final(stor).cells()[p]),
            forall|p: (int, int, int)| #[trigger]
                self.targets().contains(p) && !old(stor).settable(p) ==> final(stor).cells().dom().contains(p) == old(stor).cells().dom().contains(p) && (old(stor).cells().dom().contains(p) ==> final(stor).cells()[p] == old(stor).cells()[p]),
    ;
}

/// Event idempotence: applying the same event twice in sequence leaves a
/// storage in the same final state as applying it once. Stated over the
/// cell views that event application is specified by: if one application
/// takes the cells from `c0` to `c1`, and a second application of the
/// same event takes them from `c1` to `c2`, the two end states are
/// equal.
pub proof fn lemma_apply_idempotent<T>(
    c0: Map<(int, int, int), T>,
    c1: Map<(int, int, int), T>,
    c2: Map<(int, int, int), T>,
    targets: Set<(int, int, int)>,
    v: T,
)
    requires
        forall|p: (int, int, int)| #[trigger]
            targets.contains(p) ==> c1.dom().contains(p) && c1[p] == v,
        forall|p: (int, int, int)|
            !(#[trigger] targets.contains(p)) ==> c1.dom().contains(p) == c0.dom().contains(p) && (
            c0.dom().contains(p) ==> c1[p] == c0[p]),
        forall|p: (int, int, int)| #[trigger]
            targets.contains(p) ==> c2.dom().contains(p) && c2[p] == v,
        forall|p: (int, int, int)|
            !(#[trigger] targets.contains(p)) ==> c2.dom().contains(p) == c1.dom().contains(p) && (
            c1.dom().contains(p) ==> c2[p] == c1[p]),
    ensures
        c2 == c1,
{
    assert_maps_equal!(c2, c1, p => {
        if targets.contains(p) {
        } else {
        }
    });
}

impl<T: Voxel, P: StepCoord> VoxelEventUntyped<T, P> for OneVoxelChange<T, P> {
    open spec fn targets(&self) -> Set<(int, int, int)> {
        Set::new(|p: (int, int, int)| p == self.pos.as_tuple())
    }

    open spec fn source_value(&self) -> T {
        self.new_value
    }

    fn apply_blind<S: VoxelStorage<T, P>>(&self, stor: &mut S) -> (r: Result<(), VoxelError>) {
        let r = stor.set(self.pos, self.new_value.clone());
        proof {
            assert(self.targets().contains(self.pos.as_tuple()));
            assert(forall|p: (int, int, int)| #[trigger]
                self.targets().contains(p) ==> p == self.pos.as_tuple());
        }
        r
    }
}

impl<T: Voxel, P: StepCoord> VoxelEventUntyped<T, P> for SetVoxelRange<T, P> {
    open spec fn targets(&self) -> Set<(int, int, int)> {
        Set::new(|p: (int, int, int)| self.range.contains_int(p))
    }

    open spec fn source_value(&self) -> T {
        self.new_value
    }

    fn apply_blind<S: VoxelStorage<T, P>>(&self, stor: &mut S) -> (r: Result<(), VoxelError>) {
        if !self.range.lower.x.coord_lt(&self.range.upper.x) || !self.range.lower.y.coord_lt(
            &self.range.upper.y,
        ) || !self.range.lower.z.coord_lt(&self.range.upper.z) {
            return Ok(());
        }
        proof {
            self.range.upper.x.bounds_ok();
            self.range.upper.y.bounds_ok();
            self.range.upper.z.bounds_ok();
            self.range.lower.x.bounds_ok();
            self.range.lower.y.bounds_ok();
            self.range.lower.z.bounds_ok();
            P::type_range_fits();
        }
        let sx: usize = self.range.upper.x.diff_usize(&self.range.lower.x);
        let sy: usize = self.range.upper.y.diff_usize(&self.range.lower.y);
        let sz: usize = self.range.upper.z.diff_usize(&self.range.lower.z);
        let mut kz: usize = 0;
        while kz < sz
            invariant
                0 <= kz <= sz,
                sx == self.range.upper.x.as_int() - self.range.lower.x.as_int(),
                sy == self.range.upper.y.as_int() - self.range.lower.y.as_int(),
                sz == self.range.upper.z.as_int() - self.range.lower.z.as_int(),
                sx > 0 && sy > 0 && sz > 0,
                self.range.upper.x.as_int() <= P::max_val(),
                self.range.upper.y.as_int() <= P::max_val(),
                self.range.upper.z.as_int() <= P::max_val(),
                forall|p: (int, int, int)| #[trigger] stor.settable(p) == old(stor).settable(p),
                forall|p: (int, int, int)| #[trigger] stor.get_error(p) == old(stor).get_error(p),
                forall|p: (int, int, int)| #[trigger] stor.set_error(p) == old(stor).set_error(p),
                forall|p: (int, int, int)|
                    !(#[trigger] self.targets().contains(p)) ==> stor.cells().dom().contains(p)
                        == old(stor).cells().dom().contains(p),
                forall|p: (int, int, int)|
                    !(#[trigger] self.targets().contains(p)) && old(stor).cells().dom().contains(p)
                        ==> stor.cells()[p] == old(stor).cells()[p],
                forall|p: (int, int, int)| #[trigger]
                    self.targets().contains(p) && p.2 < self.range.lower.z.as_int() + kz
                        ==> old(stor).settable(p) && stor.cells().dom().contains(p) && cloned(
                        self.source_value(),
                        stor.cells()[p],
                    ),
                forall|p: (int, int, int)| #[trigger]
                    self.targets().contains(p) && p.2 >= self.range.lower.z.as_int() + kz
                        ==> stor.cells().dom().contains(p) == old(stor).cells().dom().contains(p)
                        && (old(stor).cells().dom().contains(p) ==> stor.cells()[p] == old(stor).cells()[p]),
            decreases sz - kz,
        {
            let mut ky: usize = 0;
            while ky < sy
                invariant
                    0 <= kz < sz,
                    0 <= ky <= sy,
                    sx == self.range.upper.x.as_int() - self.range.lower.x.as_int(),
                    sy == self.range.upper.y.as_int() - self.range.lower.y.as_int(),
                    sz == self.range.upper.z.as_int() - self.range.lower.z.as_int(),
                    sx > 0 && sy > 0 && sz > 0,
                    self.range.upper.x.as_int() <= P::max_val(),
                    self.range.upper.y.as_int() <= P::max_val(),
                    self.range.upper.z.as_int() <= P::max_val(),
                    forall|p: (int, int, int)| #[trigger] stor.settable(p) == old(stor).settable(p),
                    forall|p: (int, int, int)| #[trigger] stor.get_error(p) == old(stor).get_error(
                        p,
                    ),
                    forall|p: (int, int, int)| #[trigger] stor.set_error(p) == old(stor).set_error(
                        p,
                    ),
                    forall|p: (int, int, int)|
                        !(#[trigger] self.targets().contains(p)) ==> stor.cells().dom().contains(p)
                            == old(stor).cells().dom().contains(p),
                    forall|p: (int, int, int)|
                        !(#[trigger] self.targets().contains(p)) && old(stor).cells().dom().contains(p) ==> stor.cells()[p] == old(stor).cells()[p],
                    forall|p: (int, int, int)| #[trigger]
                        self.targets().contains(p) && (p.2 < self.range.lower.z.as_int() + kz || (
                        p.2 == self.range.lower.z.as_int() + kz && p.1 < self.range.lower.y.as_int()
                            + ky)) ==> old(stor).settable(p) && stor.cells().dom().contains(p) && cloned(
                            self.source_value(),
                            stor.cells()[p],
                        ),
                    forall|p: (int, int, int)| #[trigger]
                        self.targets().contains(p) && (p.2 > self.range.lower.z.as_int() + kz || (
                        p.2 == self.range.lower.z.as_int() + kz && p.1
                            >= self.range.lower.y.as_int() + ky)) ==> stor.cells().dom().contains(
                            p,
                        ) == old(stor).cells().dom().contains(p) && (old(stor).cells().dom().contains(p) ==> stor.cells()[p] == old(stor).cells()[p]),
                decreases sy - ky,
            {
                let mut kx: usize = 0;
                while kx < sx
                    invariant
                        0 <= kz < sz,
                        0 <= ky < sy,
                        0 <= kx <= sx,
                        sx == self.range.upper.x.as_int() - self.range.lower.x.as_int(),
                        sy == self.range.upper.y.as_int() - self.range.lower.y.as_int(),
                        sz == self.range.upper.z.as_int() - self.range.lower.z.as_int(),
                        sx > 0 && sy > 0 && sz > 0,
                        self.range.upper.x.as_int() <= P::max_val(),
                        self.range.upper.y.as_int() <= P::max_val(),
                        self.range.upper.z.as_int() <= P::max_val(),
                        forall|p: (int, int, int)| #[trigger] stor.settable(p) == old(stor).settable(p),
                        forall|p: (int, int, int)| #[trigger] stor.get_error(p) == old(stor).get_error(p),
                        forall|p: (int, int, int)| #[trigger] stor.set_error(p) == old(stor).set_error(p),
                        forall|p: (int, int, int)|
                            !(#[trigger] self.targets().contains(p)) ==> stor.cells().dom().contains(
                                p,
                            ) == old(stor).cells().dom().contains(p),
                        forall|p: (int, int, int)|
                            !(#[trigger] self.targets().contains(p)) && old(stor).cells().dom().contains(p) ==> stor.cells()[p] == old(stor).cells()[p],
                        forall|p: (int, int, int)| #[trigger]
                            self.targets().contains(p) && (p.2 < self.range.lower.z.as_int() + kz
                                || (p.2 == self.range.lower.z.as_int() + kz && (p.1
                                < self.range.lower.y.as_int() + ky || (p.1
                                == self.range.lower.y.as_int() + ky && p.0
                                < self.range.lower.x.as_int() + kx)))) ==> old(stor).settable(p) && stor.cells().dom().contains(
                                p,
                            ) && cloned(self.source_value(), stor.cells()[p]),
                        forall|p: (int, int, int)| #[trigger]
                            self.targets().contains(p) && (p.2 > self.range.lower.z.as_int() + kz
                                || (p.2 == self.range.lower.z.as_int() + kz && (p.1
                                > self.range.lower.y.as_int() + ky || (p.1
                                == self.range.lower.y.as_int() + ky && p.0
                                >= self.range.lower.x.as_int() + kx)))) ==> stor.cells().dom().contains(
                                p,
                            ) == old(stor).cells().dom().contains(p) && (old(stor).cells().dom().contains(p) ==> stor.cells()[p] == old(stor).cells()[p]),
                    decreases sx - kx,
                {
                    let pos = VoxelPos {
                        x: self.range.lower.x.add_offset(kx),
                        y: self.range.lower.y.add_offset(ky),
                        z: self.range.lower.z.add_offset(kz),
                    };
                    let r = stor.set(pos, self.new_value.clone());
                    if let Err(e) = r {
                        proof {
                            assert(self.targets().contains(pos.as_tuple()));
                            assert(!old(stor).settable(pos.as_tuple()));
                        }
                        return Err(e);
                    }
                    kx = kx + 1;
                }
                ky = ky + 1;
            }
            kz = kz + 1;
        }
        Ok(())
    }
}

impl<T: Voxel, P: StepCoord> VoxelEventUntyped<T, P> for VoxelEvent<T, P> {
    open spec fn targets(&self) -> Set<(int, int, int)> {
        match self {
            VoxelEvent::SetOne(c) => c.targets(),
            VoxelEvent::SetRange(r) => r.targets(),
        }
    }

    open spec fn source_value(&self) -> T {
        match self {
            VoxelEvent::SetOne(c) => c.source_value(),
            VoxelEvent::SetRange(r) => r.source_value(),
        }
    }

    fn apply_blind<S: VoxelStorage<T, P>>(&self, stor: &mut S) -> (r: Result<(), VoxelError>) {
        match self {
            VoxelEvent::SetOne(c) => {
                proof {
                    assert(self.targets() == c.targets());
                    assert(self.source_value() == c.source_value());
                }
                c.apply_blind(stor)
            },
            VoxelEvent::SetRange(rg) => {
                proof {
                    assert(self.targets() == rg.targets());
                    assert(self.source_value() == rg.source_value());
                }
                rg.apply_blind(stor)
            },
        }
    }
}

} // verus!
