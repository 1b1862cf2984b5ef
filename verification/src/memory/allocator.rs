//! The virtual block allocator. It does not manage actual memory: it only
//! keeps track of which regions of some area are allocated, in whatever
//! units the user wants.

use vstd::prelude::*;
use vstd::set_lib::lemma_int_range;
use vstd::set_lib::lemma_len_subset;

verus! {

/// ID corresponding to an allocated block.
#[derive(Clone, Copy, Debug, PartialEq, Eq, Hash, Structural)]
pub struct BlockId(pub usize);

/// Rounds a value up to the next multiple of `align`; an alignment of
/// zero or less leaves the value alone.
pub open spec fn spec_round_up(e: int, align: int) -> int {
    if align <= 0 {
        e
    } else {
        ((e + align - 1) / align) * align
    }
}

/// Rounds a value up to the next multiple of a positive alignment.
fn round_up_to(e: usize, align: usize) -> (r: usize)
    requires
        align >= 1,
        e + align <= usize::MAX,
    ensures
        r == spec_round_up(e as int, align as int),
        e <= r < e + align,
        (r as int) % (align as int) == 0,
{
    proof {
        let x = e + align - 1;
        let a = align as int;
        vstd::arithmetic::div_mod::lemma_fundamental_div_mod(x as int, a);
        vstd::arithmetic::div_mod::lemma_mod_bound(x as int, a);
        vstd::arithmetic::div_mod::lemma_div_pos_is_pos(x as int, a);
        vstd::arithmetic::div_mod::lemma_mod_multiples_basic((x as int) / a, a);
        assert(a * ((x as int) / a) == ((x as int) / a) * a) by (nonlinear_arith);
    }
    ((e + (align - 1)) / align) * align
}

/// Virtual block allocator.
///
/// Tracks allocated ranges inside one area of a declared total size,
/// handing out incrementing integer ids and finding space first-fit over
/// the gaps between allocation ends (padded to the requested alignment)
/// and allocation starts or the area boundary.
#[derive(Debug)]
pub struct BlockAllocator {
    size: usize,
    allocs: Vec<(usize, usize, usize)>,
}

impl BlockAllocator {
    /// The total size of the managed area.
    pub closed spec fn total_size(&self) -> int {
        self.size as int
    }

    /// The recorded allocations, in storage order: id, start, end.
    pub closed spec fn entries(&self) -> Seq<(int, int, int)> {
        Seq::new(
            self.allocs@.len(),
            |k: int|
                (self.allocs@[k].0 as int, self.allocs@[k].1 as int, self.allocs@[k].2 as int),
        )
    }

    /// Whether an id is currently in use.
    pub open spec fn id_used(&self, id: int) -> bool {
        exists|k: int| 0 <= k < self.entries().len() && (#[trigger] self.entries()[k]).0 == id
    }

    /// Ids are positive and unique; ranges lie inside the area and are
    /// pairwise disjoint.
    #[verifier::type_invariant]
    spec fn wf(&self) -> bool {
        &&& forall|k: int|
            0 <= k < self.entries().len() ==> {
                let t = #[trigger] self.entries()[k];
                1 <= t.0 && 0 <= t.1 <= t.2 <= self.total_size()
            }
        &&& forall|k1: int, k2: int|
            0 <= k1 < k2 < self.entries().len() ==> (#[trigger] self.entries()[k1]).0 != (
            #[trigger] self.entries()[k2]).0
        &&& forall|k1: int, k2: int|
            0 <= k1 < self.entries().len() && 0 <= k2 < self.entries().len() && k1 != k2 ==> {
                let a = #[trigger] self.entries()[k1];
                let b = #[trigger] self.entries()[k2];
                a.2 <= b.1 || b.2 <= a.1 || a.1 == a.2 || b.1 == b.2
            }
    }

    /// The candidate offsets a request with this alignment will try, in
    /// order: zero, then every allocation's end rounded up to the
    /// alignment, in storage order.
    pub open spec fn candidates(&self, align: int) -> Seq<int> {
        seq![0].add(self.entries().map_values(|t: (int, int, int)| spec_round_up(t.2, align)))
    }

    /// Whether a block of `size` placed at offset `e` stays inside the
    /// area, leaves every allocation start at or past `e` a full `size`
    /// away, and does not start inside an existing allocation.
    pub open spec fn fits_at(&self, e: int, size: int) -> bool {
        &&& e + size <= self.total_size()
        &&& 0 <= e
        &&& forall|k: int|
            0 <= k < self.entries().len() ==> {
                let t = #[trigger] self.entries()[k];
                &&& (t.1 >= e ==> t.1 - e >= size)
                &&& !(t.1 < e < t.2)
            }
    }

    /// Creates a new allocator to manage an area of the given size. Since
    /// it does not actually manage memory, the size is in whatever units
    /// the caller wants.
    pub fn new(size: usize) -> (r: BlockAllocator)
        ensures
            r.total_size() == size,
            r.entries().len() == 0,
    {
        BlockAllocator { size, allocs: Vec::new() }
    }

    /// Returns the first unused block id, scanning upward from one.
    pub fn get_first_free_id(&self) -> (r: BlockId)
        requires
            self.entries().len() < usize::MAX,
        ensures
            r.0 >= 1,
            !self.id_used(r.0 as int),
            forall|k: int| 1 <= k < r.0 ==> self.id_used(k),
    {
        proof {
            use_type_invariant(self);
        }
        let mut id: usize = 1;
        loop
            invariant
                1 <= id <= self.entries().len() + 1,
                forall|k: int| 1 <= k < id ==> self.id_used(k),
                self.entries().len() < usize::MAX,
                self.wf(),
            ensures
                id >= 1,
                !self.id_used(id as int),
                forall|k: int| 1 <= k < id ==> self.id_used(k),
            decreases self.entries().len() + 1 - id,
        {
            if !self.contains_id(id) {
                return BlockId(id);
            }
            proof {
                self.lemma_used_prefix_bound(id as int + 1);
            }
            id = id + 1;
        }
    }

    /// Returns the first unused block id.
    pub fn get_next_free_id(&self) -> (r: BlockId)
        requires
            self.entries().len() < usize::MAX,
        ensures
            r.0 >= 1,
            !self.id_used(r.0 as int),
            forall|k: int| 1 <= k < r.0 ==> self.id_used(k),
    {
        self.get_first_free_id()
    }

    /// Whether the given id is recorded.
    fn contains_id(&self, id: usize) -> (r: bool)
        ensures
            r == self.id_used(id as int),
    {
        let mut k: usize = 0;
        while k < self.allocs.len()
            invariant
                k <= self.entries().len(),
                self.entries().len() == self.allocs@.len(),
                forall|j: int| 0 <= j < k ==> (#[trigger] self.entries()[j]).0 != id,
            decreases self.allocs@.len() - k,
        {
            if self.allocs[k].0 == id {
                proof {
                    assert((self.entries()[k as int]).0 == id as int);
                }
                return true;
            }
            k = k + 1;
        }
        false
    }

    /// If every id below `id` is used and ids are unique, there are at
    /// least `id - 1` entries.
    proof fn lemma_used_prefix_bound(&self, id: int)
        requires
            self.wf(),
            id >= 1,
            forall|k: int| 1 <= k < id ==> self.id_used(k),
        ensures
            id - 1 <= self.entries().len(),
    {
        broadcast use vstd::seq_lib::seq_to_set_is_finite;

        let ids = self.entries().map_values(|t: (int, int, int)| t.0);
        let low = vstd::set_lib::set_int_range(1, id);
        lemma_int_range(1, id);
        assert(ids.to_set().finite());
        assert forall|k: int| low.contains(k) implies ids.to_set().contains(k) by {
            assert(self.id_used(k));
            let j = choose|j: int|
                0 <= j < self.entries().len() && (#[trigger] self.entries()[j]).0 == k;
            assert(ids[j] == k);
            assert(ids.contains(k));
        }
        lemma_len_subset(low, ids.to_set());
        ids.lemma_cardinality_of_set();
    }

    /// Allocates a new region first-fit and returns its id and offset, or
    /// absent when no gap is big enough.
    pub fn allocate(&mut self, size: usize, alignment: usize) -> (r: Option<(BlockId, usize)>)
        requires
            old(self).total_size() + alignment <= usize::MAX,
            old(self).entries().len() < usize::MAX - 1,
        ensures
            match r {
                Some((id, off)) => {
                    &&& exists|ci: int|
                        {
                            &&& 0 <= ci < old(self).candidates(alignment as int).len()
                            &&& #[trigger] old(self).candidates(alignment as int)[ci] == off
                            &&& old(self).fits_at(off as int, size as int)
                            &&& forall|cj: int|
                                0 <= cj < ci ==> !old(self).fits_at(
                                    #[trigger] old(self).candidates(alignment as int)[cj],
                                    size as int,
                                )
                        }
                    &&& id.0 >= 1
                    &&& !old(self).id_used(id.0 as int)
                    &&& forall|k: int| 1 <= k < id.0 ==> old(self).id_used(k)
                    &&& final(self).entries() == old(self).entries().push(
                        (id.0 as int, off as int, off + size),
                    )
                    &&& final(self).total_size() == old(self).total_size()
                },
                None => {
                    &&& forall|ci: int|
                        0 <= ci < old(self).candidates(alignment as int).len() ==> !old(
                            self,
                        ).fits_at(
                            #[trigger] old(self).candidates(alignment as int)[ci],
                            size as int,
                        )
                    &&& *final(self) == *old(self)
                },
            },
    {
        proof {
            use_type_invariant(&*self);
        }
        let ghost cands = self.candidates(alignment as int);
        let n_cands = self.allocs.len() + 1;
        let mut ci: usize = 0;
        while ci < n_cands
            invariant
                n_cands == self.entries().len() + 1,
                n_cands == cands.len(),
                cands == self.candidates(alignment as int),
                0 <= ci <= n_cands,
                self.wf(),
                self.total_size() + alignment <= usize::MAX,
                self.entries().len() < usize::MAX - 1,
                forall|cj: int| 0 <= cj < ci ==> !self.fits_at(#[trigger] cands[cj], size as int),
                *self == *old(self),
            decreases n_cands - ci,
        {
            let e: usize = if ci == 0 {
                0
            } else {
                let end = self.allocs[ci - 1].2;
                proof {
                    assert((self.entries()[ci - 1]).2 == end as int);
                    assert(end <= self.total_size());
                }
                if alignment == 0 {
                    end
                } else {
                    round_up_to(end, alignment)
                }
            };
            proof {
                assert(e as int == cands[ci as int]);
            }
            if self.fits(e, size) {
                let id = self.get_first_free_id();
                let ghost pre = *self;
                let mut table: Vec<(usize, usize, usize)> = Vec::new();
                std::mem::swap(&mut table, &mut self.allocs);
                table.push((id.0, e, e + size));
                proof {
                    let n = table@.len();
                    assert(pre.fits_at(e as int, size as int));
                    assert forall|j: int| 0 <= j < n - 1 implies (table@[j].0 as int,
                    table@[j].1 as int, table@[j].2 as int) == #[trigger] pre.entries()[j] by {}
                    assert forall|j: int| 0 <= j < n implies (1 <= table@[j].0 && table@[j].1
                        <= table@[j].2 && table@[j].2 <= pre.total_size()) by {
                        if j < n - 1 {
                            assert((table@[j].0 as int, table@[j].1 as int, table@[j].2 as int)
                                == pre.entries()[j]);
                        }
                    }
                    assert forall|k1: int, k2: int| 0 <= k1 < k2 < n implies table@[k1].0
                        != table@[k2].0 by {
                        if k2 == n - 1 {
                            if table@[k1].0 == id.0 {
                                assert(pre.entries()[k1].0 == id.0 as int);
                                assert(pre.id_used(id.0 as int));
                            }
                        } else {
                            assert(pre.entries()[k1].0 != pre.entries()[k2].0);
                        }
                    }
                    assert forall|k1: int, k2: int|
                        0 <= k1 < n && 0 <= k2 < n && k1 != k2 implies (table@[k1].2 <= table@[k2].1
                        || table@[k2].2 <= table@[k1].1 || table@[k1].1 == table@[k1].2
                        || table@[k2].1 == table@[k2].2) by {
                        if k1 < n - 1 && k2 < n - 1 {
                            assert(pre.entries()[k1].2 <= pre.entries()[k2].1 || pre.entries()[k2].2
                                <= pre.entries()[k1].1 || pre.entries()[k1].1 == pre.entries()[k1].2
                                || pre.entries()[k2].1 == pre.entries()[k2].2);
                        } else if k2 == n - 1 {
                            let t = pre.entries()[k1];
                            assert((t.1 >= e ==> t.1 - e >= size) && !(t.1 < e < t.2));
                        } else {
                            let t = pre.entries()[k2];
                            assert((t.1 >= e ==> t.1 - e >= size) && !(t.1 < e < t.2));
                        }
                    }
                }
                self.allocs = table;
                proof {
                    assert(self.entries() =~= old(self).entries().push(
                        (id.0 as int, e as int, e + size),
                    ));
                }
                return Some((id, e));
            }
            ci = ci + 1;
        }
        None
    }

    /// Whether a block of `size` at offset `e` fits.
    fn fits(&self, e: usize, size: usize) -> (r: bool)
        ensures
            r == self.fits_at(e as int, size as int),
    {
        if e > self.size || size > self.size - e {
            return false;
        }
        let mut k: usize = 0;
        while k < self.allocs.len()
            invariant
                k <= self.entries().len(),
                self.entries().len() == self.allocs@.len(),
                e + size <= self.total_size(),
                forall|j: int|
                    0 <= j < k ==> {
                        let t = #[trigger] self.entries()[j];
                        &&& (t.1 >= e ==> t.1 - e >= size)
                        &&& !(t.1 < e < t.2)
                    },
            decreases self.allocs@.len() - k,
        {
            let (_, s, en) = self.allocs[k];
            proof {
                assert((self.entries()[k as int]).1 == s as int && (self.entries()[k as int]).2
                    == en as int);
            }
            if s >= e {
                if s - e < size {
                    return false;
                }
            } else {
                if en > e {
                    return false;
                }
            }
            k = k + 1;
        }
        true
    }

    /// Frees the block with the given id, making its range available
    /// again. An id that is not in use is left alone.
    pub fn free(&mut self, ptr: &BlockId)
        ensures
            final(self).total_size() == old(self).total_size(),
            !final(self).id_used(ptr.0 as int),
            old(self).id_used(ptr.0 as int) ==> exists|k: int|
                0 <= k < old(self).entries().len() && (#[trigger] old(self).entries()[k]).0
                    == ptr.0 && final(self).entries() == old(self).entries().remove(k),
            !old(self).id_used(ptr.0 as int) ==> *final(self) == *old(self),
    {
        proof {
            use_type_invariant(&*self);
        }
        let mut k: usize = 0;
        while k < self.allocs.len()
            invariant
                k <= self.entries().len(),
                self.entries().len() == self.allocs@.len(),
                self.wf(),
                *self == *old(self),
                forall|j: int| 0 <= j < k ==> (#[trigger] self.entries()[j]).0 != ptr.0,
            decreases self.allocs@.len() - k,
        {
            if self.allocs[k].0 == ptr.0 {
                proof {
                    assert((self.entries()[k as int]).0 == ptr.0 as int);
                }
                let ghost pre = *self;
                let mut table: Vec<(usize, usize, usize)> = Vec::new();
                std::mem::swap(&mut table, &mut self.allocs);
                table.remove(k);
                proof {
                    assert forall|j: int| 0 <= j < table@.len() implies (table@[j].0 as int,
                    table@[j].1 as int, table@[j].2 as int) == (if j < k {
                        pre.entries()[j]
                    } else {
                        pre.entries()[j + 1]
                    }) by {}
                }
                self.allocs = table;
                proof {
                    assert(self.entries() =~= old(self).entries().remove(k as int));
                    assert forall|j: int|
                        0 <= j < self.entries().len() implies (#[trigger] self.entries()[j]).0
                        != ptr.0 by {
                        if j < k {
                            assert(self.entries()[j] == old(self).entries()[j]);
                        } else {
                            assert(self.entries()[j] == old(self).entries()[j + 1]);
                            assert(old(self).entries()[j + 1].0 != old(self).entries()[
                                k as int].0);
                        }
                    }
                }
                return ;
            }
            k = k + 1;
        }
    }
}

} // verus!
