//! The pooled GPU memory model: fixed-size physical chunks, each parceled
//! out by its own block allocator, with new chunks created only when no
//! existing chunk has a big enough gap.

use vstd::prelude::*;
use vstd::set_lib::lemma_int_range;
use vstd::set_lib::lemma_len_subset;

use crate::memory::allocator::{BlockAllocator, BlockId};

verus! {

/// Size of one physical memory chunk, in bytes.
pub const AUTO_POOL_CHUNK_SIZE: usize = 1024 * 1024 * 64;

/// One allocation handed out by the pool: which chunk it lives in, its
/// block id within that chunk's allocator, and its byte range.
#[derive(Debug, Clone, Copy, PartialEq, Eq, Structural)]
pub struct AutoMemoryPoolBlock {
    pub chunk_id: usize,
    pub block_id: BlockId,
    pub offset: usize,
    pub size: usize,
}

impl AutoMemoryPoolBlock {
    /// The size of this allocation.
    pub fn size(&self) -> (r: usize)
        ensures
            r == self.size,
    {
        self.size
    }
}

/// Whether an allocator has any candidate gap big enough for a request.
pub open spec fn has_fit(a: BlockAllocator, size: int, align: int) -> bool {
    exists|ci: int|
        0 <= ci < a.candidates(align).len() && a.fits_at(#[trigger] a.candidates(align)[ci], size)
}

/// What freeing one block id does to an allocator: the id's entry, if
/// present, is removed and everything else is untouched.
pub open spec fn free_post(pre: BlockAllocator, post: BlockAllocator, id: int) -> bool {
    &&& post.total_size() == pre.total_size()
    &&& !post.id_used(id)
    &&& (pre.id_used(id) ==> exists|k: int|
        0 <= k < pre.entries().len() && (#[trigger] pre.entries()[k]).0 == id && post.entries()
            == pre.entries().remove(k))
    &&& (!pre.id_used(id) ==> post == pre)
}

/// Allocator managing a pool of fixed-size memory chunks: allocation
/// requests try every existing chunk first-fit and a fresh chunk is
/// created when none has room.
#[verifier::ext_equal]
pub struct PoolAllocator {
    chunks: Vec<(usize, BlockAllocator)>,
}

impl PoolAllocator {
    /// The chunk ids in creation order.
    pub closed spec fn chunk_ids(&self) -> Seq<int> {
        Seq::new(self.chunks@.len(), |k: int| self.chunks@[k].0 as int)
    }

    /// The block allocator of the chunk at a storage index.
    pub closed spec fn allocator_at(&self, k: int) -> BlockAllocator {
        self.chunks@[k].1
    }

    /// Whether a chunk id exists in this pool.
    pub open spec fn has_chunk(&self, chunk_id: int) -> bool {
        exists|k: int| 0 <= k < self.chunk_ids().len() && #[trigger] self.chunk_ids()[k] == chunk_id
    }

    /// Chunk ids are positive and unique, and every chunk allocator
    /// manages exactly one chunk's worth of bytes.
    #[verifier::type_invariant]
    spec fn wf(&self) -> bool {
        &&& forall|k1: int, k2: int|
            0 <= k1 < k2 < self.chunk_ids().len() ==> self.chunk_ids()[k1] != self.chunk_ids()[k2]
        &&& forall|k: int|
            0 <= k < self.chunk_ids().len() ==> #[trigger] self.chunk_ids()[k] >= 1
        &&& forall|k: int|
            0 <= k < self.chunk_ids().len() ==> (#[trigger] self.allocator_at(k)).total_size()
                == AUTO_POOL_CHUNK_SIZE
    }

    /// A pool with no chunks yet.
    pub fn new() -> (r: PoolAllocator)
        ensures
            r.chunk_ids().len() == 0,
    {
        PoolAllocator { chunks: Vec::new() }
    }

    /// Whether a certain chunk id exists in this pool.
    pub fn contains_chunk(&self, chunk_id: usize) -> (r: bool)
        ensures
            r == self.has_chunk(chunk_id as int),
    {
        let mut k: usize = 0;
        while k < self.chunks.len()
            invariant
                k <= self.chunk_ids().len(),
                self.chunk_ids().len() == self.chunks@.len(),
                forall|j: int| 0 <= j < k ==> #[trigger] self.chunk_ids()[j] != chunk_id,
            decreases self.chunks@.len() - k,
        {
            if self.chunks[k].0 == chunk_id {
                proof {
                    assert(self.chunk_ids()[k as int] == chunk_id);
                }
                return true;
            }
            k = k + 1;
        }
        false
    }

    /// The first unused chunk id, scanning upward from one.
    fn first_free_chunk_id(&self) -> (r: usize)
        requires
            self.chunk_ids().len() < usize::MAX,
        ensures
            r >= 1,
            !self.has_chunk(r as int),
            forall|c: int| 1 <= c < r ==> self.has_chunk(c),
    {
        proof {
            use_type_invariant(self);
        }
        let mut id: usize = 1;
        loop
            invariant
                1 <= id <= self.chunk_ids().len() + 1,
                forall|k: int| 1 <= k < id ==> self.has_chunk(k),
                self.chunk_ids().len() < usize::MAX,
                self.wf(),
            ensures
                id >= 1,
                !self.has_chunk(id as int),
            decreases self.chunk_ids().len() + 1 - id,
        {
            if !self.contains_chunk(id) {
                return id;
            }
            proof {
                self.lemma_chunk_prefix_bound(id as int + 1);
            }
            id = id + 1;
        }
    }

    /// If every chunk id below `id` exists and ids are unique, there are
    /// at least `id - 1` chunks.
    proof fn lemma_chunk_prefix_bound(&self, id: int)
        requires
            self.wf(),
            id >= 1,
            forall|k: int| 1 <= k < id ==> self.has_chunk(k),
        ensures
            id - 1 <= self.chunk_ids().len(),
    {
        broadcast use vstd::seq_lib::seq_to_set_is_finite;

        let ids = self.chunk_ids();
        let low = vstd::set_lib::set_int_range(1, id);
        lemma_int_range(1, id);
        assert(ids.to_set().finite());
        assert forall|k: int| low.contains(k) implies ids.to_set().contains(k) by {
            assert(self.has_chunk(k));
            let j = choose|j: int|
                0 <= j < self.chunk_ids().len() && #[trigger] self.chunk_ids()[j] == k;
            assert(ids[j] == k);
            assert(ids.contains(k));
        }
        lemma_len_subset(low, ids.to_set());
        ids.lemma_cardinality_of_set();
    }

    /// Allocates a block: the first existing chunk with room serves it,
    /// and otherwise a fresh chunk is created and serves it from offset
    /// zero upward. A single request can never exceed the fixed chunk
    /// size.
    pub fn allocate(&mut self, size: usize, alignment: usize) -> (r: AutoMemoryPoolBlock)
        requires
            size <= AUTO_POOL_CHUNK_SIZE,
            AUTO_POOL_CHUNK_SIZE + alignment <= usize::MAX,
            old(self).chunk_ids().len() < usize::MAX - 1,
            forall|k: int|
                0 <= k < old(self).chunk_ids().len() ==> (#[trigger] old(self).allocator_at(
                    k,
                )).entries().len() < usize::MAX - 1,
        ensures
            r.chunk_id >= 1,
            r.block_id.0 >= 1,
            r.size == size,
            r.offset + size <= AUTO_POOL_CHUNK_SIZE,
            final(self).has_chunk(r.chunk_id as int),
            final(self).chunk_ids().len() >= old(self).chunk_ids().len(),
            final(self).chunk_ids().len() <= old(self).chunk_ids().len() + 1,
            final(self).chunk_ids().len() == old(self).chunk_ids().len() ==> exists|j: int|
                0 <= j < old(self).chunk_ids().len() && #[trigger] old(self).chunk_ids()[j]
                    == r.chunk_id && final(self).chunk_ids() == old(self).chunk_ids() && (forall|
                    i: int,
                |
                    0 <= i < old(self).chunk_ids().len() && i != j ==> #[trigger] final(self).allocator_at(i) == old(self).allocator_at(i)) && final(self).allocator_at(
                    j,
                ).entries() == old(self).allocator_at(j).entries().push(
                    (r.block_id.0 as int, r.offset as int, r.offset + size),
                ) && has_fit(old(self).allocator_at(j), size as int, alignment as int) && (forall|
                    i: int,
                |
                    0 <= i < j ==> !has_fit(
                        #[trigger] old(self).allocator_at(i),
                        size as int,
                        alignment as int,
                    )),
            final(self).chunk_ids().len() == old(self).chunk_ids().len() + 1 ==> {
                &&& forall|i: int|
                    0 <= i < old(self).chunk_ids().len() ==> !has_fit(
                        #[trigger] old(self).allocator_at(i),
                        size as int,
                        alignment as int,
                    ) && final(self).allocator_at(i) == old(self).allocator_at(i)
                &&& final(self).chunk_ids() == old(self).chunk_ids().push(r.chunk_id as int)
                &&& !old(self).has_chunk(r.chunk_id as int)
                &&& forall|c: int| 1 <= c < r.chunk_id ==> old(self).has_chunk(c)
                &&& final(self).allocator_at(old(self).chunk_ids().len() as int).entries() == seq![
                    (r.block_id.0 as int, r.offset as int, r.offset + size as int),
                ]
                &&& r.offset == 0
                &&& r.block_id.0 == 1
            },
    {
        proof {
            use_type_invariant(&*self);
        }
        let ghost pre = *self;
        let n = self.chunks.len();
        let mut k: usize = 0;
        while k < n
            invariant
                n == self.chunks@.len(),
                0 <= k <= n,
                self.chunks@ == pre.chunks@,
                pre == *old(self),
                self.wf(),
                pre.wf(),
                size <= AUTO_POOL_CHUNK_SIZE,
                AUTO_POOL_CHUNK_SIZE + alignment <= usize::MAX,
                forall|j: int|
                    0 <= j < self.chunk_ids().len() ==> (#[trigger] self.allocator_at(
                        j,
                    )).entries().len() < usize::MAX - 1,
                forall|i: int|
                    0 <= i < k ==> !has_fit(
                        #[trigger] pre.allocator_at(i),
                        size as int,
                        alignment as int,
                    ),
            decreases n - k,
        {
            let chunk_id = self.chunks[k].0;
            let ghost pre_loop = *self;
            let mut table: Vec<(usize, BlockAllocator)> = Vec::new();
            std::mem::swap(&mut table, &mut self.chunks);
            let (cid, mut alloc_inner) = table.remove(k);
            proof {
                assert(alloc_inner == pre_loop.allocator_at(k as int));
                assert(alloc_inner.total_size() == AUTO_POOL_CHUNK_SIZE);
                assert(alloc_inner.entries().len() < usize::MAX - 1);
            }
            let attempt = alloc_inner.allocate(size, alignment);
            table.insert(k, (cid, alloc_inner));
            proof {
                assert(table@ =~= pre_loop.chunks@.update(k as int, table@[k as int]));
                assert(table@[k as int].0 == pre_loop.chunks@[k as int].0);
                assert(pre_loop.chunk_ids()[k as int] >= 1);
                assert(table@[k as int].1.total_size() == AUTO_POOL_CHUNK_SIZE);
                assert forall|j: int|
                    0 <= j < table@.len() implies table@[j].0 as int >= 1 by {
                    if j != k {
                        assert(table@[j].0 == pre_loop.chunks@[j].0);
                        assert(pre_loop.chunk_ids()[j] >= 1);
                    }
                }
                assert forall|k1: int, k2: int|
                    0 <= k1 < k2 < table@.len() implies table@[k1].0 as int != table@[k2].0
                    as int by {
                    assert(pre_loop.chunk_ids()[k1] != pre_loop.chunk_ids()[k2]);
                    assert(table@[k1].0 == pre_loop.chunks@[k1].0);
                    assert(table@[k2].0 == pre_loop.chunks@[k2].0);
                }
                assert forall|j: int|
                    0 <= j < table@.len() implies table@[j].1.total_size()
                    == AUTO_POOL_CHUNK_SIZE by {
                    if j != k {
                        assert(table@[j].1 == pre_loop.chunks@[j].1);
                        assert(pre_loop.allocator_at(j).total_size() == AUTO_POOL_CHUNK_SIZE);
                    }
                }
            }
            self.chunks = table;
            match attempt {
                Some((block_id, offset)) => {
                    proof {
                        assert(self.chunk_ids()[k as int] == chunk_id as int);
                        assert(self.chunk_ids() =~= pre.chunk_ids());
                        assert(pre.chunk_ids()[k as int] == chunk_id as int);
                        assert(self.allocator_at(k as int).entries() == pre.allocator_at(
                            k as int,
                        ).entries().push((block_id.0 as int, offset as int, offset + size)));
                        assert forall|i: int|
                            0 <= i < pre.chunk_ids().len() && i != k implies #[trigger] self.allocator_at(
                            i,
                        ) == pre.allocator_at(i) by {
                            assert(self.chunks@[i] == pre.chunks@[i]);
                        }
                        let ghost ci = choose|ci: int|
                            0 <= ci < pre.allocator_at(k as int).candidates(alignment as int).len()
                                && #[trigger] pre.allocator_at(k as int).candidates(
                                alignment as int,
                            )[ci] == offset && pre.allocator_at(k as int).fits_at(
                                offset as int,
                                size as int,
                            );
                        assert(has_fit(pre.allocator_at(k as int), size as int, alignment as int));
                    }
                    return AutoMemoryPoolBlock { chunk_id, block_id, offset, size };
                },
                None => {
                    proof {
                        assert(self.chunk_ids() =~= pre.chunk_ids());
                        assert forall|j: int|
                            0 <= j < self.chunk_ids().len() implies (#[trigger] self.allocator_at(
                            j,
                        )).entries().len() < usize::MAX - 1 by {
                            if j != k {
                                assert(self.allocator_at(j) == pre_loop.allocator_at(j));
                            }
                        }
                        assert(self.chunks@ =~= pre.chunks@);
                        assert(!has_fit(
                            pre.allocator_at(k as int),
                            size as int,
                            alignment as int,
                        )) by {
                            if has_fit(pre.allocator_at(k as int), size as int, alignment as int) {
                                let ci = choose|ci: int|
                                    0 <= ci < pre.allocator_at(k as int).candidates(
                                        alignment as int,
                                    ).len() && pre.allocator_at(k as int).fits_at(
                                        #[trigger] pre.allocator_at(k as int).candidates(
                                            alignment as int,
                                        )[ci],
                                        size as int,
                                    );
                            }
                        }
                    }
                },
            }
            k = k + 1;
        }
        let ghost mid = *self;
        let chunk_id = self.first_free_chunk_id();
        let mut fresh = BlockAllocator::new(AUTO_POOL_CHUNK_SIZE);
        let ghost fresh0 = fresh;
        let attempt = fresh.allocate(size, alignment);
        let (block_id, offset) = match attempt {
            Some(pair) => pair,
            None => {
                proof {
                    assert(fresh0.entries().len() == 0);
                    assert(fresh0.candidates(alignment as int) =~= seq![0int]);
                    assert(fresh0.candidates(alignment as int)[0] == 0);
                    assert(fresh0.fits_at(0, size as int));
                    assert(false);
                }
                (BlockId(1), 0)
            },
        };
        let ghost pre2 = *self;
        let mut table: Vec<(usize, BlockAllocator)> = Vec::new();
        std::mem::swap(&mut table, &mut self.chunks);
        table.push((chunk_id, fresh));
        proof {
            assert(fresh.total_size() == AUTO_POOL_CHUNK_SIZE);
            assert forall|k1: int, k2: int|
                0 <= k1 < k2 < table@.len() implies table@[k1].0 as int != table@[k2].0 as int by {
                if k2 == table@.len() - 1 {
                    if table@[k1].0 == chunk_id {
                        assert(pre2.chunk_ids()[k1] == chunk_id as int);
                        assert(pre2.has_chunk(chunk_id as int));
                    }
                } else {
                    assert(pre2.chunk_ids()[k1] != pre2.chunk_ids()[k2]);
                }
            }
            assert forall|j: int|
                0 <= j < table@.len() implies table@[j].0 as int >= 1 && table@[j].1.total_size()
                == AUTO_POOL_CHUNK_SIZE by {
                if j < table@.len() - 1 {
                    assert(table@[j] == pre2.chunks@[j]);
                    assert(pre2.chunk_ids()[j] >= 1);
                    assert(pre2.allocator_at(j).total_size() == AUTO_POOL_CHUNK_SIZE);
                }
            }
        }
        self.chunks = table;
        proof {
            assert(self.chunk_ids() =~= pre2.chunk_ids().push(chunk_id as int));
            assert(self.chunk_ids()[self.chunk_ids().len() - 1] == chunk_id as int);
            assert(pre2.chunks@ == pre.chunks@ && pre2.chunk_ids() =~= pre.chunk_ids());
            assert forall|i: int|
                0 <= i < pre.chunk_ids().len() implies #[trigger] self.allocator_at(i)
                == pre.allocator_at(i) by {
                assert(self.chunks@[i] == pre.chunks@[i]);
            }
            assert(self.allocator_at(pre.chunk_ids().len() as int) == fresh);
            assert(fresh.entries() =~= fresh0.entries().push(
                (block_id.0 as int, offset as int, offset + size as int),
            ));
            assert(fresh.entries() =~= seq![(block_id.0 as int, offset as int, offset + size as int)]);
            assert(offset == 0 && block_id.0 == 1) by {
                assert(fresh0.candidates(alignment as int).len() == 1);
                assert(fresh0.candidates(alignment as int)[0] == 0);
                let ghost ci = choose|ci: int|
                    0 <= ci < fresh0.candidates(alignment as int).len() && #[trigger] fresh0.candidates(
                        alignment as int,
                    )[ci] == offset && fresh0.fits_at(offset as int, size as int);
                if block_id.0 != 1 {
                    assert(fresh0.id_used(1));
                }
            }
        }
        proof {
            assert(forall|i: int|
                0 <= i < pre.chunk_ids().len() ==> !has_fit(
                    #[trigger] pre.allocator_at(i),
                    size as int,
                    alignment as int,
                ));
            assert(self.chunk_ids() == pre.chunk_ids().push(chunk_id as int));
            assert(!pre.has_chunk(chunk_id as int));
            assert(mid.chunk_ids() =~= pre.chunk_ids());
            assert forall|c: int| 1 <= c < chunk_id implies pre.has_chunk(c) by {
                assert(mid.has_chunk(c));
                let k2 = choose|k2: int|
                    0 <= k2 < mid.chunk_ids().len() && #[trigger] mid.chunk_ids()[k2] == c;
                assert(pre.chunk_ids()[k2] == c);
            }
            assert(self.allocator_at(pre.chunk_ids().len() as int).entries() == seq![
                (block_id.0 as int, offset as int, offset + size as int),
            ]);
            assert(offset == 0);
            assert(block_id.0 == 1);
        }
        AutoMemoryPoolBlock { chunk_id, block_id, offset, size }
    }

    /// Returns a block's range to its chunk's allocator; models the
    /// automatic release when the last reference to a block is dropped.
    pub fn free_block(&mut self, chunk_id: usize, block_id: &BlockId) -> (r: bool)
        ensures
            r == old(self).has_chunk(chunk_id as int),
            final(self).chunk_ids() == old(self).chunk_ids(),
            !old(self).has_chunk(chunk_id as int) ==> *final(self) == *old(self),
            old(self).has_chunk(chunk_id as int) ==> exists|j: int|
                0 <= j < old(self).chunk_ids().len() && #[trigger] old(self).chunk_ids()[j]
                    == chunk_id && (forall|i: int|
                    0 <= i < old(self).chunk_ids().len() && i != j ==> #[trigger] final(self).allocator_at(i) == old(self).allocator_at(i)) && free_post(
                    old(self).allocator_at(j),
                    final(self).allocator_at(j),
                    block_id.0 as int,
                ),
    {
        proof {
            use_type_invariant(&*self);
        }
        let ghost pre = *self;
        let mut k: usize = 0;
        while k < self.chunks.len()
            invariant
                *self == pre,
                self.chunks@ == pre.chunks@,
                pre == *old(self),
                self.wf(),
                pre.wf(),
                k <= self.chunk_ids().len(),
                self.chunk_ids().len() == self.chunks@.len(),
                forall|j: int| 0 <= j < k ==> #[trigger] self.chunk_ids()[j] != chunk_id,
            decreases self.chunks@.len() - k,
        {
            if self.chunks[k].0 == chunk_id {
                let mut table: Vec<(usize, BlockAllocator)> = Vec::new();
                std::mem::swap(&mut table, &mut self.chunks);
                let (cid, mut alloc_inner) = table.remove(k);
                proof {
                    assert(alloc_inner == pre.allocator_at(k as int));
                }
                alloc_inner.free(block_id);
                table.insert(k, (cid, alloc_inner));
                proof {
                    assert(table@ =~= pre.chunks@.update(k as int, table@[k as int]));
                    assert(table@[k as int].0 == pre.chunks@[k as int].0);
                    assert(pre.chunk_ids()[k as int] >= 1);
                    assert(table@[k as int].1.total_size() == AUTO_POOL_CHUNK_SIZE);
                    assert forall|j: int|
                        0 <= j < table@.len() implies table@[j].0 as int >= 1 by {
                        if j != k {
                            assert(table@[j].0 == pre.chunks@[j].0);
                            assert(pre.chunk_ids()[j] >= 1);
                        }
                    }
                    assert forall|k1: int, k2: int|
                        0 <= k1 < k2 < table@.len() implies table@[k1].0 as int != table@[k2].0
                        as int by {
                        assert(pre.chunk_ids()[k1] != pre.chunk_ids()[k2]);
                        assert(table@[k1].0 == pre.chunks@[k1].0);
                        assert(table@[k2].0 == pre.chunks@[k2].0);
                    }
                    assert forall|j: int|
                        0 <= j < table@.len() implies table@[j].1.total_size()
                        == AUTO_POOL_CHUNK_SIZE by {
                        if j != k {
                            assert(table@[j].1 == pre.chunks@[j].1);
                            assert(pre.allocator_at(j).total_size() == AUTO_POOL_CHUNK_SIZE);
                        }
                    }
                }
                self.chunks = table;
                proof {
                    assert(pre.chunk_ids()[k as int] == chunk_id as int);
                    assert(self.chunk_ids() =~= pre.chunk_ids());
                    assert forall|i: int|
                        0 <= i < pre.chunk_ids().len() && i != k implies #[trigger] self.allocator_at(
                        i,
                    ) == pre.allocator_at(i) by {
                        assert(self.chunks@[i] == pre.chunks@[i]);
                    }
                    assert(self.allocator_at(k as int) == alloc_inner);
                    assert(free_post(
                        pre.allocator_at(k as int),
                        self.allocator_at(k as int),
                        block_id.0 as int,
                    ));
                }
                return true;
            }
            k = k + 1;
        }
        false
    }
}

} // verus!
