//! Block types: the numeric block id, the textual block name, and the
//! registry that maps between them.

use vstd::prelude::*;

use crate::voxel::voxelarray::VoxelArray;

verus! {

/// Numeric block type; `0` is reserved for air.
pub type BlockID = u32;

/// Textual identifier of a block type, used only at registry and
/// content-definition boundaries, never in the hot path.
pub type BlockName = String;

/// A chunk: a dense voxel array of block ids addressed by chunk-local
/// coordinates.
pub type Chunk = VoxelArray<BlockID, u8>;

/// A bidirectional name-to-id table for block types. Ids are assigned in
/// registration order starting at `0`; a name may be registered at most
/// once.
pub struct BlockRegistry {
    id_to_name: Vec<BlockName>,
}

impl BlockRegistry {
    /// The registered names, in id order.
    pub closed spec fn names(&self) -> Seq<Seq<char>> {
        Seq::new(self.id_to_name@.len(), |i: int| self.id_to_name@[i]@)
    }

    /// Whether a name is registered.
    pub open spec fn spec_contains_name(&self, name: Seq<char>) -> bool {
        exists|i: int| 0 <= i < self.names().len() && self.names()[i] == name
    }

    /// No name is registered twice.
    #[verifier::type_invariant]
    spec fn distinct_names(&self) -> bool {
        forall|i: int, j: int|
            0 <= i < j < self.names().len() ==> self.names()[i] != self.names()[j]
    }

    /// An empty registry.
    pub fn new() -> (r: BlockRegistry)
        ensures
            r.names().len() == 0,
    {
        BlockRegistry { id_to_name: Vec::new() }
    }

    /// How many block types are registered.
    pub fn len(&self) -> (r: usize)
        ensures
            r == self.names().len(),
    {
        self.id_to_name.len()
    }

    /// Finds the id under which a name was registered, if any.
    fn scan(&self, name: &BlockName) -> (r: Option<usize>)
        ensures
            match r {
                Some(i) => i < self.names().len() && self.names()[i as int] == name@,
                None => !self.spec_contains_name(name@),
            },
    {
        let mut i: usize = 0;
        while i < self.id_to_name.len()
            invariant
                i <= self.names().len(),
                self.names().len() == self.id_to_name@.len(),
                forall|j: int| 0 <= j < i ==> self.names()[j] != name@,
            decreases self.id_to_name@.len() - i,
        {
            if self.id_to_name[i].eq(name) {
                return Some(i);
            }
            i = i + 1;
        }
        None
    }

    /// The name registered under an id. The id must be in use.
    pub fn id_for_name(&self, id: &BlockID) -> (r: BlockName)
        requires
            *id < self.names().len(),
        ensures
            r@ == self.names()[*id as int],
    {
        proof {
            use_type_invariant(self);
        }
        self.id_to_name[*id as usize].clone()
    }

    /// The id registered for a name. The name must be registered.
    pub fn name_for_id(&self, name: &BlockName) -> (r: BlockID)
        requires
            self.spec_contains_name(name@),
            self.names().len() <= u32::MAX,
        ensures
            r < self.names().len(),
            self.names()[r as int] == name@,
    {
        proof {
            use_type_invariant(self);
        }
        match self.scan(name) {
            Some(i) => i as BlockID,
            None => {
                proof {
                    assert(false);
                }
                0
            },
        }
    }

    /// A full copy of the name-to-id table.
    pub fn all_mappings(&self) -> (r: Vec<(BlockName, BlockID)>)
        requires
            self.names().len() <= u32::MAX,
        ensures
            r@.len() == self.names().len(),
            forall|i: int|
                0 <= i < r@.len() ==> (#[trigger] r@[i]).0@ == self.names()[i] && r@[i].1 == i,
    {
        let mut out: Vec<(BlockName, BlockID)> = Vec::new();
        let mut i: usize = 0;
        while i < self.id_to_name.len()
            invariant
                i <= self.names().len(),
                self.names().len() == self.id_to_name@.len(),
                self.names().len() <= u32::MAX,
                out@.len() == i,
                forall|j: int|
                    0 <= j < i ==> (#[trigger] out@[j]).0@ == self.names()[j] && out@[j].1 == j,
            decreases self.id_to_name@.len() - i,
        {
            out.push((self.id_to_name[i].clone(), i as BlockID));
            i = i + 1;
        }
        out
    }

    /// Registers a new block name, assigning it the next sequential id.
    /// Registering a name twice is a programming error, so the name must
    /// not already be present.
    pub fn register_block(&mut self, name: &BlockName) -> (r: BlockID)
        requires
            !old(self).spec_contains_name(name@),
            old(self).names().len() < u32::MAX,
        ensures
            r == old(self).names().len(),
            final(self).names() == old(self).names().push(name@),
    {
        proof {
            use_type_invariant(&*self);
        }
        let new_id = self.id_to_name.len() as BlockID;
        let mut table: Vec<BlockName> = Vec::new();
        std::mem::swap(&mut table, &mut self.id_to_name);
        table.push(name.clone());
        proof {
            assert forall|k: int|
                0 <= k < old(self).names().len() implies old(self).names()[k] != name@ by {
                if old(self).names()[k] == name@ {
                    assert(old(self).spec_contains_name(name@));
                }
            }
            assert forall|i: int, j: int|
                0 <= i < j < table@.len() implies table@[i]@ != table@[j]@ by {
                assert(forall|k: int|
                    0 <= k < table@.len() - 1 ==> #[trigger] table@[k] == old(
                        self,
                    ).id_to_name@[k]);
                if j == table@.len() - 1 {
                    assert(old(self).names()[i] == table@[i]@);
                } else {
                    assert(old(self).names()[i] == table@[i]@);
                    assert(old(self).names()[j] == table@[j]@);
                }
            }
        }
        self.id_to_name = table;
        proof {
            assert(self.names() =~= old(self).names().push(name@));
        }
        new_id
    }
}

} // verus!
