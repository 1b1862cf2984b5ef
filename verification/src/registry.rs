//! Registries: the multi-world container mapping small integer ids to
//! dimensions.

use vstd::prelude::*;

use crate::world::dimension::Dimension;

verus! {

/// A mapping from a small integer dimension id to a dimension. Exactly
/// one dimension, id zero, is created by the orchestrator at startup.
pub struct DimensionRegistry {
    dimensions: Vec<(u32, Dimension)>,
}

impl DimensionRegistry {
    /// The registered ids, in insertion order.
    pub closed spec fn ids(&self) -> Seq<int> {
        Seq::new(self.dimensions@.len(), |k: int| self.dimensions@[k].0 as int)
    }

    /// Whether an id is registered.
    pub open spec fn has_id(&self, id: int) -> bool {
        exists|k: int| 0 <= k < self.ids().len() && #[trigger] self.ids()[k] == id
    }

    /// The dimension registered under an id.
    pub closed spec fn dimension_at(&self, id: int) -> Dimension {
        self.dimensions@[choose|k: int|
            0 <= k < self.ids().len() && #[trigger] self.ids()[k] == id].1
    }

    /// Ids are unique.
    #[verifier::type_invariant]
    spec fn wf(&self) -> bool {
        forall|k1: int, k2: int|
            0 <= k1 < k2 < self.ids().len() ==> self.ids()[k1] != self.ids()[k2]
    }

    /// An empty registry.
    pub fn new() -> (r: DimensionRegistry)
        ensures
            r.ids().len() == 0,
    {
        DimensionRegistry { dimensions: Vec::new() }
    }

    /// Finds the storage index of an id.
    fn find(&self, id: u32) -> (r: Option<usize>)
        ensures
            match r {
                Some(k) => k < self.ids().len() && self.ids()[k as int] == id,
                None => !self.has_id(id as int),
            },
    {
        let mut k: usize = 0;
        while k < self.dimensions.len()
            invariant
                k <= self.ids().len(),
                self.ids().len() == self.dimensions@.len(),
                forall|j: int| 0 <= j < k ==> #[trigger] self.ids()[j] != id,
            decreases self.dimensions@.len() - k,
        {
            if self.dimensions[k].0 == id {
                proof {
                    assert(self.ids()[k as int] == id);
                }
                return Some(k);
            }
            k = k + 1;
        }
        None
    }

    /// Registers a dimension under an unused id; reports whether the id
    /// was free.
    pub fn insert(&mut self, id: u32, dimension: Dimension) -> (r: bool)
        ensures
            r == !old(self).has_id(id as int),
            r ==> final(self).ids() == old(self).ids().push(id as int) && final(self).has_id(
                id as int,
            ) && final(self).dimension_at(id as int) == dimension,
            r ==> forall|id2: int|
                #[trigger] old(self).has_id(id2) ==> final(self).has_id(id2) && final(self).dimension_at(id2) == old(self).dimension_at(id2),
            !r ==> *final(self) == *old(self),
    {
        proof {
            use_type_invariant(&*self);
        }
        if self.find(id).is_some() {
            return false;
        }
        let ghost pre = *self;
        let mut table: Vec<(u32, Dimension)> = Vec::new();
        std::mem::swap(&mut table, &mut self.dimensions);
        table.push((id, dimension));
        proof {
            assert forall|k1: int, k2: int|
                0 <= k1 < k2 < table@.len() implies table@[k1].0 as int != table@[k2].0 as int by {
                if k2 == table@.len() - 1 {
                    if table@[k1].0 == id {
                        assert(pre.ids()[k1] == id as int);
                    }
                } else {
                    assert(pre.ids()[k1] != pre.ids()[k2]);
                }
            }
        }
        self.dimensions = table;
        proof {
            assert(self.ids() =~= pre.ids().push(id as int));
            let n = pre.ids().len() as int;
            assert(self.ids()[n] == id as int);
            assert forall|id2: int| #[trigger] pre.has_id(id2) implies self.has_id(id2) && self.dimension_at(
                id2,
            ) == pre.dimension_at(id2) by {
                let j = choose|j: int| 0 <= j < pre.ids().len() && #[trigger] pre.ids()[j] == id2;
                assert(self.ids()[j] == id2);
                let j1 = choose|k: int| 0 <= k < pre.ids().len() && #[trigger] pre.ids()[k] == id2;
                let j2 = choose|k: int| 0 <= k < self.ids().len() && #[trigger] self.ids()[k] == id2;
                if j2 == n {
                    assert(pre.ids()[j1] == id as int);
                    assert(pre.has_id(id as int));
                }
                assert(pre.ids()[j2] == id2);
                if j1 != j2 {
                    assert(pre.ids()[j1] != pre.ids()[j2]);
                }
            }
        }
        true
    }

    /// A reference to the dimension registered under an id, or absent
    /// for an unknown id.
    pub fn get(&self, id: u32) -> (r: Option<&Dimension>)
        ensures
            match r {
                Some(d) => self.has_id(id as int) && *d == self.dimension_at(id as int),
                None => !self.has_id(id as int),
            },
    {
        proof {
            use_type_invariant(self);
        }
        match self.find(id) {
            Some(k) => {
                proof {
                    let j = choose|j: int|
                        0 <= j < self.ids().len() && #[trigger] self.ids()[j] == id as int;
                    if j != k {
                        assert(self.ids()[j] != self.ids()[k as int]);
                    }
                }
                Some(&self.dimensions[k].1)
            },
            None => None,
        }
    }

    /// Removes and returns the dimension registered under an id, so the
    /// caller can work on it and put it back.
    pub fn take_dimension(&mut self, id: u32) -> (r: Option<Dimension>)
        ensures
            match r {
                Some(d) => old(self).has_id(id as int) && d == old(self).dimension_at(id as int)
                    && !final(self).has_id(id as int) && forall|id2: int|
                    id2 != id && #[trigger] old(self).has_id(id2) ==> final(self).has_id(id2)
                        && final(self).dimension_at(id2) == old(self).dimension_at(id2),
                None => !old(self).has_id(id as int) && *final(self) == *old(self),
            },
    {
        proof {
            use_type_invariant(&*self);
        }
        let k = match self.find(id) {
            Some(k) => k,
            None => {
                return None;
            },
        };
        let ghost pre = *self;
        let mut table: Vec<(u32, Dimension)> = Vec::new();
        std::mem::swap(&mut table, &mut self.dimensions);
        let (_, d) = table.remove(k);
        proof {
            assert forall|k1: int, k2: int|
                0 <= k1 < k2 < table@.len() implies table@[k1].0 as int != table@[k2].0 as int by {
                let m1: int = if k1 < k {
                    k1
                } else {
                    k1 + 1
                };
                let m2: int = if k2 < k {
                    k2
                } else {
                    k2 + 1
                };
                assert(table@[k1] == pre.dimensions@[m1]);
                assert(table@[k2] == pre.dimensions@[m2]);
                assert(pre.ids()[m1] != pre.ids()[m2]);
            }
        }
        self.dimensions = table;
        proof {
            assert(self.ids() =~= pre.ids().remove(k as int));
            assert forall|j: int|
                0 <= j < self.ids().len() implies #[trigger] self.ids()[j] != id as int by {
                let m: int = if j < k {
                    j
                } else {
                    j + 1
                };
                assert(self.ids()[j] == pre.ids()[m]);
                if m != k {
                    assert(pre.ids()[m] != pre.ids()[k as int]);
                }
            }
            let j1 = choose|j: int|
                0 <= j < pre.ids().len() && #[trigger] pre.ids()[j] == id as int;
            if j1 != k {
                assert(pre.ids()[j1] != pre.ids()[k as int]);
            }
            assert forall|id2: int|
                id2 != id && #[trigger] pre.has_id(id2) implies self.has_id(id2)
                && self.dimension_at(id2) == pre.dimension_at(id2) by {
                let j = choose|j: int| 0 <= j < pre.ids().len() && #[trigger] pre.ids()[j] == id2;
                let m: int = if j < k {
                    j
                } else {
                    j - 1
                };
                assert(j != k);
                assert(self.ids()[m] == id2);
                let j2 = choose|jj: int|
                    0 <= jj < self.ids().len() && #[trigger] self.ids()[jj] == id2;
                let j2orig: int = if j2 < k {
                    j2
                } else {
                    j2 + 1
                };
                assert(pre.ids()[j2orig] == id2);
                if j2orig != j {
                    assert(pre.ids()[j2orig] != pre.ids()[j]);
                }
            }
        }
        Some(d)
    }

    /// Puts a dimension back under an id; reports whether the id was
    /// free.
    pub fn put_dimension(&mut self, id: u32, dimension: Dimension) -> (r: bool)
        ensures
            r == !old(self).has_id(id as int),
            r ==> final(self).has_id(id as int) && final(self).dimension_at(id as int)
                == dimension,
            !r ==> *final(self) == *old(self),
    {
        self.insert(id, dimension)
    }
}

} // verus!
