//! A pool of small integer identifiers with constant-time reserve and
//! release.  Released identifiers are recycled in stack order: the most
//! recently released one is the next to be handed out again.

use vstd::prelude::*;

verus! {

/// An identifier handed out by an [`IdPool`].
pub type Id = usize;

/// Allocates and recycles identifiers.  Underlies both entity allocation
/// and per-family component-slot allocation.
pub struct IdPool {
    reserved: Vec<bool>,
    released: Vec<Id>,
}

impl IdPool {
    /// How many distinct ids have ever been issued.
    pub closed spec fn issued(self) -> int {
        self.reserved@.len() as int
    }

    /// The id has been issued at some point, whatever its current state.
    pub open spec fn spec_ever_issued(self, id: int) -> bool {
        0 <= id < self.issued()
    }

    /// The id is currently reserved: issued and not since released.
    pub closed spec fn is_live(self, id: int) -> bool {
        0 <= id < self.issued() && self.reserved@[id]
    }

    /// The stack of released ids, most recently released last.
    pub closed spec fn free_stack(self) -> Seq<int> {
        self.released@.map_values(|i: Id| i as int)
    }

    /// A live id was issued, so it lies below the issue counter.
    pub broadcast proof fn lemma_is_live_in_range(self, id: int)
        ensures
            #[trigger] self.is_live(id) ==> 0 <= id < self.issued(),
    {
    }

    pub closed spec fn wf(self) -> bool {
        &&& forall|j: int|
            0 <= j < self.released@.len() ==> !self.is_live(
                #[trigger] self.released@[j] as int,
            ) && self.released@[j] < self.reserved@.len()
        &&& forall|j: int, k: int|
            0 <= j < k < self.released@.len() ==> self.released@[j] != self.released@[k]
        &&& forall|id: int|
            0 <= id < self.issued() && !self.reserved@[id] ==> self.free_stack().contains(id)
    }

    /// An empty pool: nothing issued, nothing released.
    pub fn new() -> (pool: IdPool)
        ensures
            pool.wf(),
            pool.issued() == 0,
            forall|id: int| !pool.is_live(id),
            pool.free_stack() =~= Seq::<int>::empty(),
    {
        IdPool { reserved: Vec::new(), released: Vec::new() }
    }

    /// Whether the id was ever issued, regardless of its current state.
    pub fn ever_issued(&self, id: Id) -> (r: bool)
        ensures
            r == self.spec_ever_issued(id as int),
    {
        id < self.reserved.len()
    }

    /// All currently reserved ids, in ascending order.
    pub fn reserved(&self) -> (ids: Vec<Id>)
        ensures
            forall|j: int| 0 <= j < ids@.len() ==> self.is_live(#[trigger] ids@[j] as int),
            forall|j: int, k: int| 0 <= j < k < ids@.len() ==> ids@[j] < ids@[k],
            forall|id: int|
                #[trigger] self.is_live(id) ==> exists|j: int|
                    0 <= j < ids@.len() && ids@[j] == id,
    {
        let mut ids: Vec<Id> = Vec::new();
        let n = self.reserved.len();
        let mut i: usize = 0;
        while i < n
            invariant
                n == self.reserved@.len(),
                i <= n,
                forall|j: int| 0 <= j < ids@.len() ==> self.is_live(#[trigger] ids@[j] as int),
                forall|j: int| 0 <= j < ids@.len() ==> ids@[j] < i,
                forall|j: int, k: int| 0 <= j < k < ids@.len() ==> ids@[j] < ids@[k],
                forall|id: int|
                    0 <= id < i && #[trigger] self.is_live(id) ==> exists|j: int|
                        0 <= j < ids@.len() && ids@[j] == id,
            decreases n - i,
        {
            let ghost prev = ids@;
            if self.reserved[i] {
                ids.push(i);
            }
            proof {
                assert forall|id: int| 0 <= id < i + 1 && #[trigger] self.is_live(id) implies exists|j: int|
                    0 <= j < ids@.len() && ids@[j] == id by {
                    if id < i {
                        let j = choose|j: int| 0 <= j < prev.len() && prev[j] == id;
                        assert(ids@[j] == id);
                    } else {
                        assert(ids@[ids@.len() - 1] == id);
                    }
                }
            }
            i += 1;
        }
        ids
    }

    /// Reserves an id.  The most recently released id is reused if one is
    /// available; otherwise a brand-new id is issued.  The returned id was
    /// not live before the call, so no two live reservations ever share an
    /// id.
    pub fn reserve(&mut self) -> (id: Id)
        requires
            old(self).wf(),
        ensures
            final(self).wf(),
            !old(self).is_live(id as int),
            final(self).is_live(id as int),
            final(self).spec_ever_issued(id as int),
            forall|j: int| j != id as int ==> final(self).is_live(j) == old(self).is_live(j),
            old(self).free_stack().len() > 0 ==> {
                &&& id as int == old(self).free_stack().last()
                &&& final(self).issued() == old(self).issued()
                &&& final(self).free_stack() =~= old(self).free_stack().drop_last()
            },
            old(self).free_stack().len() == 0 ==> {
                &&& id as int == old(self).issued()
                &&& final(self).issued() == old(self).issued() + 1
                &&& final(self).free_stack() =~= old(self).free_stack()
            },
    {
        match self.released.pop() {
            Some(id) => {
                self.reserved[id] = true;
                proof {
                    assert forall|x: int|
                        0 <= x < self.issued() && !self.reserved@[x] implies self.free_stack().contains(
                        x,
                    ) by {
                        assert(old(self).free_stack().contains(x));
                        let j = choose|j: int|
                            0 <= j < old(self).free_stack().len() && old(self).free_stack()[j] == x;
                        assert(j < old(self).free_stack().len() - 1);
                        assert(self.free_stack()[j] == x);
                    }
                }
                id
            },
            None => {
                let id = self.reserved.len();
                self.reserved.push(true);
                proof {
                    assert forall|x: int|
                        0 <= x < self.issued() && !self.reserved@[x] implies self.free_stack().contains(
                        x,
                    ) by {
                        assert(old(self).free_stack().contains(x));
                    }
                }
                id
            },
        }
    }

    /// Whether the id is currently reserved.  An id that was never issued
    /// is reported as not reserved.
    pub fn is_reserved(&self, id: Id) -> (r: bool)
        ensures
            r == self.is_live(id as int),
    {
        id < self.reserved.len() && self.reserved[id]
    }

    /// Releases a reserved id, making it the next candidate for reuse.
    /// Releasing an id that is not reserved is a no-op.
    pub fn release(&mut self, id: Id)
        requires
            old(self).wf(),
        ensures
            final(self).wf(),
            final(self).issued() == old(self).issued(),
            !final(self).is_live(id as int),
            forall|j: int| j != id as int ==> final(self).is_live(j) == old(self).is_live(j),
            old(self).is_live(id as int) ==> final(self).free_stack() =~= old(
                self,
            ).free_stack().push(id as int),
            !old(self).is_live(id as int) ==> *final(self) == *old(self),
    {
        if self.is_reserved(id) {
            self.reserved[id] = false;
            self.released.push(id);
            proof {
                assert forall|x: int|
                    0 <= x < self.issued() && !self.reserved@[x] implies self.free_stack().contains(
                    x,
                ) by {
                    if x == id as int {
                        assert(self.free_stack().last() == x);
                    } else {
                        assert(old(self).free_stack().contains(x));
                        let j = choose|j: int|
                            0 <= j < old(self).free_stack().len() && old(self).free_stack()[j] == x;
                        assert(self.free_stack()[j] == x);
                    }
                }
            }
        }
    }
}

} // verus!
