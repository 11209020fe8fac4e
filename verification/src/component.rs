//! Per-family component storage: a dense pool of component values plus a
//! sparse map from entity id to pool slot.

use vstd::prelude::*;
use crate::family::{Family, FamilyStore};
use crate::id::{Id, IdPool};
use crate::sparse::{SlotTable, slot_map_view, slot_map_new, slot_map_get, slot_map_insert,
    slot_map_remove};
use crate::world::Entity;

verus! {

broadcast use crate::id::IdPool::lemma_is_live_in_range;

/// A dense array of values whose slots are allocated and recycled by an
/// [`IdPool`].
pub struct ComponentPool<C> {
    data: Vec<C>,
    ids: IdPool,
}

impl<C> ComponentPool<C> {
    /// How many slots the pool has ever allocated.
    pub closed spec fn num_slots(self) -> int {
        self.data@.len() as int
    }

    /// The slot currently holds a value.
    pub closed spec fn slot_live(self, slot: int) -> bool {
        self.ids.is_live(slot)
    }

    /// The value held at a slot.
    pub closed spec fn slot_value(self, slot: int) -> C {
        self.data@[slot]
    }

    pub closed spec fn wf(self) -> bool {
        &&& self.ids.wf()
        &&& self.ids.issued() == self.data@.len()
    }

    /// An empty pool.
    pub fn new() -> (p: ComponentPool<C>)
        ensures
            p.wf(),
            p.num_slots() == 0,
            forall|slot: int| !p.slot_live(slot),
    {
        ComponentPool { data: Vec::new(), ids: IdPool::new() }
    }

    /// Stores a value in a fresh slot (recycling a released slot if one is
    /// available) and returns that slot.
    pub fn add(&mut self, data: C) -> (slot: Id)
        requires
            old(self).wf(),
        ensures
            final(self).wf(),
            !old(self).slot_live(slot as int),
            final(self).slot_live(slot as int),
            final(self).slot_value(slot as int) == data,
            (slot as int) < final(self).num_slots(),
            old(self).num_slots() <= final(self).num_slots(),
            forall|s: int|
                s != slot as int ==> final(self).slot_live(s) == old(self).slot_live(s),
            forall|s: int|
                0 <= s < old(self).num_slots() && s != slot as int ==> final(self).slot_value(s)
                    == old(self).slot_value(s),
    {
        let slot = self.ids.reserve();
        if slot < self.data.len() {
            self.data[slot] = data;
        } else {
            self.data.push(data);
        }
        slot
    }

    /// Frees a slot.  Freeing a slot that is not live is a no-op.
    pub fn remove(&mut self, slot: Id)
        requires
            old(self).wf(),
        ensures
            final(self).wf(),
            final(self).num_slots() == old(self).num_slots(),
            !final(self).slot_live(slot as int),
            forall|s: int| s != slot as int ==> final(self).slot_live(s) == old(self).slot_live(s),
            forall|s: int|
                0 <= s < old(self).num_slots() ==> final(self).slot_value(s) == old(
                    self,
                ).slot_value(s),
    {
        self.ids.release(slot);
    }

    /// The value at a slot, or nothing if the slot is not live.
    pub fn get(&self, slot: Id) -> (r: Option<&C>)
        requires
            self.wf(),
        ensures
            r is Some <==> self.slot_live(slot as int),
            r matches Some(v) ==> *v == self.slot_value(slot as int),
    {
        if self.ids.is_reserved(slot) {
            Some(&self.data[slot])
        } else {
            None
        }
    }

    /// A mutable reference to the value at a live slot.
    pub fn get_mut(&mut self, slot: Id) -> (r: &mut C)
        requires
            old(self).wf(),
            old(self).slot_live(slot as int),
        ensures
            *r == old(self).slot_value(slot as int),
            final(self).wf(),
            final(self).num_slots() == old(self).num_slots(),
            forall|s: int| final(self).slot_live(s) == old(self).slot_live(s),
            final(self).slot_value(slot as int) == *final(r),
            forall|s: int|
                0 <= s < old(self).num_slots() && s != slot as int ==> final(self).slot_value(s)
                    == old(self).slot_value(s),
    {
        &mut self.data[slot]
    }
}

/// One family's component store: a dense pool of values plus a sparse map
/// from entity id to pool slot.
pub struct InnerComponentStore<C> {
    family: Family,
    map: SlotTable,
    pool: ComponentPool<C>,
}

impl<C> InnerComponentStore<C> {
    /// The family this store was registered for.
    pub closed spec fn spec_family(self) -> int {
        self.family as int
    }

    /// The components held by this store, as a map from entity id to
    /// value.
    pub closed spec fn contents(self) -> Map<int, C> {
        Map::new(
            |e: int| slot_map_view(self.map).dom().contains(e),
            |e: int| self.pool.slot_value(slot_map_view(self.map)[e]),
        )
    }

    pub closed spec fn wf(self) -> bool {
        &&& self.pool.wf()
        &&& forall|e: int|
            #[trigger] slot_map_view(self.map).dom().contains(e) ==> 0 <= e
                && self.pool.slot_live(slot_map_view(self.map)[e])
        &&& forall|e1: int, e2: int|
            slot_map_view(self.map).dom().contains(e1) && slot_map_view(self.map).dom().contains(
                e2,
            ) && e1 != e2 ==> slot_map_view(self.map)[e1] != slot_map_view(self.map)[e2]
    }

    /// An empty store for the given family.
    pub fn new(family: Family) -> (store: InnerComponentStore<C>)
        ensures
            store.wf(),
            store.spec_family() == family as int,
            store.contents() =~= Map::<int, C>::empty(),
    {
        InnerComponentStore { family, map: slot_map_new(), pool: ComponentPool::new() }
    }

    /// Attaches a value for an entity, overwriting any value this store
    /// already held for it.
    pub fn add(&mut self, entity: Entity, data: C)
        requires
            old(self).wf(),
        ensures
            final(self).wf(),
            final(self).spec_family() == old(self).spec_family(),
            final(self).contents() =~= old(self).contents().insert(entity as int, data),
    {
        let slot_opt = slot_map_get(&self.map, entity);
        match slot_opt {
            Some(slot) => {
                let ghost old_self = *self;
                let r = self.pool.get_mut(slot);
                *r = data;
                proof {
                    assert forall|e: int|
                        #[trigger] self.contents().dom().contains(e) && e != entity as int implies
                        self.contents()[e] == old_self.contents()[e] by {
                        assert(slot_map_view(self.map)[e] != slot as int);
                    }
                }
            },
            None => {
                let slot = self.pool.add(data);
                slot_map_insert(&mut self.map, entity, slot);
            },
        }
    }

    /// Detaches the value this store holds for an entity, freeing its
    /// slot.  Detaching from an entity with no value here is a no-op.
    pub fn remove(&mut self, entity: Entity)
        requires
            old(self).wf(),
        ensures
            final(self).wf(),
            final(self).spec_family() == old(self).spec_family(),
            final(self).contents() =~= old(self).contents().remove(entity as int),
    {
        let slot_opt = slot_map_remove(&mut self.map, entity);
        match slot_opt {
            Some(slot) => {
                self.pool.remove(slot);
            },
            None => {},
        }
    }

    /// The value this store holds for an entity, if any.
    pub fn get(&self, entity: Entity) -> (r: Option<&C>)
        requires
            self.wf(),
        ensures
            r is Some <==> self.contents().dom().contains(entity as int),
            r matches Some(v) ==> *v == self.contents()[entity as int],
    {
        let slot_opt = slot_map_get(&self.map, entity);
        match slot_opt {
            Some(slot) => self.pool.get(slot),
            None => None,
        }
    }

    /// A mutable reference to the value this store holds for an entity.
    pub fn get_mut(&mut self, entity: Entity) -> (r: &mut C)
        requires
            old(self).wf(),
            old(self).contents().dom().contains(entity as int),
        ensures
            *r == old(self).contents()[entity as int],
            final(self).wf(),
            final(self).spec_family() == old(self).spec_family(),
            final(self).contents() =~= old(self).contents().insert(entity as int, *final(r)),
    {
        let slot_opt = slot_map_get(&self.map, entity);
        match slot_opt {
            Some(slot) => {
                proof {
                    assert forall|e: int|
                        #[trigger] slot_map_view(self.map).dom().contains(e) && e != entity as int
                        implies slot_map_view(self.map)[e] != slot as int by {}
                }
                self.pool.get_mut(slot)
            },
            None => vstd::pervasive::unreached(),
        }
    }
}

impl<C> FamilyStore for InnerComponentStore<C> {
    /// The family this store was registered for.
    fn family(&self) -> Family {
        self.family
    }
}

} // verus!
