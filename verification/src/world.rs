//! The world: entities, their component masks, their components, and the
//! tag table.

use vstd::prelude::*;
use crate::component::InnerComponentStore;
use crate::family::Family;
use crate::id::{Id, IdPool};
use crate::mask::{Mask, mask_view};

verus! {

broadcast use crate::id::IdPool::lemma_is_live_in_range;

/// An entity: an opaque, recyclable integer identifier that groups
/// components.
pub type Entity = Id;

/// Selects entities by the set of component families they must carry.
pub struct ComponentFilter {
    mask: Mask,
}

impl ComponentFilter {
    /// The families an entity must carry to pass this filter.
    pub closed spec fn families(self) -> Set<int> {
        mask_view(self.mask)
    }

    /// A filter with no requirements: every live entity passes.
    pub fn new() -> (filter: ComponentFilter)
        ensures
            filter.families() =~= Set::<int>::empty(),
    {
        ComponentFilter { mask: Mask::new() }
    }

    /// Extends the filter to also require the given family.
    pub fn with(self, family: Family) -> (filter: ComponentFilter)
        ensures
            filter.families() =~= self.families().insert(family as int),
    {
        let mut f = self;
        f.mask.insert(family);
        f
    }
}

/// Contains all entities, their components, and their tags.
pub struct World<C> {
    pool: IdPool,
    masks: Vec<Mask>,
    stores: Vec<InnerComponentStore<C>>,
    tags: Vec<(String, Entity)>,
}

impl<C> World<C> {
    /// The entity was created and has not since been destroyed.
    pub closed spec fn is_live(self, e: int) -> bool {
        self.pool.is_live(e)
    }

    /// How many component families have been registered.
    pub closed spec fn num_families(self) -> int {
        self.stores@.len() as int
    }

    /// How many distinct entity ids have ever been issued.
    pub closed spec fn num_issued(self) -> int {
        self.pool.issued()
    }

    /// The set of families attached to an entity, as recorded by its mask.
    pub closed spec fn mask_of(self, e: int) -> Set<int> {
        mask_view(self.masks@[e])
    }

    /// The components of one family, as a map from entity id to value.
    pub closed spec fn components(self, f: int) -> Map<int, C> {
        self.stores@[f].contents()
    }

    /// The entity is live and carries a component of the family.
    pub open spec fn spec_has(self, e: int, f: int) -> bool {
        self.is_live(e) && 0 <= f < self.num_families() && self.components(f).dom().contains(e)
    }

    /// The tag table, as a map from tag name to the entity that owns it.
    pub closed spec fn tag_map(self) -> Map<Seq<char>, int> {
        Map::new(
            |n: Seq<char>|
                exists|j: int| 0 <= j < self.tags@.len() && (#[trigger] self.tags@[j]).0@ == n,
            |n: Seq<char>|
                (self.tags@[choose|j: int|
                    0 <= j < self.tags@.len() && (#[trigger] self.tags@[j]).0@ == n].1) as int,
        )
    }

    /// What `lookup` will answer for a name.
    pub open spec fn spec_lookup(self, n: Seq<char>) -> Option<int> {
        if self.tag_map().dom().contains(n) {
            Some(self.tag_map()[n])
        } else {
            None
        }
    }

    pub closed spec fn wf(self) -> bool {
        &&& self.pool.wf()
        &&& self.masks@.len() == self.pool.issued()
        &&& forall|f: int|
            0 <= f < self.stores@.len() ==> (#[trigger] self.stores@[f]).wf()
                && self.stores@[f].spec_family() == f
        &&& forall|e: int, f: int|
            #![trigger mask_view(self.masks@[e]).contains(f)]
            #![trigger self.stores@[f].contents().dom().contains(e)]
            0 <= e < self.masks@.len() ==> (mask_view(self.masks@[e]).contains(f) <==> (0 <= f
                < self.stores@.len() && self.stores@[f].contents().dom().contains(e)))
        &&& forall|f: int, e: int|
            0 <= f < self.stores@.len() && (#[trigger] self.stores@[f].contents().dom().contains(
                e,
            )) ==> 0 <= e < self.masks@.len()
        &&& forall|e: int, f: int|
            0 <= e < self.masks@.len() && !self.pool.is_live(e) ==> !(
            #[trigger] mask_view(self.masks@[e]).contains(f))
        &&& forall|j: int, k: int|
            0 <= j < k < self.tags@.len() ==> self.tags@[j].0@ != self.tags@[k].0@
                && self.tags@[j].1 != self.tags@[k].1
        &&& forall|j: int| 0 <= j < self.tags@.len() ==> self.pool.is_live(
            #[trigger] self.tags@[j].1 as int,
        )
    }

    /// Each tag-table entry is what the tag map reports for its name.
    proof fn lemma_tag_index(self, j: int)
        requires
            forall|j1: int, k1: int|
                0 <= j1 < k1 < self.tags@.len() ==> self.tags@[j1].0@ != self.tags@[k1].0@,
            0 <= j < self.tags@.len(),
        ensures
            self.tag_map().dom().contains(self.tags@[j].0@),
            self.tag_map()[self.tags@[j].0@] == self.tags@[j].1 as int,
    {
        let n = self.tags@[j].0@;
        assert(0 <= j < self.tags@.len() && self.tags@[j].0@ == n);
        let k = choose|k: int| 0 <= k < self.tags@.len() && (#[trigger] self.tags@[k]).0@ == n;
        if k != j {
            if k < j {
                assert(self.tags@[k].0@ != self.tags@[j].0@);
            } else {
                assert(self.tags@[j].0@ != self.tags@[k].0@);
            }
        }
    }

    /// An empty world: no entities, no families, no tags.
    pub fn new() -> (world: World<C>)
        ensures
            world.wf(),
            world.num_families() == 0,
            forall|e: int| !world.is_live(e),
            world.tag_map() =~= Map::<Seq<char>, int>::empty(),
    {
        World { pool: IdPool::new(), masks: Vec::new(), stores: Vec::new(), tags: Vec::new() }
    }

    /// Registers a new component family and returns its number.  Families
    /// are assigned densely, in registration order.
    pub fn register(&mut self) -> (family: Family)
        requires
            old(self).wf(),
        ensures
            final(self).wf(),
            family as int == old(self).num_families(),
            final(self).num_families() == old(self).num_families() + 1,
            final(self).components(family as int) =~= Map::<int, C>::empty(),
            forall|f: int|
                0 <= f < old(self).num_families() ==> final(self).components(f) == old(
                    self,
                ).components(f),
            forall|e: int| final(self).is_live(e) == old(self).is_live(e),
            final(self).tag_map() == old(self).tag_map(),
            forall|e: int| 0 <= e < old(self).num_issued() ==> final(self).mask_of(e) == old(
                self,
            ).mask_of(e),
    {
        let family = self.stores.len();
        let store = InnerComponentStore::<C>::new(family);
        self.stores.push(store);
        family
    }

    /// Whether the entity has been created and not destroyed since.
    pub fn alive(&self, entity: Entity) -> (r: bool)
        ensures
            r == self.is_live(entity as int),
    {
        self.pool.is_reserved(entity)
    }

    /// Creates a new entity.  A destroyed entity's id may be reused, but
    /// the new entity starts with no components and no tag.
    pub fn create(&mut self) -> (entity: Entity)
        requires
            old(self).wf(),
        ensures
            final(self).wf(),
            !old(self).is_live(entity as int),
            final(self).is_live(entity as int),
            forall|e: int| e != entity as int ==> final(self).is_live(e) == old(self).is_live(e),
            final(self).num_families() == old(self).num_families(),
            forall|f: int| final(self).components(f) == old(self).components(f),
            final(self).tag_map() == old(self).tag_map(),
            forall|f: int| !final(self).spec_has(entity as int, f),
            final(self).mask_of(entity as int) =~= Set::<int>::empty(),
            forall|n: Seq<char>|
                #[trigger] final(self).tag_map().dom().contains(n) ==> final(self).tag_map()[n]
                    != entity as int,
    {
        let entity = self.pool.reserve();
        if entity < self.masks.len() {
            let m = &mut self.masks[entity];
            m.clear();
        } else {
            self.masks.push(Mask::new());
        }
        proof {
            assert forall|n: Seq<char>| #[trigger] self.tag_map().dom().contains(n) implies
                self.tag_map()[n] != entity as int by {
                let j = choose|j: int|
                    0 <= j < self.tags@.len() && (#[trigger] self.tags@[j]).0@ == n;
                self.lemma_tag_index(j);
                assert(old(self).pool.is_live(self.tags@[j].1 as int));
            }
        }
        entity
    }

    /// Removing one tag-table entry removes exactly its name from the tag
    /// map.
    proof fn lemma_tags_removed(pre: World<C>, post: World<C>, i: int)
        requires
            forall|j: int, k: int|
                0 <= j < k < pre.tags@.len() ==> pre.tags@[j].0@ != pre.tags@[k].0@,
            0 <= i < pre.tags@.len(),
            post.tags@ == pre.tags@.remove(i),
        ensures
            forall|n: Seq<char>|
                #[trigger] post.tag_map().dom().contains(n) <==> (pre.tag_map().dom().contains(n)
                    && n != pre.tags@[i].0@),
            forall|n: Seq<char>|
                #[trigger] post.tag_map().dom().contains(n) ==> post.tag_map()[n]
                    == pre.tag_map()[n],
            pre.tag_map().dom().contains(pre.tags@[i].0@),
            pre.tag_map()[pre.tags@[i].0@] == pre.tags@[i].1 as int,
    {
        pre.tags@.remove_ensures(i);
        pre.lemma_tag_index(i);
        assert forall|j: int, k: int|
            0 <= j < k < post.tags@.len() implies post.tags@[j].0@ != post.tags@[k].0@ by {
            let j1: int = if j < i {
                j
            } else {
                j + 1
            };
            let k1: int = if k < i {
                k
            } else {
                k + 1
            };
            assert(post.tags@[j] == pre.tags@[j1]);
            assert(post.tags@[k] == pre.tags@[k1]);
        }
        assert forall|n: Seq<char>| #[trigger] post.tag_map().dom().contains(n) implies pre.tag_map().dom().contains(
            n,
        ) && n != pre.tags@[i].0@ by {
            let j2 = choose|j: int|
                0 <= j < post.tags@.len() && (#[trigger] post.tags@[j]).0@ == n;
            let j1: int = if j2 < i {
                j2
            } else {
                j2 + 1
            };
            assert(pre.tags@[j1].0@ == n);
            if j1 < i {
                assert(pre.tags@[j1].0@ != pre.tags@[i].0@);
            } else {
                assert(pre.tags@[i].0@ != pre.tags@[j1].0@);
            }
        }
        assert forall|n: Seq<char>|
            pre.tag_map().dom().contains(n) && n != pre.tags@[i].0@ implies #[trigger] post.tag_map().dom().contains(
            n,
        ) by {
            let j1 = choose|j: int| 0 <= j < pre.tags@.len() && (#[trigger] pre.tags@[j]).0@ == n;
            let j2: int = if j1 < i {
                j1
            } else {
                j1 - 1
            };
            assert(post.tags@[j2].0@ == n);
        }
        assert forall|n: Seq<char>| #[trigger] post.tag_map().dom().contains(n) implies post.tag_map()[n]
            == pre.tag_map()[n] by {
            let k2 = choose|j: int|
                0 <= j < post.tags@.len() && (#[trigger] post.tags@[j]).0@ == n;
            let k1: int = if k2 < i {
                k2
            } else {
                k2 + 1
            };
            assert(pre.tags@[k1] == post.tags@[k2]);
            post.lemma_tag_index(k2);
            pre.lemma_tag_index(k1);
        }
    }

    /// Appending one tag-table entry adds exactly its name to the tag map.
    proof fn lemma_tags_pushed(pre: World<C>, post: World<C>, pair: (String, Entity))
        requires
            forall|j: int, k: int|
                0 <= j < k < pre.tags@.len() ==> pre.tags@[j].0@ != pre.tags@[k].0@,
            forall|j: int| 0 <= j < pre.tags@.len() ==> (#[trigger] pre.tags@[j]).0@ != pair.0@,
            post.tags@ == pre.tags@.push(pair),
        ensures
            forall|n: Seq<char>|
                #[trigger] post.tag_map().dom().contains(n) <==> (pre.tag_map().dom().contains(n)
                    || n == pair.0@),
            post.tag_map()[pair.0@] == pair.1 as int,
            forall|n: Seq<char>|
                #[trigger] post.tag_map().dom().contains(n) && n != pair.0@ ==> post.tag_map()[n]
                    == pre.tag_map()[n],
    {
        assert forall|j: int, k: int|
            0 <= j < k < post.tags@.len() implies post.tags@[j].0@ != post.tags@[k].0@ by {
            if k < post.tags@.len() - 1 {
                assert(post.tags@[j] == pre.tags@[j]);
                assert(post.tags@[k] == pre.tags@[k]);
            } else {
                assert(post.tags@[j] == pre.tags@[j]);
                assert(post.tags@[k] == pair);
            }
        }
        assert(post.tags@[post.tags@.len() - 1] == pair);
        post.lemma_tag_index(post.tags@.len() - 1);
        assert forall|n: Seq<char>| #[trigger] post.tag_map().dom().contains(n) implies (
        pre.tag_map().dom().contains(n) || n == pair.0@) by {
            let j2 = choose|j: int|
                0 <= j < post.tags@.len() && (#[trigger] post.tags@[j]).0@ == n;
            if j2 < post.tags@.len() - 1 {
                assert(pre.tags@[j2].0@ == n);
            }
        }
        assert forall|n: Seq<char>| pre.tag_map().dom().contains(n) implies #[trigger] post.tag_map().dom().contains(
            n,
        ) by {
            let j1 = choose|j: int| 0 <= j < pre.tags@.len() && (#[trigger] pre.tags@[j]).0@ == n;
            assert(post.tags@[j1].0@ == n);
        }
        assert forall|n: Seq<char>|
            #[trigger] post.tag_map().dom().contains(n) && n != pair.0@ implies post.tag_map()[n]
            == pre.tag_map()[n] by {
            let k2 = choose|j: int|
                0 <= j < post.tags@.len() && (#[trigger] post.tags@[j]).0@ == n;
            assert(k2 < post.tags@.len() - 1);
            assert(pre.tags@[k2] == post.tags@[k2]);
            post.lemma_tag_index(k2);
            pre.lemma_tag_index(k2);
        }
    }

    /// The index of the tag-table entry owned by an entity, if any.
    fn find_tag_by_entity(&self, entity: Entity) -> (r: Option<usize>)
        ensures
            r matches Some(i) ==> (i as int) < self.tags@.len() && self.tags@[i as int].1
                == entity,
            r is None ==> forall|j: int|
                0 <= j < self.tags@.len() ==> (#[trigger] self.tags@[j]).1 != entity,
    {
        let len = self.tags.len();
        let mut i: usize = 0;
        while i < len
            invariant
                len == self.tags@.len(),
                i <= len,
                forall|j: int| 0 <= j < i ==> (#[trigger] self.tags@[j]).1 != entity,
            decreases len - i,
        {
            if self.tags[i].1 == entity {
                return Some(i);
            }
            i += 1;
        }
        None
    }

    /// The index of the tag-table entry with the given name, if any.
    fn find_tag_by_name(&self, name: &String) -> (r: Option<usize>)
        ensures
            r matches Some(i) ==> (i as int) < self.tags@.len() && self.tags@[i as int].0@
                == name@,
            r is None ==> forall|j: int|
                0 <= j < self.tags@.len() ==> (#[trigger] self.tags@[j]).0@ != name@,
    {
        let len = self.tags.len();
        let mut i: usize = 0;
        while i < len
            invariant
                len == self.tags@.len(),
                i <= len,
                forall|j: int| 0 <= j < i ==> (#[trigger] self.tags@[j]).0@ != name@,
            decreases len - i,
        {
            if self.tags[i].0 == *name {
                return Some(i);
            }
            i += 1;
        }
        None
    }

    /// Assigns a tag to a live entity so it can be looked up by name.
    /// The entity's previous tag, if any, is replaced, and a name already
    /// borne by another entity is taken from it: last write wins, and the
    /// name-to-entity mapping stays one-to-one.  Tagging an entity that is
    /// not live is a no-op.
    #[verifier::rlimit(100)]
    #[verifier::spinoff_prover]
    pub fn tag(&mut self, entity: Entity, name: &str)
        requires
            old(self).wf(),
        ensures
            final(self).wf(),
            !old(self).is_live(entity as int) ==> *final(self) == *old(self),
            old(self).is_live(entity as int) ==> {
                &&& final(self).tag_map().dom().contains(name@)
                &&& final(self).tag_map()[name@] == entity as int
                &&& forall|n: Seq<char>|
                    n != name@ ==> (final(self).tag_map().dom().contains(n) <==> (old(
                        self,
                    ).tag_map().dom().contains(n) && old(self).tag_map()[n] != entity as int))
                &&& forall|n: Seq<char>|
                    n != name@ && final(self).tag_map().dom().contains(n) ==> final(self).tag_map()[n]
                        == old(self).tag_map()[n]
            },
            forall|e: int| final(self).is_live(e) == old(self).is_live(e),
            final(self).num_families() == old(self).num_families(),
            forall|f: int| final(self).components(f) == old(self).components(f),
            forall|e: int| 0 <= e < old(self).num_issued() ==> final(self).mask_of(e) == old(
                self,
            ).mask_of(e),
    {
        if !self.alive(entity) {
            return ;
        }
        let owned = name.to_owned();
        let ghost w0 = *self;
        match self.find_tag_by_entity(entity) {
            Some(i) => {
                self.tags.remove(i);
                proof {
                    Self::lemma_tags_removed(w0, *self, i as int);
                }
            },
            None => {},
        }
        let ghost w1 = *self;
        match self.find_tag_by_name(&owned) {
            Some(i) => {
                self.tags.remove(i);
                proof {
                    Self::lemma_tags_removed(w1, *self, i as int);
                }
            },
            None => {},
        }
        let ghost w2 = *self;
        self.tags.push((owned, entity));
        proof {
            Self::lemma_tags_pushed(w2, *self, ((*self).tags@.last()));
        }
    }

    /// Removes the entity's tag, if it has one.
    pub fn untag(&mut self, entity: Entity)
        requires
            old(self).wf(),
        ensures
            final(self).wf(),
            forall|n: Seq<char>|
                #[trigger] final(self).tag_map().dom().contains(n) <==> (old(
                    self,
                ).tag_map().dom().contains(n) && old(self).tag_map()[n] != entity as int),
            forall|n: Seq<char>|
                #[trigger] final(self).tag_map().dom().contains(n) ==> final(self).tag_map()[n]
                    == old(self).tag_map()[n],
            forall|e: int| final(self).is_live(e) == old(self).is_live(e),
            final(self).num_families() == old(self).num_families(),
            forall|f: int| final(self).components(f) == old(self).components(f),
            forall|e: int| 0 <= e < old(self).num_issued() ==> final(self).mask_of(e) == old(
                self,
            ).mask_of(e),
    {
        let ghost w0 = *self;
        match self.find_tag_by_entity(entity) {
            Some(i) => {
                proof {
                    w0.lemma_tag_index(i as int);
                }
                self.tags.remove(i);
                proof {
                    Self::lemma_tags_removed(w0, *self, i as int);
                    assert forall|n: Seq<char>| #[trigger] w0.tag_map().dom().contains(n)
                        && w0.tag_map()[n] == entity as int implies n == w0.tags@[i as int].0@ by {
                        let j = choose|j: int|
                            0 <= j < w0.tags@.len() && (#[trigger] w0.tags@[j]).0@ == n;
                        w0.lemma_tag_index(j);
                        if j != i as int {
                            if j < i as int {
                                assert(w0.tags@[j].1 != w0.tags@[i as int].1);
                            } else {
                                assert(w0.tags@[i as int].1 != w0.tags@[j].1);
                            }
                        }
                    }
                }
            },
            None => {
                proof {
                    assert forall|n: Seq<char>| #[trigger] self.tag_map().dom().contains(n) implies
                        self.tag_map()[n] != entity as int by {
                        let j = choose|j: int|
                            0 <= j < self.tags@.len() && (#[trigger] self.tags@[j]).0@ == n;
                        self.lemma_tag_index(j);
                    }
                }
            },
        }
    }

    /// The entity bearing a tag, if any.
    pub fn lookup(&self, name: &str) -> (r: Option<Entity>)
        requires
            self.wf(),
        ensures
            r is Some <==> self.tag_map().dom().contains(name@),
            r matches Some(e) ==> self.spec_lookup(name@) == Some(e as int),
            r is None ==> self.spec_lookup(name@) is None,
    {
        let owned = name.to_owned();
        match self.find_tag_by_name(&owned) {
            Some(i) => {
                proof {
                    self.lemma_tag_index(i as int);
                }
                Some(self.tags[i].1)
            },
            None => {
                proof {
                    if self.tag_map().dom().contains(name@) {
                        let j = choose|j: int|
                            0 <= j < self.tags@.len() && (#[trigger] self.tags@[j]).0@ == name@;
                    }
                }
                None
            },
        }
    }

    /// Attaches a component of the given family to a live entity, setting
    /// the entity's mask bit and then storing the value, and overwriting
    /// any component of that family the entity already had.  Attaching to
    /// an entity that is not live is a no-op.
    pub fn add(&mut self, entity: Entity, family: Family, component: C)
        requires
            old(self).wf(),
            (family as int) < old(self).num_families(),
        ensures
            final(self).wf(),
            !old(self).is_live(entity as int) ==> *final(self) == *old(self),
            old(self).is_live(entity as int) ==> {
                &&& final(self).components(family as int) =~= old(self).components(
                    family as int,
                ).insert(entity as int, component)
                &&& final(self).spec_has(entity as int, family as int)
            },
            forall|f: int|
                0 <= f < old(self).num_families() && f != family as int ==> final(self).components(
                    f,
                ) == old(self).components(f),
            forall|e: int| final(self).is_live(e) == old(self).is_live(e),
            final(self).num_families() == old(self).num_families(),
            final(self).tag_map() == old(self).tag_map(),
    {
        if !self.alive(entity) {
            return ;
        }
        let m = &mut self.masks[entity];
        m.insert(family);
        let st = &mut self.stores[family];
        st.add(entity, component);
    }

    /// Detaches the component of the given family from an entity, clearing
    /// the store entry and then the entity's mask bit.  Detaching from an
    /// entity that is not live, or one that has no such component, is a
    /// no-op.
    pub fn remove(&mut self, entity: Entity, family: Family)
        requires
            old(self).wf(),
            (family as int) < old(self).num_families(),
        ensures
            final(self).wf(),
            !old(self).is_live(entity as int) ==> *final(self) == *old(self),
            final(self).components(family as int) =~= old(self).components(family as int).remove(
                entity as int,
            ),
            !final(self).spec_has(entity as int, family as int),
            forall|f: int|
                0 <= f < old(self).num_families() && f != family as int ==> final(self).components(
                    f,
                ) == old(self).components(f),
            forall|e: int| final(self).is_live(e) == old(self).is_live(e),
            final(self).num_families() == old(self).num_families(),
            final(self).tag_map() == old(self).tag_map(),
    {
        if !self.alive(entity) {
            proof {
                assert(old(self).components(family as int).remove(entity as int) =~= old(
                    self,
                ).components(family as int));
            }
            return ;
        }
        let st = &mut self.stores[family];
        st.remove(entity);
        let m = &mut self.masks[entity];
        m.remove(family);
    }

    /// Whether a live entity carries a component of the given family.
    /// Answers by testing the entity's mask bit alone; entities that are
    /// not live carry nothing.
    pub fn has(&self, entity: Entity, family: Family) -> (r: bool)
        requires
            self.wf(),
        ensures
            r == self.spec_has(entity as int, family as int),
    {
        if !self.alive(entity) {
            false
        } else {
            self.masks[entity].contains(family)
        }
    }

    /// The component of the given family carried by an entity, if any.
    pub fn get(&self, entity: Entity, family: Family) -> (r: Option<&C>)
        requires
            self.wf(),
            (family as int) < self.num_families(),
        ensures
            r is Some <==> self.spec_has(entity as int, family as int),
            r matches Some(v) ==> *v == self.components(family as int)[entity as int],
    {
        proof {
            if self.components(family as int).dom().contains(entity as int) {
                assert(self.mask_of(entity as int).contains(family as int));
            }
        }
        self.stores[family].get(entity)
    }

    /// A mutable reference to the component of the given family carried by
    /// an entity.
    pub fn get_mut(&mut self, entity: Entity, family: Family) -> (r: &mut C)
        requires
            old(self).wf(),
            old(self).spec_has(entity as int, family as int),
        ensures
            final(self).wf(),
            *r == old(self).components(family as int)[entity as int],
            final(self).components(family as int) =~= old(self).components(family as int).insert(
                entity as int,
                *final(r),
            ),
            forall|f: int|
                0 <= f < old(self).num_families() && f != family as int ==> final(self).components(
                    f,
                ) == old(self).components(f),
            forall|e: int| final(self).is_live(e) == old(self).is_live(e),
            final(self).num_families() == old(self).num_families(),
            final(self).tag_map() == old(self).tag_map(),
            forall|e: int, f: int|
                final(self).spec_has(e, f) == old(self).spec_has(e, f),
    {
        let st = &mut self.stores[family];
        st.get_mut(entity)
    }

    /// A live entity's mask and its component stores agree: the entity
    /// carries a component of a family exactly when its mask holds that
    /// family's bit.
    pub proof fn lemma_mask_store_consistent(self, e: int, f: int)
        requires
            self.wf(),
            self.is_live(e),
        ensures
            self.mask_of(e).contains(f) <==> self.spec_has(e, f),
    {
        assert(0 <= e < self.masks@.len());
    }

    /// A live entity's mask is a superset of a filter's required families
    /// exactly when the entity carries a component of every required
    /// family.  Together with the contract of `filter`, this says the
    /// result of a query is exactly the set of live entities carrying all
    /// required components.
    pub proof fn lemma_filter_matches(self, fil: ComponentFilter, e: int)
        requires
            self.wf(),
            self.is_live(e),
        ensures
            fil.families().subset_of(self.mask_of(e)) <==> (forall|f: int|
                fil.families().contains(f) ==> self.spec_has(e, f)),
    {
        assert(0 <= e < self.masks@.len());
        if fil.families().subset_of(self.mask_of(e)) {
            assert forall|f: int| fil.families().contains(f) implies self.spec_has(e, f) by {
                assert(self.mask_of(e).contains(f));
            }
        }
        if forall|f: int| fil.families().contains(f) ==> self.spec_has(e, f) {
            assert forall|f: int| fil.families().contains(f) implies self.mask_of(e).contains(
                f,
            ) by {
                assert(self.spec_has(e, f));
            }
        }
    }

    /// Destroys a live entity: removes every component recorded in its
    /// mask, clears its tag and its mask, and releases its id for reuse.
    /// Destroying an entity that is not live is a no-op.
    pub fn destroy(&mut self, entity: Entity)
        requires
            old(self).wf(),
        ensures
            final(self).wf(),
            !old(self).is_live(entity as int) ==> *final(self) == *old(self),
            !final(self).is_live(entity as int),
            forall|e: int| e != entity as int ==> final(self).is_live(e) == old(self).is_live(e),
            forall|f: int| !final(self).spec_has(entity as int, f),
            forall|f: int|
                0 <= f < old(self).num_families() ==> final(self).components(f) =~= old(
                    self,
                ).components(f).remove(entity as int),
            final(self).num_families() == old(self).num_families(),
            forall|n: Seq<char>|
                #[trigger] final(self).tag_map().dom().contains(n) <==> (old(
                    self,
                ).tag_map().dom().contains(n) && old(self).tag_map()[n] != entity as int),
            forall|n: Seq<char>|
                #[trigger] final(self).tag_map().dom().contains(n) ==> final(self).tag_map()[n]
                    == old(self).tag_map()[n],
    {
        if !self.alive(entity) {
            proof {
                assert forall|f: int|
                    0 <= f < self.num_families() implies self.components(f).remove(entity as int)
                    =~= self.components(f) by {
                    assert(!self.components(f).dom().contains(entity as int));
                }
                assert forall|n: Seq<char>| #[trigger] self.tag_map().dom().contains(n) implies
                    self.tag_map()[n] != entity as int by {
                    let j = choose|j: int|
                        0 <= j < self.tags@.len() && (#[trigger] self.tags@[j]).0@ == n;
                    self.lemma_tag_index(j);
                }
            }
            return ;
        }
        self.untag(entity);
        proof {
            assert forall|j: int| 0 <= j < self.tags@.len() implies (#[trigger] self.tags@[j]).1
                != entity by {
                self.lemma_tag_index(j);
            }
        }
        let ghost w1 = *self;
        self.pool.release(entity);
        let ghost snap = *self;
        let fams = self.masks[entity].members();
        let n = fams.len();
        let mut i: usize = 0;
        while i < n
            invariant
                w1.wf(),
                n == fams@.len(),
                i <= n,
                (entity as int) < w1.masks@.len(),
                w1.pool.is_live(entity as int),
                forall|j: int|
                    0 <= j < fams@.len() ==> w1.mask_of(entity as int).contains(
                        #[trigger] fams@[j] as int,
                    ),
                forall|j: int, k: int| 0 <= j < k < fams@.len() ==> fams@[j] != fams@[k],
                forall|x: int|
                    #[trigger] w1.mask_of(entity as int).contains(x) ==> exists|j: int|
                        0 <= j < fams@.len() && fams@[j] as int == x,
                self.pool == snap.pool,
                snap.pool.wf(),
                snap.pool.issued() == w1.pool.issued(),
                !snap.pool.is_live(entity as int),
                forall|e: int|
                    e != entity as int ==> snap.pool.is_live(e) == w1.pool.is_live(e),
                self.masks@ == w1.masks@,
                self.tags@ == w1.tags@,
                self.stores@.len() == w1.stores@.len(),
                forall|f: int|
                    0 <= f < self.stores@.len() ==> (#[trigger] self.stores@[f]).wf()
                        && self.stores@[f].spec_family() == f,
                forall|f: int|
                    0 <= f < self.stores@.len() && (exists|j: int|
                        0 <= j < i && fams@[j] as int == f) ==> (
                    #[trigger] self.stores@[f].contents()) =~= w1.stores@[f].contents().remove(
                        entity as int,
                    ),
                forall|f: int|
                    0 <= f < self.stores@.len() && !(exists|j: int|
                        0 <= j < i && fams@[j] as int == f) ==> #[trigger] self.stores@[f]
                        == w1.stores@[f],
            decreases n - i,
        {
            let f = fams[i];
            proof {
                assert(w1.mask_of(entity as int).contains(f as int));
                assert(mask_view(w1.masks@[entity as int]).contains(f as int));
            }
            let st = &mut self.stores[f];
            st.remove(entity);
            proof {
                assert forall|g: int|
                    0 <= g < self.stores@.len() && (exists|j: int|
                        0 <= j < i + 1 && fams@[j] as int == g) implies (
                #[trigger] self.stores@[g].contents()) =~= w1.stores@[g].contents().remove(
                    entity as int,
                ) by {
                    let j = choose|j: int| 0 <= j < i + 1 && fams@[j] as int == g;
                    if j < i {
                        assert(fams@[j] != fams@[i as int]);
                    }
                }
            }
            i += 1;
        }
        let m = &mut self.masks[entity];
        m.clear();
        proof {
            assert forall|f: int|
                0 <= f < w1.num_families() implies #[trigger] self.components(f)
                =~= w1.components(f).remove(entity as int) by {
                if w1.mask_of(entity as int).contains(f) {
                } else {
                    assert(!(mask_view(w1.masks@[entity as int]).contains(f)));
                    assert(!w1.stores@[f].contents().dom().contains(entity as int));
                    assert(self.stores@[f] == w1.stores@[f]);
                    assert(self.components(f) =~= w1.components(f).remove(entity as int));
                }
            }
            assert(self.tag_map() =~= w1.tag_map());
            assert forall|f: int|
                0 <= f < w1.num_families() implies #[trigger] self.components(f)
                =~= old(self).components(f).remove(entity as int) by {
                assert(w1.components(f) == old(self).components(f));
            }
        }
    }

    /// Every live entity whose mask carries all of the filter's required
    /// families, in ascending id order.  The scan is repeated on every
    /// call; nothing is cached.
    pub fn filter(&self, filter: &ComponentFilter) -> (result: Vec<Entity>)
        requires
            self.wf(),
        ensures
            forall|j: int, k: int| 0 <= j < k < result@.len() ==> result@[j] < result@[k],
            forall|j: int|
                0 <= j < result@.len() ==> self.is_live(#[trigger] result@[j] as int)
                    && filter.families().subset_of(self.mask_of(result@[j] as int)),
            forall|e: int|
                self.is_live(e) && filter.families().subset_of(#[trigger] self.mask_of(e))
                    ==> exists|j: int| 0 <= j < result@.len() && result@[j] as int == e,
    {
        let live = self.pool.reserved();
        let mut result: Vec<Entity> = Vec::new();
        let n = live.len();
        let mut i: usize = 0;
        while i < n
            invariant
                self.wf(),
                n == live@.len(),
                i <= n,
                forall|j: int| 0 <= j < live@.len() ==> self.pool.is_live(
                    #[trigger] live@[j] as int,
                ),
                forall|j: int, k: int| 0 <= j < k < live@.len() ==> live@[j] < live@[k],
                forall|e: int|
                    #[trigger] self.pool.is_live(e) ==> exists|j: int|
                        0 <= j < live@.len() && live@[j] == e,
                forall|j: int, k: int| 0 <= j < k < result@.len() ==> result@[j] < result@[k],
                forall|k: int|
                    0 <= k < result@.len() ==> self.is_live(#[trigger] result@[k] as int)
                        && filter.families().subset_of(self.mask_of(result@[k] as int)),
                forall|k: int|
                    0 <= k < result@.len() ==> exists|j: int|
                        0 <= j < i && live@[j] == #[trigger] result@[k],
                forall|e: int|
                    self.is_live(e) && filter.families().subset_of(#[trigger] self.mask_of(e)) && (
                    exists|j: int| 0 <= j < i && live@[j] as int == e) ==> exists|k: int|
                        0 <= k < result@.len() && result@[k] as int == e,
            decreases n - i,
        {
            let e = live[i];
            let ghost prev = result@;
            if filter.mask.is_subset(&self.masks[e]) {
                proof {
                    assert forall|k: int| 0 <= k < result@.len() implies result@[k] < e by {
                        let j = choose|j: int| 0 <= j < i && live@[j] == #[trigger] result@[k];
                        assert(live@[j] < live@[i as int]);
                    }
                }
                result.push(e);
            }
            proof {
                assert forall|x: int|
                    self.is_live(x) && filter.families().subset_of(#[trigger] self.mask_of(x)) && (
                    exists|j: int| 0 <= j < i + 1 && live@[j] as int == x) implies exists|k: int|
                    0 <= k < result@.len() && result@[k] as int == x by {
                    let j = choose|j: int| 0 <= j < i + 1 && live@[j] as int == x;
                    if j < i {
                        let k = choose|k: int| 0 <= k < prev.len() && prev[k] as int == x;
                        assert(result@[k] as int == x);
                    } else {
                        assert(result@[result@.len() - 1] as int == x);
                    }
                }
            }
            i += 1;
        }
        result
    }
}

} // verus!
