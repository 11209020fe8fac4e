//! Sparse entity-to-slot indexes, backed by `vec_map::VecMap`.
//!
//! Each component family keeps one of these maps from an entity id to the
//! slot of that entity's component in the family's dense pool.  The
//! contents are modelled by the uninterpreted view [`slot_map_view`]; every
//! operation of the outside crate that the runtime relies on is wrapped
//! here with a contract over that view.

use vstd::prelude::*;

verus! {

#[verifier::external_type_specification]
#[verifier::external_body]
#[verifier::reject_recursive_types(V)]
pub struct ExVecMap<V>(vec_map::VecMap<V>);

/// A sparse map from entity id to dense-pool slot.
pub type SlotTable = vec_map::VecMap<usize>;

/// The key-to-value map held by a [`SlotTable`].
pub uninterp spec fn slot_map_view(m: SlotTable) -> Map<int, int>;

/// The view of a slot table with no bindings at all.
pub open spec fn empty_slots() -> Map<int, int> {
    Map::empty()
}

/// Relies on `vec_map::VecMap::new`: a freshly created map is empty.
#[verifier::external_body]
pub(crate) fn slot_map_new() -> (r: SlotTable)
    ensures
        slot_map_view(r) =~= empty_slots(),
{
    vec_map::VecMap::new()
}

/// Relies on `vec_map::VecMap::insert`: binds `key` to `value`, returning
/// the value the key was bound to before, if any.
#[verifier::external_body]
pub(crate) fn slot_map_insert(m: &mut SlotTable, key: usize, value: usize) -> (prev:
    Option<usize>)
    ensures
        slot_map_view(*final(m)) =~= slot_map_view(*old(m)).insert(key as int, value as int),
        prev is Some <==> slot_map_view(*old(m)).dom().contains(key as int),
        prev matches Some(p) ==> slot_map_view(*old(m))[key as int] == p as int,
{
    m.insert(key, value)
}

/// Relies on `vec_map::VecMap::get`: looks a key up without changing the
/// map.
#[verifier::external_body]
pub(crate) fn slot_map_get(m: &SlotTable, key: usize) -> (r: Option<usize>)
    ensures
        r is Some <==> slot_map_view(*m).dom().contains(key as int),
        r matches Some(v) ==> slot_map_view(*m)[key as int] == v as int,
{
    m.get(key).copied()
}

/// Relies on `vec_map::VecMap::remove`: unbinds a key, returning the value
/// it was bound to, if any.
#[verifier::external_body]
pub(crate) fn slot_map_remove(m: &mut SlotTable, key: usize) -> (prev: Option<usize>)
    ensures
        slot_map_view(*final(m)) =~= slot_map_view(*old(m)).remove(key as int),
        prev is Some <==> slot_map_view(*old(m)).dom().contains(key as int),
        prev matches Some(p) ==> slot_map_view(*old(m))[key as int] == p as int,
{
    m.remove(key)
}

} // verus!
