//! Bit masks over family numbers, backed by `bit_set::BitSet`.
//!
//! `bit_set::BitSet` cannot be declared to the verifier directly (its type
//! parameter is bounded by an outside trait), so the set is held in a
//! private field of [`Mask`], an opaque struct.  The set of bits a mask
//! holds is modelled by the uninterpreted view [`mask_view`]; every
//! operation of the outside crate that the runtime relies on is wrapped
//! here with a contract over that view.

use vstd::prelude::*;

verus! {

/// A growable set of small bit positions; one per live entity (recording
/// which component families are attached) and one per component filter
/// (recording which families are required).
#[verifier::external_body]
pub struct Mask {
    bits: bit_set::BitSet,
}

/// The set of bit positions held by a [`Mask`].
pub uninterp spec fn mask_view(s: Mask) -> Set<int>;

impl Mask {
    /// Relies on `bit_set::BitSet::new`: a freshly created set holds no
    /// bits.
    #[verifier::external_body]
    pub fn new() -> (s: Mask)
        ensures
            mask_view(s) =~= Set::<int>::empty(),
    {
        Mask { bits: bit_set::BitSet::new() }
    }

    /// Relies on `bit_set::BitSet::insert`: sets one bit, growing the
    /// backing storage as needed, and reports whether the bit was newly
    /// set.
    #[verifier::external_body]
    pub fn insert(&mut self, value: usize) -> (fresh: bool)
        ensures
            mask_view(*final(self)) =~= mask_view(*old(self)).insert(value as int),
            fresh == !mask_view(*old(self)).contains(value as int),
    {
        self.bits.insert(value)
    }

    /// Relies on `bit_set::BitSet::remove`: clears one bit and reports
    /// whether it was set.
    #[verifier::external_body]
    pub fn remove(&mut self, value: usize) -> (was: bool)
        ensures
            mask_view(*final(self)) =~= mask_view(*old(self)).remove(value as int),
            was == mask_view(*old(self)).contains(value as int),
    {
        self.bits.remove(value)
    }

    /// Relies on `bit_set::BitSet::contains`: tests one bit.
    #[verifier::external_body]
    pub fn contains(&self, value: usize) -> (r: bool)
        ensures
            r == mask_view(*self).contains(value as int),
    {
        self.bits.contains(value)
    }

    /// Relies on `bit_set::BitSet::is_subset`: every bit of `self` is also
    /// set in `other`.
    #[verifier::external_body]
    pub fn is_subset(&self, other: &Mask) -> (r: bool)
        ensures
            r == mask_view(*self).subset_of(mask_view(*other)),
    {
        self.bits.is_subset(&other.bits)
    }

    /// Relies on `bit_set::BitSet::make_empty`: clears every bit.
    #[verifier::external_body]
    pub fn clear(&mut self)
        ensures
            mask_view(*final(self)) =~= Set::<int>::empty(),
    {
        self.bits.make_empty()
    }

    /// Relies on `bit_set::BitSet::iter`: yields each set bit exactly
    /// once.
    #[verifier::external_body]
    pub fn members(&self) -> (v: Vec<usize>)
        ensures
            forall|j: int| 0 <= j < v@.len() ==> mask_view(*self).contains(#[trigger] v@[j] as int),
            forall|j: int, k: int| 0 <= j < k < v@.len() ==> v@[j] != v@[k],
            forall|x: int|
                #[trigger] mask_view(*self).contains(x) ==> exists|j: int|
                    0 <= j < v@.len() && v@[j] as int == x,
    {
        self.bits.iter().collect()
    }
}

} // verus!
