//! Families: small integers that stand for concrete component and event
//! types.  Family numbers are assigned densely at registration time, in
//! registration order, starting right after the reserved halt family.

use vstd::prelude::*;

verus! {

/// A small integer identifying one concrete component or event type.
/// Family `0` is reserved for the built-in halt event.
pub type Family = usize;

/// Implemented by application component and event values: reports the
/// family of the concrete type a value belongs to.  Repeated calls on
/// values of the same concrete type must return the same number, and
/// distinct registered types must never collide.
pub trait FamilyMember {
    fn family(&self) -> Family;
}

/// Implemented by stores that serve a single family.
pub trait FamilyStore {
    fn family(&self) -> Family;
}

} // verus!
