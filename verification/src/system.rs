//! The system trait: one unit of per-tick update logic.

use vstd::prelude::*;
use crate::event::{EventEmitter, EventQueue};
use crate::world::World;

verus! {

/// Implemented by every system driven by a [`crate::simulation::Simulation`].
///
/// Each tick the simulation calls `update` once per system, in
/// registration order, handing it the world, the queue of events visible
/// this tick (everything merged so far and not yet flushed), a fresh
/// emitter for new events, and the elapsed time in milliseconds.
pub trait System<C, E> {
    fn update(
        &mut self,
        world: &mut World<C>,
        queue: &EventQueue<E>,
        emitter: &mut EventEmitter<E>,
        dt: u64,
    )
        requires
            old(world).wf(),
        ensures
            final(world).wf(),
            final(emitter).num_families() == old(emitter).num_families(),
    ;
}

} // verus!
