//! The simulation loop: an ordered list of systems driven one tick at a
//! time, with events merged between systems and a sticky halt state.

use vstd::prelude::*;
use crate::event::{EventEmitter, EventQueue};
use crate::family::{Family, FamilyMember};
use crate::system::System;
use crate::world::World;

verus! {

/// The event family reserved for [`Halt`].
pub const HALT_FAMILY: Family = 0;

/// The built-in event that stops the simulation.  Its family is always
/// pre-registered; any system may emit it.
pub struct Halt;

impl FamilyMember for Halt {
    fn family(&self) -> Family {
        HALT_FAMILY
    }
}

/// Drives an ordered list of systems and passes events between them.
pub struct Simulation<C, E, S> {
    world: World<C>,
    queue: EventQueue<E>,
    emitter: EventEmitter<E>,
    systems: Vec<S>,
    halt: bool,
}

impl<C, E, S: System<C, E>> Simulation<C, E, S> {
    /// A halt event has been observed at the end of some tick.
    pub closed spec fn spec_halted(self) -> bool {
        self.halt
    }

    /// How many systems have been registered.
    pub closed spec fn num_systems(self) -> int {
        self.systems@.len() as int
    }

    /// The world the simulation owns.
    pub closed spec fn spec_world(self) -> World<C> {
        self.world
    }

    /// How many event families the bus has registered, the reserved halt
    /// family included.
    pub closed spec fn queue_families(self) -> int {
        self.queue.num_families()
    }

    /// The events of one family visible in the queue, in emission order.
    pub closed spec fn queue_events(self, f: int) -> Seq<E> {
        self.queue.events(f)
    }

    /// The events of one family still pending in the shared emitter.
    pub closed spec fn emitter_pending(self, f: int) -> Seq<E> {
        self.emitter.pending(f)
    }

    /// Between ticks the world is well-formed, queue and emitter agree on
    /// the registered families (the halt family among them), and every
    /// event buffer has been flushed.
    pub closed spec fn wf(self) -> bool {
        &&& self.world.wf()
        &&& self.queue.num_families() == self.emitter.num_families()
        &&& self.queue.num_families() >= 1
        &&& forall|f: int|
            0 <= f < self.queue.num_families() ==> self.queue.events(f) =~= Seq::<E>::empty()
        &&& forall|f: int|
            0 <= f < self.emitter.num_families() ==> self.emitter.pending(f) =~= Seq::<E>::empty()
    }

    /// Takes ownership of a seeded world and a matching, flushed event
    /// bus.  The simulation starts in the running state with no systems.
    pub fn new(world: World<C>, queue: EventQueue<E>, emitter: EventEmitter<E>) -> (sim:
        Simulation<C, E, S>)
        requires
            world.wf(),
            queue.num_families() == emitter.num_families(),
            queue.num_families() >= 1,
            forall|f: int|
                0 <= f < queue.num_families() ==> queue.events(f) =~= Seq::<E>::empty(),
            forall|f: int|
                0 <= f < emitter.num_families() ==> emitter.pending(f) =~= Seq::<E>::empty(),
        ensures
            sim.wf(),
            !sim.spec_halted(),
            sim.num_systems() == 0,
            sim.spec_world() == world,
            sim.queue_families() == queue.num_families(),
    {
        Simulation { world, queue, emitter, systems: Vec::new(), halt: false }
    }

    /// Registers a system.  Systems run in registration order, once per
    /// tick.
    pub fn register(&mut self, system: S)
        requires
            old(self).wf(),
        ensures
            final(self).wf(),
            final(self).num_systems() == old(self).num_systems() + 1,
            final(self).spec_halted() == old(self).spec_halted(),
            final(self).spec_world() == old(self).spec_world(),
            final(self).queue_families() == old(self).queue_families(),
    {
        self.systems.push(system);
    }

    /// Whether a halt event has been observed.  The flag is set, by the
    /// end of a tick, exactly when a halt event was visible then (see
    /// `finish_tick`), and once true it stays true: there is no way back
    /// to the running state.
    pub fn halt(&self) -> (r: bool)
        ensures
            r == self.spec_halted(),
    {
        self.halt
    }

    /// The end of a tick: inspects the queue's halt family, then flushes
    /// every queue buffer.  Halt is edge-triggered and sticky: the flag
    /// ends up set exactly when it was already set or a halt event was
    /// visible at this moment.
    fn finish_tick(&mut self)
        requires
            old(self).queue_families() >= 1,
        ensures
            final(self).spec_halted() == (old(self).spec_halted() || old(self).queue_events(
                HALT_FAMILY as int,
            ).len() > 0),
            final(self).queue_families() == old(self).queue_families(),
            forall|f: int|
                0 <= f < old(self).queue_families() ==> final(self).queue_events(f) =~= Seq::<
                    E,
                >::empty(),
            final(self).world == old(self).world,
            final(self).emitter == old(self).emitter,
            final(self).systems == old(self).systems,
    {
        let halt_events = self.queue.receive(HALT_FAMILY);
        if halt_events.len() > 0 {
            self.halt = true;
        }
        self.queue.flush();
    }

    /// One tick: runs every system in registration order, merging each
    /// system's emissions into the queue immediately so that later systems
    /// in the same tick observe them; then inspects the halt family and,
    /// if any halt event arrived, becomes halted for good; finally flushes
    /// every queue buffer so the next tick starts with an empty read
    /// surface.
    pub fn update(&mut self, dt: u64)
        requires
            old(self).wf(),
        ensures
            final(self).wf(),
            final(self).num_systems() == old(self).num_systems(),
            final(self).queue_families() == old(self).queue_families(),
            old(self).spec_halted() ==> final(self).spec_halted(),
            forall|f: int|
                0 <= f < final(self).queue_families() ==> final(self).queue_events(f) =~= Seq::<
                    E,
                >::empty(),
            forall|f: int|
                0 <= f < final(self).queue_families() ==> final(self).emitter_pending(f) =~= Seq::<
                    E,
                >::empty(),
            old(self).num_systems() == 0 ==> final(self).spec_halted() == old(self).spec_halted()
                && final(self).spec_world() == old(self).spec_world(),
    {
        let n = self.systems.len();
        let mut i: usize = 0;
        while i < n
            invariant
                n == self.systems@.len(),
                i <= n,
                self.world.wf(),
                self.queue.num_families() == self.emitter.num_families(),
                self.queue.num_families() == old(self).queue.num_families(),
                self.queue.num_families() >= 1,
                forall|f: int|
                    0 <= f < self.emitter.num_families() ==> self.emitter.pending(f) =~= Seq::<
                        E,
                    >::empty(),
                self.halt == old(self).halt,
                n == 0 ==> *self == *old(self),
            decreases n - i,
        {
            let sys = &mut self.systems[i];
            sys.update(&mut self.world, &self.queue, &mut self.emitter, dt);
            self.queue.merge(&mut self.emitter);
            i += 1;
        }
        self.finish_tick();
        proof {
            assert forall|f: int|
                0 <= f < self.queue.num_families() implies self.queue.events(f) =~= Seq::<
                E,
            >::empty() by {
                assert(self.queue_events(f) =~= Seq::<E>::empty());
            }
        }
    }
}

} // verus!
