//! The event bus: a write-only per-tick emitter and a read-only,
//! flush-gated queue, one buffer per registered event family.
//!
//! Events accumulate in an [`EventEmitter`] while a system runs; merging
//! moves them, in emission order, into the matching [`EventQueue`] buffers
//! where later receivers can read them.  Flushing clears every queue
//! buffer.  Family `0` is reserved for the built-in halt event and is
//! pre-registered in both halves of the bus.

use vstd::prelude::*;
use crate::family::Family;

verus! {

/// Read side of the event bus: one stable buffer per event family,
/// holding the events visible to receivers since the last flush, in
/// emission order.
pub struct EventQueue<E> {
    buffers: Vec<Vec<E>>,
}

impl<E> EventQueue<E> {
    /// How many event families have been registered, the reserved halt
    /// family included.
    pub closed spec fn num_families(self) -> int {
        self.buffers@.len() as int
    }

    /// The visible events of one family, in emission order.
    pub closed spec fn events(self, f: int) -> Seq<E> {
        self.buffers@[f]@
    }

    /// A queue with only the reserved halt family registered, its buffer
    /// empty.
    pub fn new() -> (q: EventQueue<E>)
        ensures
            q.num_families() == 1,
            q.events(0) =~= Seq::<E>::empty(),
    {
        let mut buffers: Vec<Vec<E>> = Vec::new();
        buffers.push(Vec::new());
        EventQueue { buffers }
    }

    /// Registers the next event family and returns its number.  Families
    /// are assigned densely, in registration order.
    pub fn register(&mut self) -> (family: Family)
        ensures
            family as int == old(self).num_families(),
            final(self).num_families() == old(self).num_families() + 1,
            final(self).events(family as int) =~= Seq::<E>::empty(),
            forall|f: int|
                0 <= f < old(self).num_families() ==> final(self).events(f) == old(self).events(f),
    {
        let family = self.buffers.len();
        self.buffers.push(Vec::new());
        family
    }

    /// The events of one family received since the last flush, in
    /// emission order.
    pub fn receive(&self, family: Family) -> (r: &Vec<E>)
        requires
            (family as int) < self.num_families(),
        ensures
            r@ == self.events(family as int),
    {
        &self.buffers[family]
    }

    /// Clears every family's buffer.
    pub fn flush(&mut self)
        ensures
            final(self).num_families() == old(self).num_families(),
            forall|f: int|
                0 <= f < old(self).num_families() ==> final(self).events(f) =~= Seq::<E>::empty(),
    {
        let n = self.buffers.len();
        let mut i: usize = 0;
        while i < n
            invariant
                n == self.buffers@.len(),
                i <= n,
                forall|f: int| 0 <= f < i ==> (#[trigger] self.buffers@[f])@ =~= Seq::<E>::empty(),
            decreases n - i,
        {
            let b = &mut self.buffers[i];
            b.clear();
            i += 1;
        }
    }

    /// Moves every pending event out of the emitter into the matching
    /// queue buffer, appending in emission order; the emitter's buffers
    /// are left empty, so nothing is ever merged twice.
    pub fn merge(&mut self, emitter: &mut EventEmitter<E>)
        requires
            old(emitter).num_families() <= old(self).num_families(),
        ensures
            final(self).num_families() == old(self).num_families(),
            final(emitter).num_families() == old(emitter).num_families(),
            forall|f: int|
                0 <= f < old(emitter).num_families() ==> final(self).events(f) =~= old(
                    self,
                ).events(f) + old(emitter).pending(f),
            forall|f: int|
                old(emitter).num_families() <= f < old(self).num_families() ==> final(self).events(
                    f,
                ) == old(self).events(f),
            forall|f: int|
                0 <= f < old(emitter).num_families() ==> final(emitter).pending(f) =~= Seq::<
                    E,
                >::empty(),
    {
        let n = emitter.buffers.len();
        let mut i: usize = 0;
        while i < n
            invariant
                n == emitter.buffers@.len(),
                n <= self.buffers@.len(),
                i <= n,
                self.buffers@.len() == old(self).buffers@.len(),
                forall|f: int|
                    0 <= f < i ==> (#[trigger] self.buffers@[f])@ =~= old(self).events(f) + old(
                        emitter,
                    ).pending(f),
                forall|f: int|
                    i <= f < self.buffers@.len() ==> (#[trigger] self.buffers@[f]) == old(
                        self,
                    ).buffers@[f],
                forall|f: int|
                    0 <= f < i ==> (#[trigger] emitter.buffers@[f])@ =~= Seq::<E>::empty(),
                forall|f: int|
                    i <= f < n ==> (#[trigger] emitter.buffers@[f]) == old(emitter).buffers@[f],
            decreases n - i,
        {
            let src = &mut emitter.buffers[i];
            let dst = &mut self.buffers[i];
            dst.append(src);
            i += 1;
        }
    }
}

/// Write side of the event bus: one append-only buffer per event family,
/// accumulating the events emitted during the current system's run.
pub struct EventEmitter<E> {
    buffers: Vec<Vec<E>>,
}

impl<E> EventEmitter<E> {
    /// How many event families have been registered, the reserved halt
    /// family included.
    pub closed spec fn num_families(self) -> int {
        self.buffers@.len() as int
    }

    /// The pending events of one family, in emission order.
    pub closed spec fn pending(self, f: int) -> Seq<E> {
        self.buffers@[f]@
    }

    /// An emitter with only the reserved halt family registered, its
    /// buffer empty.
    pub fn new() -> (em: EventEmitter<E>)
        ensures
            em.num_families() == 1,
            em.pending(0) =~= Seq::<E>::empty(),
    {
        let mut buffers: Vec<Vec<E>> = Vec::new();
        buffers.push(Vec::new());
        EventEmitter { buffers }
    }

    /// Registers the next event family and returns its number.  Families
    /// are assigned densely, in registration order.
    pub fn register(&mut self) -> (family: Family)
        ensures
            family as int == old(self).num_families(),
            final(self).num_families() == old(self).num_families() + 1,
            final(self).pending(family as int) =~= Seq::<E>::empty(),
            forall|f: int|
                0 <= f < old(self).num_families() ==> final(self).pending(f) == old(self).pending(
                    f,
                ),
    {
        let family = self.buffers.len();
        self.buffers.push(Vec::new());
        family
    }

    /// Appends an event to its family's pending buffer.
    pub fn emit(&mut self, family: Family, event: E)
        requires
            (family as int) < old(self).num_families(),
        ensures
            final(self).num_families() == old(self).num_families(),
            final(self).pending(family as int) =~= old(self).pending(family as int).push(event),
            forall|f: int|
                0 <= f < old(self).num_families() && f != family as int ==> final(self).pending(f)
                    == old(self).pending(f),
    {
        let b = &mut self.buffers[family];
        b.push(event);
    }
}

} // verus!
