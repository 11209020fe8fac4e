//! Tests for the event bus and the simulation loop.

use std::cell::RefCell;
use std::rc::Rc;

use trex::event::{EventEmitter, EventQueue};
use trex::family::FamilyMember;
use trex::simulation::{Halt, Simulation, HALT_FAMILY};
use trex::system::System;
use trex::world::World;

#[derive(Debug, PartialEq, Clone)]
enum Comp {
    Counter(u64),
}

const COUNTER: usize = 0;

#[derive(Debug, PartialEq, Clone)]
enum Ev {
    Halt,
    Output(String),
}

const OUTPUT: usize = 1;

fn output_strings(queue: &EventQueue<Ev>) -> Vec<String> {
    queue
        .receive(OUTPUT)
        .iter()
        .map(|ev| match ev {
            Ev::Output(s) => s.clone(),
            Ev::Halt => panic!("halt event in the output family"),
        })
        .collect()
}

#[test]
fn halt_value_names_the_reserved_family() {
    assert_eq!(Halt.family(), HALT_FAMILY);
}

#[test]
fn register_assigns_dense_families_after_halt() {
    let mut queue: EventQueue<Ev> = EventQueue::new();
    let mut emitter: EventEmitter<Ev> = EventEmitter::new();
    assert_eq!(queue.register(), OUTPUT);
    assert_eq!(emitter.register(), OUTPUT);
    assert_eq!(queue.register(), 2);
    assert_eq!(emitter.register(), 2);
}

#[test]
fn fresh_queue_has_an_empty_halt_buffer() {
    let queue: EventQueue<Ev> = EventQueue::new();
    assert_eq!(queue.receive(HALT_FAMILY).len(), 0);
}

#[test]
fn merge_delivers_events_in_emission_order() {
    let mut queue: EventQueue<Ev> = EventQueue::new();
    let mut emitter: EventEmitter<Ev> = EventEmitter::new();
    queue.register();
    emitter.register();
    emitter.emit(OUTPUT, Ev::Output("one".to_string()));
    emitter.emit(OUTPUT, Ev::Output("two".to_string()));
    emitter.emit(OUTPUT, Ev::Output("three".to_string()));
    queue.merge(&mut emitter);
    assert_eq!(output_strings(&queue), vec!["one", "two", "three"]);
}

#[test]
fn merge_appends_and_never_delivers_twice() {
    let mut queue: EventQueue<Ev> = EventQueue::new();
    let mut emitter: EventEmitter<Ev> = EventEmitter::new();
    queue.register();
    emitter.register();
    emitter.emit(OUTPUT, Ev::Output("a".to_string()));
    queue.merge(&mut emitter);
    // The emitter was drained: merging again adds nothing.
    queue.merge(&mut emitter);
    assert_eq!(output_strings(&queue), vec!["a"]);
    emitter.emit(OUTPUT, Ev::Output("b".to_string()));
    queue.merge(&mut emitter);
    assert_eq!(output_strings(&queue), vec!["a", "b"]);
}

#[test]
fn flush_is_idempotent_and_clears_exactly_the_merged_events() {
    let mut queue: EventQueue<Ev> = EventQueue::new();
    let mut emitter: EventEmitter<Ev> = EventEmitter::new();
    queue.register();
    emitter.register();
    emitter.emit(HALT_FAMILY, Ev::Halt);
    emitter.emit(OUTPUT, Ev::Output("x".to_string()));
    queue.merge(&mut emitter);
    assert_eq!(queue.receive(HALT_FAMILY).len(), 1);
    assert_eq!(queue.receive(OUTPUT).len(), 1);
    queue.flush();
    assert_eq!(queue.receive(HALT_FAMILY).len(), 0);
    assert_eq!(queue.receive(OUTPUT).len(), 0);
    queue.flush();
    assert_eq!(queue.receive(HALT_FAMILY).len(), 0);
    assert_eq!(queue.receive(OUTPUT).len(), 0);
}

/// A log shared between the test and the systems it registers.
type Log = Rc<RefCell<Vec<String>>>;

/// Test systems, dispatched by variant so one simulation can hold several
/// kinds.
enum Sys {
    /// Emits `Output("hi")` during the first tick only.
    EmitHiOnce { ticks: u64 },
    /// Records every output event it can see this tick.
    RecordOutputs { log: Log },
    /// Emits `Halt` during the first tick only.
    EmitHaltOnce { ticks: u64 },
    /// Increments the counter component of entity 0 every tick.
    BumpCounter,
    /// Asserts the counter component of entity 0, expecting one bump per
    /// tick.
    AssertCounter { next: u64 },
}

impl System<Comp, Ev> for Sys {
    fn update(
        &mut self,
        world: &mut World<Comp>,
        queue: &EventQueue<Ev>,
        emitter: &mut EventEmitter<Ev>,
        _dt: u64,
    ) {
        match self {
            Sys::EmitHiOnce { ticks } => {
                *ticks += 1;
                if *ticks == 1 {
                    emitter.emit(OUTPUT, Ev::Output("hi".to_string()));
                }
            }
            Sys::RecordOutputs { log } => {
                for ev in queue.receive(OUTPUT).iter() {
                    if let Ev::Output(s) = ev {
                        log.borrow_mut().push(s.clone());
                    }
                }
                log.borrow_mut().push("|".to_string());
            }
            Sys::EmitHaltOnce { ticks } => {
                *ticks += 1;
                if *ticks == 1 {
                    emitter.emit(HALT_FAMILY, Ev::Halt);
                }
            }
            Sys::BumpCounter => {
                assert!(world.has(0, COUNTER));
                if let Some(Comp::Counter(n)) = world.get(0, COUNTER) {
                    let next = Comp::Counter(n + 1);
                    world.add(0, COUNTER, next);
                }
            }
            Sys::AssertCounter { next } => {
                assert_eq!(world.get(0, COUNTER), Some(&Comp::Counter(*next)));
                *next += 1;
            }
        }
    }
}

fn bus() -> (EventQueue<Ev>, EventEmitter<Ev>) {
    let mut queue: EventQueue<Ev> = EventQueue::new();
    let mut emitter: EventEmitter<Ev> = EventEmitter::new();
    queue.register();
    emitter.register();
    (queue, emitter)
}

#[test]
fn scenario_later_system_sees_same_tick_events_earlier_does_not() {
    let (queue, emitter) = bus();
    let mut world: World<Comp> = World::new();
    world.register();
    let log_before: Log = Rc::new(RefCell::new(Vec::new()));
    let log_after: Log = Rc::new(RefCell::new(Vec::new()));
    let mut sim: Simulation<Comp, Ev, Sys> = Simulation::new(world, queue, emitter);
    sim.register(Sys::RecordOutputs { log: log_before.clone() });
    sim.register(Sys::EmitHiOnce { ticks: 0 });
    sim.register(Sys::RecordOutputs { log: log_after.clone() });

    sim.update(16);
    // The system registered before the emitter saw nothing in tick one;
    // the later-registered system saw the emission of the same tick.
    assert_eq!(*log_before.borrow(), vec!["|"]);
    assert_eq!(*log_after.borrow(), vec!["hi", "|"]);

    sim.update(16);
    // Tick two begins flushed: with no new emissions nobody sees anything.
    assert_eq!(*log_before.borrow(), vec!["|", "|"]);
    assert_eq!(*log_after.borrow(), vec!["hi", "|", "|"]);
}

#[test]
fn scenario_halt_is_sticky() {
    let (queue, emitter) = bus();
    let mut world: World<Comp> = World::new();
    world.register();
    let mut sim: Simulation<Comp, Ev, Sys> = Simulation::new(world, queue, emitter);
    sim.register(Sys::EmitHaltOnce { ticks: 0 });
    assert!(!sim.halt());
    sim.update(16);
    // The halt emitted in tick one was observed at the end of the tick.
    assert!(sim.halt());
    // No further halt is emitted, yet the state never returns to running.
    sim.update(16);
    assert!(sim.halt());
    sim.update(16);
    assert!(sim.halt());
}

#[test]
fn scenario_systems_mutate_the_world_each_tick() {
    let (queue, emitter) = bus();
    let mut world: World<Comp> = World::new();
    world.register();
    let e = world.create();
    assert_eq!(e, 0);
    world.add(e, COUNTER, Comp::Counter(0));
    let mut sim: Simulation<Comp, Ev, Sys> = Simulation::new(world, queue, emitter);
    sim.register(Sys::BumpCounter);
    // Registered after the bump, this system sees the counter already
    // advanced within the same tick.
    sim.register(Sys::AssertCounter { next: 1 });
    sim.update(16);
    sim.update(16);
    sim.update(16);
    assert!(!sim.halt());
}
