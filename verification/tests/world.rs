//! Tests for the identifier pool, the world, component storage, tags and
//! filtering.

use trex::id::IdPool;
use trex::world::{ComponentFilter, World};

#[derive(Debug, PartialEq, Clone)]
enum Comp {
    Position { x: i64, y: i64 },
    Velocity { dx: i64, dy: i64 },
}

const POSITION: usize = 0;
const VELOCITY: usize = 1;

fn two_family_world() -> World<Comp> {
    let mut world: World<Comp> = World::new();
    let p = world.register();
    let v = world.register();
    assert_eq!(p, POSITION);
    assert_eq!(v, VELOCITY);
    world
}

#[test]
fn id_pool_issues_fresh_ids_in_order() {
    let mut pool = IdPool::new();
    assert_eq!(pool.reserve(), 0);
    assert_eq!(pool.reserve(), 1);
    assert_eq!(pool.reserve(), 2);
    assert!(pool.is_reserved(0));
    assert!(pool.is_reserved(1));
    assert!(pool.is_reserved(2));
}

#[test]
fn id_pool_reuses_released_id_on_next_reserve() {
    let mut pool = IdPool::new();
    let a = pool.reserve();
    let b = pool.reserve();
    let _c = pool.reserve();
    pool.release(b);
    assert!(!pool.is_reserved(b));
    // The most recently released id comes back first.
    assert_eq!(pool.reserve(), b);
    assert!(pool.is_reserved(b));
    // Stack order: release a then b, reserve gives b then a.
    pool.release(a);
    pool.release(b);
    assert_eq!(pool.reserve(), b);
    assert_eq!(pool.reserve(), a);
}

#[test]
fn id_pool_release_of_unreserved_id_is_a_no_op() {
    let mut pool = IdPool::new();
    let a = pool.reserve();
    pool.release(7); // never issued
    pool.release(a);
    pool.release(a); // already released
    assert_eq!(pool.reserve(), a);
}

#[test]
fn id_pool_ever_issued_tracks_issue_counter() {
    let mut pool = IdPool::new();
    assert!(!pool.ever_issued(0));
    let a = pool.reserve();
    assert!(pool.ever_issued(a));
    pool.release(a);
    // Released ids still count as issued.
    assert!(pool.ever_issued(a));
    assert!(!pool.ever_issued(a + 1));
}

#[test]
fn id_pool_reserved_lists_live_ids_ascending() {
    let mut pool = IdPool::new();
    let a = pool.reserve();
    let b = pool.reserve();
    let c = pool.reserve();
    pool.release(b);
    assert_eq!(pool.reserved(), vec![a, c]);
    let b2 = pool.reserve();
    assert_eq!(b2, b);
    assert_eq!(pool.reserved(), vec![a, b, c]);
}

#[test]
fn create_and_alive() {
    let mut world = two_family_world();
    let e = world.create();
    assert!(world.alive(e));
    world.destroy(e);
    assert!(!world.alive(e));
}

#[test]
fn add_then_get_returns_the_value() {
    let mut world = two_family_world();
    let e = world.create();
    world.add(e, POSITION, Comp::Position { x: 1, y: 2 });
    assert_eq!(world.get(e, POSITION), Some(&Comp::Position { x: 1, y: 2 }));
    assert_eq!(world.get(e, VELOCITY), None);
}

#[test]
fn add_overwrites_existing_component() {
    let mut world = two_family_world();
    let e = world.create();
    world.add(e, POSITION, Comp::Position { x: 1, y: 2 });
    world.add(e, POSITION, Comp::Position { x: 9, y: 12 });
    assert_eq!(world.get(e, POSITION), Some(&Comp::Position { x: 9, y: 12 }));
}

#[test]
fn get_mut_updates_in_place() {
    let mut world = two_family_world();
    let e = world.create();
    world.add(e, POSITION, Comp::Position { x: 1, y: 2 });
    {
        let p = world.get_mut(e, POSITION);
        *p = Comp::Position { x: 5, y: 6 };
    }
    assert_eq!(world.get(e, POSITION), Some(&Comp::Position { x: 5, y: 6 }));
}

#[test]
fn mask_and_store_agree_after_every_step() {
    let mut world = two_family_world();
    let e = world.create();
    let check = |world: &World<Comp>, e: usize| {
        for f in [POSITION, VELOCITY] {
            assert_eq!(world.has(e, f), world.get(e, f).is_some());
        }
    };
    check(&world, e);
    world.add(e, POSITION, Comp::Position { x: 1, y: 2 });
    check(&world, e);
    world.add(e, VELOCITY, Comp::Velocity { dx: 3, dy: 4 });
    check(&world, e);
    world.remove(e, POSITION);
    check(&world, e);
    world.destroy(e);
    check(&world, e);
}

#[test]
fn remove_detaches_only_that_family() {
    let mut world = two_family_world();
    let e = world.create();
    world.add(e, POSITION, Comp::Position { x: 1, y: 2 });
    world.add(e, VELOCITY, Comp::Velocity { dx: 3, dy: 4 });
    world.remove(e, POSITION);
    assert!(!world.has(e, POSITION));
    assert!(world.has(e, VELOCITY));
    assert_eq!(world.get(e, POSITION), None);
    assert_eq!(world.get(e, VELOCITY), Some(&Comp::Velocity { dx: 3, dy: 4 }));
    // Removing again is a no-op.
    world.remove(e, POSITION);
    assert!(!world.has(e, POSITION));
}

#[test]
fn destroy_detaches_every_component() {
    let mut world = two_family_world();
    let e = world.create();
    world.add(e, POSITION, Comp::Position { x: 1, y: 2 });
    world.add(e, VELOCITY, Comp::Velocity { dx: 3, dy: 4 });
    world.destroy(e);
    assert!(!world.has(e, POSITION));
    assert!(!world.has(e, VELOCITY));
    assert_eq!(world.get(e, POSITION), None);
    assert_eq!(world.get(e, VELOCITY), None);
}

#[test]
fn destroy_clears_the_tag() {
    let mut world = two_family_world();
    let e = world.create();
    world.tag(e, "Player");
    assert_eq!(world.lookup("Player"), Some(e));
    world.destroy(e);
    assert_eq!(world.lookup("Player"), None);
}

#[test]
fn recycled_id_starts_clean() {
    let mut world = two_family_world();
    let e = world.create();
    world.tag(e, "Old");
    world.add(e, POSITION, Comp::Position { x: 1, y: 2 });
    world.destroy(e);
    let e2 = world.create();
    // The id is recycled, but nothing of the old occupant leaks through.
    assert_eq!(e2, e);
    assert!(!world.has(e2, POSITION));
    assert_eq!(world.get(e2, POSITION), None);
    assert_eq!(world.lookup("Old"), None);
}

#[test]
fn operations_on_dead_entities_are_no_ops() {
    let mut world = two_family_world();
    let e = world.create();
    world.destroy(e);
    world.tag(e, "Ghost");
    assert_eq!(world.lookup("Ghost"), None);
    world.add(e, POSITION, Comp::Position { x: 1, y: 2 });
    assert!(!world.has(e, POSITION));
    world.destroy(e); // destroying twice is fine
    assert!(!world.alive(e));
}

#[test]
fn tag_last_write_wins() {
    let mut world = two_family_world();
    let a = world.create();
    let b = world.create();
    world.tag(a, "Hero");
    // Retagging the same entity replaces its old name.
    world.tag(a, "Player");
    assert_eq!(world.lookup("Hero"), None);
    assert_eq!(world.lookup("Player"), Some(a));
    // A name reused for a new entity displaces the previous owner.
    world.tag(b, "Player");
    assert_eq!(world.lookup("Player"), Some(b));
    world.untag(b);
    assert_eq!(world.lookup("Player"), None);
}

#[test]
fn filter_selects_exactly_matching_entities_in_ascending_order() {
    let mut world = two_family_world();
    let a = world.create();
    let b = world.create();
    let c = world.create();
    world.add(a, POSITION, Comp::Position { x: 0, y: 0 });
    world.add(b, POSITION, Comp::Position { x: 1, y: 1 });
    world.add(b, VELOCITY, Comp::Velocity { dx: 1, dy: 1 });
    world.add(c, VELOCITY, Comp::Velocity { dx: 2, dy: 2 });

    let pos = ComponentFilter::new().with(POSITION);
    let pos_vel = ComponentFilter::new().with(POSITION).with(VELOCITY);
    let none = ComponentFilter::new();

    assert_eq!(world.filter(&pos), vec![a, b]);
    assert_eq!(world.filter(&pos_vel), vec![b]);
    assert_eq!(world.filter(&none), vec![a, b, c]);
}

#[test]
fn filter_tracks_adds_and_removes() {
    let mut world = two_family_world();
    let a = world.create();
    let b = world.create();
    let pos = ComponentFilter::new().with(POSITION);
    assert_eq!(world.filter(&pos), vec![]);
    world.add(a, POSITION, Comp::Position { x: 0, y: 0 });
    assert_eq!(world.filter(&pos), vec![a]);
    world.add(b, POSITION, Comp::Position { x: 1, y: 1 });
    assert_eq!(world.filter(&pos), vec![a, b]);
    world.remove(a, POSITION);
    assert_eq!(world.filter(&pos), vec![b]);
    world.destroy(b);
    assert_eq!(world.filter(&pos), vec![]);
}

#[test]
fn lookup_unknown_name_is_none() {
    let mut world = two_family_world();
    assert_eq!(world.lookup("Nobody"), None);
    let e = world.create();
    world.tag(e, "Somebody");
    assert_eq!(world.lookup("Nobody"), None);
}

#[test]
fn tag_twice_with_the_same_name_is_stable() {
    let mut world = two_family_world();
    let e = world.create();
    world.tag(e, "Player");
    world.tag(e, "Player");
    assert_eq!(world.lookup("Player"), Some(e));
    world.untag(e);
    assert_eq!(world.lookup("Player"), None);
}

#[test]
fn component_slots_are_recycled_per_family() {
    let mut world = two_family_world();
    let a = world.create();
    let b = world.create();
    let c = world.create();
    world.add(a, POSITION, Comp::Position { x: 1, y: 1 });
    world.add(b, POSITION, Comp::Position { x: 2, y: 2 });
    // Freeing a's slot lets c reuse it without touching b's value.
    world.remove(a, POSITION);
    world.add(c, POSITION, Comp::Position { x: 3, y: 3 });
    assert_eq!(world.get(a, POSITION), None);
    assert_eq!(world.get(b, POSITION), Some(&Comp::Position { x: 2, y: 2 }));
    assert_eq!(world.get(c, POSITION), Some(&Comp::Position { x: 3, y: 3 }));
}

#[test]
fn scenario_player_lifecycle() {
    let mut world = two_family_world();
    let a = world.create();
    world.tag(a, "Player");
    let b = world.create();
    world.add(a, POSITION, Comp::Position { x: 1, y: 2 });
    assert_eq!(world.lookup("Player"), Some(a));
    assert_eq!(world.get(a, POSITION), Some(&Comp::Position { x: 1, y: 2 }));
    let pos = ComponentFilter::new().with(POSITION);
    assert_eq!(world.filter(&pos), vec![a]);
    world.destroy(a);
    assert_eq!(world.lookup("Player"), None);
    assert_eq!(world.filter(&pos), vec![]);
    assert!(world.alive(b));
}
