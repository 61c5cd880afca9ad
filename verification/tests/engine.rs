//! Tests of the storage engine: stores, registry, joins, and maintenance.

use mini_ecs::components::Position;
use mini_ecs::entity::EntityRegistry;
use mini_ecs::join::join2;
use mini_ecs::store::ComponentStore;
use mini_ecs::world::World;

#[test]
fn store_starts_empty() {
    let s: ComponentStore<Position> = ComponentStore::new();
    assert_eq!(s.len(), 0);
    assert!(!s.contains(3));
    assert_eq!(s.get(3), None);
}

#[test]
fn store_insert_and_get() {
    let mut s: ComponentStore<Position> = ComponentStore::new();
    s.insert(5, Position { x: 1, y: 2 });
    assert!(s.contains(5));
    assert_eq!(s.get(5), Some(Position { x: 1, y: 2 }));
    assert_eq!(s.get(6), None);
}

#[test]
fn store_insert_overwrites_in_place() {
    let mut s: ComponentStore<Position> = ComponentStore::new();
    s.insert(1, Position { x: 1, y: 1 });
    s.insert(2, Position { x: 2, y: 2 });
    s.insert(1, Position { x: 9, y: 9 });
    assert_eq!(s.len(), 2);
    assert_eq!(s.get(1), Some(Position { x: 9, y: 9 }));
    // The overwrite keeps the iteration order.
    assert_eq!(s.key_at(0), 1);
    assert_eq!(s.key_at(1), 2);
}

#[test]
fn store_remove_detaches_and_keeps_order() {
    let mut s: ComponentStore<Position> = ComponentStore::new();
    s.insert(1, Position { x: 1, y: 0 });
    s.insert(2, Position { x: 2, y: 0 });
    s.insert(3, Position { x: 3, y: 0 });
    s.remove(2);
    assert_eq!(s.len(), 2);
    assert!(!s.contains(2));
    assert_eq!(s.key_at(0), 1);
    assert_eq!(s.key_at(1), 3);
    // Removing an absent id is a no-op.
    s.remove(2);
    assert_eq!(s.len(), 2);
}

#[test]
fn registry_allocates_monotonically() {
    let mut r = EntityRegistry::new();
    let a = r.create();
    let b = r.create();
    let c = r.create();
    assert_eq!(a.id, 0);
    assert_eq!(b.id, 1);
    assert_eq!(c.id, 2);
}

#[test]
fn registry_destroy_is_deferred_and_idempotent() {
    let mut r = EntityRegistry::new();
    let a = r.create();
    r.destroy(a);
    r.destroy(a);
    // Still live until the maintenance pass reaps it.
    assert_eq!(r.live.len(), 1);
    assert_eq!(r.marked.len(), 1);
    r.reap();
    assert_eq!(r.live.len(), 0);
    assert_eq!(r.marked.len(), 0);
    // The reclaimed id is never reused.
    let b = r.create();
    assert_eq!(b.id, 1);
}

#[test]
fn join_yields_exactly_the_intersection() {
    let mut a: ComponentStore<Position> = ComponentStore::new();
    let mut b: ComponentStore<u8> = ComponentStore::new();
    a.insert(1, Position { x: 0, y: 0 });
    a.insert(2, Position { x: 0, y: 0 });
    a.insert(3, Position { x: 0, y: 0 });
    b.insert(2, 0);
    b.insert(3, 0);
    b.insert(4, 0);
    let ids = join2(&a, &b);
    assert_eq!(ids, vec![2, 3]);
}

#[test]
fn join_respects_removal_history() {
    let mut a: ComponentStore<Position> = ComponentStore::new();
    let mut b: ComponentStore<u8> = ComponentStore::new();
    for id in 0..6u64 {
        a.insert(id, Position { x: 0, y: 0 });
        b.insert(id, 0);
    }
    a.remove(1);
    b.remove(4);
    a.insert(1, Position { x: 5, y: 5 });
    let ids = join2(&a, &b);
    // 1 was re-inserted, so it joins again, now at the end of a's order;
    // 4 lost its entry in b, so it cannot join.
    assert_eq!(ids, vec![0, 2, 3, 5, 1]);
    // No entity appears twice.
    let mut seen = ids.clone();
    seen.sort();
    seen.dedup();
    assert_eq!(seen.len(), ids.len());
}

#[test]
fn join_is_restartable_and_deterministic() {
    let mut a: ComponentStore<Position> = ComponentStore::new();
    let mut b: ComponentStore<u8> = ComponentStore::new();
    a.insert(7, Position { x: 0, y: 0 });
    a.insert(9, Position { x: 0, y: 0 });
    b.insert(9, 0);
    b.insert(7, 0);
    let first = join2(&a, &b);
    let second = join2(&a, &b);
    assert_eq!(first, second);
    assert_eq!(first, vec![7, 9]);
}

#[test]
fn destroyed_entity_leaves_every_join_after_maintain() {
    let mut w = World::new();
    let e = w.create_entity();
    w.insert_position(e, Position { x: 3, y: 4 });
    w.insert_left_mover(e);
    let other = w.create_entity();
    w.insert_position(other, Position { x: 8, y: 8 });
    w.insert_left_mover(other);

    let before = join2(&w.left_movers, &w.positions);
    assert_eq!(before, vec![e.id, other.id]);

    w.destroy(e);
    // Destruction is deferred: the join still matches until maintenance.
    let deferred = join2(&w.left_movers, &w.positions);
    assert_eq!(deferred, vec![e.id, other.id]);

    w.maintain();
    let after = join2(&w.left_movers, &w.positions);
    assert_eq!(after, vec![other.id]);
    assert!(!w.positions.contains(e.id));
    assert!(!w.left_movers.contains(e.id));
}

#[test]
fn maintain_without_marks_changes_nothing() {
    let mut w = World::new();
    let e = w.create_entity();
    w.insert_position(e, Position { x: 1, y: 1 });
    w.maintain();
    assert_eq!(w.positions.get(e.id), Some(Position { x: 1, y: 1 }));
    assert_eq!(w.registry.live.len(), 1);
}
