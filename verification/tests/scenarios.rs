//! Tests of the systems and of whole ticks.

use mini_ecs::components::{Direction, Position};
use mini_ecs::systems::{try_move_player, LeftWalkerSystem, SystemKind, SystemScheduler};
use mini_ecs::tick::{initial_world, render, tick};
use mini_ecs::world::World;

fn world_with_mover_at(x: i32, y: i32) -> World {
    let mut w = World::new();
    let e = w.create_entity();
    w.insert_position(e, Position { x, y });
    w.insert_left_mover(e);
    w
}

#[test]
fn left_walker_wraps_at_column_zero() {
    let mut w = world_with_mover_at(0, 20);
    LeftWalkerSystem::run(&w.left_movers, &mut w.positions);
    assert_eq!(w.positions.get(0), Some(Position { x: 79, y: 20 }));
}

#[test]
fn left_walker_steps_left_from_positive_columns() {
    let mut w = world_with_mover_at(5, 20);
    LeftWalkerSystem::run(&w.left_movers, &mut w.positions);
    assert_eq!(w.positions.get(0), Some(Position { x: 4, y: 20 }));
    LeftWalkerSystem::run(&w.left_movers, &mut w.positions);
    assert_eq!(w.positions.get(0), Some(Position { x: 3, y: 20 }));
}

#[test]
fn left_walker_ignores_entities_without_the_marker() {
    let mut w = World::new();
    let still = w.create_entity();
    w.insert_position(still, Position { x: 10, y: 10 });
    LeftWalkerSystem::run(&w.left_movers, &mut w.positions);
    assert_eq!(w.positions.get(still.id), Some(Position { x: 10, y: 10 }));
}

#[test]
fn player_movement_clamps_at_the_left_edge() {
    let mut w = World::new();
    let p = w.create_entity();
    w.insert_position(p, Position { x: 0, y: 25 });
    w.insert_player(p);
    try_move_player(-1, 0, &mut w);
    assert_eq!(w.positions.get(p.id), Some(Position { x: 0, y: 25 }));
}

#[test]
fn player_movement_clamps_at_the_right_edge() {
    let mut w = World::new();
    let p = w.create_entity();
    w.insert_position(p, Position { x: 79, y: 25 });
    w.insert_player(p);
    try_move_player(1, 0, &mut w);
    assert_eq!(w.positions.get(p.id), Some(Position { x: 79, y: 25 }));
}

#[test]
fn player_movement_clamps_vertically() {
    let mut w = World::new();
    let p = w.create_entity();
    w.insert_position(p, Position { x: 40, y: 0 });
    w.insert_player(p);
    try_move_player(0, -1, &mut w);
    assert_eq!(w.positions.get(p.id), Some(Position { x: 40, y: 0 }));
    try_move_player(0, 1, &mut w);
    assert_eq!(w.positions.get(p.id), Some(Position { x: 40, y: 1 }));
}

#[test]
fn player_movement_leaves_non_players_alone() {
    let mut w = World::new();
    let p = w.create_entity();
    w.insert_position(p, Position { x: 40, y: 25 });
    w.insert_player(p);
    let bystander = w.create_entity();
    w.insert_position(bystander, Position { x: 10, y: 10 });
    try_move_player(1, 0, &mut w);
    assert_eq!(w.positions.get(p.id), Some(Position { x: 41, y: 25 }));
    assert_eq!(w.positions.get(bystander.id), Some(Position { x: 10, y: 10 }));
}

#[test]
fn initial_world_population() {
    let w = initial_world();
    assert_eq!(w.positions.get(0), Some(Position { x: 40, y: 25 }));
    assert!(w.players.contains(0));
    assert!(!w.left_movers.contains(0));
    for i in 1..=10u64 {
        assert_eq!(
            w.positions.get(i),
            Some(Position { x: 7 * (i as i32 - 1), y: 20 })
        );
        assert!(w.left_movers.contains(i));
        assert!(!w.players.contains(i));
    }
    assert!(!w.positions.contains(11));
}

#[test]
fn one_tick_without_input_moves_the_movers_and_renders_all() {
    let mut w = initial_world();
    let mut scheduler = SystemScheduler::new();
    scheduler.register(SystemKind::LeftWalker);

    let draws = tick(&mut w, &scheduler, None);

    // The player did not move.
    assert_eq!(w.positions.get(0), Some(Position { x: 40, y: 25 }));
    // Each mover decreased x by one; the one at column zero wrapped to 79.
    assert_eq!(w.positions.get(1), Some(Position { x: 79, y: 20 }));
    for i in 2..=10u64 {
        assert_eq!(
            w.positions.get(i),
            Some(Position { x: 7 * (i as i32 - 1) - 1, y: 20 })
        );
    }
    // The render join yields 11 draw calls, each at its post-tick position.
    assert_eq!(draws.len(), 11);
    assert_eq!(draws[0].x, 40);
    assert_eq!(draws[0].y, 25);
    assert_eq!(draws[0].glyph, 64);
    assert_eq!(draws[1].x, 79);
    assert_eq!(draws[1].y, 20);
    for i in 2..=10usize {
        assert_eq!(draws[i].x, 7 * (i as i32 - 1) - 1);
        assert_eq!(draws[i].y, 20);
        assert_eq!(draws[i].glyph, 1);
    }
}

#[test]
fn one_tick_with_left_input_moves_player_and_movers() {
    let mut w = initial_world();
    let mut scheduler = SystemScheduler::new();
    scheduler.register(SystemKind::LeftWalker);

    let draws = tick(&mut w, &scheduler, Some(Direction::Left));

    // The player moved one column to the left.
    assert_eq!(w.positions.get(0), Some(Position { x: 39, y: 25 }));
    // The movers still move by their own rule, independently, in the same tick.
    assert_eq!(w.positions.get(1), Some(Position { x: 79, y: 20 }));
    assert_eq!(w.positions.get(2), Some(Position { x: 6, y: 20 }));
    assert_eq!(draws.len(), 11);
    assert_eq!(draws[0].x, 39);
}

#[test]
fn destroyed_entity_never_renders_after_its_tick() {
    let mut w = initial_world();
    let mut scheduler = SystemScheduler::new();
    scheduler.register(SystemKind::LeftWalker);
    w.destroy(mini_ecs::entity::Entity { id: 3 });

    let draws = tick(&mut w, &scheduler, None);

    // Maintenance ran before the render pass, so only 10 entities render.
    assert_eq!(draws.len(), 10);
    assert!(!w.positions.contains(3));
    assert!(!w.registry.marked.contains(&3));
}

#[test]
fn render_pairs_positions_with_renderables() {
    let w = initial_world();
    let draws = render(&w);
    assert_eq!(draws.len(), 11);
    assert_eq!(draws[0].fg, mini_ecs::components::Color { r: 255, g: 255, b: 0 });
    assert_eq!(draws[1].fg, mini_ecs::components::Color { r: 255, g: 0, b: 0 });
    assert_eq!(draws[0].bg, mini_ecs::components::Color { r: 0, g: 0, b: 0 });
}

#[test]
fn scheduler_runs_systems_in_registration_order_each_once() {
    // Registering the walker twice makes every mover take two steps per tick.
    let mut w = world_with_two_movers();
    let mut scheduler = SystemScheduler::new();
    scheduler.register(SystemKind::LeftWalker);
    scheduler.register(SystemKind::LeftWalker);
    scheduler.run_tick(&mut w);
    assert_eq!(w.positions.get(0), Some(Position { x: 3, y: 0 }));
    // The second mover reached column zero on the first pass and wrapped on
    // the second.
    assert_eq!(w.positions.get(1), Some(Position { x: 79, y: 0 }));
}

fn world_with_two_movers() -> World {
    let mut w = World::new();
    let a = w.create_entity();
    w.insert_position(a, Position { x: 5, y: 0 });
    w.insert_left_mover(a);
    let b = w.create_entity();
    w.insert_position(b, Position { x: 1, y: 0 });
    w.insert_left_mover(b);
    w
}
