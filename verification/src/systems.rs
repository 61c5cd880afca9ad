//! The per-tick update systems and the scheduler that runs them in a fixed
//! order before triggering maintenance.

use vstd::prelude::*;
use crate::components::{Direction, LeftMover, Position, GRID_HEIGHT, GRID_WIDTH};
use crate::join::join2;
use crate::store::{lemma_purge_entries_keys, purge_ids, ComponentStore};
use crate::world::World;

verus! {

/// One step of a left mover: x decreases by one; a result below zero wraps to
/// the rightmost column. The vertical coordinate never changes.
pub open spec fn left_step(x: int) -> int {
    if x - 1 < 0 {
        GRID_WIDTH - 1
    } else {
        x - 1
    }
}

/// What one left-walker pass does to a position: entities marked as left
/// movers take one step to the left, every other position is untouched.
pub open spec fn walked_position(is_left_mover: bool, p: Position) -> Position {
    if is_left_mover {
        Position { x: left_step(p.x as int) as i32, y: p.y }
    } else {
        p
    }
}

/// `v` forced into the inclusive range `lo ..= hi`.
pub open spec fn clamp(v: int, lo: int, hi: int) -> int {
    if v < lo {
        lo
    } else if v > hi {
        hi
    } else {
        v
    }
}

/// What applying the delta `(dx, dy)` does to a position of the player:
/// each coordinate moves and is clamped to the grid, so the player can never
/// leave it. Entities that are not the player are untouched.
pub open spec fn moved_position(is_player: bool, dx: i32, dy: i32, p: Position) -> Position {
    if is_player {
        Position {
            x: clamp(p.x + dx, 0, GRID_WIDTH - 1) as i32,
            y: clamp(p.y + dy, 0, GRID_HEIGHT - 1) as i32,
        }
    } else {
        p
    }
}

/// The discrete delta a directional input signal asks for.
pub open spec fn direction_delta(d: Direction) -> (i32, i32) {
    match d {
        Direction::Left => (-1i32, 0i32),
        Direction::Right => (1i32, 0i32),
        Direction::Up => (0i32, -1i32),
        Direction::Down => (0i32, 1i32),
    }
}

/// What applying a tick's optional input signal does to a position.
pub open spec fn input_position(input: Option<Direction>, is_player: bool, p: Position) -> Position {
    match input {
        None => p,
        Some(d) => moved_position(is_player, direction_delta(d).0, direction_delta(d).1, p),
    }
}

/// Law: one left-walker pass takes an entity marked as a left mover from
/// column zero to the rightmost column, never to a negative one, without any
/// vertical change.
pub proof fn lemma_left_mover_wraps_from_zero(p: Position)
    requires
        p.x == 0,
    ensures
        walked_position(true, p).x == GRID_WIDTH - 1,
        walked_position(true, p).y == p.y,
{
}

/// Law: one left-walker pass takes an entity marked as a left mover from any
/// column k > 0 to column k - 1, without any vertical change.
pub proof fn lemma_left_mover_steps_left(p: Position)
    requires
        p.x > 0,
    ensures
        walked_position(true, p).x == p.x - 1,
        walked_position(true, p).y == p.y,
{
}

/// Law: however the player moves, its position after the move lies inside the
/// grid; a move across an edge is clamped, it neither underflows nor
/// overflows.
pub proof fn lemma_player_move_stays_on_grid(dx: i32, dy: i32, p: Position)
    ensures
        0 <= moved_position(true, dx, dy, p).x < GRID_WIDTH,
        0 <= moved_position(true, dx, dy, p).y < GRID_HEIGHT,
{
}

/// The standing systems the scheduler can run.
#[derive(Clone, Copy, PartialEq, Eq, Structural, Debug)]
pub enum SystemKind {
    LeftWalker,
}

/// What one system does to the position of an entity, given which markers the
/// entity carries.
pub open spec fn system_position(kind: SystemKind, is_left_mover: bool, p: Position) -> Position {
    match kind {
        SystemKind::LeftWalker => walked_position(is_left_mover, p),
    }
}

/// What a list of systems, run in order, does to the position of an entity.
/// Later systems observe the mutations of earlier ones within the same tick.
pub open spec fn systems_position(
    kinds: Seq<SystemKind>,
    is_left_mover: bool,
    p: Position,
) -> Position
    decreases kinds.len(),
{
    if kinds.len() == 0 {
        p
    } else {
        system_position(
            kinds.last(),
            is_left_mover,
            systems_position(kinds.drop_last(), is_left_mover, p),
        )
    }
}

/// Executable left step, never below zero and never past the grid.
fn left_step_exec(x: i32) -> (r: i32)
    ensures
        r == left_step(x as int),
{
    if x <= 0 {
        GRID_WIDTH - 1
    } else {
        x - 1
    }
}

/// Executable clamp over a widened value, so the addition behind it cannot
/// overflow.
fn clamp_exec(v: i64, lo: i32, hi: i32) -> (r: i32)
    requires
        lo <= hi,
    ensures
        r == clamp(v as int, lo as int, hi as int),
{
    if v < lo as i64 {
        lo
    } else if v > hi as i64 {
        hi
    } else {
        v as i32
    }
}

/// Walks every entity that is both a left mover and positioned: reads the
/// left-mover markers, writes the positions.
pub struct LeftWalkerSystem {}

impl LeftWalkerSystem {
    /// One pass: every entity with both a `LeftMover` marker and a `Position`
    /// steps one cell to the left, wrapping from column zero to the rightmost
    /// column. No entity gains or loses a component, no other position
    /// changes, and the iteration order of the store is kept.
    pub fn run(left_movers: &ComponentStore<LeftMover>, positions: &mut ComponentStore<Position>)
        requires
            left_movers.wf(),
            old(positions).wf(),
        ensures
            final(positions).wf(),
            final(positions).keys() == old(positions).keys(),
            forall|id: u64|
                old(positions).has(id) ==> final(positions).get_spec(id) == walked_position(
                    left_movers.has(id),
                    old(positions).get_spec(id),
                ),
    {
        let ids = join2(left_movers, positions);
        let ghost p0 = *positions;
        let n = ids.len();
        for i in 0..n
            invariant
                n == ids@.len(),
                positions.wf(),
                positions.keys() == p0.keys(),
                left_movers.wf(),
                ids@.no_duplicates(),
                forall|id: u64| #[trigger] ids@.contains(id) <==> left_movers.has(id) && p0.has(id),
                forall|id: u64|
                    p0.has(id) && ids@.take(i as int).contains(id)
                        ==> #[trigger] positions.get_spec(id) == walked_position(
                        true,
                        p0.get_spec(id),
                    ),
                forall|id: u64|
                    p0.has(id) && !ids@.take(i as int).contains(id)
                        ==> #[trigger] positions.get_spec(id) == p0.get_spec(id),
        {
            let id = ids[i];
            proof {
                assert(ids@.contains(id)) by {
                    assert(ids@[i as int] == id);
                }
                assert(!ids@.take(i as int).contains(id)) by {
                    if ids@.take(i as int).contains(id) {
                        let t = ids@.take(i as int);
                        let j = choose|j: int| 0 <= j < t.len() && t[j] == id;
                        assert(ids@[j] == ids@[i as int]);
                    }
                }
            }
            let p = match positions.get(id) {
                Some(p) => p,
                None => {
                    proof {
                        assert(false);
                    }
                    Position { x: 0, y: 0 }
                },
            };
            let stepped = Position { x: left_step_exec(p.x), y: p.y };
            positions.insert(id, stepped);
            proof {
                assert forall|k: u64| p0.has(k) && ids@.take(i + 1).contains(k)
                    implies #[trigger] positions.get_spec(k) == walked_position(
                    true,
                    p0.get_spec(k),
                ) by {
                    if k != id {
                        assert(ids@.take(i as int).contains(k)) by {
                            let t = ids@.take(i + 1);
                            let j = choose|j: int| 0 <= j < t.len() && t[j] == k;
                            assert(j < i) by {
                                assert(t[i as int] == id);
                            }
                            assert(ids@.take(i as int)[j] == k);
                        }
                    }
                }
                assert forall|k: u64| p0.has(k) && !ids@.take(i + 1).contains(k)
                    implies #[trigger] positions.get_spec(k) == p0.get_spec(k) by {
                    assert(!ids@.take(i as int).contains(k)) by {
                        if ids@.take(i as int).contains(k) {
                            let t = ids@.take(i as int);
                            let j = choose|j: int| 0 <= j < t.len() && t[j] == k;
                            assert(ids@.take(i + 1)[j] == k);
                        }
                    }
                    assert(k != id) by {
                        assert(ids@.take(i + 1)[i as int] == id);
                    }
                }
            }
        }
        proof {
            assert(ids@.take(n as int) =~= ids@);
            assert forall|id: u64| p0.has(id) implies positions.get_spec(id) == walked_position(
                left_movers.has(id),
                p0.get_spec(id),
            ) by {
                if ids@.contains(id) {
                    assert(positions.get_spec(id) == walked_position(true, p0.get_spec(id)));
                } else {
                    assert(!left_movers.has(id));
                }
            }
        }
    }
}

/// Moves the player by the given delta, clamped to the grid: every entity
/// carrying both `Player` and `Position` has `x` forced into
/// `0 ..= GRID_WIDTH - 1` and `y` into `0 ..= GRID_HEIGHT - 1` after the move.
/// Nothing else in the world changes.
pub fn try_move_player(delta_x: i32, delta_y: i32, ecs: &mut World)
    requires
        old(ecs).wf(),
    ensures
        final(ecs).wf(),
        final(ecs).registry == old(ecs).registry,
        final(ecs).renderables == old(ecs).renderables,
        final(ecs).left_movers == old(ecs).left_movers,
        final(ecs).players == old(ecs).players,
        final(ecs).positions.keys() == old(ecs).positions.keys(),
        forall|id: u64|
            old(ecs).positions.has(id) ==> final(ecs).positions.get_spec(id) == moved_position(
                old(ecs).players.has(id),
                delta_x,
                delta_y,
                old(ecs).positions.get_spec(id),
            ),
{
    let ids = join2(&ecs.players, &ecs.positions);
    let ghost w0 = *ecs;
    let ghost p0 = ecs.positions;
    let n = ids.len();
    for i in 0..n
        invariant
            n == ids@.len(),
            ecs.positions.wf(),
            ecs.positions.keys() == p0.keys(),
            ecs.registry == w0.registry,
            ecs.renderables == w0.renderables,
            ecs.left_movers == w0.left_movers,
            ecs.players == w0.players,
            ids@.no_duplicates(),
            forall|id: u64| #[trigger] ids@.contains(id) <==> w0.players.has(id) && p0.has(id),
            forall|id: u64|
                p0.has(id) && ids@.take(i as int).contains(id) ==> #[trigger] ecs.positions.get_spec(
                    id,
                ) == moved_position(true, delta_x, delta_y, p0.get_spec(id)),
            forall|id: u64|
                p0.has(id) && !ids@.take(i as int).contains(id)
                    ==> #[trigger] ecs.positions.get_spec(id) == p0.get_spec(id),
    {
        let id = ids[i];
        proof {
            assert(ids@.contains(id)) by {
                assert(ids@[i as int] == id);
            }
            assert(!ids@.take(i as int).contains(id)) by {
                if ids@.take(i as int).contains(id) {
                    let t = ids@.take(i as int);
                    let j = choose|j: int| 0 <= j < t.len() && t[j] == id;
                    assert(ids@[j] == ids@[i as int]);
                }
            }
        }
        let p = match ecs.positions.get(id) {
            Some(p) => p,
            None => {
                proof {
                    assert(false);
                }
                Position { x: 0, y: 0 }
            },
        };
        let moved = Position {
            x: clamp_exec(p.x as i64 + delta_x as i64, 0, GRID_WIDTH - 1),
            y: clamp_exec(p.y as i64 + delta_y as i64, 0, GRID_HEIGHT - 1),
        };
        ecs.positions.insert(id, moved);
        proof {
            assert forall|k: u64| p0.has(k) && ids@.take(i + 1).contains(k)
                implies #[trigger] ecs.positions.get_spec(k) == moved_position(
                true,
                delta_x,
                delta_y,
                p0.get_spec(k),
            ) by {
                if k != id {
                    assert(ids@.take(i as int).contains(k)) by {
                        let t = ids@.take(i + 1);
                        let j = choose|j: int| 0 <= j < t.len() && t[j] == k;
                        assert(j < i) by {
                            assert(t[i as int] == id);
                        }
                        assert(ids@.take(i as int)[j] == k);
                    }
                }
            }
            assert forall|k: u64| p0.has(k) && !ids@.take(i + 1).contains(k)
                implies #[trigger] ecs.positions.get_spec(k) == p0.get_spec(k) by {
                assert(!ids@.take(i as int).contains(k)) by {
                    if ids@.take(i as int).contains(k) {
                        let t = ids@.take(i as int);
                        let j = choose|j: int| 0 <= j < t.len() && t[j] == k;
                        assert(ids@.take(i + 1)[j] == k);
                    }
                }
                assert(k != id) by {
                    assert(ids@.take(i + 1)[i as int] == id);
                }
            }
        }
    }
    proof {
        assert(ids@.take(n as int) =~= ids@);
        assert forall|id: u64| p0.has(id) implies ecs.positions.get_spec(id) == moved_position(
            w0.players.has(id),
            delta_x,
            delta_y,
            p0.get_spec(id),
        ) by {
            if ids@.contains(id) {
                assert(ecs.positions.get_spec(id) == moved_position(
                    true,
                    delta_x,
                    delta_y,
                    p0.get_spec(id),
                ));
            } else {
                assert(!w0.players.has(id));
            }
        }
        assert forall|id: u64| #[trigger] ecs.positions.has(id) implies ecs.registry.is_live(
            id,
        ) by {
            assert(w0.positions.has(id));
            assert(w0.registry.is_live(id));
        }
    }
}

/// Applies a tick's optional directional input as a one-shot system: `None`
/// leaves the world untouched, a direction moves the player by its delta,
/// clamped to the grid.
pub fn player_input(ecs: &mut World, input: Option<Direction>)
    requires
        old(ecs).wf(),
    ensures
        final(ecs).wf(),
        final(ecs).registry == old(ecs).registry,
        final(ecs).renderables == old(ecs).renderables,
        final(ecs).left_movers == old(ecs).left_movers,
        final(ecs).players == old(ecs).players,
        final(ecs).positions.keys() == old(ecs).positions.keys(),
        forall|id: u64|
            old(ecs).positions.has(id) ==> final(ecs).positions.get_spec(id) == input_position(
                input,
                old(ecs).players.has(id),
                old(ecs).positions.get_spec(id),
            ),
{
    match input {
        None => {},
        Some(d) => {
            let (dx, dy) = match d {
                Direction::Left => (-1i32, 0i32),
                Direction::Right => (1i32, 0i32),
                Direction::Up => (0i32, -1i32),
                Direction::Down => (0i32, 1i32),
            };
            proof {
                assert((dx, dy) == direction_delta(d));
            }
            try_move_player(dx, dy, ecs);
        },
    }
}

/// Holds an ordered list of systems and runs each once per tick against the
/// world, then triggers maintenance.
pub struct SystemScheduler {
    pub systems: Vec<SystemKind>,
}

impl SystemScheduler {
    /// Creates a scheduler with no registered systems.
    pub fn new() -> (s: SystemScheduler)
        ensures
            s.systems@ == Seq::<SystemKind>::empty(),
    {
        SystemScheduler { systems: Vec::new() }
    }

    /// Registers one more system; systems run in registration order.
    pub fn register(&mut self, kind: SystemKind)
        ensures
            final(self).systems@ == old(self).systems@.push(kind),
    {
        self.systems.push(kind);
    }

    /// Runs the registered systems in their fixed order, once each,
    /// synchronously, then applies the maintenance pass. Each surviving
    /// entity's position is the result of every system applied in order;
    /// marked entities are reclaimed from the registry and every store.
    pub fn run_tick(&self, world: &mut World)
        requires
            old(world).wf(),
        ensures
            final(world).wf(),
            final(world).registry.next_id == old(world).registry.next_id,
            final(world).registry.live@ == purge_ids(
                old(world).registry.live@,
                old(world).registry.marked@,
            ),
            final(world).positions.keys() == purge_ids(
                old(world).positions.keys(),
                old(world).registry.marked@,
            ),
            final(world).renderables.keys() == purge_ids(
                old(world).renderables.keys(),
                old(world).registry.marked@,
            ),
            final(world).left_movers.keys() == purge_ids(
                old(world).left_movers.keys(),
                old(world).registry.marked@,
            ),
            final(world).players.keys() == purge_ids(
                old(world).players.keys(),
                old(world).registry.marked@,
            ),
            forall|id: u64| !(#[trigger] final(world).registry.is_marked(id)),
            forall|id: u64|
                #[trigger] final(world).registry.is_live(id) <==> old(world).registry.is_live(id)
                    && !old(world).registry.is_marked(id),
            forall|id: u64|
                #[trigger] final(world).positions.has(id) <==> old(world).positions.has(id) && !old(
                    world,
                ).registry.is_marked(id),
            forall|id: u64|
                #[trigger] final(world).renderables.has(id) <==> old(world).renderables.has(id)
                    && !old(world).registry.is_marked(id),
            forall|id: u64|
                #[trigger] final(world).left_movers.has(id) <==> old(world).left_movers.has(id)
                    && !old(world).registry.is_marked(id),
            forall|id: u64|
                #[trigger] final(world).players.has(id) <==> old(world).players.has(id) && !old(
                    world,
                ).registry.is_marked(id),
            forall|id: u64|
                final(world).positions.has(id) ==> final(world).positions.get_spec(id)
                    == systems_position(
                    self.systems@,
                    old(world).left_movers.has(id),
                    old(world).positions.get_spec(id),
                ),
            forall|id: u64|
                final(world).renderables.has(id) ==> final(world).renderables.get_spec(id) == old(
                    world,
                ).renderables.get_spec(id),
    {
        let ghost w0 = *world;
        let n = self.systems.len();
        for i in 0..n
            invariant
                n == self.systems@.len(),
                w0.wf(),
                world.wf(),
                world.registry == w0.registry,
                world.renderables == w0.renderables,
                world.left_movers == w0.left_movers,
                world.players == w0.players,
                world.positions.keys() == w0.positions.keys(),
                forall|id: u64|
                    w0.positions.has(id) ==> #[trigger] world.positions.get_spec(id)
                        == systems_position(
                        self.systems@.take(i as int),
                        w0.left_movers.has(id),
                        w0.positions.get_spec(id),
                    ),
        {
            let kind = self.systems[i];
            proof {
                assert(self.systems@.take(i + 1).drop_last() =~= self.systems@.take(i as int));
                assert(self.systems@.take(i + 1).last() == self.systems@[i as int]);
            }
            match kind {
                SystemKind::LeftWalker => {
                    let ghost before = world.positions;
                    LeftWalkerSystem::run(&world.left_movers, &mut world.positions);
                    proof {
                        assert forall|id: u64| w0.positions.has(id)
                            implies #[trigger] world.positions.get_spec(id) == systems_position(
                            self.systems@.take(i + 1),
                            w0.left_movers.has(id),
                            w0.positions.get_spec(id),
                        ) by {
                            assert(before.has(id));
                            assert(world.positions.get_spec(id) == walked_position(
                                world.left_movers.has(id),
                                before.get_spec(id),
                            ));
                        }
                        assert forall|id: u64| #[trigger] world.positions.has(id)
                            implies world.registry.is_live(id) by {
                            assert(w0.positions.has(id));
                            assert(w0.registry.is_live(id));
                        }
                    }
                },
            }
        }
        proof {
            assert(self.systems@.take(n as int) =~= self.systems@);
        }
        let ghost pre = *world;
        world.maintain();
        proof {
            lemma_purge_entries_keys(pre.positions@, pre.registry.marked@);
            lemma_purge_entries_keys(pre.renderables@, pre.registry.marked@);
            lemma_purge_entries_keys(pre.left_movers@, pre.registry.marked@);
            lemma_purge_entries_keys(pre.players@, pre.registry.marked@);
        }
    }
}

} // verus!
