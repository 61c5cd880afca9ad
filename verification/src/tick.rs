//! The per-frame entry point and the startup population of the world.
//!
//! A tick is the unit of state transition: input is applied as a one-shot
//! system, the standing systems run in their fixed order, maintenance reclaims
//! destroyed entities, and only then is the render pass collected, so a
//! destroyed entity never renders.

use vstd::prelude::*;
use crate::components::{Color, Direction, Position, Renderable};
use crate::join::{join2, join_keys};
use crate::store::purge_ids;
use crate::systems::{input_position, systems_position, SystemKind, SystemScheduler};
use crate::world::World;

verus! {

/// One cell to paint on the presentation surface, after it has been cleared.
#[derive(Clone, Copy, PartialEq, Eq, Structural, Debug)]
pub struct DrawCall {
    pub x: i32,
    pub y: i32,
    pub fg: Color,
    pub bg: Color,
    pub glyph: u16,
}

/// The draw call for one entity: its position and its renderable.
pub open spec fn draw_of(w: World, id: u64) -> DrawCall {
    DrawCall {
        x: w.positions.get_spec(id).x,
        y: w.positions.get_spec(id).y,
        fg: w.renderables.get_spec(id).fg,
        bg: w.renderables.get_spec(id).bg,
        glyph: w.renderables.get_spec(id).glyph,
    }
}

/// The draw calls for a sequence of entities, in order.
pub open spec fn draws_for(w: World, ids: Seq<u64>) -> Seq<DrawCall>
    decreases ids.len(),
{
    if ids.len() == 0 {
        Seq::empty()
    } else {
        draws_for(w, ids.drop_last()).push(draw_of(w, ids.last()))
    }
}

/// The full render pass: one draw call per entity holding both a position and
/// a renderable, in the join's order.
pub open spec fn render_calls(w: World) -> Seq<DrawCall> {
    draws_for(w, join_keys(w.positions, w.renderables))
}

/// What a whole tick does to the position of an entity that survives it: the
/// input is applied first, then every registered system in order.
pub open spec fn tick_position(
    input: Option<Direction>,
    kinds: Seq<SystemKind>,
    is_player: bool,
    is_left_mover: bool,
    p: Position,
) -> Position {
    systems_position(kinds, is_left_mover, input_position(input, is_player, p))
}

/// Collects the draw instructions: a read-only join over every entity with
/// both a position and a renderable, in the positions' iteration order.
pub fn render(world: &World) -> (draws: Vec<DrawCall>)
    requires
        world.positions.wf(),
        world.renderables.wf(),
    ensures
        draws@ == render_calls(*world),
{
    let ids = join2(&world.positions, &world.renderables);
    let mut draws: Vec<DrawCall> = Vec::new();
    let n = ids.len();
    for i in 0..n
        invariant
            n == ids@.len(),
            world.positions.wf(),
            world.renderables.wf(),
            forall|id: u64|
                #[trigger] ids@.contains(id) <==> world.positions.has(id)
                    && world.renderables.has(id),
            draws@ == draws_for(*world, ids@.take(i as int)),
    {
        let id = ids[i];
        proof {
            assert(ids@.contains(id)) by {
                assert(ids@[i as int] == id);
            }
            assert(ids@.take(i + 1).drop_last() =~= ids@.take(i as int));
            assert(ids@.take(i + 1).last() == ids@[i as int]);
        }
        let p = match world.positions.get(id) {
            Some(p) => p,
            None => {
                proof {
                    assert(false);
                }
                Position { x: 0, y: 0 }
            },
        };
        let r = match world.renderables.get(id) {
            Some(r) => r,
            None => {
                proof {
                    assert(false);
                }
                Renderable { glyph: 0, fg: Color { r: 0, g: 0, b: 0 }, bg: Color { r: 0, g: 0, b: 0 } }
            },
        };
        draws.push(DrawCall { x: p.x, y: p.y, fg: r.fg, bg: r.bg, glyph: r.glyph });
    }
    proof {
        assert(ids@.take(n as int) =~= ids@);
    }
    draws
}

/// One full tick: applies the optional input as a one-shot system, runs the
/// registered systems in their fixed order, applies the maintenance pass, and
/// collects the draw calls of every surviving drawable entity at its post-tick
/// position.
pub fn tick(world: &mut World, scheduler: &SystemScheduler, input: Option<Direction>) -> (draws:
    Vec<DrawCall>)
    requires
        old(world).wf(),
    ensures
        final(world).wf(),
        final(world).registry.next_id == old(world).registry.next_id,
        final(world).registry.live@ == purge_ids(
            old(world).registry.live@,
            old(world).registry.marked@,
        ),
        final(world).positions.keys() == purge_ids(
            old(world).positions.keys(),
            old(world).registry.marked@,
        ),
        final(world).renderables.keys() == purge_ids(
            old(world).renderables.keys(),
            old(world).registry.marked@,
        ),
        final(world).left_movers.keys() == purge_ids(
            old(world).left_movers.keys(),
            old(world).registry.marked@,
        ),
        final(world).players.keys() == purge_ids(
            old(world).players.keys(),
            old(world).registry.marked@,
        ),
        forall|id: u64| !(#[trigger] final(world).registry.is_marked(id)),
        forall|id: u64|
            #[trigger] final(world).registry.is_live(id) <==> old(world).registry.is_live(id)
                && !old(world).registry.is_marked(id),
        forall|id: u64|
            #[trigger] final(world).positions.has(id) <==> old(world).positions.has(id) && !old(
                world,
            ).registry.is_marked(id),
        forall|id: u64|
            #[trigger] final(world).renderables.has(id) <==> old(world).renderables.has(id) && !old(
                world,
            ).registry.is_marked(id),
        forall|id: u64|
            #[trigger] final(world).left_movers.has(id) <==> old(world).left_movers.has(id) && !old(
                world,
            ).registry.is_marked(id),
        forall|id: u64|
            #[trigger] final(world).players.has(id) <==> old(world).players.has(id) && !old(
                world,
            ).registry.is_marked(id),
        forall|id: u64|
            final(world).positions.has(id) ==> final(world).positions.get_spec(id) == tick_position(
                input,
                scheduler.systems@,
                old(world).players.has(id),
                old(world).left_movers.has(id),
                old(world).positions.get_spec(id),
            ),
        forall|id: u64|
            final(world).renderables.has(id) ==> final(world).renderables.get_spec(id) == old(
                world,
            ).renderables.get_spec(id),
        draws@ == render_calls(*final(world)),
{
    crate::systems::player_input(world, input);
    let ghost w1 = *world;
    scheduler.run_tick(world);
    proof {
        assert forall|id: u64| world.positions.has(id) implies world.positions.get_spec(id)
            == tick_position(
            input,
            scheduler.systems@,
            old(world).players.has(id),
            old(world).left_movers.has(id),
            old(world).positions.get_spec(id),
        ) by {
            assert(w1.positions.has(id));
            assert(old(world).positions.has(id));
            assert(w1.positions.get_spec(id) == input_position(
                input,
                old(world).players.has(id),
                old(world).positions.get_spec(id),
            ));
        }
    }
    render(world)
}

/// Builds the startup population: entity 0 is the player, standing mid-grid
/// with its own glyph, and entities 1 through 10 are left movers spread every
/// seven columns along one row.
pub fn initial_world() -> (w: World)
    ensures
        w.wf(),
        w.registry.next_id == 11,
        forall|id: u64| #[trigger] w.registry.is_live(id) <==> id < 11,
        forall|id: u64| !(#[trigger] w.registry.is_marked(id)),
        forall|id: u64| #[trigger] w.positions.has(id) <==> id < 11,
        forall|id: u64| #[trigger] w.renderables.has(id) <==> id < 11,
        forall|id: u64| #[trigger] w.left_movers.has(id) <==> 1 <= id < 11,
        forall|id: u64| #[trigger] w.players.has(id) <==> id == 0,
        w.positions.get_spec(0) == (Position { x: 40, y: 25 }),
        forall|id: u64|
            1 <= id < 11 ==> (#[trigger] w.positions.get_spec(id)).x == 7 * (id - 1)
                && w.positions.get_spec(id).y == 20,
        w.renderables.get_spec(0) == (Renderable {
            glyph: 64,
            fg: Color { r: 255, g: 255, b: 0 },
            bg: Color { r: 0, g: 0, b: 0 },
        }),
        forall|id: u64|
            1 <= id < 11 ==> #[trigger] w.renderables.get_spec(id) == (Renderable {
                glyph: 1,
                fg: Color { r: 255, g: 0, b: 0 },
                bg: Color { r: 0, g: 0, b: 0 },
            }),
        w.positions.keys().len() == 11,
        forall|j: int| 0 <= j < 11 ==> #[trigger] w.positions.keys()[j] == j as u64,
        w.renderables.keys().len() == 11,
        forall|j: int| 0 <= j < 11 ==> #[trigger] w.renderables.keys()[j] == j as u64,
{
    let mut w = World::new();

    // The player: positioned mid-grid, drawn as an at sign (glyph 64 of the
    // surface's code page), yellow on black.
    let player = w.create_entity();
    w.insert_position(player, Position { x: 40, y: 25 });
    w.insert_renderable(
        player,
        Renderable {
            glyph: 64,
            fg: Color { r: 255, g: 255, b: 0 },
            bg: Color { r: 0, g: 0, b: 0 },
        },
    );
    w.insert_player(player);

    // Ten left movers along row 20, every seven columns, drawn as glyph 1 of
    // the surface's code page, red on black.
    let mut i: u64 = 0;
    while i < 10
        invariant
            0 <= i <= 10,
            w.wf(),
            w.registry.next_id == i + 1,
            forall|id: u64| #[trigger] w.registry.is_live(id) <==> id < i + 1,
            forall|id: u64| !(#[trigger] w.registry.is_marked(id)),
            forall|id: u64| #[trigger] w.positions.has(id) <==> id < i + 1,
            forall|id: u64| #[trigger] w.renderables.has(id) <==> id < i + 1,
            forall|id: u64| #[trigger] w.left_movers.has(id) <==> 1 <= id < i + 1,
            forall|id: u64| #[trigger] w.players.has(id) <==> id == 0,
            w.positions.get_spec(0) == (Position { x: 40, y: 25 }),
            forall|id: u64|
                1 <= id < i + 1 ==> (#[trigger] w.positions.get_spec(id)).x == 7 * (id - 1)
                    && w.positions.get_spec(id).y == 20,
            w.renderables.get_spec(0) == (Renderable {
                glyph: 64,
                fg: Color { r: 255, g: 255, b: 0 },
                bg: Color { r: 0, g: 0, b: 0 },
            }),
            forall|id: u64|
                1 <= id < i + 1 ==> #[trigger] w.renderables.get_spec(id) == (Renderable {
                    glyph: 1,
                    fg: Color { r: 255, g: 0, b: 0 },
                    bg: Color { r: 0, g: 0, b: 0 },
                }),
            w.positions.keys().len() == i + 1,
            forall|j: int| 0 <= j < i + 1 ==> #[trigger] w.positions.keys()[j] == j as u64,
            w.renderables.keys().len() == i + 1,
            forall|j: int| 0 <= j < i + 1 ==> #[trigger] w.renderables.keys()[j] == j as u64,
        decreases 10 - i,
    {
        let ghost w_at = w;
        let e = w.create_entity();
        let x: i32 = 7 * (i as i32);
        w.insert_position(e, Position { x, y: 20 });
        w.insert_renderable(
            e,
            Renderable {
                glyph: 1,
                fg: Color { r: 255, g: 0, b: 0 },
                bg: Color { r: 0, g: 0, b: 0 },
            },
        );
        w.insert_left_mover(e);
        proof {
            assert forall|id: u64| !(#[trigger] w.registry.is_marked(id)) by {
                assert(!w_at.registry.is_marked(id));
            }
        }
        i = i + 1;
    }
    w
}

} // verus!
