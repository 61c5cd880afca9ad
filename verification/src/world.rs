//! The single context object owning all engine state: the entity registry and
//! one component store per component kind.

use vstd::prelude::*;
use crate::components::{LeftMover, Player, Position, Renderable};
use crate::entity::{Entity, EntityRegistry};
use crate::join::{join_keys, lemma_matched_ids_membership};
use crate::store::{
    lemma_purge_entries_keys, lemma_purge_ids_membership, purge_entries, purge_ids,
    ComponentStore,
};

verus! {

/// Every id present in the store is one the registry considers live.
pub open spec fn store_live<T>(s: ComponentStore<T>, reg: EntityRegistry) -> bool {
    forall|id: u64| #[trigger] s.has(id) ==> reg.is_live(id)
}

/// Exclusively owns the entity registry and all component stores. Systems
/// borrow it for the duration of a run and never outlive it.
pub struct World {
    pub registry: EntityRegistry,
    pub positions: ComponentStore<Position>,
    pub renderables: ComponentStore<Renderable>,
    pub left_movers: ComponentStore<LeftMover>,
    pub players: ComponentStore<Player>,
}

/// How a maintenance pass transforms the world: every id marked for removal
/// loses its liveness and its entry in every store, the marks are cleared,
/// and everything else survives in order.
pub open spec fn maintain_rel(w0: World, w1: World) -> bool {
    &&& w1.registry.next_id == w0.registry.next_id
    &&& w1.registry.live@ == purge_ids(w0.registry.live@, w0.registry.marked@)
    &&& w1.registry.marked@ == Seq::<u64>::empty()
    &&& w1.positions@ == purge_entries(w0.positions@, w0.registry.marked@)
    &&& w1.renderables@ == purge_entries(w0.renderables@, w0.registry.marked@)
    &&& w1.left_movers@ == purge_entries(w0.left_movers@, w0.registry.marked@)
    &&& w1.players@ == purge_entries(w0.players@, w0.registry.marked@)
}

impl World {
    /// Well-formed: the registry and every store are well-formed, and a
    /// component value exists only for an id the registry considers live.
    pub open spec fn wf(self) -> bool {
        &&& self.registry.wf()
        &&& self.positions.wf()
        &&& self.renderables.wf()
        &&& self.left_movers.wf()
        &&& self.players.wf()
        &&& store_live(self.positions, self.registry)
        &&& store_live(self.renderables, self.registry)
        &&& store_live(self.left_movers, self.registry)
        &&& store_live(self.players, self.registry)
    }

    /// Creates a world with no entities and empty stores.
    pub fn new() -> (w: World)
        ensures
            w.wf(),
            w.registry.next_id == 0,
            w.registry.live@ == Seq::<u64>::empty(),
            w.registry.marked@ == Seq::<u64>::empty(),
            w.positions@ == Seq::<(u64, Position)>::empty(),
            w.renderables@ == Seq::<(u64, Renderable)>::empty(),
            w.left_movers@ == Seq::<(u64, LeftMover)>::empty(),
            w.players@ == Seq::<(u64, Player)>::empty(),
    {
        let w = World {
            registry: EntityRegistry::new(),
            positions: ComponentStore::new(),
            renderables: ComponentStore::new(),
            left_movers: ComponentStore::new(),
            players: ComponentStore::new(),
        };
        proof {
            assert(forall|id: u64| !(#[trigger] w.positions.has(id)));
            assert(forall|id: u64| !(#[trigger] w.renderables.has(id)));
            assert(forall|id: u64| !(#[trigger] w.left_movers.has(id)));
            assert(forall|id: u64| !(#[trigger] w.players.has(id)));
        }
        w
    }

    /// Allocates a fresh entity with no components attached yet.
    pub fn create_entity(&mut self) -> (e: Entity)
        requires
            old(self).wf(),
            old(self).registry.next_id < u64::MAX,
        ensures
            final(self).wf(),
            e.id == old(self).registry.next_id,
            final(self).registry.next_id == old(self).registry.next_id + 1,
            final(self).registry.live@ == old(self).registry.live@.push(e.id),
            final(self).registry.marked@ == old(self).registry.marked@,
            final(self).registry.is_live(e.id),
            !old(self).registry.is_live(e.id),
            forall|id: u64|
                #[trigger] final(self).registry.is_live(id) <==> old(self).registry.is_live(id)
                    || id == e.id,
            final(self).positions == old(self).positions,
            final(self).renderables == old(self).renderables,
            final(self).left_movers == old(self).left_movers,
            final(self).players == old(self).players,
            !final(self).positions.has(e.id),
            !final(self).renderables.has(e.id),
            !final(self).left_movers.has(e.id),
            !final(self).players.has(e.id),
    {
        let e = self.registry.create();
        proof {
            assert forall|id: u64| #[trigger] self.positions.has(id) implies self.registry.is_live(id) by {
                assert(old(self).registry.is_live(id));
            }
            assert forall|id: u64| #[trigger] self.renderables.has(id)
                implies self.registry.is_live(id) by {
                assert(old(self).registry.is_live(id));
            }
            assert forall|id: u64| #[trigger] self.left_movers.has(id)
                implies self.registry.is_live(id) by {
                assert(old(self).registry.is_live(id));
            }
            assert forall|id: u64| #[trigger] self.players.has(id) implies self.registry.is_live(id) by {
                assert(old(self).registry.is_live(id));
            }
        }
        e
    }

    /// Attaches a position to `e`, or overwrites the one it has.
    pub fn insert_position(&mut self, e: Entity, value: Position)
        requires
            old(self).wf(),
            old(self).registry.is_live(e.id),
        ensures
            final(self).wf(),
            final(self).registry == old(self).registry,
            final(self).renderables == old(self).renderables,
            final(self).left_movers == old(self).left_movers,
            final(self).players == old(self).players,
            final(self).positions.has(e.id),
            final(self).positions.get_spec(e.id) == value,
            forall|k: u64|
                k != e.id ==> final(self).positions.has(k) == old(self).positions.has(k),
            forall|k: u64|
                k != e.id && old(self).positions.has(k) ==> final(self).positions.get_spec(k)
                    == old(self).positions.get_spec(k),
            final(self).positions.keys() == if old(self).positions.has(e.id) {
                old(self).positions.keys()
            } else {
                old(self).positions.keys().push(e.id)
            },
    {
        self.positions.insert(e.id, value);
        proof {
            assert forall|id: u64| #[trigger] self.positions.has(id) implies self.registry.is_live(id) by {
                if id != e.id {
                    assert(old(self).positions.has(id));
                }
            }
        }
    }

    /// Attaches a renderable to `e`, or overwrites the one it has.
    pub fn insert_renderable(&mut self, e: Entity, value: Renderable)
        requires
            old(self).wf(),
            old(self).registry.is_live(e.id),
        ensures
            final(self).wf(),
            final(self).registry == old(self).registry,
            final(self).positions == old(self).positions,
            final(self).left_movers == old(self).left_movers,
            final(self).players == old(self).players,
            final(self).renderables.has(e.id),
            final(self).renderables.get_spec(e.id) == value,
            forall|k: u64|
                k != e.id ==> final(self).renderables.has(k) == old(self).renderables.has(k),
            forall|k: u64|
                k != e.id && old(self).renderables.has(k) ==> final(self).renderables.get_spec(k)
                    == old(self).renderables.get_spec(k),
            final(self).renderables.keys() == if old(self).renderables.has(e.id) {
                old(self).renderables.keys()
            } else {
                old(self).renderables.keys().push(e.id)
            },
    {
        self.renderables.insert(e.id, value);
        proof {
            assert forall|id: u64| #[trigger] self.renderables.has(id)
                implies self.registry.is_live(id) by {
                if id != e.id {
                    assert(old(self).renderables.has(id));
                }
            }
        }
    }

    /// Marks `e` as a left mover.
    pub fn insert_left_mover(&mut self, e: Entity)
        requires
            old(self).wf(),
            old(self).registry.is_live(e.id),
        ensures
            final(self).wf(),
            final(self).registry == old(self).registry,
            final(self).positions == old(self).positions,
            final(self).renderables == old(self).renderables,
            final(self).players == old(self).players,
            final(self).left_movers.has(e.id),
            forall|k: u64|
                k != e.id ==> final(self).left_movers.has(k) == old(self).left_movers.has(k),
            final(self).left_movers.keys() == if old(self).left_movers.has(e.id) {
                old(self).left_movers.keys()
            } else {
                old(self).left_movers.keys().push(e.id)
            },
    {
        self.left_movers.insert(e.id, LeftMover {  });
        proof {
            assert forall|id: u64| #[trigger] self.left_movers.has(id)
                implies self.registry.is_live(id) by {
                if id != e.id {
                    assert(old(self).left_movers.has(id));
                }
            }
        }
    }

    /// Marks `e` as the player-controlled entity.
    pub fn insert_player(&mut self, e: Entity)
        requires
            old(self).wf(),
            old(self).registry.is_live(e.id),
        ensures
            final(self).wf(),
            final(self).registry == old(self).registry,
            final(self).positions == old(self).positions,
            final(self).renderables == old(self).renderables,
            final(self).left_movers == old(self).left_movers,
            final(self).players.has(e.id),
            forall|k: u64| k != e.id ==> final(self).players.has(k) == old(self).players.has(k),
            final(self).players.keys() == if old(self).players.has(e.id) {
                old(self).players.keys()
            } else {
                old(self).players.keys().push(e.id)
            },
    {
        self.players.insert(e.id, Player {  });
        proof {
            assert forall|id: u64| #[trigger] self.players.has(id) implies self.registry.is_live(id) by {
                if id != e.id {
                    assert(old(self).players.has(id));
                }
            }
        }
    }

    /// Marks `e` for destruction; idempotent, with no immediate effect on any
    /// store. The entry is reclaimed at the next maintenance pass.
    pub fn destroy(&mut self, e: Entity)
        requires
            old(self).wf(),
            old(self).registry.is_live(e.id),
        ensures
            final(self).wf(),
            final(self).registry.next_id == old(self).registry.next_id,
            final(self).registry.live@ == old(self).registry.live@,
            final(self).registry.is_marked(e.id),
            forall|id: u64|
                #[trigger] final(self).registry.is_marked(id) <==> old(self).registry.is_marked(id)
                    || id == e.id,
            final(self).positions == old(self).positions,
            final(self).renderables == old(self).renderables,
            final(self).left_movers == old(self).left_movers,
            final(self).players == old(self).players,
    {
        self.registry.destroy(e);
    }

    /// Applies every deferred destruction: removes each marked id from every
    /// store and from the live set, then clears the marks. Runs between
    /// scheduler completion and the render pass.
    pub fn maintain(&mut self)
        requires
            old(self).wf(),
        ensures
            final(self).wf(),
            maintain_rel(*old(self), *final(self)),
            forall|id: u64|
                #[trigger] final(self).positions.has(id) <==> old(self).positions.has(id) && !old(self).registry.is_marked(id),
            forall|id: u64|
                #[trigger] final(self).renderables.has(id) <==> old(self).renderables.has(id)
                    && !old(self).registry.is_marked(id),
            forall|id: u64|
                #[trigger] final(self).left_movers.has(id) <==> old(self).left_movers.has(id)
                    && !old(self).registry.is_marked(id),
            forall|id: u64|
                #[trigger] final(self).players.has(id) <==> old(self).players.has(id) && !old(self).registry.is_marked(id),
            forall|id: u64|
                old(self).positions.has(id) && !old(self).registry.is_marked(id) ==> final(self).positions.get_spec(id) == old(self).positions.get_spec(id),
            forall|id: u64|
                old(self).renderables.has(id) && !old(self).registry.is_marked(id) ==> final(self).renderables.get_spec(id) == old(self).renderables.get_spec(id),
            forall|id: u64|
                #[trigger] final(self).registry.is_live(id) <==> old(self).registry.is_live(id)
                    && !old(self).registry.is_marked(id),
            final(self).registry.next_id == old(self).registry.next_id,
            forall|id: u64| !(#[trigger] final(self).registry.is_marked(id)),
    {
        self.positions.remove_marked(&self.registry.marked);
        self.renderables.remove_marked(&self.registry.marked);
        self.left_movers.remove_marked(&self.registry.marked);
        self.players.remove_marked(&self.registry.marked);
        self.registry.reap();
        proof {
            assert forall|id: u64| #[trigger] self.positions.has(id) implies self.registry.is_live(id) by {
                assert(old(self).positions.has(id) && !old(self).registry.is_marked(id));
                assert(old(self).registry.is_live(id));
            }
            assert forall|id: u64| #[trigger] self.renderables.has(id)
                implies self.registry.is_live(id) by {
                assert(old(self).renderables.has(id) && !old(self).registry.is_marked(id));
                assert(old(self).registry.is_live(id));
            }
            assert forall|id: u64| #[trigger] self.left_movers.has(id)
                implies self.registry.is_live(id) by {
                assert(old(self).left_movers.has(id) && !old(self).registry.is_marked(id));
                assert(old(self).registry.is_live(id));
            }
            assert forall|id: u64| #[trigger] self.players.has(id) implies self.registry.is_live(id) by {
                assert(old(self).players.has(id) && !old(self).registry.is_marked(id));
                assert(old(self).registry.is_live(id));
            }
        }
    }
}

/// Law: destroying an entity and letting the maintenance pass run removes it
/// from every store, and hence from every subsequent join, including joins
/// that previously matched it.
pub proof fn lemma_destroyed_entity_leaves_joins(w0: World, w1: World, id: u64)
    requires
        w0.wf(),
        w0.registry.is_marked(id),
        maintain_rel(w0, w1),
    ensures
        !w1.positions.has(id),
        !w1.renderables.has(id),
        !w1.left_movers.has(id),
        !w1.players.has(id),
        !join_keys(w1.positions, w1.renderables).contains(id),
        !join_keys(w1.left_movers, w1.positions).contains(id),
        !join_keys(w1.players, w1.positions).contains(id),
{
    let m = w0.registry.marked@;
    lemma_purge_entries_keys(w0.positions@, m);
    lemma_purge_entries_keys(w0.renderables@, m);
    lemma_purge_entries_keys(w0.left_movers@, m);
    lemma_purge_entries_keys(w0.players@, m);
    lemma_purge_ids_membership(w0.positions.keys(), m);
    lemma_purge_ids_membership(w0.renderables.keys(), m);
    lemma_purge_ids_membership(w0.left_movers.keys(), m);
    lemma_purge_ids_membership(w0.players.keys(), m);
    lemma_matched_ids_membership(w1.renderables.keys(), w1.renderables);
    lemma_matched_ids_membership(w1.positions.keys(), w1.renderables);
    lemma_matched_ids_membership(w1.left_movers.keys(), w1.positions);
    lemma_matched_ids_membership(w1.players.keys(), w1.positions);
}

} // verus!
