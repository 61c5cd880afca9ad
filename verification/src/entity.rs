//! Entity handles and the registry that issues and reclaims them.

use vstd::prelude::*;
use crate::store::id_vec_contains;
use crate::store::purge_ids;

verus! {

/// An opaque unique identifier denoting one logical object. No payload of its
/// own.
#[derive(Clone, Copy, PartialEq, Eq, Structural, Debug)]
pub struct Entity {
    pub id: u64,
}

/// Issues unique entity identifiers, tracks liveness, and defers destruction
/// until the next maintenance pass. Ids are allocated monotonically and never
/// reused for the lifetime of the registry.
pub struct EntityRegistry {
    /// The next id to hand out; every id ever issued is below it.
    pub next_id: u64,
    /// The ids currently considered live, in order of creation.
    pub live: Vec<u64>,
    /// The live ids marked for removal at the next maintenance pass.
    pub marked: Vec<u64>,
}

impl EntityRegistry {
    /// Whether the registry considers `id` live.
    pub open spec fn is_live(self, id: u64) -> bool {
        self.live@.contains(id)
    }

    /// Whether `id` is marked for removal at the next maintenance pass.
    pub open spec fn is_marked(self, id: u64) -> bool {
        self.marked@.contains(id)
    }

    /// Well-formed: live ids are distinct and below `next_id`, marked ids are
    /// distinct and live.
    pub open spec fn wf(self) -> bool {
        &&& self.live@.no_duplicates()
        &&& self.marked@.no_duplicates()
        &&& forall|id: u64| #[trigger] self.is_live(id) ==> id < self.next_id
        &&& forall|id: u64| #[trigger] self.is_marked(id) ==> self.is_live(id)
    }

    /// Creates an empty registry.
    pub fn new() -> (r: Self)
        ensures
            r.wf(),
            r.next_id == 0,
            r.live@ == Seq::<u64>::empty(),
            r.marked@ == Seq::<u64>::empty(),
    {
        EntityRegistry { next_id: 0, live: Vec::new(), marked: Vec::new() }
    }

    /// Allocates a fresh entity id, never issued before and never reused.
    pub fn create(&mut self) -> (e: Entity)
        requires
            old(self).wf(),
            old(self).next_id < u64::MAX,
        ensures
            final(self).wf(),
            e.id == old(self).next_id,
            !old(self).is_live(e.id),
            final(self).next_id == old(self).next_id + 1,
            final(self).live@ == old(self).live@.push(e.id),
            final(self).marked@ == old(self).marked@,
            forall|id: u64| #[trigger] final(self).is_live(id) <==> old(self).is_live(id) || id == e.id,
    {
        let id = self.next_id;
        self.next_id = self.next_id + 1;
        self.live.push(id);
        proof {
            let lv = self.live@;
            assert(!old(self).live@.contains(id)) by {
                if old(self).is_live(id) {
                    assert(id < old(self).next_id);
                }
            }
            assert forall|i: int, j: int|
                0 <= i < lv.len() && 0 <= j < lv.len() && i != j implies lv[i] != lv[j] by {
                if i == lv.len() - 1 {
                    if lv[i] == lv[j] {
                        assert(old(self).live@.contains(lv[j]));
                    }
                } else if j == lv.len() - 1 {
                    if lv[i] == lv[j] {
                        assert(old(self).live@.contains(lv[i]));
                    }
                }
            }
            assert forall|k: u64| #[trigger] self.is_live(k) implies old(self).is_live(k) || k
                == id by {
                let j = choose|j: int| 0 <= j < lv.len() && lv[j] == k;
                if j < lv.len() - 1 {
                    assert(old(self).live@[j] == k);
                }
            }
            assert forall|k: u64| old(self).is_live(k) implies self.is_live(k) by {
                let j = choose|j: int|
                    0 <= j < old(self).live@.len() && old(self).live@[j] == k;
                assert(lv[j] == k);
            }
            assert(lv[lv.len() - 1] == id);
            assert(self.is_live(id));
            assert forall|k: u64| #[trigger] self.is_live(k) implies k < self.next_id by {
                if old(self).is_live(k) {
                    assert(k < old(self).next_id);
                }
            }
            assert forall|k: u64| #[trigger] self.is_marked(k) implies self.is_live(k) by {
                assert(old(self).is_marked(k));
                assert(old(self).is_live(k));
            }
        }
        Entity { id }
    }

    /// Marks `id` for removal at the next maintenance pass; idempotent, with
    /// no immediate effect on liveness or storage.
    pub fn destroy(&mut self, e: Entity)
        requires
            old(self).wf(),
            old(self).is_live(e.id),
        ensures
            final(self).wf(),
            final(self).next_id == old(self).next_id,
            final(self).live@ == old(self).live@,
            final(self).marked@ == if old(self).is_marked(e.id) {
                old(self).marked@
            } else {
                old(self).marked@.push(e.id)
            },
            forall|id: u64|
                #[trigger] final(self).is_marked(id) <==> old(self).is_marked(id) || id == e.id,
    {
        if !id_vec_contains(&self.marked, e.id) {
            self.marked.push(e.id);
            proof {
                let mk = self.marked@;
                assert forall|i: int, j: int|
                    0 <= i < mk.len() && 0 <= j < mk.len() && i != j implies mk[i] != mk[j] by {
                    if i == mk.len() - 1 {
                        if mk[i] == mk[j] {
                            assert(old(self).marked@.contains(mk[j]));
                        }
                    } else if j == mk.len() - 1 {
                        if mk[i] == mk[j] {
                            assert(old(self).marked@.contains(mk[i]));
                        }
                    }
                }
                assert forall|k: u64| #[trigger] self.is_marked(k) implies old(self).is_marked(k)
                    || k == e.id by {
                    let j = choose|j: int| 0 <= j < mk.len() && mk[j] == k;
                    if j < mk.len() - 1 {
                        assert(old(self).marked@[j] == k);
                    }
                }
                assert forall|k: u64| old(self).is_marked(k) implies self.is_marked(k) by {
                    let j = choose|j: int|
                        0 <= j < old(self).marked@.len() && old(self).marked@[j] == k;
                    assert(mk[j] == k);
                }
                assert(mk[mk.len() - 1] == e.id);
                assert(self.is_marked(e.id));
                assert forall|k: u64| #[trigger] self.is_marked(k) implies self.is_live(k) by {
                    if old(self).is_marked(k) {
                        assert(old(self).is_live(k));
                    }
                    assert(old(self).is_live(k));
                }
                assert forall|k: u64| #[trigger] self.is_live(k) implies k < self.next_id by {
                    assert(old(self).is_live(k));
                }
            }
        } else {
            proof {
                assert(old(self).is_marked(e.id));
            }
        }
    }

    /// Applies the deferred destructions: every marked id stops being live and
    /// the marks are cleared. The surviving live ids keep their order.
    pub fn reap(&mut self)
        requires
            old(self).wf(),
        ensures
            final(self).wf(),
            final(self).next_id == old(self).next_id,
            final(self).live@ == purge_ids(old(self).live@, old(self).marked@),
            final(self).marked@ == Seq::<u64>::empty(),
            forall|id: u64|
                #[trigger] final(self).is_live(id) <==> old(self).is_live(id) && !old(
                    self,
                ).is_marked(id),
    {
        let ghost l0 = self.live@;
        let mut kept: Vec<u64> = Vec::new();
        let n = self.live.len();
        for i in 0..n
            invariant
                n == self.live@.len(),
                self.live@ == l0,
                self.marked@ == old(self).marked@,
                kept@ == purge_ids(l0.take(i as int), old(self).marked@),
        {
            let id = self.live[i];
            proof {
                assert(l0.take(i + 1).drop_last() =~= l0.take(i as int));
                assert(l0.take(i + 1).last() == l0[i as int]);
            }
            if !id_vec_contains(&self.marked, id) {
                kept.push(id);
            }
        }
        proof {
            assert(l0.take(n as int) =~= l0);
        }
        self.live = kept;
        self.marked = Vec::new();
        proof {
            crate::store::lemma_purge_ids_membership(l0, old(self).marked@);
            crate::store::lemma_purge_ids_no_duplicates(l0, old(self).marked@);
            assert forall|k: u64|
                #[trigger] self.is_live(k) <==> old(self).is_live(k) && !old(self).is_marked(
                k,
            ) by {
                assert(self.live@.contains(k) <==> l0.contains(k) && !old(self).marked@.contains(
                    k,
                ));
            }
            assert forall|k: u64| #[trigger] self.is_live(k) implies k < self.next_id by {
                assert(old(self).is_live(k));
                assert(k < old(self).next_id);
            }
            assert forall|k: u64| #[trigger] self.is_marked(k) implies self.is_live(k) by {
                assert(!self.marked@.contains(k));
            }
        }
    }
}

} // verus!
