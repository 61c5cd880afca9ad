//! Sparse, insertion-ordered component storage.
//!
//! A [`ComponentStore`] owns every value of one component type, keyed by
//! entity id. An entity may be absent from any given store; absence is a
//! normal, cheap state. Iteration order is the insertion order, so two
//! traversals between mutations yield the same sequence of entities.

use vstd::prelude::*;

verus! {

/// The sequence of ids carried by a sequence of `(id, value)` entries.
pub open spec fn keys_of<T>(s: Seq<(u64, T)>) -> Seq<u64> {
    s.map_values(|p: (u64, T)| p.0)
}

/// The value stored for `id` in `s` (meaningful when the keys are unique and
/// `id` is among them).
pub open spec fn get_of<T>(s: Seq<(u64, T)>, id: u64) -> T {
    s[keys_of(s).index_of(id)].1
}

/// The subsequence of `ids` whose elements are not in `removed`, in order.
pub open spec fn purge_ids(ids: Seq<u64>, removed: Seq<u64>) -> Seq<u64>
    decreases ids.len(),
{
    if ids.len() == 0 {
        Seq::empty()
    } else if removed.contains(ids.last()) {
        purge_ids(ids.drop_last(), removed)
    } else {
        purge_ids(ids.drop_last(), removed).push(ids.last())
    }
}

/// The subsequence of entries whose ids are not in `removed`, in order.
pub open spec fn purge_entries<T>(s: Seq<(u64, T)>, removed: Seq<u64>) -> Seq<(u64, T)>
    decreases s.len(),
{
    if s.len() == 0 {
        Seq::empty()
    } else if removed.contains(s.last().0) {
        purge_entries(s.drop_last(), removed)
    } else {
        purge_entries(s.drop_last(), removed).push(s.last())
    }
}

/// An id occurs in the purged sequence exactly when it occurs in the
/// unpurged one and is not removed.
pub proof fn lemma_purge_ids_membership(ids: Seq<u64>, removed: Seq<u64>)
    ensures
        forall|k: u64|
            #[trigger] purge_ids(ids, removed).contains(k) <==> ids.contains(k)
                && !removed.contains(k),
    decreases ids.len(),
{
    if ids.len() > 0 {
        lemma_purge_ids_membership(ids.drop_last(), removed);
        assert forall|k: u64| ids.contains(k) && !removed.contains(k) implies #[trigger]
            purge_ids(ids, removed).contains(k) by {
            if k == ids.last() {
                let p = purge_ids(ids, removed);
                assert(p.last() == k);
                assert(p.contains(k)) by {
                    assert(p[p.len() - 1] == k);
                }
            } else {
                let i = choose|i: int| 0 <= i < ids.len() && ids[i] == k;
                assert(ids.drop_last()[i] == k);
                assert(ids.drop_last().contains(k));
                let q = purge_ids(ids.drop_last(), removed);
                assert(q.contains(k));
                let j = choose|j: int| 0 <= j < q.len() && q[j] == k;
                assert(purge_ids(ids, removed)[j] == k);
            }
        }
        assert forall|k: u64| #[trigger] purge_ids(ids, removed).contains(k) implies ids.contains(
            k,
        ) && !removed.contains(k) by {
            let p = purge_ids(ids, removed);
            let j = choose|j: int| 0 <= j < p.len() && p[j] == k;
            let q = purge_ids(ids.drop_last(), removed);
            if !removed.contains(ids.last()) && j == p.len() - 1 {
                assert(k == ids.last());
                assert(ids[ids.len() - 1] == k);
            } else {
                assert(q[j] == k);
                assert(q.contains(k));
                assert(ids.drop_last().contains(k));
                let i = choose|i: int| 0 <= i < ids.drop_last().len() && ids.drop_last()[i] == k;
                assert(ids[i] == k);
            }
        }
    }
}

/// Purging keeps the ids distinct.
pub proof fn lemma_purge_ids_no_duplicates(ids: Seq<u64>, removed: Seq<u64>)
    requires
        ids.no_duplicates(),
    ensures
        purge_ids(ids, removed).no_duplicates(),
    decreases ids.len(),
{
    if ids.len() > 0 {
        assert(ids.drop_last().no_duplicates());
        lemma_purge_ids_no_duplicates(ids.drop_last(), removed);
        if !removed.contains(ids.last()) {
            let q = purge_ids(ids.drop_last(), removed);
            lemma_purge_ids_membership(ids.drop_last(), removed);
            assert(!ids.drop_last().contains(ids.last())) by {
                if ids.drop_last().contains(ids.last()) {
                    let i = choose|i: int|
                        0 <= i < ids.drop_last().len() && ids.drop_last()[i] == ids.last();
                    assert(ids[i] == ids[ids.len() - 1]);
                }
            }
            assert(!q.contains(ids.last()));
            assert forall|i: int, j: int|
                0 <= i < q.push(ids.last()).len() && 0 <= j < q.push(ids.last()).len() && i
                    != j implies q.push(ids.last())[i] != q.push(ids.last())[j] by {
                if i == q.len() {
                    assert(q.push(ids.last())[j] == q[j]);
                    if q.push(ids.last())[i] == q[j] {
                        assert(q.contains(q[j]));
                    }
                } else if j == q.len() {
                    assert(q.push(ids.last())[i] == q[i]);
                    if q.push(ids.last())[j] == q[i] {
                        assert(q.contains(q[i]));
                    }
                }
            }
        }
    }
}

/// The ids of the purged entries are the purged ids.
pub proof fn lemma_purge_entries_keys<T>(s: Seq<(u64, T)>, removed: Seq<u64>)
    ensures
        keys_of(purge_entries(s, removed)) == purge_ids(keys_of(s), removed),
    decreases s.len(),
{
    if s.len() == 0 {
        assert(keys_of(purge_entries(s, removed)) =~= purge_ids(keys_of(s), removed));
    } else {
        lemma_purge_entries_keys(s.drop_last(), removed);
        assert(keys_of(s.drop_last()) =~= keys_of(s).drop_last());
        assert(keys_of(s).last() == s.last().0);
        assert(keys_of(s).len() == s.len());
        if removed.contains(s.last().0) {
            assert(purge_ids(keys_of(s), removed) == purge_ids(keys_of(s).drop_last(), removed));
        } else {
            assert(keys_of(purge_entries(s, removed)) =~= keys_of(
                purge_entries(s.drop_last(), removed),
            ).push(s.last().0));
        }
    }
}

/// An entry occurs in the purged entries exactly when it occurs in the
/// unpurged ones and its id is not removed.
pub proof fn lemma_purge_entries_membership<T>(s: Seq<(u64, T)>, removed: Seq<u64>)
    ensures
        forall|p: (u64, T)|
            #[trigger] purge_entries(s, removed).contains(p) <==> s.contains(p)
                && !removed.contains(p.0),
    decreases s.len(),
{
    if s.len() > 0 {
        lemma_purge_entries_membership(s.drop_last(), removed);
        assert forall|p: (u64, T)| s.contains(p) && !removed.contains(p.0) implies #[trigger]
            purge_entries(s, removed).contains(p) by {
            if p == s.last() {
                let out = purge_entries(s, removed);
                assert(out[out.len() - 1] == p);
            } else {
                let i = choose|i: int| 0 <= i < s.len() && s[i] == p;
                assert(s.drop_last()[i] == p);
                assert(s.drop_last().contains(p));
                let q = purge_entries(s.drop_last(), removed);
                assert(q.contains(p));
                let j = choose|j: int| 0 <= j < q.len() && q[j] == p;
                assert(purge_entries(s, removed)[j] == p);
            }
        }
        assert forall|p: (u64, T)| #[trigger] purge_entries(s, removed).contains(p) implies
            s.contains(p) && !removed.contains(p.0) by {
            let out = purge_entries(s, removed);
            let j = choose|j: int| 0 <= j < out.len() && out[j] == p;
            let q = purge_entries(s.drop_last(), removed);
            if !removed.contains(s.last().0) && j == out.len() - 1 {
                assert(p == s.last());
                assert(s[s.len() - 1] == p);
            } else {
                assert(q[j] == p);
                assert(q.contains(p));
                assert(s.drop_last().contains(p));
                let i = choose|i: int| 0 <= i < s.drop_last().len() && s.drop_last()[i] == p;
                assert(s[i] == p);
            }
        }
    }
}

/// In a sequence with distinct ids, `index_of` finds exactly the position of
/// each id.
pub proof fn lemma_index_of_unique(ids: Seq<u64>, i: int)
    requires
        ids.no_duplicates(),
        0 <= i < ids.len(),
    ensures
        ids.index_of(ids[i]) == i,
{
    assert(ids.contains(ids[i]));
    let j = ids.index_of(ids[i]);
    assert(0 <= j < ids.len() && ids[j] == ids[i]);
}

/// Purging does not change the value stored for a surviving id.
pub proof fn lemma_purge_entries_get<T>(s: Seq<(u64, T)>, removed: Seq<u64>, id: u64)
    requires
        keys_of(s).no_duplicates(),
        keys_of(s).contains(id),
        !removed.contains(id),
    ensures
        get_of(purge_entries(s, removed), id) == get_of(s, id),
{
    let out = purge_entries(s, removed);
    lemma_purge_entries_keys(s, removed);
    lemma_purge_ids_membership(keys_of(s), removed);
    lemma_purge_ids_no_duplicates(keys_of(s), removed);
    lemma_purge_entries_membership(s, removed);
    assert(keys_of(out).contains(id));
    let j = keys_of(out).index_of(id);
    assert(0 <= j < keys_of(out).len() && keys_of(out)[j] == id);
    assert(out[j].0 == id);
    assert(out.contains(out[j]));
    assert(s.contains(out[j]));
    let i = choose|i: int| 0 <= i < s.len() && s[i] == out[j];
    assert(keys_of(s)[i] == id);
    lemma_index_of_unique(keys_of(s), i);
    assert(get_of(s, id) == s[i].1);
}

/// A sparse mapping from entity id to a component value of type `T`, with
/// insertion-ordered iteration. The view is the sequence of `(id, value)`
/// entries in iteration order.
pub struct ComponentStore<T> {
    entries: Vec<(u64, T)>,
}

impl<T> View for ComponentStore<T> {
    type V = Seq<(u64, T)>;

    closed spec fn view(&self) -> Seq<(u64, T)> {
        self.entries@
    }
}

impl<T> ComponentStore<T> {
    /// The ids present in this store, in iteration order.
    pub open spec fn keys(self) -> Seq<u64> {
        keys_of(self@)
    }

    /// Well-formed: each id appears at most once.
    pub open spec fn wf(self) -> bool {
        self.keys().no_duplicates()
    }

    /// Whether `id` has a value in this store.
    pub open spec fn has(self, id: u64) -> bool {
        self.keys().contains(id)
    }

    /// The value stored for `id` (meaningful when `self.has(id)`).
    pub open spec fn get_spec(self, id: u64) -> T
        recommends
            self.wf(),
            self.has(id),
    {
        get_of(self@, id)
    }

    /// Creates an empty store.
    pub fn new() -> (s: Self)
        ensures
            s@ == Seq::<(u64, T)>::empty(),
            s.wf(),
    {
        let s = ComponentStore { entries: Vec::new() };
        proof {
            assert(s.keys() =~= Seq::<u64>::empty());
        }
        s
    }

    /// Number of entities present in this store.
    pub fn len(&self) -> (n: usize)
        ensures
            n == self@.len(),
    {
        self.entries.len()
    }

    /// The id at position `i` of the iteration order.
    pub fn key_at(&self, i: usize) -> (id: u64)
        requires
            i < self@.len(),
        ensures
            id == self.keys()[i as int],
    {
        self.entries[i].0
    }

    /// Position of `id` among the entries, if present.
    fn index_of_key(&self, id: u64) -> (r: Option<usize>)
        ensures
            match r {
                Some(i) => i < self@.len() && self@[i as int].0 == id,
                None => !self.has(id),
            },
    {
        let n = self.entries.len();
        for i in 0..n
            invariant
                n == self@.len(),
                forall|j: int| 0 <= j < i ==> self@[j].0 != id,
        {
            if self.entries[i].0 == id {
                return Some(i);
            }
        }
        proof {
            if self.has(id) {
                let j = choose|j: int| 0 <= j < self.keys().len() && self.keys()[j] == id;
                assert(self@[j].0 == id);
            }
        }
        None
    }

    /// Whether `id` has a value in this store.
    pub fn contains(&self, id: u64) -> (b: bool)
        ensures
            b == self.has(id),
    {
        let r = self.index_of_key(id);
        proof {
            if r is Some {
                let i = r->Some_0;
                assert(self.keys()[i as int] == id);
            }
        }
        r.is_some()
    }

    /// Attaches a value to `id`, or overwrites the one it already has.
    /// A fresh id goes to the end of the iteration order; an overwrite keeps
    /// the order unchanged.
    pub fn insert(&mut self, id: u64, value: T)
        requires
            old(self).wf(),
        ensures
            final(self).wf(),
            final(self).has(id),
            final(self).get_spec(id) == value,
            forall|k: u64| k != id ==> final(self).has(k) == old(self).has(k),
            forall|k: u64|
                k != id && old(self).has(k) ==> final(self).get_spec(k) == old(self).get_spec(k),
            final(self).keys() == if old(self).has(id) {
                old(self).keys()
            } else {
                old(self).keys().push(id)
            },
    {
        let ghost s0 = self@;
        match self.index_of_key(id) {
            Some(i) => {
                self.entries[i] = (id, value);
                proof {
                    assert(self@ == s0.update(i as int, (id, value)));
                    assert(self.keys() =~= keys_of(s0));
                    assert(keys_of(s0)[i as int] == id);
                    lemma_index_of_unique(keys_of(s0), i as int);
                    assert(self.get_spec(id) == value);
                    assert forall|k: u64| k != id && keys_of(s0).contains(k) implies get_of(
                        self@,
                        k,
                    ) == get_of(s0, k) by {
                        let j = keys_of(s0).index_of(k);
                        assert(0 <= j < keys_of(s0).len() && keys_of(s0)[j] == k);
                        assert(j != i);
                        assert(self@[j] == s0[j]);
                    }
                }
            },
            None => {
                self.entries.push((id, value));
                proof {
                    assert(self@ == s0.push((id, value)));
                    assert(self.keys() =~= keys_of(s0).push(id));
                    let ks = keys_of(s0).push(id);
                    assert(!keys_of(s0).contains(id));
                    assert forall|i: int, j: int|
                        0 <= i < ks.len() && 0 <= j < ks.len() && i != j implies ks[i] != ks[j] by {
                        if i == ks.len() - 1 {
                            if ks[i] == ks[j] {
                                assert(keys_of(s0).contains(ks[j]));
                            }
                        } else if j == ks.len() - 1 {
                            if ks[i] == ks[j] {
                                assert(keys_of(s0).contains(ks[i]));
                            }
                        }
                    }
                    assert(ks[ks.len() - 1] == id);
                    assert(self.has(id));
                    lemma_index_of_unique(ks, ks.len() - 1);
                    assert(self.get_spec(id) == value);
                    assert forall|k: u64| k != id && keys_of(s0).contains(k) implies get_of(
                        self@,
                        k,
                    ) == get_of(s0, k) && self.has(k) by {
                        let j = keys_of(s0).index_of(k);
                        assert(0 <= j < keys_of(s0).len() && keys_of(s0)[j] == k);
                        assert(ks[j] == k);
                        lemma_index_of_unique(ks, j);
                        assert(self@[j] == s0[j]);
                    }
                    assert forall|k: u64| k != id implies self.has(k) == old(self).has(k) by {
                        if self.has(k) {
                            let j = choose|j: int| 0 <= j < ks.len() && ks[j] == k;
                            assert(j != ks.len() - 1);
                            assert(keys_of(s0)[j] == k);
                            assert(old(self).has(k));
                        }
                        if old(self).has(k) {
                            let j = choose|j: int|
                                0 <= j < keys_of(s0).len() && keys_of(s0)[j] == k;
                            assert(ks[j] == k);
                            assert(self.has(k));
                        }
                    }
                }
            },
        }
    }

    /// Reads the value attached to `id`; absence is not an error.
    pub fn get(&self, id: u64) -> (r: Option<T>) where T: Copy
        requires
            self.wf(),
        ensures
            match r {
                Some(v) => self.has(id) && v == self.get_spec(id),
                None => !self.has(id),
            },
    {
        match self.index_of_key(id) {
            Some(i) => {
                proof {
                    assert(self.keys()[i as int] == id);
                    lemma_index_of_unique(self.keys(), i as int);
                }
                Some(self.entries[i].1)
            },
            None => None,
        }
    }

    /// Detaches every entry whose id is in `removed`; ids not present are
    /// ignored. The surviving entries keep their relative order.
    pub fn remove_marked(&mut self, removed: &Vec<u64>) where T: Copy
        requires
            old(self).wf(),
        ensures
            final(self)@ == purge_entries(old(self)@, removed@),
            final(self).keys() == purge_ids(old(self).keys(), removed@),
            final(self).wf(),
            forall|k: u64|
                #[trigger] final(self).has(k) <==> old(self).has(k) && !removed@.contains(k),
            forall|k: u64|
                old(self).has(k) && !removed@.contains(k) ==> final(self).get_spec(k) == old(
                    self,
                ).get_spec(k),
    {
        let ghost s0 = self@;
        let mut out: Vec<(u64, T)> = Vec::new();
        let n = self.entries.len();
        for i in 0..n
            invariant
                n == self@.len(),
                self@ == s0,
                out@ == purge_entries(s0.take(i as int), removed@),
        {
            let e = self.entries[i];
            proof {
                assert(s0.take(i + 1).drop_last() =~= s0.take(i as int));
                assert(s0.take(i + 1).last() == s0[i as int]);
            }
            if !id_vec_contains(removed, e.0) {
                out.push(e);
            }
        }
        proof {
            assert(s0.take(n as int) =~= s0);
        }
        self.entries = out;
        proof {
            lemma_purge_entries_keys(s0, removed@);
            lemma_purge_ids_membership(keys_of(s0), removed@);
            lemma_purge_ids_no_duplicates(keys_of(s0), removed@);
            assert forall|k: u64|
                keys_of(s0).contains(k) && !removed@.contains(k) implies get_of(self@, k)
                == get_of(s0, k) by {
                lemma_purge_entries_get(s0, removed@, k);
            }
        }
    }

    /// Detaches the value for `id` if present; a no-op otherwise.
    pub fn remove(&mut self, id: u64) where T: Copy
        requires
            old(self).wf(),
        ensures
            final(self)@ == purge_entries(old(self)@, seq![id]),
            final(self).keys() == purge_ids(old(self).keys(), seq![id]),
            final(self).wf(),
            !final(self).has(id),
            forall|k: u64| k != id ==> final(self).has(k) == old(self).has(k),
            forall|k: u64|
                k != id && old(self).has(k) ==> final(self).get_spec(k) == old(self).get_spec(k),
    {
        let mut removed: Vec<u64> = Vec::new();
        removed.push(id);
        proof {
            assert(removed@ =~= seq![id]);
        }
        self.remove_marked(&removed);
        proof {
            assert(removed@.contains(id)) by {
                assert(removed@[0] == id);
            }
            assert(!self.has(id));
            assert forall|k: u64| k != id implies self.has(k) == old(self).has(k) by {
                assert(!removed@.contains(k)) by {
                    if removed@.contains(k) {
                        let j = choose|j: int| 0 <= j < removed@.len() && removed@[j] == k;
                        assert(removed@[0] == id);
                    }
                }
                assert(self.has(k) <==> old(self).has(k) && !removed@.contains(k));
            }
        }
    }
}

/// Whether a plain vector of ids contains `id`.
pub fn id_vec_contains(v: &Vec<u64>, id: u64) -> (b: bool)
    ensures
        b == v@.contains(id),
{
    let n = v.len();
    for i in 0..n
        invariant
            n == v@.len(),
            forall|j: int| 0 <= j < i ==> v@[j] != id,
    {
        if v[i] == id {
            return true;
        }
    }
    false
}

} // verus!
