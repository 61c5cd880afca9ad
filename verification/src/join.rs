//! Intersection queries over component stores.
//!
//! `join2(a, b)` yields every entity present in both stores, each exactly
//! once, in the iteration order of the first store. Given fixed store
//! contents, two traversals therefore return the same entities in the same
//! order.

use vstd::prelude::*;
use crate::store::ComponentStore;

verus! {

/// The subsequence of `ids` whose elements are present in `b`, in order.
pub open spec fn matched_ids<B>(ids: Seq<u64>, b: ComponentStore<B>) -> Seq<u64>
    decreases ids.len(),
{
    if ids.len() == 0 {
        Seq::empty()
    } else if b.has(ids.last()) {
        matched_ids(ids.drop_last(), b).push(ids.last())
    } else {
        matched_ids(ids.drop_last(), b)
    }
}

/// The entities a join over `a` and `b` yields: the ids of `a`, in `a`'s
/// iteration order, restricted to those also present in `b`.
pub open spec fn join_keys<A, B>(a: ComponentStore<A>, b: ComponentStore<B>) -> Seq<u64> {
    matched_ids(a.keys(), b)
}

/// An id occurs among the matched ids exactly when it occurs in `ids` and is
/// present in `b`.
pub proof fn lemma_matched_ids_membership<B>(ids: Seq<u64>, b: ComponentStore<B>)
    ensures
        forall|k: u64| #[trigger] matched_ids(ids, b).contains(k) <==> ids.contains(k) && b.has(k),
    decreases ids.len(),
{
    if ids.len() > 0 {
        lemma_matched_ids_membership(ids.drop_last(), b);
        assert forall|k: u64| ids.contains(k) && b.has(k) implies #[trigger] matched_ids(
            ids,
            b,
        ).contains(k) by {
            if k == ids.last() {
                let m = matched_ids(ids, b);
                assert(m[m.len() - 1] == k);
            } else {
                let i = choose|i: int| 0 <= i < ids.len() && ids[i] == k;
                assert(ids.drop_last()[i] == k);
                assert(ids.drop_last().contains(k));
                let q = matched_ids(ids.drop_last(), b);
                assert(q.contains(k));
                let j = choose|j: int| 0 <= j < q.len() && q[j] == k;
                assert(matched_ids(ids, b)[j] == k);
            }
        }
        assert forall|k: u64| #[trigger] matched_ids(ids, b).contains(k) implies ids.contains(k)
            && b.has(k) by {
            let m = matched_ids(ids, b);
            let j = choose|j: int| 0 <= j < m.len() && m[j] == k;
            let q = matched_ids(ids.drop_last(), b);
            if b.has(ids.last()) && j == m.len() - 1 {
                assert(k == ids.last());
                assert(ids[ids.len() - 1] == k);
            } else {
                assert(q[j] == k);
                assert(q.contains(k));
                assert(ids.drop_last().contains(k));
                let i = choose|i: int| 0 <= i < ids.drop_last().len() && ids.drop_last()[i] == k;
                assert(ids[i] == k);
            }
        }
    }
}

/// Matching keeps the ids distinct.
pub proof fn lemma_matched_ids_no_duplicates<B>(ids: Seq<u64>, b: ComponentStore<B>)
    requires
        ids.no_duplicates(),
    ensures
        matched_ids(ids, b).no_duplicates(),
    decreases ids.len(),
{
    if ids.len() > 0 {
        assert(ids.drop_last().no_duplicates());
        lemma_matched_ids_no_duplicates(ids.drop_last(), b);
        if b.has(ids.last()) {
            let q = matched_ids(ids.drop_last(), b);
            lemma_matched_ids_membership(ids.drop_last(), b);
            assert(!ids.drop_last().contains(ids.last())) by {
                if ids.drop_last().contains(ids.last()) {
                    let i = choose|i: int|
                        0 <= i < ids.drop_last().len() && ids.drop_last()[i] == ids.last();
                    assert(ids[i] == ids[ids.len() - 1]);
                }
            }
            assert(!q.contains(ids.last()));
            assert forall|i: int, j: int|
                0 <= i < q.push(ids.last()).len() && 0 <= j < q.push(ids.last()).len() && i
                    != j implies q.push(ids.last())[i] != q.push(ids.last())[j] by {
                if i == q.len() {
                    assert(q.push(ids.last())[j] == q[j]);
                    if q.push(ids.last())[i] == q[j] {
                        assert(q.contains(q[j]));
                    }
                } else if j == q.len() {
                    assert(q.push(ids.last())[i] == q[i]);
                    if q.push(ids.last())[j] == q[i] {
                        assert(q.contains(q[i]));
                    }
                }
            }
        }
    }
}

/// Produces every entity present in both stores: exactly the ids that hold a
/// component in `a` and in `b`, each exactly once, in `a`'s iteration order.
pub fn join2<A, B>(a: &ComponentStore<A>, b: &ComponentStore<B>) -> (r: Vec<u64>)
    requires
        a.wf(),
        b.wf(),
    ensures
        r@ == join_keys(*a, *b),
        forall|id: u64| #[trigger] r@.contains(id) <==> a.has(id) && b.has(id),
        r@.no_duplicates(),
{
    let mut r: Vec<u64> = Vec::new();
    let n = a.len();
    for i in 0..n
        invariant
            n == a@.len(),
            r@ == matched_ids(a.keys().take(i as int), *b),
    {
        let id = a.key_at(i);
        proof {
            assert(a.keys().take(i + 1).drop_last() =~= a.keys().take(i as int));
            assert(a.keys().take(i + 1).last() == a.keys()[i as int]);
        }
        if b.contains(id) {
            r.push(id);
        }
    }
    proof {
        assert(a.keys().take(n as int) =~= a.keys());
        lemma_matched_ids_membership(a.keys(), *b);
        lemma_matched_ids_no_duplicates(a.keys(), *b);
    }
    r
}

} // verus!
