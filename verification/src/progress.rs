//! How far a store has risen: the measure by which the fixed-point iteration
//! is seen to end.

use vstd::prelude::*;
use vstd::set_lib::{lemma_len_subset, lemma_set_subset_finite};
use crate::lattice::IntConstAbsVal;
use crate::store::{is_total, store_join, store_le, StoreModel};

verus! {

/// The names whose value is not `Bottom`.
pub open spec fn reached_names(store: StoreModel) -> Set<Seq<char>> {
    Set::new(|x: Seq<char>| store[x] != IntConstAbsVal::Bottom)
}

/// The names whose value is `Top`.
pub open spec fn unknown_names(store: StoreModel) -> Set<Seq<char>> {
    Set::new(|x: Seq<char>| store[x] is Top)
}

/// Every name whose value is not `Bottom` belongs to `names`.
pub open spec fn supported(store: StoreModel, names: Set<Seq<char>>) -> bool {
    forall|x: Seq<char>| #![trigger store[x]] store[x] != IntConstAbsVal::Bottom ==> names.contains(x)
}

/// The sum of the ranks of all values of the store.
pub open spec fn weight(store: StoreModel) -> nat {
    reached_names(store).len() + unknown_names(store).len()
}

/// A store that is supported by a finite set of names weighs at most twice
/// the size of the set.
pub proof fn lemma_weight_bounded(store: StoreModel, names: Set<Seq<char>>)
    requires
        names.finite(),
        supported(store, names),
    ensures
        reached_names(store).finite(),
        unknown_names(store).finite(),
        weight(store) <= 2 * names.len(),
{
    assert forall|x: Seq<char>| reached_names(store).contains(x) implies names.contains(x) by {
        assert(store[x] != IntConstAbsVal::Bottom);
    }
    assert forall|x: Seq<char>| unknown_names(store).contains(x) implies names.contains(x) by {
        assert(store[x] != IntConstAbsVal::Bottom);
    }
    lemma_set_subset_finite(names, reached_names(store));
    lemma_set_subset_finite(names, unknown_names(store));
    lemma_len_subset(reached_names(store), names);
    lemma_len_subset(unknown_names(store), names);
}

/// A smaller store is supported by the same names and weighs no more; if the
/// two stores differ, it weighs less.
pub proof fn lemma_weight_monotone(a: StoreModel, b: StoreModel, names: Set<Seq<char>>)
    requires
        names.finite(),
        supported(b, names),
        store_le(a, b),
    ensures
        supported(a, names),
        weight(a) <= weight(b),
        is_total(a) && is_total(b) && a != b ==> weight(a) < weight(b),
{
    assert forall|x: Seq<char>| #![trigger a[x]] a[x] != IntConstAbsVal::Bottom implies names.contains(x) by {
        assert(a[x].le(b[x]));
        assert(b[x] != IntConstAbsVal::Bottom);
    }
    lemma_weight_bounded(a, names);
    lemma_weight_bounded(b, names);
    assert forall|x: Seq<char>| reached_names(a).contains(x) implies reached_names(b).contains(x) by {
        assert(a[x].le(b[x]));
    }
    assert forall|x: Seq<char>| unknown_names(a).contains(x) implies unknown_names(b).contains(x) by {
        assert(a[x].le(b[x]));
    }
    lemma_len_subset(reached_names(a), reached_names(b));
    lemma_len_subset(unknown_names(a), unknown_names(b));
    if is_total(a) && is_total(b) && a != b {
        if forall|x: Seq<char>| a[x] == b[x] {
            assert forall|x: Seq<char>| a.contains_key(x) && b.contains_key(x) && a[x] == b[x] by {
                assert(a.contains_key(x));
                assert(b.contains_key(x));
            }
            assert(a =~= b);
        }
        let x = choose|x: Seq<char>| a[x] != b[x];
        assert(a[x].le(b[x]));
        if a[x] is Bottom {
            let smaller = reached_names(b).remove(x);
            assert forall|y: Seq<char>| reached_names(a).contains(y) implies smaller.contains(y) by {
                assert(a[y].le(b[y]));
            }
            assert(reached_names(b).contains(x));
            lemma_len_subset(reached_names(a), smaller);
        } else {
            let smaller = unknown_names(b).remove(x);
            assert forall|y: Seq<char>| unknown_names(a).contains(y) implies smaller.contains(y) by {
                assert(a[y].le(b[y]));
            }
            assert(unknown_names(b).contains(x));
            lemma_len_subset(unknown_names(a), smaller);
        }
    }
}

/// The join of two supported stores is supported.
pub proof fn lemma_join_supported(a: StoreModel, b: StoreModel, names: Set<Seq<char>>)
    requires
        supported(a, names),
        supported(b, names),
    ensures
        supported(store_join(a, b), names),
{
    let j = store_join(a, b);
    assert forall|x: Seq<char>| #![trigger j[x]] j[x] != IntConstAbsVal::Bottom implies names.contains(x) by {
        assert(a[x] != IntConstAbsVal::Bottom || b[x] != IntConstAbsVal::Bottom);
    }
}

/// The room that is left above a sequence of stores, each of which can weigh
/// `2 * size` at most: the sum over the first `k` stores.
pub open spec fn headroom(stores: Seq<StoreModel>, size: nat, k: int) -> nat
    decreases k,
{
    if k <= 0 {
        0
    } else {
        let w = weight(stores[k - 1]);
        headroom(stores, size, k - 1) + if w <= 2 * size {
            (2 * size - w) as nat
        } else {
            0
        }
    }
}

/// Raising one store of the sequence does not add room, and takes some away
/// if the store has grown heavier.
pub proof fn lemma_headroom_update(stores: Seq<StoreModel>, size: nat, k: int, t: int, store: StoreModel)
    requires
        0 <= k <= stores.len(),
        0 <= t < stores.len(),
        weight(stores[t]) <= weight(store) <= 2 * size,
    ensures
        headroom(stores.update(t, store), size, k) <= headroom(stores, size, k),
        t < k && weight(stores[t]) < weight(store) ==> headroom(stores.update(t, store), size, k) < headroom(
            stores,
            size,
            k,
        ),
    decreases k,
{
    if k > 0 {
        lemma_headroom_update(stores, size, k - 1, t, store);
    }
}

} // verus!
