//! Abstract stores: total functions from variable names to abstract values,
//! where a name without a binding stands at `Bottom`.

use vstd::prelude::*;
use crate::lattice::{lemma_join_is_lub, lemma_join_laws, lemma_le_by_join, IntConstAbsVal};
use crate::lir::Operand;
use crate::namemap::{has_key, index_of_key, keys_sorted, lemma_entry_in_map, pairs_to_map, NameMap};

verus! {

/// The mathematical model of a store: every name has a value.
pub type StoreModel = Map<Seq<char>, IntConstAbsVal>;

/// The store that holds `Bottom` everywhere.
pub open spec fn bottom_store() -> StoreModel {
    Map::total(|x: Seq<char>| IntConstAbsVal::Bottom)
}

/// The total store that a finite map of bindings stands for.
pub open spec fn total_store(m: Map<Seq<char>, IntConstAbsVal>) -> StoreModel {
    Map::total(
        |x: Seq<char>|
            if m.contains_key(x) {
                m[x]
            } else {
                IntConstAbsVal::Bottom
            },
    )
}

/// The pointwise order on stores.
pub open spec fn store_le(a: StoreModel, b: StoreModel) -> bool {
    forall|x: Seq<char>| #[trigger] a[x].le(b[x])
}

/// The pointwise join of two stores.
pub open spec fn store_join(a: StoreModel, b: StoreModel) -> StoreModel {
    Map::total(|x: Seq<char>| IntConstAbsVal::join_spec(a[x], b[x]))
}

/// Every name has a value in the store.
pub open spec fn is_total(a: StoreModel) -> bool {
    forall|x: Seq<char>| #[trigger] a.contains_key(x)
}

/// What an operand stands for in a store: a literal for itself, a variable
/// for the value bound to its name.
pub open spec fn resolve(operand: Operand, store: StoreModel) -> IntConstAbsVal {
    match operand {
        Operand::Var(v) => store[v.name@],
        Operand::CInt(i) => IntConstAbsVal::IntConst(i),
    }
}

/// The order on stores is reflexive and transitive, and two total stores that
/// lie below each other are the same store.
pub proof fn lemma_store_le_is_partial_order(a: StoreModel, b: StoreModel, c: StoreModel)
    ensures
        store_le(a, a),
        store_le(a, b) && store_le(b, c) ==> store_le(a, c),
        is_total(a) && is_total(b) && store_le(a, b) && store_le(b, a) ==> a == b,
{
    if store_le(a, b) && store_le(b, c) {
        assert forall|x: Seq<char>| #[trigger] a[x].le(c[x]) by {
            assert(a[x].le(b[x]));
            assert(b[x].le(c[x]));
        }
    }
    if is_total(a) && is_total(b) && store_le(a, b) && store_le(b, a) {
        assert forall|x: Seq<char>| a.contains_key(x) && b.contains_key(x) && a[x] == b[x] by {
            assert(a.contains_key(x));
            assert(b.contains_key(x));
            assert(a[x].le(b[x]));
            assert(b[x].le(a[x]));
        }
        assert(a =~= b);
    }
}

/// The join of two stores is their least upper bound.
pub proof fn lemma_store_join_is_lub(a: StoreModel, b: StoreModel, c: StoreModel)
    ensures
        store_le(a, store_join(a, b)),
        store_le(b, store_join(a, b)),
        store_le(a, c) && store_le(b, c) ==> store_le(store_join(a, b), c),
{
    assert forall|x: Seq<char>| #[trigger] a[x].le(store_join(a, b)[x]) by {
        lemma_join_is_lub(a[x], b[x], c[x]);
    }
    assert forall|x: Seq<char>| #[trigger] b[x].le(store_join(a, b)[x]) by {
        lemma_join_is_lub(a[x], b[x], c[x]);
    }
    if store_le(a, c) && store_le(b, c) {
        assert forall|x: Seq<char>| #[trigger] store_join(a, b)[x].le(c[x]) by {
            assert(a[x].le(c[x]));
            assert(b[x].le(c[x]));
            lemma_join_is_lub(a[x], b[x], c[x]);
        }
    }
}

/// The join of stores is idempotent, commutative and associative.
pub proof fn lemma_store_join_laws(a: StoreModel, b: StoreModel, c: StoreModel)
    ensures
        is_total(a) ==> store_join(a, a) == a,
        store_join(a, b) == store_join(b, a),
        store_join(store_join(a, b), c) == store_join(a, store_join(b, c)),
{
    assert forall|x: Seq<char>|
        IntConstAbsVal::join_spec(a[x], a[x]) == a[x] && IntConstAbsVal::join_spec(a[x], b[x])
            == IntConstAbsVal::join_spec(b[x], a[x]) && IntConstAbsVal::join_spec(
            IntConstAbsVal::join_spec(a[x], b[x]),
            c[x],
        ) == IntConstAbsVal::join_spec(a[x], IntConstAbsVal::join_spec(b[x], c[x])) by {
        lemma_join_laws(a[x], b[x], c[x]);
    }
    if is_total(a) {
        assert forall|x: Seq<char>| a.contains_key(x) by {
            assert(a.contains_key(x));
        }
        assert(store_join(a, a) =~= a);
    }
    assert(store_join(a, b) =~= store_join(b, a));
    assert(store_join(store_join(a, b), c) =~= store_join(a, store_join(b, c)));
}

/// Joining a store into another changes nothing exactly if it lies below it,
/// and the value of an operand grows with the store.
pub proof fn lemma_store_le_by_join(a: StoreModel, b: StoreModel, operand: Operand)
    ensures
        is_total(b) ==> (store_le(a, b) <==> store_join(b, a) == b),
        store_le(a, b) ==> resolve(operand, a).le(resolve(operand, b)),
{
    if is_total(b) {
        if store_le(a, b) {
            assert forall|x: Seq<char>| b.contains_key(x) && store_join(b, a)[x] == b[x] by {
                assert(b.contains_key(x));
                assert(a[x].le(b[x]));
                lemma_le_by_join(a[x], b[x]);
            }
            assert(store_join(b, a) =~= b);
        }
        if store_join(b, a) == b {
            assert forall|x: Seq<char>| #[trigger] a[x].le(b[x]) by {
                assert(store_join(b, a)[x] == b[x]);
                lemma_le_by_join(a[x], b[x]);
            }
        }
    }
    if store_le(a, b) {
        match operand {
            Operand::Var(v) => {
                assert(a[v.name@].le(b[v.name@]));
            },
            Operand::CInt(_) => {},
        }
    }
}

/// An abstract store.
#[derive(Debug)]
pub struct AbstractStore {
    bindings: NameMap<IntConstAbsVal>,
}

/// The bindings of a store after another store has been joined in: every
/// name that either store binds, with the join of its two values.
pub open spec fn joined_bindings(
    a: Map<Seq<char>, IntConstAbsVal>,
    b: Map<Seq<char>, IntConstAbsVal>,
) -> Map<Seq<char>, IntConstAbsVal> {
    Map::new(
        |x: Seq<char>| a.contains_key(x) || b.contains_key(x),
        |x: Seq<char>| IntConstAbsVal::join_spec(total_store(a)[x], total_store(b)[x]),
    )
}

impl AbstractStore {
    /// The explicit bindings, in increasing order of their names.
    pub closed spec fn bindings(&self) -> Seq<(Seq<char>, IntConstAbsVal)> {
        self.bindings.pairs()
    }

    /// The explicit bindings as a finite map. The set of bound names only
    /// grows.
    pub open spec fn bound(&self) -> Map<Seq<char>, IntConstAbsVal> {
        pairs_to_map(self.bindings())
    }

    /// Every name that `earlier` binds is bound in this store.
    pub open spec fn extends(&self, earlier: &AbstractStore) -> bool {
        forall|x: Seq<char>| earlier.bound().contains_key(x) ==> #[trigger] self.bound().contains_key(x)
    }

    /// The store as a total function from names to values: a name without a
    /// binding stands at `Bottom`.
    pub open spec fn view(&self) -> StoreModel {
        total_store(self.bound())
    }

    /// The store without any binding.
    pub fn new() -> (s: AbstractStore)
        ensures
            s.bound() == Map::<Seq<char>, IntConstAbsVal>::empty(),
            s@ == bottom_store(),
    {
        let s = AbstractStore { bindings: NameMap::new() };
        assert(s@ =~= bottom_store());
        s
    }

    /// Binds `name` to `value`.
    pub fn insert(&mut self, name: String, value: IntConstAbsVal)
        ensures
            final(self).bound() == old(self).bound().insert(name@, value),
            final(self)@ == old(self)@.insert(name@, value),
    {
        self.bindings.insert(name, value);
        assert(self@ =~= old(self)@.insert(name@, value));
    }

    /// The value of `name`, `Bottom` where the name has no binding.
    pub fn get(&self, name: &str) -> (r: IntConstAbsVal)
        ensures
            r == self@[name@],
    {
        match self.bindings.get(name) {
            Some(v) => *v,
            None => IntConstAbsVal::Bottom,
        }
    }

    /// The number of explicit bindings.
    pub fn len(&self) -> (n: usize)
        ensures
            n == self.bindings().len(),
            keys_sorted(self.bindings()),
    {
        self.bindings.len()
    }

    /// The name of the binding at place `i`.
    pub fn name_at(&self, i: usize) -> (name: &String)
        requires
            i < self.bindings().len(),
        ensures
            name@ == self.bindings()[i as int].0,
    {
        self.bindings.name_at(i)
    }

    /// The value of the binding at place `i`.
    pub fn value_at(&self, i: usize) -> (value: IntConstAbsVal)
        requires
            i < self.bindings().len(),
        ensures
            value == self.bindings()[i as int].1,
    {
        *self.bindings.value_at(i)
    }

    /// Joins `store_to_join` into this store, name by name, and says whether
    /// this store changed: whether the value of some name moved up.
    pub fn join(&mut self, store_to_join: &AbstractStore) -> (changed: bool)
        ensures
            final(self).bound() == joined_bindings(old(self).bound(), store_to_join.bound()),
            final(self)@ == store_join(old(self)@, store_to_join@),
            changed == (final(self)@ != old(self)@),
    {
        let ghost before = self@;
        let ghost bound = self.bound();
        let ghost other = store_to_join.bindings();
        let ghost witness: Seq<char> = Seq::empty();
        let mut changed = false;
        let n = store_to_join.len();
        let mut i: usize = 0;
        while i < n
            invariant
                i <= n,
                n == other.len(),
                other == store_to_join.bindings(),
                keys_sorted(other),
                before == old(self)@,
                bound == old(self).bound(),
                forall|x: Seq<char>|
                    #![trigger self.bound().contains_key(x)]
                    self.bound().contains_key(x) <==> (bound.contains_key(x) || has_key(other.take(i as int), x)),
                forall|x: Seq<char>|
                    #![trigger self@[x]]
                    self@[x] == if has_key(other.take(i as int), x) {
                        IntConstAbsVal::join_spec(before[x], store_to_join@[x])
                    } else {
                        before[x]
                    },
                changed ==> self@[witness] != before[witness],
                !changed ==> self@ == before,
            decreases n - i,
        {
            let name = store_to_join.name_at(i);
            let value = store_to_join.value_at(i);
            let current = self.get(name.as_str());
            let joined = IntConstAbsVal::join(&current, &value);
            let ghost prev = self@;
            let ghost prev_bound = self.bound();
            proof {
                lemma_entry_in_map(other, i as int);
                assert(store_to_join@[name@] == value);
                assert(!has_key(other.take(i as int), name@)) by {
                    if has_key(other.take(i as int), name@) {
                        let j = index_of_key(other.take(i as int), name@);
                        assert(other.take(i as int)[j] == other[j]);
                        crate::namemap::lemma_sorted_keys_distinct(other, j, i as int);
                    }
                }
                assert(current == before[name@]);
            }
            self.insert(name.clone(), joined);
            if joined != current {
                proof {
                    if !changed {
                        witness = name@;
                    } else {
                        assert(witness != name@) by {
                            if witness == name@ {
                                assert(prev[witness] == before[witness]);
                            }
                        }
                    }
                }
                changed = true;
            } else {
                proof {
                    assert(self@ =~= prev);
                }
            }
            proof {
                let t0 = other.take(i as int);
                let t1 = other.take(i + 1);
                assert forall|x: Seq<char>| has_key(t1, x) <==> (has_key(t0, x) || x == name@) by {
                    if x == name@ {
                        assert(t1[i as int].0 == x);
                    }
                    if has_key(t0, x) {
                        let j = index_of_key(t0, x);
                        assert(t1[j].0 == x);
                    }
                    if has_key(t1, x) && x != name@ {
                        let j = index_of_key(t1, x);
                        assert(t0[j].0 == x);
                    }
                }
                assert forall|x: Seq<char>|
                    #![trigger self.bound().contains_key(x)]
                    self.bound().contains_key(x) <==> (bound.contains_key(x) || has_key(t1, x)) by {
                    assert(prev_bound.contains_key(x) <==> (bound.contains_key(x) || has_key(t0, x)));
                    assert(has_key(t1, x) <==> (has_key(t0, x) || x == name@));
                }
                assert forall|x: Seq<char>|
                    #![trigger self@[x]]
                    self@[x] == if has_key(t1, x) {
                        IntConstAbsVal::join_spec(before[x], store_to_join@[x])
                    } else {
                        before[x]
                    } by {
                    assert(has_key(t1, x) <==> (has_key(t0, x) || x == name@));
                    assert(prev[x] == if has_key(t0, x) {
                        IntConstAbsVal::join_spec(before[x], store_to_join@[x])
                    } else {
                        before[x]
                    });
                    lemma_join_laws(before[x], store_to_join@[x], before[x]);
                }
            }
            i += 1;
        }
        proof {
            assert(other.take(n as int) =~= other);
            assert forall|x: Seq<char>| self@[x] == store_join(before, store_to_join@)[x] by {
                if !has_key(other, x) {
                    assert(store_to_join@[x] is Bottom);
                }
            }
            assert(self@ =~= store_join(before, store_to_join@));
            let target = joined_bindings(bound, store_to_join.bound());
            assert forall|x: Seq<char>| self.bound().contains_key(x) implies self.bound()[x] == target[x] by {
                assert(self@[x] == self.bound()[x]);
            }
            assert(self.bound() =~= target);
        }
        changed
    }

    /// The value of an operand in this store.
    pub fn resolve_operand(&self, operand: &Operand) -> (r: IntConstAbsVal)
        ensures
            r == resolve(*operand, self@),
    {
        match operand {
            Operand::Var(v) => self.get(v.name.as_str()),
            Operand::CInt(i) => IntConstAbsVal::IntConst(*i),
        }
    }
}

impl Clone for AbstractStore {
    /// A copy with the same bindings.
    fn clone(&self) -> (r: AbstractStore)
        ensures
            r.bound() == self.bound(),
            r@ == self@,
    {
        let mut r = AbstractStore::new();
        let n = self.len();
        let mut i: usize = 0;
        while i < n
            invariant
                i <= n,
                n == self.bindings().len(),
                keys_sorted(self.bindings()),
                r.bound() == pairs_to_map(self.bindings().take(i as int)),
            decreases n - i,
        {
            let name = self.name_at(i);
            let value = self.value_at(i);
            r.insert(name.clone(), value);
            proof {
                let t0 = self.bindings().take(i as int);
                let t1 = self.bindings().take(i + 1);
                assert(keys_sorted(t0));
                assert(t1 =~= t0.insert(i as int, (name@, value)));
                assert forall|j: int| 0 <= j < i implies crate::text::lex_lt((#[trigger] t0[j]).0, name@) by {
                    assert(crate::text::lex_lt(self.bindings()[j].0, self.bindings()[i as int].0));
                }
                crate::namemap::lemma_insert_entry(t0, i as int, name@, value);
            }
            i += 1;
        }
        proof {
            assert(self.bindings().take(n as int) =~= self.bindings());
        }
        r
    }
}

} // verus!
