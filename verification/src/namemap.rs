//! A finite map from names to values, stored as a vector of entries in
//! strictly increasing lexicographic order of their names.

use vstd::prelude::*;
use crate::text::{
    compare_names, lemma_lex_lt_irreflexive, lemma_lex_lt_transitive, lex_lt, NameOrder,
};

verus! {

/// The names of the entries increase strictly, so no name occurs twice.
pub open spec fn keys_sorted<V>(p: Seq<(Seq<char>, V)>) -> bool {
    forall|i: int, j: int| #![trigger p[i], p[j]] 0 <= i < j < p.len() ==> lex_lt(p[i].0, p[j].0)
}

/// Some entry has the name `k`.
pub open spec fn has_key<V>(p: Seq<(Seq<char>, V)>, k: Seq<char>) -> bool {
    exists|i: int| 0 <= i < p.len() && (#[trigger] p[i]).0 == k
}

/// The place of an entry named `k`.
pub open spec fn index_of_key<V>(p: Seq<(Seq<char>, V)>, k: Seq<char>) -> int {
    choose|i: int| 0 <= i < p.len() && (#[trigger] p[i]).0 == k
}

/// The map that a sequence of entries stands for.
pub open spec fn pairs_to_map<V>(p: Seq<(Seq<char>, V)>) -> Map<Seq<char>, V> {
    Map::new(|k: Seq<char>| has_key(p, k), |k: Seq<char>| p[index_of_key(p, k)].1)
}

/// In a sorted sequence a name is found at one place only.
pub proof fn lemma_sorted_keys_distinct<V>(p: Seq<(Seq<char>, V)>, i: int, j: int)
    requires
        keys_sorted(p),
        0 <= i < p.len(),
        0 <= j < p.len(),
        p[i].0 == p[j].0,
    ensures
        i == j,
{
    lemma_lex_lt_irreflexive(p[i].0);
}

/// Each entry of a sorted sequence is a binding of its map.
pub proof fn lemma_entry_in_map<V>(p: Seq<(Seq<char>, V)>, i: int)
    requires
        keys_sorted(p),
        0 <= i < p.len(),
    ensures
        pairs_to_map(p).contains_key(p[i].0),
        pairs_to_map(p)[p[i].0] == p[i].1,
{
    let k = p[i].0;
    assert(has_key(p, k));
    lemma_sorted_keys_distinct(p, i, index_of_key(p, k));
}

/// Replacing the value of an entry replaces the binding in the map.
pub proof fn lemma_update_entry<V>(p: Seq<(Seq<char>, V)>, i: int, v: V)
    requires
        keys_sorted(p),
        0 <= i < p.len(),
    ensures
        keys_sorted(p.update(i, (p[i].0, v))),
        pairs_to_map(p.update(i, (p[i].0, v))) == pairs_to_map(p).insert(p[i].0, v),
{
    let q = p.update(i, (p[i].0, v));
    assert forall|a: int, b: int| #![trigger q[a], q[b]] 0 <= a < b < q.len() implies lex_lt(
        q[a].0,
        q[b].0,
    ) by {
        assert(lex_lt(p[a].0, p[b].0));
    }
    let m = pairs_to_map(p).insert(p[i].0, v);
    assert forall|k: Seq<char>| pairs_to_map(q).contains_key(k) == m.contains_key(k) by {
        if has_key(q, k) {
            let a = index_of_key(q, k);
            assert(p[a].0 == k);
        }
        if has_key(p, k) {
            let a = index_of_key(p, k);
            assert(q[a].0 == k);
        }
        if k == p[i].0 {
            assert(q[i].0 == k);
        }
    }
    assert forall|k: Seq<char>| pairs_to_map(q).contains_key(k) implies pairs_to_map(q)[k] == m[k] by {
        let a = index_of_key(q, k);
        lemma_entry_in_map(q, a);
        if a != i {
            assert(p[a].0 == k);
            lemma_entry_in_map(p, a);
            if k == p[i].0 {
                lemma_sorted_keys_distinct(p, a, i);
            }
        }
    }
    assert(pairs_to_map(q) =~= m);
}

/// Placing a new name where the order asks for it adds the binding to the map.
pub proof fn lemma_insert_entry<V>(p: Seq<(Seq<char>, V)>, i: int, k: Seq<char>, v: V)
    requires
        keys_sorted(p),
        0 <= i <= p.len(),
        forall|j: int| 0 <= j < i ==> lex_lt((#[trigger] p[j]).0, k),
        forall|j: int| i <= j < p.len() ==> lex_lt(k, (#[trigger] p[j]).0),
    ensures
        keys_sorted(p.insert(i, (k, v))),
        pairs_to_map(p.insert(i, (k, v))) == pairs_to_map(p).insert(k, v),
{
    let q = p.insert(i, (k, v));
    assert forall|a: int, b: int| #![trigger q[a], q[b]] 0 <= a < b < q.len() implies lex_lt(
        q[a].0,
        q[b].0,
    ) by {
        if b < i {
            assert(lex_lt(p[a].0, p[b].0));
        } else if b == i {
            assert(lex_lt(p[a].0, k));
        } else if a == i {
            assert(lex_lt(k, p[b - 1].0));
        } else if a < i {
            assert(lex_lt(p[a].0, p[b - 1].0));
        } else {
            assert(lex_lt(p[a - 1].0, p[b - 1].0));
        }
    }
    let m = pairs_to_map(p).insert(k, v);
    assert forall|x: Seq<char>| pairs_to_map(q).contains_key(x) == m.contains_key(x) by {
        if has_key(q, x) {
            let a = index_of_key(q, x);
            if a < i {
                assert(p[a].0 == x);
            } else if a > i {
                assert(p[a - 1].0 == x);
            }
        }
        if has_key(p, x) {
            let a = index_of_key(p, x);
            if a < i {
                assert(q[a].0 == x);
            } else {
                assert(q[a + 1].0 == x);
            }
        }
        if x == k {
            assert(q[i].0 == x);
        }
    }
    assert forall|x: Seq<char>| pairs_to_map(q).contains_key(x) implies pairs_to_map(q)[x] == m[x] by {
        let a = index_of_key(q, x);
        lemma_entry_in_map(q, a);
        if a < i {
            assert(p[a].0 == x);
            lemma_entry_in_map(p, a);
            lemma_lex_lt_irreflexive(k);
        } else if a > i {
            assert(p[a - 1].0 == x);
            lemma_entry_in_map(p, a - 1);
            lemma_lex_lt_irreflexive(k);
        }
    }
    assert(pairs_to_map(q) =~= m);
}

/// A name that the order places between two neighbours is bound nowhere.
pub proof fn lemma_absent_key<V>(p: Seq<(Seq<char>, V)>, i: int, k: Seq<char>)
    requires
        keys_sorted(p),
        0 <= i <= p.len(),
        forall|j: int| 0 <= j < i ==> lex_lt((#[trigger] p[j]).0, k),
        forall|j: int| i <= j < p.len() ==> lex_lt(k, (#[trigger] p[j]).0),
    ensures
        !pairs_to_map(p).contains_key(k),
{
    if has_key(p, k) {
        let a = index_of_key(p, k);
        lemma_lex_lt_irreflexive(k);
        if a < i {
            assert(lex_lt(p[a].0, k));
        } else {
            assert(lex_lt(k, p[a].0));
        }
    }
}

/// The stored entries, each name taken as a character sequence.
pub open spec fn pairs_of<V>(entries: Seq<(String, V)>) -> Seq<(Seq<char>, V)> {
    Seq::new(entries.len(), |i: int| (entries[i].0@, entries[i].1))
}

/// A finite map from names to values.
#[derive(Debug)]
pub struct NameMap<V> {
    entries: Vec<(String, V)>,
}

impl<V> NameMap<V> {
    /// The entries in storage order: each name with its value.
    pub closed spec fn pairs(&self) -> Seq<(Seq<char>, V)> {
        pairs_of(self.entries@)
    }

    /// The entries are in strictly increasing order of their names.
    #[verifier::type_invariant]
    pub closed spec fn wf(&self) -> bool {
        keys_sorted(self.pairs())
    }

    /// The map as a mathematical map.
    pub open spec fn view(&self) -> Map<Seq<char>, V> {
        pairs_to_map(self.pairs())
    }

    /// The empty map.
    pub fn new() -> (m: Self)
        ensures
            m.pairs() == Seq::<(Seq<char>, V)>::empty(),
            m@ == Map::<Seq<char>, V>::empty(),
    {
        let m = NameMap { entries: Vec::new() };
        assert(m.pairs() =~= Seq::<(Seq<char>, V)>::empty());
        assert(m@ =~= Map::<Seq<char>, V>::empty());
        m
    }

    /// The number of entries.
    pub fn len(&self) -> (n: usize)
        ensures
            n == self.pairs().len(),
            keys_sorted(self.pairs()),
    {
        proof {
            use_type_invariant(self);
        }
        self.entries.len()
    }

    /// The name of the entry at place `i`.
    pub fn name_at(&self, i: usize) -> (name: &String)
        requires
            i < self.pairs().len(),
        ensures
            name@ == self.pairs()[i as int].0,
    {
        &self.entries[i].0
    }

    /// The value of the entry at place `i`.
    pub fn value_at(&self, i: usize) -> (value: &V)
        requires
            i < self.pairs().len(),
        ensures
            *value == self.pairs()[i as int].1,
    {
        &self.entries[i].1
    }

    /// Where `name` stands among the entries: its place and `true` if it is
    /// bound, else the place where it would have to go and `false`.
    fn position(&self, name: &str) -> (r: (usize, bool))
        ensures
            r.0 <= self.pairs().len(),
            forall|j: int| 0 <= j < r.0 ==> lex_lt((#[trigger] self.pairs()[j]).0, name@),
            r.1 ==> r.0 < self.pairs().len() && self.pairs()[r.0 as int].0 == name@,
            !r.1 ==> forall|j: int|
                r.0 <= j < self.pairs().len() ==> lex_lt(name@, (#[trigger] self.pairs()[j]).0),
    {
        proof {
            use_type_invariant(self);
        }
        let mut i: usize = 0;
        while i < self.entries.len()
            invariant
                i <= self.entries.len(),
                self.entries.len() == self.pairs().len(),
                keys_sorted(self.pairs()),
                forall|j: int| 0 <= j < i ==> lex_lt((#[trigger] self.pairs()[j]).0, name@),
            decreases self.entries.len() - i,
        {
            match compare_names(name, self.entries[i].0.as_str()) {
                NameOrder::Same => {
                    return (i, true);
                },
                NameOrder::Before => {
                    proof {
                        let p = self.pairs();
                        assert forall|j: int| i <= j < p.len() implies lex_lt(
                            name@,
                            (#[trigger] p[j]).0,
                        ) by {
                            if j > i {
                                assert(lex_lt(p[i as int].0, p[j].0));
                                lemma_lex_lt_transitive(name@, p[i as int].0, p[j].0);
                            }
                        }
                    }
                    return (i, false);
                },
                NameOrder::After => {
                    proof {
                        crate::text::lemma_lex_lt_total(name@, self.pairs()[i as int].0);
                    }
                },
            }
            i += 1;
        }
        (i, false)
    }

    /// Looks a name up.
    pub fn get(&self, name: &str) -> (r: Option<&V>)
        ensures
            match r {
                Some(v) => self@.contains_key(name@) && *v == self@[name@],
                None => !self@.contains_key(name@),
            },
    {
        proof {
            use_type_invariant(self);
        }
        let (i, found) = self.position(name);
        if found {
            proof {
                lemma_entry_in_map(self.pairs(), i as int);
            }
            Some(&self.entries[i].1)
        } else {
            proof {
                lemma_absent_key(self.pairs(), i as int, name@);
            }
            None
        }
    }

    /// Binds `name` to `value`, replacing an earlier binding of the name.
    pub fn insert(&mut self, name: String, value: V)
        ensures
            final(self)@ == old(self)@.insert(name@, value),
    {
        proof {
            use_type_invariant(&*self);
        }
        let (i, found) = self.position(name.as_str());
        let ghost p = self.pairs();
        let mut entries: Vec<(String, V)> = Vec::new();
        core::mem::swap(&mut entries, &mut self.entries);
        if found {
            entries.set(i, (name, value));
            proof {
                lemma_update_entry(p, i as int, value);
            }
        } else {
            entries.insert(i, (name, value));
            proof {
                lemma_insert_entry(p, i as int, name@, value);
            }
        }
        proof {
            if found {
                assert(pairs_of(entries@) =~= p.update(i as int, (p[i as int].0, value)));
            } else {
                assert(pairs_of(entries@) =~= p.insert(i as int, (name@, value)));
            }
        }
        self.entries = entries;
    }
}

} // verus!
