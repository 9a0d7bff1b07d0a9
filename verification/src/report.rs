//! The textual report of an analysis: the published store of each block, the
//! blocks and the names within a block in lexicographic order.

use vstd::prelude::*;
use vstd::string::StringExecFns;
use crate::lattice::IntConstAbsVal;
use crate::namemap::{has_key, index_of_key, keys_sorted, lemma_entry_in_map, pairs_to_map};
use crate::progress::reached_names;
use crate::flow::well_formed_body;
use crate::lir::Program;
use crate::solver::{analyze, flow_in_program, BlockStores};
use crate::store::{AbstractStore, StoreModel};
use crate::text::{lemma_sorted_names, lex_lt, names_increasing, sorted_names};

verus! {

/// The line that shows one binding: the name, an arrow, the value.
pub open spec fn binding_line(name: Seq<char>, value: IntConstAbsVal) -> Seq<char> {
    name + " -> "@ + value.text() + "\n"@
}

/// The lines of the bindings of the given names, in the order given.
pub open spec fn binding_lines(names: Seq<Seq<char>>, store: StoreModel) -> Seq<char>
    decreases names.len(),
{
    if names.len() == 0 {
        Seq::empty()
    } else {
        binding_lines(names.drop_last(), store) + binding_line(names.last(), store[names.last()])
    }
}

/// The lines of a store: one for each name whose value is not `Bottom`, the
/// names in lexicographic order.
pub open spec fn store_text(store: StoreModel) -> Seq<char> {
    binding_lines(sorted_names(reached_names(store)), store)
}

/// The paragraph of a block: its id and a colon, the lines of its store, and
/// an empty line.
pub open spec fn block_text(id: Seq<char>, store: StoreModel) -> Seq<char> {
    id + ":\n"@ + store_text(store) + "\n"@
}

/// The paragraphs of the blocks with the given ids, in the order given.
pub open spec fn blocks_text(ids: Seq<Seq<char>>, stores: Map<Seq<char>, StoreModel>) -> Seq<char>
    decreases ids.len(),
{
    if ids.len() == 0 {
        Seq::empty()
    } else {
        blocks_text(ids.drop_last(), stores) + block_text(ids.last(), stores[ids.last()])
    }
}

/// The report of an analysis: the paragraphs of all published blocks, the
/// block ids in lexicographic order.
pub open spec fn report_text(stores: Map<Seq<char>, StoreModel>) -> Seq<char> {
    blocks_text(sorted_names(stores.dom()), stores)
}

/// The names of a sequence of entries.
pub open spec fn entry_names<V>(entries: Seq<(Seq<char>, V)>) -> Seq<Seq<char>> {
    Seq::new(entries.len(), |i: int| entries[i].0)
}

/// The names of sorted entries are the sorted names of their map.
pub proof fn lemma_entry_names_sorted<V>(entries: Seq<(Seq<char>, V)>)
    requires
        keys_sorted(entries),
    ensures
        sorted_names(pairs_to_map(entries).dom()) == entry_names(entries),
{
    let names = entry_names(entries);
    assert forall|i: int, j: int| #![trigger names[i], names[j]] 0 <= i < j < names.len() implies lex_lt(
        names[i],
        names[j],
    ) by {
        assert(lex_lt(entries[i].0, entries[j].0));
    }
    assert forall|x: Seq<char>| names.to_set().contains(x) == pairs_to_map(entries).dom().contains(x) by {
        if names.contains(x) {
            let i = choose|i: int| 0 <= i < names.len() && names[i] == x;
            assert(entries[i].0 == x);
        }
        if has_key(entries, x) {
            let i = index_of_key(entries, x);
            assert(names[i] == x);
        }
    }
    assert(names.to_set() =~= pairs_to_map(entries).dom());
    lemma_sorted_names(names);
}

/// Appends the lines of a store to `out`.
pub fn append_store(out: &mut String, store: &AbstractStore)
    ensures
        final(out)@ == old(out)@ + store_text(store@),
{
    let ghost start = out@;
    let ghost shown: Seq<Seq<char>> = Seq::empty();
    let ghost bindings = store.bindings();
    let n = store.len();
    let mut j: usize = 0;
    while j < n
        invariant
            j <= n,
            n == bindings.len(),
            bindings == store.bindings(),
            keys_sorted(bindings),
            out@ == start + binding_lines(shown, store@),
            names_increasing(shown),
            forall|x: Seq<char>|
                #![trigger shown.contains(x)]
                shown.contains(x) <==> (exists|i: int|
                    0 <= i < j && (#[trigger] bindings[i]).0 == x && bindings[i].1 != IntConstAbsVal::Bottom),
            forall|i: int|
                #![trigger shown[i]]
                0 <= i < shown.len() ==> exists|h: int| 0 <= h < j && (#[trigger] bindings[h]).0 == shown[i],
        decreases n - j,
    {
        let name = store.name_at(j);
        let value = store.value_at(j);
        proof {
            lemma_entry_in_map(bindings, j as int);
            assert(store@[name@] == value);
        }
        if value != IntConstAbsVal::Bottom {
            let ghost line_start = out@;
            let ghost earlier = shown;
            out.append(name.as_str());
            out.append(" -> ");
            let text = value.as_string();
            out.append(text.as_str());
            out.append("\n");
            proof {
                shown = earlier.push(name@);
                assert(out@ =~= line_start + binding_line(name@, value));
                assert(shown.drop_last() =~= earlier);
                assert(out@ =~= start + binding_lines(shown, store@));
                assert forall|a: int, b: int| #![trigger shown[a], shown[b]] 0 <= a < b < shown.len() implies lex_lt(
                    shown[a],
                    shown[b],
                ) by {
                    if b == earlier.len() {
                        let h = choose|h: int| 0 <= h < j && (#[trigger] bindings[h]).0 == earlier[a];
                        assert(lex_lt(bindings[h].0, bindings[j as int].0));
                    } else {
                        assert(lex_lt(earlier[a], earlier[b]));
                    }
                }
                assert forall|x: Seq<char>|
                    #![trigger shown.contains(x)]
                    shown.contains(x) <==> (exists|i: int|
                        0 <= i < j + 1 && (#[trigger] bindings[i]).0 == x && bindings[i].1
                            != IntConstAbsVal::Bottom) by {
                    if shown.contains(x) {
                        let a = choose|a: int| 0 <= a < shown.len() && shown[a] == x;
                        if a < earlier.len() {
                            assert(earlier[a] == x);
                            assert(earlier.contains(x));
                        } else {
                            assert(bindings[j as int].0 == x);
                        }
                    }
                    if exists|i: int|
                        0 <= i < j + 1 && (#[trigger] bindings[i]).0 == x && bindings[i].1
                            != IntConstAbsVal::Bottom {
                        let i = choose|i: int|
                            0 <= i < j + 1 && (#[trigger] bindings[i]).0 == x && bindings[i].1
                                != IntConstAbsVal::Bottom;
                        if i < j {
                            assert(earlier.contains(x));
                            let a = choose|a: int| 0 <= a < earlier.len() && earlier[a] == x;
                            assert(shown[a] == x);
                        } else {
                            assert(shown[earlier.len() as int] == x);
                        }
                    }
                }
                assert forall|i: int| #![trigger shown[i]] 0 <= i < shown.len() implies exists|h: int|
                    0 <= h < j + 1 && (#[trigger] bindings[h]).0 == shown[i] by {
                    if i < earlier.len() {
                        let h = choose|h: int| 0 <= h < j && (#[trigger] bindings[h]).0 == earlier[i];
                        assert(bindings[h].0 == shown[i]);
                    } else {
                        assert(bindings[j as int].0 == shown[i]);
                    }
                }
            }
        } else {
            proof {
                assert forall|x: Seq<char>|
                    #![trigger shown.contains(x)]
                    shown.contains(x) <==> (exists|i: int|
                        0 <= i < j + 1 && (#[trigger] bindings[i]).0 == x && bindings[i].1
                            != IntConstAbsVal::Bottom) by {
                    if exists|i: int|
                        0 <= i < j + 1 && (#[trigger] bindings[i]).0 == x && bindings[i].1
                            != IntConstAbsVal::Bottom {
                        let i = choose|i: int|
                            0 <= i < j + 1 && (#[trigger] bindings[i]).0 == x && bindings[i].1
                                != IntConstAbsVal::Bottom;
                        assert(i < j);
                    }
                    if shown.contains(x) {
                        let i = choose|i: int|
                            0 <= i < j && (#[trigger] bindings[i]).0 == x && bindings[i].1
                                != IntConstAbsVal::Bottom;
                        assert(0 <= i < j + 1);
                    }
                }
                assert forall|i: int| #![trigger shown[i]] 0 <= i < shown.len() implies exists|h: int|
                    0 <= h < j + 1 && (#[trigger] bindings[h]).0 == shown[i] by {
                    let h = choose|h: int| 0 <= h < j && (#[trigger] bindings[h]).0 == shown[i];
                    assert(bindings[h].0 == shown[i]);
                }
            }
        }
        j += 1;
    }
    proof {
        assert forall|x: Seq<char>| shown.to_set().contains(x) == reached_names(store@).contains(x) by {
            if shown.contains(x) {
                let i = choose|i: int|
                    0 <= i < n && (#[trigger] bindings[i]).0 == x && bindings[i].1 != IntConstAbsVal::Bottom;
                lemma_entry_in_map(bindings, i);
            }
            if reached_names(store@).contains(x) {
                assert(has_key(bindings, x));
                let i = index_of_key(bindings, x);
                lemma_entry_in_map(bindings, i);
                assert(bindings[i].0 == x && bindings[i].1 != IntConstAbsVal::Bottom);
            }
        }
        assert(shown.to_set() =~= reached_names(store@));
        lemma_sorted_names(shown);
    }
}

/// The report of an analysis as text.
pub fn print_store(stores: &BlockStores) -> (text: String)
    ensures
        text@ == report_text(stores@),
{
    let mut out = String::new();
    let n = stores.len();
    let ghost entries = stores.entries();
    let ghost ids = entry_names(entries);
    let mut i: usize = 0;
    while i < n
        invariant
            i <= n,
            n == entries.len(),
            entries == stores.entries(),
            ids == entry_names(entries),
            keys_sorted(entries),
            stores@ == pairs_to_map(entries),
            out@ == blocks_text(ids.take(i as int), stores@),
        decreases n - i,
    {
        let ghost before = out@;
        let id = stores.block_id_at(i);
        let store = stores.store_at(i);
        out.append(id.as_str());
        out.append(":\n");
        append_store(&mut out, store);
        out.append("\n");
        proof {
            lemma_entry_in_map(entries, i as int);
            assert(ids.take(i + 1).drop_last() =~= ids.take(i as int));
            assert(ids.take(i + 1).last() == id@);
            assert(out@ =~= before + block_text(id@, store@));
        }
        i += 1;
    }
    proof {
        assert(ids.take(n as int) =~= ids);
        lemma_entry_names_sorted(entries);
    }
    out
}

/// The report of the analysis of the function named `name` of a program.
pub open spec fn analysis_text(program: Program, name: Seq<char>) -> Seq<char> {
    let flow = flow_in_program(program, name);
    report_text(flow.published(flow.least_solution()))
}

/// Analyses the function `function_name` of a program and gives the report
/// as text. There is no report where the program has no function of that
/// name or the function's body is not well formed. The report is determined
/// by the program and the name.
pub fn report(program: &Program, function_name: &str) -> (r: Option<String>)
    ensures
        r is Some <==> program.has_function(function_name@) && well_formed_body(
            program.function_named(function_name@).body@,
        ),
        r matches Some(text) ==> text@ == analysis_text(*program, function_name@),
{
    match analyze(program, function_name) {
        Some(stores) => Some(print_store(&stores)),
        None => None,
    }
}

} // verus!
