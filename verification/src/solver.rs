//! The worklist driver: chaotic iteration over the blocks of one function
//! until the stores on entry no longer change.

use std::collections::VecDeque;
use vstd::prelude::*;
use crate::context::{collect_int_names, global_init, AnalysisContext};
use crate::fixpoint::{
    lemma_index_of_present, lemma_inv_final, lemma_inv_initial, lemma_inv_join, lemma_inv_publish,
    lemma_inv_retire, lemma_post_supported, lemma_solution_bounds_step, lemma_successor_present,
};
use crate::flow::{
    entry_id, flow_of, initial_store, leads_to, lemma_block_post_monotone, named_targets,
    run_insts, terminate, well_formed_body, FlowProblem,
};
use crate::lattice::IntConstAbsVal;
use crate::lir::{
    entry_keys, find_entry, first_index, key_present, lemma_first_index, Block, Instruction,
    Program, Terminal, Variable,
};
use crate::namemap::{keys_sorted, pairs_to_map, NameMap};
use crate::progress::headroom;
use crate::store::{is_total, store_join, store_le, AbstractStore, StoreModel};
use crate::transfer::{set_all_top, solve_call};

verus! {

/// The models of a sequence of stores.
pub open spec fn store_views(stores: Seq<AbstractStore>) -> Seq<StoreModel> {
    Seq::new(stores.len(), |i: int| stores[i]@)
}

/// The models of a sequence of stores of which some are missing.
pub open spec fn published_views(post: Seq<Option<AbstractStore>>) -> Seq<Option<StoreModel>> {
    Seq::new(
        post.len(),
        |i: int|
            match post[i] {
                Some(s) => Some(s@),
                None => None,
            },
    )
}

/// A sequence of block numbers as mathematical integers.
pub open spec fn as_ints(numbers: Seq<usize>) -> Seq<int> {
    Seq::new(numbers.len(), |i: int| numbers[i] as int)
}

/// The store on entry to a function: every integer global and every integer
/// parameter is unknown.
pub fn entry_store(globals: &Vec<Variable>, params: &Vec<Variable>) -> (store: AbstractStore)
    ensures
        store@ == initial_store(globals@, params@),
{
    let mut store = AbstractStore::new();
    let global_names = collect_int_names(globals);
    set_all_top(&mut store, &global_names);
    let param_names = collect_int_names(params);
    set_all_top(&mut store, &param_names);
    assert(store@ =~= initial_store(globals@, params@));
    store
}

/// Applies the instructions of a block to a store, from first to last.
pub fn run_instructions(insts: &Vec<Instruction>, store: &mut AbstractStore, ctx: &AnalysisContext)
    ensures
        final(store)@ == run_insts(ctx@, insts@, old(store)@),
        final(store).extends(old(store)),
{
    let ghost before = store@;
    let mut i: usize = 0;
    while i < insts.len()
        invariant
            i <= insts.len(),
            store.extends(old(store)),
            store@ == run_insts(ctx@, insts@.take(i as int), before),
        decreases insts.len() - i,
    {
        store.execute(&insts[i], ctx);
        proof {
            assert(insts@.take(i + 1).drop_last() =~= insts@.take(i as int));
        }
        i += 1;
    }
    proof {
        assert(insts@.take(insts@.len() as int) =~= insts@);
    }
}

/// The number of the block with the id `id`.
fn block_number(body: &Vec<(String, Block)>, id: &str) -> (r: usize)
    requires
        key_present(entry_keys(body@), id@),
    ensures
        r < body@.len(),
        r as int == first_index(entry_keys(body@), id@),
{
    let i = find_entry(body, id).unwrap();
    proof {
        lemma_first_index(entry_keys(body@), id@, i as int);
    }
    i
}

/// The numbers of the blocks that a terminator passes control to, where
/// `store` is the store after the block's instructions.
pub fn successor_numbers(body: &Vec<(String, Block)>, term: &Terminal, store: &AbstractStore) -> (r: Vec<usize>)
    requires
        forall|k: int|
            0 <= k < named_targets(*term).len() ==> key_present(
                entry_keys(body@),
                #[trigger] named_targets(*term)[k],
            ),
    ensures
        r@.len() == leads_to(*term, store@).len(),
        forall|k: int|
            0 <= k < r@.len() ==> (#[trigger] r@[k]) < body@.len() && r@[k] as int == first_index(
                entry_keys(body@),
                leads_to(*term, store@)[k],
            ),
{
    let mut r: Vec<usize> = Vec::new();
    match term {
        Terminal::Branch { cond, tt, ff } => {
            assert(named_targets(*term)[0] == tt@);
            assert(named_targets(*term)[1] == ff@);
            match store.resolve_operand(cond) {
                IntConstAbsVal::IntConst(c) => {
                    if c == 0 {
                        r.push(block_number(body, ff.as_str()));
                    } else {
                        r.push(block_number(body, tt.as_str()));
                    }
                },
                IntConstAbsVal::Bottom => {},
                IntConstAbsVal::Top => {
                    r.push(block_number(body, tt.as_str()));
                    r.push(block_number(body, ff.as_str()));
                },
            }
        },
        Terminal::Jump(target) => {
            assert(named_targets(*term)[0] == target@);
            r.push(block_number(body, target.as_str()));
        },
        Terminal::CallDirect { next_bb, .. } => {
            assert(named_targets(*term)[0] == next_bb@);
            r.push(block_number(body, next_bb.as_str()));
        },
        Terminal::CallIndirect { next_bb, .. } => {
            assert(named_targets(*term)[0] == next_bb@);
            r.push(block_number(body, next_bb.as_str()));
        },
        Terminal::Ret(_) => {},
    }
    r
}

/// Applies the effect of a terminator to a store: a call has the effect of a
/// call, any other terminator none.
pub fn run_terminator(term: &Terminal, store: &mut AbstractStore, ctx: &AnalysisContext)
    ensures
        final(store)@ == terminate(ctx@, *term, old(store)@),
        final(store).extends(old(store)),
{
    match term {
        Terminal::CallDirect { lhs, args, .. } => {
            solve_call(lhs, args, store, ctx);
        },
        Terminal::CallIndirect { lhs, args, .. } => {
            solve_call(lhs, args, store, ctx);
        },
        _ => {},
    }
}

/// Whether a body has an entry block and every block id that a terminator
/// names is the id of a block.
pub fn check_body(body: &Vec<(String, Block)>) -> (r: bool)
    ensures
        r == well_formed_body(body@),
{
    if find_entry(body, "entry").is_none() {
        return false;
    }
    let mut b: usize = 0;
    while b < body.len()
        invariant
            b <= body.len(),
            key_present(entry_keys(body@), entry_id()),
            forall|c: int, k: int|
                0 <= c < b && 0 <= k < named_targets(body@[c].1.term).len() ==> key_present(
                    entry_keys(body@),
                    #[trigger] named_targets(body@[c].1.term)[k],
                ),
        decreases body.len() - b,
    {
        let ok = match &body[b].1.term {
            Terminal::Jump(target) => find_entry(body, target.as_str()).is_some(),
            Terminal::Branch { tt, ff, .. } => find_entry(body, tt.as_str()).is_some() && find_entry(
                body,
                ff.as_str(),
            ).is_some(),
            Terminal::Ret(_) => true,
            Terminal::CallDirect { next_bb, .. } => find_entry(body, next_bb.as_str()).is_some(),
            Terminal::CallIndirect { next_bb, .. } => find_entry(body, next_bb.as_str()).is_some(),
        };
        if !ok {
            proof {
                let named = named_targets(body@[b as int].1.term);
                if named.len() == 1 {
                    assert(!key_present(entry_keys(body@), named[0]));
                } else {
                    assert(!key_present(entry_keys(body@), named[0]) || !key_present(
                        entry_keys(body@),
                        named[1],
                    ));
                }
            }
            return false;
        }
        proof {
            assert forall|k: int| 0 <= k < named_targets(body@[b as int].1.term).len() implies key_present(
                entry_keys(body@),
                #[trigger] named_targets(body@[b as int].1.term)[k],
            ) by {
                let named = named_targets(body@[b as int].1.term);
                if k == 0 {
                    assert(key_present(entry_keys(body@), named[0]));
                } else {
                    assert(key_present(entry_keys(body@), named[1]));
                }
            }
        }
        b += 1;
    }
    true
}

/// The published stores of an analysis: for the id of each block that
/// control reaches, the store after the block.
#[derive(Debug)]
pub struct BlockStores {
    stores: NameMap<AbstractStore>,
}

impl BlockStores {
    /// The published stores in increasing order of their block ids.
    pub closed spec fn entries(&self) -> Seq<(Seq<char>, StoreModel)> {
        Seq::new(self.stores.pairs().len(), |i: int| (self.stores.pairs()[i].0, self.stores.pairs()[i].1@))
    }

    /// The published stores as a map from block ids to stores.
    pub closed spec fn view(&self) -> Map<Seq<char>, StoreModel> {
        Map::new(|id: Seq<char>| self.stores@.contains_key(id), |id: Seq<char>| self.stores@[id]@)
    }

    /// No store at all.
    pub fn new() -> (r: BlockStores)
        ensures
            r@ == Map::<Seq<char>, StoreModel>::empty(),
    {
        let r = BlockStores { stores: NameMap::new() };
        assert(r@ =~= Map::<Seq<char>, StoreModel>::empty());
        r
    }

    /// Publishes `store` for the block `id`.
    pub fn insert(&mut self, id: String, store: AbstractStore)
        ensures
            final(self)@ == old(self)@.insert(id@, store@),
    {
        self.stores.insert(id, store);
        assert(self@ =~= old(self)@.insert(id@, store@));
    }

    /// The store published for the block `id`, if there is one.
    pub fn get(&self, id: &str) -> (r: Option<&AbstractStore>)
        ensures
            match r {
                Some(store) => self@.contains_key(id@) && store@ == self@[id@],
                None => !self@.contains_key(id@),
            },
    {
        self.stores.get(id)
    }

    /// The number of published stores.
    pub fn len(&self) -> (n: usize)
        ensures
            n == self.entries().len(),
            keys_sorted(self.entries()),
            self@ == pairs_to_map(self.entries()),
    {
        let n = self.stores.len();
        proof {
            let p = self.stores.pairs();
            let e = self.entries();
            assert forall|i: int, j: int| #![trigger e[i], e[j]] 0 <= i < j < e.len() implies crate::text::lex_lt(
                e[i].0,
                e[j].0,
            ) by {
                assert(crate::text::lex_lt(p[i].0, p[j].0));
            }
            assert forall|id: Seq<char>| self@.contains_key(id) == pairs_to_map(e).contains_key(id) by {
                if crate::namemap::has_key(p, id) {
                    let i = crate::namemap::index_of_key(p, id);
                    assert(e[i].0 == id);
                }
                if crate::namemap::has_key(e, id) {
                    let i = crate::namemap::index_of_key(e, id);
                    assert(p[i].0 == id);
                }
            }
            assert forall|id: Seq<char>| self@.contains_key(id) implies self@[id] == pairs_to_map(e)[id] by {
                let i = crate::namemap::index_of_key(p, id);
                crate::namemap::lemma_entry_in_map(p, i);
                assert(e[i].0 == id);
                crate::namemap::lemma_entry_in_map(e, i);
            }
            assert(self@ =~= pairs_to_map(e));
        }
        n
    }

    /// The id of the block at place `i`.
    pub fn block_id_at(&self, i: usize) -> (id: &String)
        requires
            i < self.entries().len(),
        ensures
            id@ == self.entries()[i as int].0,
    {
        self.stores.name_at(i)
    }

    /// The store at place `i`.
    pub fn store_at(&self, i: usize) -> (store: &AbstractStore)
        requires
            i < self.entries().len(),
        ensures
            store@ == self.entries()[i as int].1,
    {
        self.stores.value_at(i)
    }
}

/// Computes, for each block of the function `function_name` that control
/// reaches, the store after the block in the least solution of the dataflow
/// equations.
pub fn int_const_analysis(program: &Program, function_name: &str, ctx: &AnalysisContext) -> (result: BlockStores)
    requires
        program.has_function(function_name@),
        well_formed_body(program.function_named(function_name@).body@),
    ensures
        ({
            let flow = flow_of(*program, function_name@, ctx@);
            &&& flow.is_least_solution(flow.least_solution())
            &&& result@ == flow.published(flow.least_solution())
        }),
{
    let function = program.find_function(function_name).unwrap();
    let body = &function.body;
    let ghost flow = flow_of(*program, function_name@, ctx@);
    let n = body.len();
    let entry = block_number(body, "entry");
    let mut pre: Vec<AbstractStore> = Vec::new();
    let mut post: Vec<Option<AbstractStore>> = Vec::new();
    let mut i: usize = 0;
    while i < n
        invariant
            i <= n,
            n == flow.body.len(),
            entry as int == flow.entry(),
            flow.globals == program.globals@,
            flow.params == function.params@,
            pre@.len() == i,
            post@.len() == i,
            forall|j: int| 0 <= j < i ==> (#[trigger] pre@[j])@ == flow.first_stores()[j],
            forall|j: int| 0 <= j < i ==> (#[trigger] post@[j]) is None,
        decreases n - i,
    {
        if i == entry {
            pre.push(entry_store(&program.globals, &function.params));
        } else {
            pre.push(AbstractStore::new());
        }
        post.push(None);
        i += 1;
    }
    let mut worklist: VecDeque<usize> = VecDeque::new();
    worklist.push_back(entry);
    let ghost size = flow.names().len();
    proof {
        ctx.lemma_finite();
        lemma_inv_initial(flow);
        assert(store_views(pre@) =~= flow.first_stores());
        assert(published_views(post@) =~= Seq::new(flow.body.len(), |c: int| None::<StoreModel>));
        assert(as_ints(worklist@) =~= seq![flow.entry()]);
    }
    while worklist.len() > 0
        invariant
            n == flow.body.len(),
            body@ == flow.body,
            flow.ctx == ctx@,
            size == flow.names().len(),
            pre@.len() == n,
            post@.len() == n,
            flow.inv(store_views(pre@), published_views(post@), as_ints(worklist@)),
        decreases headroom(store_views(pre@), size, n as int), worklist@.len(),
    {
        let ghost before = as_ints(worklist@);
        let ghost pre0 = store_views(pre@);
        let ghost room0 = headroom(pre0, size, n as int);
        let b = worklist.pop_front().unwrap();
        let ghost rest = as_ints(worklist@);
        proof {
            assert(before[0] == b as int);
            assert(before =~= seq![b as int] + rest);
            assert(before.contains(b as int));
            assert(flow.active(pre0, b as int));
        }
        let block = &body[b].1;
        let mut current = pre[b].clone();
        run_instructions(&block.insts, &mut current, ctx);
        proof {
            assert forall|k: int| 0 <= k < named_targets(block.term).len() implies key_present(
                entry_keys(body@),
                #[trigger] named_targets(block.term)[k],
            ) by {
                assert(key_present(entry_keys(flow.body), named_targets(flow.body[b as int].1.term)[k]));
            }
        }
        let targets = successor_numbers(body, &block.term, &current);
        run_terminator(&block.term, &mut current, ctx);
        let ghost published0 = published_views(post@);
        post.set(b, Some(current.clone()));
        proof {
            assert(current@ == flow.post(b as int, pre0[b as int]));
            assert(published_views(post@) =~= published0.update(b as int, Some(current@)));
            lemma_inv_publish(flow, pre0, published0, before, b as int, current@);
            lemma_block_post_monotone(flow.ctx, flow.body[b as int].1, pre0[b as int], pre0[b as int]);
            crate::store::lemma_store_le_is_partial_order(pre0[b as int], pre0[b as int], pre0[b as int]);
            lemma_post_supported(flow, b as int, pre0[b as int]);
            assert forall|other: Seq<StoreModel>, j: int|
                #![trigger flow.is_solution(other), targets@[j]]
                flow.is_solution(other) && 0 <= j < targets@.len() implies store_le(
                current@,
                other[targets@[j] as int],
            ) by {
                assert(crate::flow::below(pre0, other));
                lemma_solution_bounds_step(flow, pre0, other, b as int, j);
            }
        }
        let mut k: usize = 0;
        while k < targets.len()
            invariant
                k <= targets.len(),
                n == flow.body.len(),
                body@ == flow.body,
                size == flow.names().len(),
                pre@.len() == n,
                post@.len() == n,
                b < n,
                pre0.len() == n,
                room0 == headroom(pre0, size, n as int),
                flow.inv(store_views(pre@), published_views(post@), seq![b as int] + as_ints(worklist@)),
                published_views(post@)[b as int] == Some(current@),
                current@ == flow.post(b as int, pre0[b as int]),
                is_total(current@),
                crate::progress::supported(current@, flow.names()),
                targets@.len() == flow.succ(b as int, pre0[b as int]).len(),
                forall|j: int|
                    0 <= j < targets@.len() ==> (#[trigger] targets@[j]) < n && targets@[j] as int
                        == flow.index_of(flow.succ(b as int, pre0[b as int])[j]),
                forall|other: Seq<StoreModel>, j: int|
                    #![trigger flow.is_solution(other), targets@[j]]
                    flow.is_solution(other) && 0 <= j < targets@.len() ==> store_le(
                        current@,
                        other[targets@[j] as int],
                    ),
                forall|j: int|
                    0 <= j < k ==> store_le(current@, store_views(pre@)[(#[trigger] targets@[j]) as int]),
                store_views(pre@)[b as int] == pre0[b as int] || as_ints(worklist@).contains(b as int),
                headroom(store_views(pre@), size, n as int) <= room0,
                headroom(store_views(pre@), size, n as int) < room0 || worklist@.len() == rest.len(),
            decreases targets.len() - k,
        {
            let t = targets[k];
            let ghost stores = store_views(pre@);
            let ghost queue = as_ints(worklist@);
            let changed = pre[t].join(&current);
            if changed {
                worklist.push_back(t);
            }
            proof {
                let id = flow.succ(b as int, pre0[b as int])[k as int];
                lemma_successor_present(flow, b as int, pre0[b as int], k as int);
                assert(flow.index_of(flow.keys()[t as int]) == t as int);
                assert forall|other: Seq<StoreModel>| #[trigger] flow.is_solution(other) implies store_le(
                    current@,
                    other[t as int],
                ) by {
                    assert(targets@[k as int] == t);
                }
                lemma_inv_join(flow, stores, published_views(post@), seq![b as int] + queue, t as int, current@);
                let joined = store_join(stores[t as int], current@);
                assert(store_views(pre@) =~= stores.update(t as int, joined));
                if changed {
                    assert(as_ints(worklist@) =~= queue.push(t as int));
                    assert(seq![b as int] + as_ints(worklist@) =~= (seq![b as int] + queue).push(t as int));
                    assert(as_ints(worklist@)[queue.len() as int] == t as int);
                    if t == b {
                        assert(as_ints(worklist@).contains(b as int));
                    }
                } else {
                    assert(as_ints(worklist@) =~= queue);
                    assert(stores.update(t as int, joined) =~= stores);
                }
                if queue.contains(b as int) {
                    let i = choose|i: int| 0 <= i < queue.len() && queue[i] == b as int;
                    assert(as_ints(worklist@)[i] == b as int);
                }
                crate::store::lemma_store_join_is_lub(stores[t as int], current@, joined);
                assert forall|j: int| 0 <= j < k + 1 implies store_le(
                    current@,
                    store_views(pre@)[(#[trigger] targets@[j]) as int],
                ) by {
                    if targets@[j] == t {
                    } else {
                        assert(store_le(current@, stores[targets@[j] as int]));
                    }
                }
            }
            k += 1;
        }
        proof {
            let stores = store_views(pre@);
            if !as_ints(worklist@).contains(b as int) {
                assert(stores[b as int] == pre0[b as int]);
                assert forall|j: int| 0 <= j < flow.succ(b as int, stores[b as int]).len() implies store_le(
                    flow.post(b as int, stores[b as int]),
                    stores[flow.index_of(#[trigger] flow.succ(b as int, stores[b as int])[j])],
                ) by {
                    assert(store_le(current@, stores[targets@[j] as int]));
                }
                assert(flow.stable(stores, b as int));
            }
            lemma_inv_retire(flow, stores, published_views(post@), as_ints(worklist@), b as int);
        }
    }
    let mut result = BlockStores::new();
    let ghost solution = store_views(pre@);
    proof {
        assert(as_ints(worklist@) =~= Seq::<int>::empty());
        lemma_inv_final(flow, solution, published_views(post@));
    }
    let mut c: usize = 0;
    while c < n
        invariant
            c <= n,
            n == flow.body.len(),
            body@ == flow.body,
            post@.len() == n,
            solution.len() == n,
            forall|d: int|
                0 <= d < n ==> (#[trigger] published_views(post@)[d] is Some <==> flow.active(solution, d)),
            forall|d: int|
                0 <= d < n && #[trigger] published_views(post@)[d] is Some ==> published_views(post@)[d] == Some(
                    flow.post(d, solution[d]),
                ) && flow.index_of(flow.keys()[d]) == d,
            forall|id: Seq<char>|
                #![trigger result@.contains_key(id)]
                result@.contains_key(id) <==> (exists|d: int|
                    0 <= d < c && flow.keys()[d] == id && #[trigger] flow.active(solution, d)),
            forall|id: Seq<char>|
                #![trigger result@[id]]
                result@.contains_key(id) ==> result@[id] == flow.post(flow.index_of(id), solution[flow.index_of(id)]),
        decreases n - c,
    {
        let ghost before = result@;
        match &post[c] {
            Some(store) => {
                result.insert(body[c].0.clone(), store.clone());
                proof {
                    assert(published_views(post@)[c as int] is Some);
                    assert(flow.active(solution, c as int));
                }
            },
            None => {
                proof {
                    assert(published_views(post@)[c as int] is None);
                    assert(!flow.active(solution, c as int));
                }
            },
        }
        proof {
            let key = flow.keys()[c as int];
            assert forall|id: Seq<char>|
                #![trigger result@.contains_key(id)]
                result@.contains_key(id) <==> (exists|d: int|
                    0 <= d < c + 1 && flow.keys()[d] == id && #[trigger] flow.active(solution, d)) by {
                if before.contains_key(id) {
                    let d = choose|d: int| 0 <= d < c && flow.keys()[d] == id && #[trigger] flow.active(solution, d);
                    assert(0 <= d < c + 1 && flow.keys()[d] == id && flow.active(solution, d));
                }
                if exists|d: int| 0 <= d < c + 1 && flow.keys()[d] == id && #[trigger] flow.active(solution, d) {
                    let d = choose|d: int|
                        0 <= d < c + 1 && flow.keys()[d] == id && #[trigger] flow.active(solution, d);
                    if d < c {
                        assert(before.contains_key(id));
                    }
                }
                if id == key && flow.active(solution, c as int) {
                    assert(0 <= c < c + 1 && flow.keys()[c as int] == id && flow.active(solution, c as int));
                }
            }
            assert forall|id: Seq<char>|
                #![trigger result@[id]]
                result@.contains_key(id) implies result@[id] == flow.post(
                flow.index_of(id),
                solution[flow.index_of(id)],
            ) by {
                if id == key && flow.active(solution, c as int) {
                    assert(published_views(post@)[c as int] is Some);
                } else {
                    assert(before.contains_key(id));
                    assert(result@[id] == before[id]);
                }
            }
        }
        c += 1;
    }
    proof {
        let target = flow.published(solution);
        assert forall|id: Seq<char>| result@.contains_key(id) == target.contains_key(id) by {
            if result@.contains_key(id) {
                let d = choose|d: int| 0 <= d < n && flow.keys()[d] == id && #[trigger] flow.active(solution, d);
                assert(published_views(post@)[d] is Some);
                assert(flow.index_of(id) == d);
            }
            if target.contains_key(id) {
                lemma_index_of_present(flow, id);
                let d = flow.index_of(id);
                assert(0 <= d < n && flow.keys()[d] == id && flow.active(solution, d));
            }
        }
        assert(result@ =~= target);
    }
    result
}

/// The equations that `analyze` solves for the function named `name`: those
/// of the function in the context that the program gives it.
pub open spec fn flow_in_program(program: Program, name: Seq<char>) -> FlowProblem {
    flow_of(
        program,
        name,
        crate::context::context_of(program.globals@, program.function_named(name).body@),
    )
}

/// Analyses the function `function_name` of a program: collects the context
/// and solves the equations. There is no result where the program has no
/// function of that name or the function's body is not well formed.
pub fn analyze(program: &Program, function_name: &str) -> (result: Option<BlockStores>)
    ensures
        result is Some <==> program.has_function(function_name@) && well_formed_body(
            program.function_named(function_name@).body@,
        ),
        result matches Some(stores) ==> {
            let flow = flow_in_program(*program, function_name@);
            &&& flow.is_least_solution(flow.least_solution())
            &&& stores@ == flow.published(flow.least_solution())
        },
{
    match program.find_function(function_name) {
        Some(function) => {
            if !check_body(&function.body) {
                return None;
            }
            let ctx = global_init(program, function_name);
            Some(int_const_analysis(program, function_name, &ctx))
        },
        None => None,
    }
}

} // verus!
