//! Why the worklist iteration ends, and why it ends in the least solution of
//! the dataflow equations.

use vstd::prelude::*;
use vstd::seq_lib::seq_to_set_is_finite;
use crate::context::has_int_variable;
use crate::flow::{
    below, lemma_block_monotone, lemma_successor_is_named, named_targets, run_insts,
    well_formed_body, FlowProblem,
};
use crate::lattice::IntConstAbsVal;
use crate::lir::{
    entry_keys, first_index, is_first_index, key_present, Block, Instruction, Terminal, Variable,
};
use crate::progress::{
    headroom, lemma_headroom_update, lemma_join_supported, lemma_weight_bounded,
    lemma_weight_monotone, supported,
};
use crate::store::{
    bottom_store, is_total, lemma_store_join_is_lub, lemma_store_le_is_partial_order, store_join,
    store_le, StoreModel,
};
use crate::transfer::{call_clobber, clobbers, transfer};

verus! {

/// The names of a list of variables.
pub open spec fn variable_names(vars: Seq<Variable>) -> Seq<Seq<char>> {
    Seq::new(vars.len(), |i: int| vars[i].name@)
}

/// The name that an instruction may bind of its own accord: the variable it
/// assigns to or stores through; the empty name where it has none.
pub open spec fn target_name(inst: Instruction) -> Seq<char> {
    match inst {
        Instruction::Copy { lhs, .. } => lhs.name@,
        Instruction::Arith { lhs, .. } => lhs.name@,
        Instruction::Cmp { lhs, .. } => lhs.name@,
        Instruction::Load { lhs, .. } => lhs.name@,
        Instruction::Store { dst, .. } => dst.name@,
        Instruction::CallExt { lhs: Some(v), .. } => v.name@,
        _ => Seq::empty(),
    }
}

/// The name that a terminator may bind: the result variable of a call.
pub open spec fn terminator_name(term: Terminal) -> Seq<char> {
    match term {
        Terminal::CallDirect { lhs: Some(v), .. } => v.name@,
        Terminal::CallIndirect { lhs: Some(v), .. } => v.name@,
        _ => Seq::empty(),
    }
}

/// The names that the instructions and the terminator of a block may bind.
pub open spec fn block_names(block: Block) -> Set<Seq<char>> {
    Seq::new(block.insts@.len(), |i: int| target_name(block.insts@[i])).to_set().insert(
        terminator_name(block.term),
    )
}

/// The names that the blocks of a body may bind.
pub open spec fn body_names(body: Seq<(String, Block)>) -> Set<Seq<char>>
    decreases body.len(),
{
    if body.len() == 0 {
        Set::empty()
    } else {
        body_names(body.drop_last()).union(block_names(body.last().1))
    }
}

impl FlowProblem {
    /// Every name that a store of the analysis may bind.
    pub open spec fn names(self) -> Set<Seq<char>> {
        self.ctx.global_ints.union(self.ctx.addr_taken).union(variable_names(self.globals).to_set()).union(
            variable_names(self.params).to_set(),
        ).union(body_names(self.body))
    }

    /// What block `c` publishes lies below the store on entry to each of its
    /// successors.
    pub open spec fn stable(self, pre: Seq<StoreModel>, c: int) -> bool {
        forall|k: int|
            0 <= k < self.succ(c, pre[c]).len() ==> store_le(
                self.post(c, pre[c]),
                pre[self.index_of(#[trigger] self.succ(c, pre[c])[k])],
            )
    }

    /// The state of the iteration is sound: the stores on entry lie below
    /// every solution, and every block that control reaches either waits in
    /// the worklist or has been published and is stable.
    pub open spec fn inv(self, pre: Seq<StoreModel>, post: Seq<Option<StoreModel>>, worklist: Seq<int>) -> bool {
        &&& well_formed_body(self.body)
        &&& self.ctx.finite()
        &&& pre.len() == self.body.len()
        &&& post.len() == self.body.len()
        &&& forall|c: int| 0 <= c < pre.len() ==> is_total(#[trigger] pre[c])
        &&& forall|i: int| 0 <= i < worklist.len() ==> 0 <= #[trigger] worklist[i] < pre.len()
        &&& store_le(self.init(), pre[self.entry()])
        &&& forall|c: int|
            #![trigger self.active(pre, c)]
            0 <= c < pre.len() && (worklist.contains(c) || post[c] is Some) ==> self.active(pre, c)
        &&& forall|c: int|
            #![trigger self.active(pre, c)]
            0 <= c < pre.len() && self.active(pre, c) && !worklist.contains(c) ==> post[c] == Some(
                self.post(c, pre[c]),
            ) && self.stable(pre, c)
        &&& forall|c: int|
            #![trigger self.active(pre, c)]
            0 <= c < pre.len() && self.active(pre, c) ==> self.index_of(self.keys()[c]) == c
        &&& forall|other: Seq<StoreModel>| #[trigger] self.is_solution(other) ==> below(pre, other)
        &&& forall|c: int| 0 <= c < pre.len() ==> supported(#[trigger] pre[c], self.names())
    }

    /// The stores with which the iteration begins: the initial store at the
    /// entry block, the bottom store elsewhere.
    pub open spec fn first_stores(self) -> Seq<StoreModel> {
        Seq::new(
            self.body.len(),
            |c: int|
                if c == self.entry() {
                    self.init()
                } else {
                    bottom_store()
                },
        )
    }
}

/// The bottom store lies below every store, and only the bottom store lies
/// below it.
pub proof fn lemma_bottom_store(a: StoreModel)
    ensures
        store_le(bottom_store(), a),
        is_total(bottom_store()),
        is_total(a) && store_le(a, bottom_store()) ==> a == bottom_store(),
{
    assert forall|x: Seq<char>| #[trigger] bottom_store()[x].le(a[x]) by {}
    if is_total(a) && store_le(a, bottom_store()) {
        lemma_store_le_is_partial_order(a, bottom_store(), a);
    }
}

/// The place that a lookup of a present id finds is a place of the body, and
/// a lookup of the id at that place finds it again.
pub proof fn lemma_index_of_present(flow: FlowProblem, id: Seq<char>)
    requires
        key_present(flow.keys(), id),
    ensures
        0 <= flow.index_of(id) < flow.body.len(),
        flow.keys()[flow.index_of(id)] == id,
        flow.index_of(flow.keys()[flow.index_of(id)]) == flow.index_of(id),
{
    let keys = flow.keys();
    let i = choose|i: int| 0 <= i < keys.len() && #[trigger] keys[i] == id;
    lemma_least_index(keys, id, i);
}

/// Below the place of an entry with the key there is a first such place.
pub proof fn lemma_least_index(keys: Seq<Seq<char>>, k: Seq<char>, i: int)
    requires
        0 <= i < keys.len(),
        keys[i] == k,
    ensures
        is_first_index(keys, k, first_index(keys, k)),
    decreases i,
{
    if forall|j: int| 0 <= j < i ==> #[trigger] keys[j] != k {
        assert(is_first_index(keys, k, i));
    } else {
        let j = choose|j: int| 0 <= j < i && #[trigger] keys[j] == k;
        lemma_least_index(keys, k, j);
    }
}

/// Every successor of a block of a well-formed body is the id of a block.
pub proof fn lemma_successor_present(flow: FlowProblem, b: int, store: StoreModel, k: int)
    requires
        well_formed_body(flow.body),
        0 <= b < flow.body.len(),
        0 <= k < flow.succ(b, store).len(),
    ensures
        key_present(flow.keys(), flow.succ(b, store)[k]),
        0 <= flow.index_of(flow.succ(b, store)[k]) < flow.body.len(),
        flow.index_of(flow.keys()[flow.index_of(flow.succ(b, store)[k])]) == flow.index_of(flow.succ(b, store)[k]),
{
    lemma_successor_is_named(flow.ctx, flow.body[b].1, store, k);
    let named = named_targets(flow.body[b].1.term);
    let id = flow.succ(b, store)[k];
    let j = choose|j: int| 0 <= j < named.len() && named[j] == id;
    assert(key_present(entry_keys(flow.body), named_targets(flow.body[b].1.term)[j]));
    lemma_index_of_present(flow, id);
}

/// What a block that control reaches passes to a successor lies below the
/// store that any solution above the current stores holds there.
pub proof fn lemma_solution_bounds_step(
    flow: FlowProblem,
    pre: Seq<StoreModel>,
    other: Seq<StoreModel>,
    b: int,
    k: int,
)
    requires
        flow.is_solution(other),
        below(pre, other),
        0 <= b < pre.len(),
        is_total(pre[b]),
        flow.active(pre, b),
        0 <= k < flow.succ(b, pre[b]).len(),
    ensures
        store_le(flow.post(b, pre[b]), other[flow.index_of(flow.succ(b, pre[b])[k])]),
{
    assert(store_le(pre[b], other[b]));
    assert(is_total(other[b]));
    if b != flow.entry() && other[b] == bottom_store() {
        lemma_bottom_store(pre[b]);
    }
    assert(flow.active(other, b));
    lemma_block_monotone(flow.ctx, flow.body[b].1, pre[b], other[b], k);
    let id = flow.succ(b, pre[b])[k];
    let theirs = flow.succ(b, other[b]);
    let k2 = choose|k2: int| 0 <= k2 < theirs.len() && theirs[k2] == id;
    assert(store_le(flow.post(b, other[b]), other[flow.index_of(flow.succ(b, other[b])[k2])]));
    lemma_store_le_is_partial_order(
        flow.post(b, pre[b]),
        flow.post(b, other[b]),
        other[flow.index_of(id)],
    );
}

/// The equations have at most one least solution.
pub proof fn lemma_least_solution_unique(flow: FlowProblem, p: Seq<StoreModel>, q: Seq<StoreModel>)
    requires
        flow.is_least_solution(p),
        flow.is_least_solution(q),
    ensures
        p == q,
{
    assert(below(p, q));
    assert(below(q, p));
    assert forall|b: int| 0 <= b < p.len() implies p[b] == q[b] by {
        assert(store_le(p[b], q[b]));
        assert(store_le(q[b], p[b]));
        assert(is_total(p[b]));
        assert(is_total(q[b]));
        lemma_store_le_is_partial_order(p[b], q[b], p[b]);
    }
    assert(p =~= q);
}

/// The names that the blocks of a body may bind are finitely many, and they
/// include the names of each block.
pub proof fn lemma_body_names(body: Seq<(String, Block)>, b: int)
    requires
        0 <= b < body.len(),
    ensures
        body_names(body).finite(),
        block_names(body[b].1).subset_of(body_names(body)),
    decreases body.len(),
{
    lemma_body_names_finite(body);
    if b < body.len() - 1 {
        lemma_body_names(body.drop_last(), b);
    }
}

/// The names that the blocks of a body may bind are finitely many.
pub proof fn lemma_body_names_finite(body: Seq<(String, Block)>)
    ensures
        body_names(body).finite(),
    decreases body.len(),
{
    if body.len() > 0 {
        lemma_body_names_finite(body.drop_last());
        let block = body.last().1;
        seq_to_set_is_finite(Seq::new(block.insts@.len(), |i: int| target_name(block.insts@[i])));
    }
}

/// The names of the analysis are finitely many.
pub proof fn lemma_names_finite(flow: FlowProblem)
    requires
        flow.ctx.finite(),
    ensures
        flow.names().finite(),
{
    seq_to_set_is_finite(variable_names(flow.globals));
    seq_to_set_is_finite(variable_names(flow.params));
    lemma_body_names_finite(flow.body);
}

/// The names of the context and of the variables on entry belong to the
/// names of the analysis.
pub proof fn lemma_names_cover(flow: FlowProblem, x: Seq<char>)
    ensures
        flow.ctx.global_ints.contains(x) ==> flow.names().contains(x),
        flow.ctx.addr_taken.contains(x) ==> flow.names().contains(x),
        has_int_variable(flow.globals, x) ==> flow.names().contains(x),
        has_int_variable(flow.params, x) ==> flow.names().contains(x),
{
    if has_int_variable(flow.globals, x) {
        let vars = flow.globals;
        let i = choose|i: int| 0 <= i < vars.len() && (#[trigger] vars[i]).typ is Int && vars[i].name@ == x;
        assert(variable_names(vars)[i] == x);
    }
    if has_int_variable(flow.params, x) {
        let vars = flow.params;
        let i = choose|i: int| 0 <= i < vars.len() && (#[trigger] vars[i]).typ is Int && vars[i].name@ == x;
        assert(variable_names(vars)[i] == x);
    }
}

/// The initial store binds names of the analysis only.
pub proof fn lemma_init_supported(flow: FlowProblem)
    ensures
        supported(flow.init(), flow.names()),
        is_total(flow.init()),
{
    let init = flow.init();
    assert forall|x: Seq<char>| #![trigger init[x]] init[x] != IntConstAbsVal::Bottom implies flow.names().contains(
        x,
    ) by {
        lemma_names_cover(flow, x);
    }
}

/// A call binds names of the analysis only.
pub proof fn lemma_call_supported(
    flow: FlowProblem,
    lhs: Option<Variable>,
    args: Seq<crate::lir::Operand>,
    store: StoreModel,
)
    requires
        supported(store, flow.names()),
        lhs matches Some(v) ==> flow.names().contains(v.name@),
    ensures
        supported(call_clobber(flow.ctx, lhs, args, store), flow.names()),
{
    let out = call_clobber(flow.ctx, lhs, args, store);
    assert forall|x: Seq<char>| #![trigger out[x]] out[x] != IntConstAbsVal::Bottom implies flow.names().contains(
        x,
    ) by {
        lemma_names_cover(flow, x);
        if !clobbers(flow.ctx, lhs, args, x) {
            assert(store[x] != IntConstAbsVal::Bottom);
        }
    }
}

/// An instruction of a block binds names of the analysis only.
pub proof fn lemma_transfer_supported(flow: FlowProblem, b: int, i: int, store: StoreModel)
    requires
        0 <= b < flow.body.len(),
        0 <= i < flow.body[b].1.insts@.len(),
        supported(store, flow.names()),
    ensures
        supported(transfer(flow.ctx, flow.body[b].1.insts@[i], store), flow.names()),
{
    let block = flow.body[b].1;
    let inst = block.insts@[i];
    let out = transfer(flow.ctx, inst, store);
    lemma_body_names(flow.body, b);
    let targets = Seq::new(block.insts@.len(), |j: int| target_name(block.insts@[j]));
    assert(targets[i] == target_name(inst));
    assert(targets.to_set().contains(target_name(inst)));
    assert(block_names(block).contains(target_name(inst)));
    assert(flow.names().contains(target_name(inst)));
    match inst {
        Instruction::CallExt { lhs, args, .. } => {
            lemma_call_supported(flow, lhs, args@, store);
        },
        _ => {
            let names = flow.names();
            assert forall|x: Seq<char>| #![trigger out[x]] out[x] != IntConstAbsVal::Bottom implies names.contains(
                x,
            ) by {
                if x != target_name(inst) {
                    assert(out[x] == store[x]);
                    assert(store[x] != IntConstAbsVal::Bottom);
                }
            }
        },
    }
}

/// The first instructions of a block bind names of the analysis only.
pub proof fn lemma_run_supported(flow: FlowProblem, b: int, i: int, store: StoreModel)
    requires
        0 <= b < flow.body.len(),
        0 <= i <= flow.body[b].1.insts@.len(),
        supported(store, flow.names()),
    ensures
        supported(run_insts(flow.ctx, flow.body[b].1.insts@.take(i), store), flow.names()),
    decreases i,
{
    let insts = flow.body[b].1.insts@;
    if i > 0 {
        lemma_run_supported(flow, b, i - 1, store);
        assert(insts.take(i).drop_last() =~= insts.take(i - 1));
        assert(insts.take(i).last() == insts[i - 1]);
        lemma_transfer_supported(flow, b, i - 1, run_insts(flow.ctx, insts.take(i - 1), store));
    }
}

/// What a block publishes binds names of the analysis only.
pub proof fn lemma_post_supported(flow: FlowProblem, b: int, store: StoreModel)
    requires
        0 <= b < flow.body.len(),
        supported(store, flow.names()),
    ensures
        supported(flow.post(b, store), flow.names()),
{
    let block = flow.body[b].1;
    lemma_run_supported(flow, b, block.insts@.len() as int, store);
    assert(block.insts@.take(block.insts@.len() as int) =~= block.insts@);
    let mid = run_insts(flow.ctx, block.insts@, store);
    lemma_body_names(flow.body, b);
    assert(block_names(block).contains(terminator_name(block.term)));
    assert(flow.names().contains(terminator_name(block.term)));
    match block.term {
        Terminal::CallDirect { lhs, args, .. } => {
            lemma_call_supported(flow, lhs, args@, mid);
        },
        Terminal::CallIndirect { lhs, args, .. } => {
            lemma_call_supported(flow, lhs, args@, mid);
        },
        _ => {},
    }
}

/// The state with which the iteration begins is sound.
pub proof fn lemma_inv_initial(flow: FlowProblem)
    requires
        well_formed_body(flow.body),
        flow.ctx.finite(),
    ensures
        flow.inv(
            flow.first_stores(),
            Seq::new(flow.body.len(), |c: int| None::<StoreModel>),
            seq![flow.entry()],
        ),
{
    let pre = flow.first_stores();
    let post = Seq::new(flow.body.len(), |c: int| None::<StoreModel>);
    let worklist = seq![flow.entry()];
    lemma_index_of_present(flow, crate::flow::entry_id());
    lemma_init_supported(flow);
    lemma_bottom_store(flow.init());
    lemma_store_le_is_partial_order(flow.init(), flow.init(), flow.init());
    assert(worklist[0] == flow.entry());
    assert forall|c: int|
        #![trigger flow.active(pre, c)]
        0 <= c < pre.len() && flow.active(pre, c) implies worklist.contains(c) && flow.index_of(flow.keys()[c])
        == c by {}
    assert forall|other: Seq<StoreModel>| #[trigger] flow.is_solution(other) implies below(pre, other) by {
        assert forall|b: int| 0 <= b < pre.len() implies store_le(#[trigger] pre[b], other[b]) by {
            lemma_bottom_store(other[b]);
        }
    }
    assert forall|c: int| 0 <= c < pre.len() implies supported(#[trigger] pre[c], flow.names()) by {}
}

/// Publishing a store for a block that waits in the worklist keeps the state
/// sound.
pub proof fn lemma_inv_publish(
    flow: FlowProblem,
    pre: Seq<StoreModel>,
    post: Seq<Option<StoreModel>>,
    worklist: Seq<int>,
    b: int,
    store: StoreModel,
)
    requires
        flow.inv(pre, post, worklist),
        0 <= b < pre.len(),
        worklist.contains(b),
    ensures
        flow.inv(pre, post.update(b, Some(store)), worklist),
{
    let post2 = post.update(b, Some(store));
    assert forall|c: int|
        #![trigger flow.active(pre, c)]
        0 <= c < pre.len() && (worklist.contains(c) || post2[c] is Some) implies flow.active(pre, c) by {
        if c != b {
            assert(post2[c] == post[c]);
        }
    }
    assert forall|c: int|
        #![trigger flow.active(pre, c)]
        0 <= c < pre.len() && flow.active(pre, c) && !worklist.contains(c) implies post2[c] == Some(
        flow.post(c, pre[c]),
    ) && flow.stable(pre, c) by {
        assert(post2[c] == post[c]);
    }
}

/// Joining a store into the store on entry to a block, and queueing the
/// block if that changed its store, keeps the state sound and leaves no more
/// headroom than before; if the store changed, it leaves less.
pub proof fn lemma_inv_join(
    flow: FlowProblem,
    pre: Seq<StoreModel>,
    post: Seq<Option<StoreModel>>,
    worklist: Seq<int>,
    t: int,
    store: StoreModel,
)
    requires
        flow.inv(pre, post, worklist),
        0 <= t < pre.len(),
        is_total(store),
        supported(store, flow.names()),
        flow.index_of(flow.keys()[t]) == t,
        forall|other: Seq<StoreModel>| #[trigger] flow.is_solution(other) ==> store_le(store, other[t]),
    ensures
        ({
            let joined = store_join(pre[t], store);
            let pre2 = pre.update(t, joined);
            let worklist2 = if joined != pre[t] {
                worklist.push(t)
            } else {
                worklist
            };
            let size = flow.names().len();
            &&& flow.inv(pre2, post, worklist2)
            &&& headroom(pre2, size, pre.len() as int) <= headroom(pre, size, pre.len() as int)
            &&& joined != pre[t] ==> headroom(pre2, size, pre.len() as int) < headroom(
                pre,
                size,
                pre.len() as int,
            )
            &&& forall|c: int| 0 <= c < pre.len() ==> store_le(#[trigger] pre[c], pre2[c])
        }),
{
    let joined = store_join(pre[t], store);
    let pre2 = pre.update(t, joined);
    let worklist2 = if joined != pre[t] {
        worklist.push(t)
    } else {
        worklist
    };
    let size = flow.names().len();
    lemma_store_join_is_lub(pre[t], store, joined);
    assert(is_total(joined)) by {
        assert forall|x: Seq<char>| #[trigger] joined.contains_key(x) by {}
    }
    // The stores have grown.
    assert forall|c: int| 0 <= c < pre.len() implies store_le(#[trigger] pre[c], pre2[c]) by {
        lemma_store_le_is_partial_order(pre[c], pre[c], pre[c]);
    }
    if joined == pre[t] {
        assert(pre2 =~= pre);
    }
    // A block is reached in the new state as it was in the old one, but for
    // the block whose store changed.
    assert forall|c: int| 0 <= c < pre.len() && flow.active(pre, c) implies flow.active(pre2, c) by {
        if c == t && c != flow.entry() && joined == bottom_store() {
            lemma_bottom_store(pre[t]);
        }
    }
    assert forall|c: int| 0 <= c < pre.len() && c != t implies flow.active(pre2, c) == flow.active(pre, c) by {}
    if joined != pre[t] {
        assert(worklist2[worklist.len() as int] == t);
        assert(flow.active(pre2, t)) by {
            if joined == bottom_store() {
                lemma_bottom_store(pre[t]);
            }
        }
    }
    assert forall|c: int| worklist.contains(c) implies worklist2.contains(c) by {
        let i = choose|i: int| 0 <= i < worklist.len() && worklist[i] == c;
        assert(worklist2[i] == c);
    }
    assert forall|i: int| 0 <= i < worklist2.len() implies 0 <= #[trigger] worklist2[i] < pre2.len() by {
        if i < worklist.len() {
            assert(worklist2[i] == worklist[i]);
        }
    }
    assert forall|c: int|
        #![trigger flow.active(pre2, c)]
        0 <= c < pre2.len() && (worklist2.contains(c) || post[c] is Some) implies flow.active(pre2, c) by {
        if c != t || joined == pre[t] {
            if worklist2.contains(c) && !worklist.contains(c) {
                let i = choose|i: int| 0 <= i < worklist2.len() && worklist2[i] == c;
                if i < worklist.len() {
                    assert(worklist[i] == c);
                }
            }
            assert(flow.active(pre, c));
        }
    }
    assert forall|c: int|
        #![trigger flow.active(pre2, c)]
        0 <= c < pre2.len() && flow.active(pre2, c) && !worklist2.contains(c) implies post[c] == Some(
        flow.post(c, pre2[c]),
    ) && flow.stable(pre2, c) by {
        assert(pre2[c] == pre[c]);
        assert(flow.active(pre, c));
        assert(!worklist.contains(c));
        assert(flow.stable(pre, c));
        assert forall|k: int| 0 <= k < flow.succ(c, pre2[c]).len() implies store_le(
            flow.post(c, pre2[c]),
            pre2[flow.index_of(#[trigger] flow.succ(c, pre2[c])[k])],
        ) by {
            lemma_successor_present(flow, c, pre[c], k);
            let s = flow.index_of(flow.succ(c, pre[c])[k]);
            assert(store_le(pre[s], pre2[s]));
            lemma_store_le_is_partial_order(flow.post(c, pre[c]), pre[s], pre2[s]);
        }
    }
    assert forall|c: int|
        #![trigger flow.active(pre2, c)]
        0 <= c < pre2.len() && flow.active(pre2, c) implies flow.index_of(flow.keys()[c]) == c by {
        if c != t {
            assert(flow.active(pre, c));
        }
    }
    assert forall|other: Seq<StoreModel>| #[trigger] flow.is_solution(other) implies below(pre2, other) by {
        assert(below(pre, other));
        assert forall|b: int| 0 <= b < pre2.len() implies store_le(#[trigger] pre2[b], other[b]) by {
            assert(store_le(pre[b], other[b]));
            if b == t {
                lemma_store_join_is_lub(pre[t], store, other[t]);
            }
        }
    }
    assert forall|c: int| 0 <= c < pre2.len() implies supported(#[trigger] pre2[c], flow.names()) by {
        assert(supported(pre[c], flow.names()));
        if c == t {
            lemma_join_supported(pre[t], store, flow.names());
        }
    }
    assert forall|c: int| 0 <= c < pre2.len() implies is_total(#[trigger] pre2[c]) by {
        assert(is_total(pre[c]));
    }
    assert(store_le(flow.init(), pre2[flow.entry()])) by {
        lemma_index_of_present(flow, crate::flow::entry_id());
        lemma_store_le_is_partial_order(flow.init(), pre[flow.entry()], pre2[flow.entry()]);
    }
    // The measure.
    lemma_names_finite(flow);
    lemma_join_supported(pre[t], store, flow.names());
    lemma_weight_monotone(pre[t], joined, flow.names());
    lemma_weight_bounded(joined, flow.names());
    lemma_headroom_update(pre, size, pre.len() as int, t, joined);
}

/// A block leaves the worklist soundly once it has been published and is
/// stable, or if it waits in the worklist another time.
pub proof fn lemma_inv_retire(
    flow: FlowProblem,
    pre: Seq<StoreModel>,
    post: Seq<Option<StoreModel>>,
    worklist: Seq<int>,
    b: int,
)
    requires
        flow.inv(pre, post, seq![b] + worklist),
        0 <= b < pre.len(),
        worklist.contains(b) || (post[b] == Some(flow.post(b, pre[b])) && flow.stable(pre, b)),
    ensures
        flow.inv(pre, post, worklist),
{
    let longer = seq![b] + worklist;
    assert(longer[0] == b);
    assert forall|c: int| worklist.contains(c) implies longer.contains(c) by {
        let i = choose|i: int| 0 <= i < worklist.len() && worklist[i] == c;
        assert(longer[i + 1] == c);
    }
    assert forall|c: int| longer.contains(c) && c != b implies worklist.contains(c) by {
        let i = choose|i: int| 0 <= i < longer.len() && longer[i] == c;
        assert(worklist[i - 1] == c);
    }
    assert forall|i: int| 0 <= i < worklist.len() implies 0 <= #[trigger] worklist[i] < pre.len() by {
        assert(longer[i + 1] == worklist[i]);
    }
    assert forall|c: int|
        #![trigger flow.active(pre, c)]
        0 <= c < pre.len() && (worklist.contains(c) || post[c] is Some) implies flow.active(pre, c) by {}
    assert forall|c: int|
        #![trigger flow.active(pre, c)]
        0 <= c < pre.len() && flow.active(pre, c) && !worklist.contains(c) implies post[c] == Some(
        flow.post(c, pre[c]),
    ) && flow.stable(pre, c) by {
        if c != b {
            assert(!longer.contains(c));
        }
    }
}

/// When the worklist is empty the stores on entry are the least solution, and
/// exactly the blocks that control reaches have been published, each with the
/// store that it publishes in the solution.
pub proof fn lemma_inv_final(flow: FlowProblem, pre: Seq<StoreModel>, post: Seq<Option<StoreModel>>)
    requires
        flow.inv(pre, post, Seq::<int>::empty()),
    ensures
        flow.is_least_solution(pre),
        pre == flow.least_solution(),
        forall|c: int| 0 <= c < pre.len() ==> (#[trigger] post[c] is Some <==> flow.active(pre, c)),
        forall|c: int|
            0 <= c < pre.len() && #[trigger] post[c] is Some ==> post[c] == Some(flow.post(c, pre[c]))
                && flow.index_of(flow.keys()[c]) == c,
{
    let empty = Seq::<int>::empty();
    assert forall|c: int| 0 <= c < pre.len() implies (#[trigger] post[c] is Some <==> flow.active(pre, c)) by {
        assert(!empty.contains(c));
        if flow.active(pre, c) {
            assert(post[c] == Some(flow.post(c, pre[c])));
        }
    }
    assert forall|c: int| 0 <= c < pre.len() && #[trigger] post[c] is Some implies post[c] == Some(
        flow.post(c, pre[c]),
    ) && flow.index_of(flow.keys()[c]) == c by {
        assert(!empty.contains(c));
        assert(flow.active(pre, c));
    }
    assert forall|b: int, k: int|
        0 <= b < pre.len() && flow.active(pre, b) && 0 <= k < flow.succ(b, pre[b]).len() implies store_le(
        flow.post(b, pre[b]),
        pre[flow.index_of(#[trigger] flow.succ(b, pre[b])[k])],
    ) by {
        assert(!empty.contains(b));
        assert(flow.stable(pre, b));
    }
    assert(flow.is_solution(pre));
    assert(flow.is_least_solution(pre));
    lemma_least_solution_unique(flow, pre, flow.least_solution());
}

/// A second pass over a solution changes nothing: joining what a reached
/// block publishes into the store on entry to any of its successors leaves
/// that store as it is, so no block would be queued again.
pub proof fn lemma_second_pass_changes_nothing(flow: FlowProblem, pre: Seq<StoreModel>, b: int, k: int)
    requires
        well_formed_body(flow.body),
        flow.is_solution(pre),
        0 <= b < pre.len(),
        flow.active(pre, b),
        0 <= k < flow.succ(b, pre[b]).len(),
    ensures
        0 <= flow.index_of(flow.succ(b, pre[b])[k]) < pre.len(),
        store_join(pre[flow.index_of(flow.succ(b, pre[b])[k])], flow.post(b, pre[b])) == pre[flow.index_of(
            flow.succ(b, pre[b])[k],
        )],
{
    lemma_successor_present(flow, b, pre[b], k);
    let t = flow.index_of(flow.succ(b, pre[b])[k]);
    assert(store_le(flow.post(b, pre[b]), pre[t]));
    assert(is_total(pre[t]));
    crate::store::lemma_store_le_by_join(flow.post(b, pre[b]), pre[t], crate::lir::Operand::CInt(0));
}

/// A second pass over a solution publishes what was published: for a reached
/// block that a lookup of its id finds, the solution publishes under that id
/// the store that the block computes from its store on entry.
pub proof fn lemma_second_pass_publishes_the_same(flow: FlowProblem, pre: Seq<StoreModel>, b: int)
    requires
        flow.is_solution(pre),
        0 <= b < pre.len(),
        flow.active(pre, b),
        flow.index_of(flow.keys()[b]) == b,
    ensures
        flow.published(pre).contains_key(flow.keys()[b]),
        flow.published(pre)[flow.keys()[b]] == flow.post(b, pre[b]),
{
    assert(key_present(flow.keys(), flow.keys()[b]));
}

} // verus!
