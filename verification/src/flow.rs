//! The dataflow equations of one function and their least solution.
//!
//! Blocks are numbered by their place in the function's body. A solution
//! gives every block a store on entry such that the entry block holds at
//! least the initial store and every block that control reaches passes at
//! least its published store on to each of its successors.

use vstd::prelude::*;
use crate::context::{has_int_variable, ContextModel};
use crate::lattice::IntConstAbsVal;
use crate::lir::{
    entry_keys, first_index, key_present, Block, Instruction, Program, Terminal, Variable,
};
use crate::store::{bottom_store, is_total, lemma_store_le_by_join, resolve, store_le, StoreModel};
use crate::transfer::{
    call_clobber, lemma_call_clobber_monotone, lemma_transfer_monotone, lemma_transfer_total,
    transfer,
};

verus! {

/// The store on entry to a function: every integer global and every integer
/// parameter is unknown, everything else unreached.
pub open spec fn initial_store(globals: Seq<Variable>, params: Seq<Variable>) -> StoreModel {
    Map::total(
        |x: Seq<char>|
            if has_int_variable(globals, x) || has_int_variable(params, x) {
                IntConstAbsVal::Top
            } else {
                IntConstAbsVal::Bottom
            },
    )
}

/// The store after the instructions of a sequence, from first to last.
pub open spec fn run_insts(ctx: ContextModel, insts: Seq<Instruction>, store: StoreModel) -> StoreModel
    decreases insts.len(),
{
    if insts.len() == 0 {
        store
    } else {
        transfer(ctx, insts.last(), run_insts(ctx, insts.drop_last(), store))
    }
}

/// What a terminator does to the store: a call has the effect of a call, any
/// other terminator none.
pub open spec fn terminate(ctx: ContextModel, term: Terminal, store: StoreModel) -> StoreModel {
    match term {
        Terminal::CallDirect { lhs, args, .. } => call_clobber(ctx, lhs, args@, store),
        Terminal::CallIndirect { lhs, args, .. } => call_clobber(ctx, lhs, args@, store),
        _ => store,
    }
}

/// The store that a block publishes for the store `store` on entry.
pub open spec fn block_post(ctx: ContextModel, block: Block, store: StoreModel) -> StoreModel {
    terminate(ctx, block.term, run_insts(ctx, block.insts@, store))
}

/// Where a branch leads for a condition: to the false target on the constant
/// 0, to the true target on any other constant, to both (the true target
/// first) on `Top`, nowhere on `Bottom`.
pub open spec fn branch_targets(cond: IntConstAbsVal, tt: Seq<char>, ff: Seq<char>) -> Seq<Seq<char>> {
    match cond {
        IntConstAbsVal::IntConst(c) => if c == 0 {
            seq![ff]
        } else {
            seq![tt]
        },
        IntConstAbsVal::Bottom => Seq::empty(),
        IntConstAbsVal::Top => seq![tt, ff],
    }
}

/// The ids of the blocks that a terminator passes control to, where `store`
/// is the store after the block's instructions.
pub open spec fn leads_to(term: Terminal, store: StoreModel) -> Seq<Seq<char>> {
    match term {
        Terminal::Jump(target) => seq![target@],
        Terminal::Branch { cond, tt, ff } => branch_targets(resolve(cond, store), tt@, ff@),
        Terminal::Ret(_) => Seq::empty(),
        Terminal::CallDirect { next_bb, .. } => seq![next_bb@],
        Terminal::CallIndirect { next_bb, .. } => seq![next_bb@],
    }
}

/// The ids of the successors of a block for the store `store` on entry.
pub open spec fn successors(ctx: ContextModel, block: Block, store: StoreModel) -> Seq<Seq<char>> {
    leads_to(block.term, run_insts(ctx, block.insts@, store))
}

/// Every block id that a terminator names.
pub open spec fn named_targets(term: Terminal) -> Seq<Seq<char>> {
    match term {
        Terminal::Jump(target) => seq![target@],
        Terminal::Branch { tt, ff, .. } => seq![tt@, ff@],
        Terminal::Ret(_) => Seq::empty(),
        Terminal::CallDirect { next_bb, .. } => seq![next_bb@],
        Terminal::CallIndirect { next_bb, .. } => seq![next_bb@],
    }
}

/// The id of the block at which the analysis of a function begins.
pub open spec fn entry_id() -> Seq<char> {
    "entry"@
}

/// A body has an entry block, and every block id that a terminator names is
/// the id of a block.
pub open spec fn well_formed_body(body: Seq<(String, Block)>) -> bool {
    &&& key_present(entry_keys(body), entry_id())
    &&& forall|b: int, k: int|
        0 <= b < body.len() && 0 <= k < named_targets(body[b].1.term).len() ==> key_present(
            entry_keys(body),
            #[trigger] named_targets(body[b].1.term)[k],
        )
}

/// The equations of one function.
pub struct FlowProblem {
    pub ctx: ContextModel,
    pub body: Seq<(String, Block)>,
    pub globals: Seq<Variable>,
    pub params: Seq<Variable>,
}

/// Each store of `pre` lies below the store of `other` at the same place.
pub open spec fn below(pre: Seq<StoreModel>, other: Seq<StoreModel>) -> bool {
    &&& pre.len() == other.len()
    &&& forall|b: int| 0 <= b < pre.len() ==> store_le(#[trigger] pre[b], other[b])
}

impl FlowProblem {
    /// The ids of the blocks, in the order of the body.
    pub open spec fn keys(self) -> Seq<Seq<char>> {
        entry_keys(self.body)
    }

    /// The number of the block that a lookup of `id` finds.
    pub open spec fn index_of(self, id: Seq<char>) -> int {
        first_index(self.keys(), id)
    }

    /// The number of the entry block.
    pub open spec fn entry(self) -> int {
        self.index_of(entry_id())
    }

    /// The store on entry to the function.
    pub open spec fn init(self) -> StoreModel {
        initial_store(self.globals, self.params)
    }

    /// The store that block `b` publishes for `store` on entry.
    pub open spec fn post(self, b: int, store: StoreModel) -> StoreModel {
        block_post(self.ctx, self.body[b].1, store)
    }

    /// The ids of the successors of block `b` for `store` on entry.
    pub open spec fn succ(self, b: int, store: StoreModel) -> Seq<Seq<char>> {
        successors(self.ctx, self.body[b].1, store)
    }

    /// Control reaches block `b`: it is the entry block, or its store on
    /// entry is not the bottom store.
    pub open spec fn active(self, pre: Seq<StoreModel>, b: int) -> bool {
        b == self.entry() || pre[b] != bottom_store()
    }

    /// `pre` solves the equations.
    pub open spec fn is_solution(self, pre: Seq<StoreModel>) -> bool {
        &&& pre.len() == self.body.len()
        &&& forall|b: int| 0 <= b < pre.len() ==> is_total(#[trigger] pre[b])
        &&& store_le(self.init(), pre[self.entry()])
        &&& forall|b: int, k: int|
            0 <= b < pre.len() && self.active(pre, b) && 0 <= k < self.succ(b, pre[b]).len() ==> store_le(
                self.post(b, pre[b]),
                pre[self.index_of(#[trigger] self.succ(b, pre[b])[k])],
            )
    }

    /// `pre` is a solution and lies below every solution.
    pub open spec fn is_least_solution(self, pre: Seq<StoreModel>) -> bool {
        &&& self.is_solution(pre)
        &&& forall|other: Seq<StoreModel>| #[trigger] self.is_solution(other) ==> below(pre, other)
    }

    /// The least solution of the equations.
    pub open spec fn least_solution(self) -> Seq<StoreModel> {
        choose|pre: Seq<StoreModel>| self.is_least_solution(pre)
    }

    /// What a solution publishes: for the id of each block that control
    /// reaches, the store after the block.
    pub open spec fn published(self, pre: Seq<StoreModel>) -> Map<Seq<char>, StoreModel> {
        Map::new(
            |id: Seq<char>| key_present(self.keys(), id) && self.active(pre, self.index_of(id)),
            |id: Seq<char>| self.post(self.index_of(id), pre[self.index_of(id)]),
        )
    }
}

/// The equations for the function named `name` of a program.
pub open spec fn flow_of(program: Program, name: Seq<char>, ctx: ContextModel) -> FlowProblem {
    FlowProblem {
        ctx,
        body: program.function_named(name).body@,
        globals: program.globals@,
        params: program.function_named(name).params@,
    }
}

/// The instructions of a sequence are monotone together, and take a total
/// store to a total store.
pub proof fn lemma_run_insts_monotone(ctx: ContextModel, insts: Seq<Instruction>, a: StoreModel, b: StoreModel)
    requires
        store_le(a, b),
    ensures
        store_le(run_insts(ctx, insts, a), run_insts(ctx, insts, b)),
        is_total(a) ==> is_total(run_insts(ctx, insts, a)),
    decreases insts.len(),
{
    if insts.len() > 0 {
        lemma_run_insts_monotone(ctx, insts.drop_last(), a, b);
        lemma_transfer_monotone(
            ctx,
            insts.last(),
            run_insts(ctx, insts.drop_last(), a),
            run_insts(ctx, insts.drop_last(), b),
        );
        if is_total(a) {
            lemma_transfer_total(ctx, insts.last(), run_insts(ctx, insts.drop_last(), a));
        }
    }
}

/// A terminator is monotone and takes a total store to a total store.
pub proof fn lemma_terminate_monotone(ctx: ContextModel, term: Terminal, a: StoreModel, b: StoreModel)
    requires
        store_le(a, b),
    ensures
        store_le(terminate(ctx, term, a), terminate(ctx, term, b)),
        is_total(a) ==> is_total(terminate(ctx, term, a)),
{
    match term {
        Terminal::CallDirect { lhs, args, .. } => {
            lemma_call_clobber_monotone(ctx, lhs, args@, a, b);
        },
        Terminal::CallIndirect { lhs, args, .. } => {
            lemma_call_clobber_monotone(ctx, lhs, args@, a, b);
        },
        _ => {},
    }
    if is_total(a) {
        let t = terminate(ctx, term, a);
        assert forall|x: Seq<char>| #[trigger] t.contains_key(x) by {
            assert(a.contains_key(x));
        }
    }
}

/// The published store of a block grows with the store on entry, and so does
/// the set of its successors.
pub proof fn lemma_block_monotone(ctx: ContextModel, block: Block, a: StoreModel, b: StoreModel, k: int)
    requires
        store_le(a, b),
        0 <= k < successors(ctx, block, a).len(),
    ensures
        store_le(block_post(ctx, block, a), block_post(ctx, block, b)),
        successors(ctx, block, b).contains(successors(ctx, block, a)[k]),
{
    lemma_run_insts_monotone(ctx, block.insts@, a, b);
    let ma = run_insts(ctx, block.insts@, a);
    let mb = run_insts(ctx, block.insts@, b);
    lemma_terminate_monotone(ctx, block.term, ma, mb);
    let sa = successors(ctx, block, a);
    let sb = successors(ctx, block, b);
    match block.term {
        Terminal::Branch { cond, tt, ff } => {
            lemma_store_le_by_join(ma, mb, cond);
            if sb.len() == 1 {
                assert(sb[0] == sa[k]);
            } else if sb.len() == 2 {
                if sa[k] == tt@ {
                    assert(sb[0] == sa[k]);
                } else {
                    assert(sb[1] == sa[k]);
                }
            }
        },
        _ => {
            assert(sb[k] == sa[k]);
        },
    }
}

/// The published store of a block is monotone in the store on entry, also
/// where the block has no successor.
pub proof fn lemma_block_post_monotone(ctx: ContextModel, block: Block, a: StoreModel, b: StoreModel)
    requires
        store_le(a, b),
    ensures
        store_le(block_post(ctx, block, a), block_post(ctx, block, b)),
        is_total(a) ==> is_total(block_post(ctx, block, a)),
{
    lemma_run_insts_monotone(ctx, block.insts@, a, b);
    lemma_terminate_monotone(
        ctx,
        block.term,
        run_insts(ctx, block.insts@, a),
        run_insts(ctx, block.insts@, b),
    );
}

/// Every successor of a block is named by its terminator.
pub proof fn lemma_successor_is_named(ctx: ContextModel, block: Block, store: StoreModel, k: int)
    requires
        0 <= k < successors(ctx, block, store).len(),
    ensures
        named_targets(block.term).contains(successors(ctx, block, store)[k]),
{
    let s = successors(ctx, block, store);
    let n = named_targets(block.term);
    match block.term {
        Terminal::Branch { cond, tt, ff } => {
            if s[k] == tt@ {
                assert(n[0] == s[k]);
            } else {
                assert(n[1] == s[k]);
            }
        },
        _ => {
            assert(n[k] == s[k]);
        },
    }
}

/// A return has no successor, and a branch on a condition that is `Bottom`
/// has none either; a branch on `Top` has both targets, on the constant 0 the
/// false target only, on any other constant the true target only.
pub proof fn lemma_successors_by_terminator(ctx: ContextModel, block: Block, store: StoreModel)
    ensures
        block.term is Ret ==> successors(ctx, block, store).len() == 0,
        block.term matches Terminal::Branch { cond, tt, ff } ==> {
            let c = resolve(cond, run_insts(ctx, block.insts@, store));
            &&& c is Bottom ==> successors(ctx, block, store) == Seq::<Seq<char>>::empty()
            &&& c is Top ==> successors(ctx, block, store) == seq![tt@, ff@]
            &&& c == IntConstAbsVal::IntConst(0) ==> successors(ctx, block, store) == seq![ff@]
            &&& c is IntConst && c != IntConstAbsVal::IntConst(0) ==> successors(ctx, block, store)
                == seq![tt@]
        },
{
}

} // verus!
