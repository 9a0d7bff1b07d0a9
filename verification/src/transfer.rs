//! The transfer function: what one instruction, or one call, does to an
//! abstract store.

use vstd::prelude::*;
use crate::context::{names_contain, AnalysisContext, ContextModel};
use crate::lattice::{lemma_arith_monotone, lemma_cmp_monotone, lemma_join_is_lub, IntConstAbsVal};
use crate::lir::{Instruction, Operand, Variable};
use crate::store::{is_total, lemma_store_le_by_join, resolve, store_le, AbstractStore, StoreModel};
use crate::text::{compare_names, lemma_lex_lt_irreflexive, NameOrder};

verus! {

/// The operand is a variable whose type is not `Int`.
pub open spec fn is_non_int_variable(operand: Operand) -> bool {
    operand matches Operand::Var(v) && !(v.typ is Int)
}

/// The operand is a variable whose type reaches `Int` through pointers.
pub open spec fn argument_reaches_int(operand: Operand) -> bool {
    operand matches Operand::Var(v) && v.typ.reaches_int_through_pointer()
}

/// Some argument is a variable whose type reaches `Int` through pointers.
pub open spec fn any_arg_reaches_int(args: Seq<Operand>) -> bool {
    exists|i: int| 0 <= i < args.len() && argument_reaches_int(#[trigger] args[i])
}

/// A call with the result variable `lhs` and the arguments `args` makes the
/// value of `x` unknown: `x` is an integer global, or the integer result
/// variable, or, where an argument or a global reaches an integer through
/// pointers, an integer whose address is taken.
pub open spec fn clobbers(ctx: ContextModel, lhs: Option<Variable>, args: Seq<Operand>, x: Seq<char>) -> bool {
    ||| ctx.global_ints.contains(x)
    ||| (lhs matches Some(v) && v.typ is Int && v.name@ == x)
    ||| ((any_arg_reaches_int(args) || ctx.global_ptr_reaches_int) && ctx.addr_taken.contains(x))
}

/// The store after a call.
pub open spec fn call_clobber(
    ctx: ContextModel,
    lhs: Option<Variable>,
    args: Seq<Operand>,
    store: StoreModel,
) -> StoreModel {
    Map::total(
        |x: Seq<char>|
            if clobbers(ctx, lhs, args, x) {
                IntConstAbsVal::Top
            } else {
                store[x]
            },
    )
}

/// The store after one instruction.
pub open spec fn transfer(ctx: ContextModel, inst: Instruction, store: StoreModel) -> StoreModel {
    match inst {
        Instruction::Copy { lhs, op } => if lhs.typ is Int {
            store.insert(lhs.name@, resolve(op, store))
        } else {
            store
        },
        Instruction::Arith { lhs, aop, op1, op2 } => store.insert(
            lhs.name@,
            if is_non_int_variable(op1) || is_non_int_variable(op2) {
                IntConstAbsVal::Top
            } else {
                IntConstAbsVal::arith_spec(resolve(op1, store), resolve(op2, store), aop)
            },
        ),
        Instruction::Cmp { lhs, rop, op1, op2 } => store.insert(
            lhs.name@,
            if is_non_int_variable(op1) || is_non_int_variable(op2) {
                IntConstAbsVal::Top
            } else {
                IntConstAbsVal::cmp_spec(resolve(op1, store), resolve(op2, store), rop)
            },
        ),
        Instruction::Load { lhs, .. } => if lhs.typ is Int {
            store.insert(lhs.name@, IntConstAbsVal::Top)
        } else {
            store
        },
        Instruction::Store { dst, op } => if dst.typ is Int && ctx.addr_taken.contains(dst.name@) {
            store.insert(dst.name@, IntConstAbsVal::join_spec(store[dst.name@], resolve(op, store)))
        } else {
            store
        },
        Instruction::CallExt { lhs, args, .. } => call_clobber(ctx, lhs, args@, store),
        Instruction::AddrOf { .. } => store,
        Instruction::Alloc { .. } => store,
        Instruction::Gep { .. } => store,
        Instruction::Gfp { .. } => store,
    }
}

/// The variable that an instruction assigns to, if it has one.
pub open spec fn assigned_variable(inst: Instruction) -> Option<Variable> {
    match inst {
        Instruction::AddrOf { lhs, .. } => Some(lhs),
        Instruction::Alloc { lhs, .. } => Some(lhs),
        Instruction::Copy { lhs, .. } => Some(lhs),
        Instruction::Gep { lhs, .. } => Some(lhs),
        Instruction::Arith { lhs, .. } => Some(lhs),
        Instruction::Load { lhs, .. } => Some(lhs),
        Instruction::Store { .. } => None,
        Instruction::Gfp { lhs, .. } => Some(lhs),
        Instruction::Cmp { lhs, .. } => Some(lhs),
        Instruction::CallExt { lhs, .. } => lhs,
    }
}

/// The transfer function is monotone: a larger store in gives a larger store
/// out.
pub proof fn lemma_transfer_monotone(ctx: ContextModel, inst: Instruction, a: StoreModel, b: StoreModel)
    requires
        store_le(a, b),
    ensures
        store_le(transfer(ctx, inst, a), transfer(ctx, inst, b)),
{
    let ta = transfer(ctx, inst, a);
    let tb = transfer(ctx, inst, b);
    assert forall|x: Seq<char>| #[trigger] ta[x].le(tb[x]) by {
        assert(a[x].le(b[x]));
        match inst {
            Instruction::Copy { lhs, op } => {
                lemma_store_le_by_join(a, b, op);
            },
            Instruction::Arith { lhs, aop, op1, op2 } => {
                lemma_store_le_by_join(a, b, op1);
                lemma_store_le_by_join(a, b, op2);
                lemma_arith_monotone(resolve(op1, a), resolve(op2, a), resolve(op1, b), resolve(op2, b), aop);
            },
            Instruction::Cmp { lhs, rop, op1, op2 } => {
                lemma_store_le_by_join(a, b, op1);
                lemma_store_le_by_join(a, b, op2);
                lemma_cmp_monotone(resolve(op1, a), resolve(op2, a), resolve(op1, b), resolve(op2, b), rop);
            },
            Instruction::Store { dst, op } => {
                lemma_store_le_by_join(a, b, op);
                assert(a[dst.name@].le(b[dst.name@]));
                lemma_join_is_lub(
                    a[dst.name@],
                    resolve(op, a),
                    IntConstAbsVal::join_spec(b[dst.name@], resolve(op, b)),
                );
                lemma_join_is_lub(b[dst.name@], resolve(op, b), IntConstAbsVal::Top);
            },
            _ => {},
        }
    }
}

/// A call is monotone in the store, too.
pub proof fn lemma_call_clobber_monotone(
    ctx: ContextModel,
    lhs: Option<Variable>,
    args: Seq<Operand>,
    a: StoreModel,
    b: StoreModel,
)
    requires
        store_le(a, b),
    ensures
        store_le(call_clobber(ctx, lhs, args, a), call_clobber(ctx, lhs, args, b)),
{
    let ca = call_clobber(ctx, lhs, args, a);
    let cb = call_clobber(ctx, lhs, args, b);
    assert forall|x: Seq<char>| #[trigger] ca[x].le(cb[x]) by {
        assert(a[x].le(b[x]));
    }
}

/// An instruction that is no call and assigns to a variable whose type is not
/// `Int` leaves the value of every other name as it was; a copy or a load
/// into such a variable, and an instruction that computes an address,
/// leaves the whole store as it was.
pub proof fn lemma_non_int_target_keeps_store(ctx: ContextModel, inst: Instruction, store: StoreModel, x: Seq<char>)
    requires
        !(inst is CallExt),
        assigned_variable(inst) matches Some(lhs) && !(lhs.typ is Int),
    ensures
        x != assigned_variable(inst)->0.name@ ==> transfer(ctx, inst, store)[x] == store[x],
        !(inst is Arith) && !(inst is Cmp) ==> transfer(ctx, inst, store) == store,
{
}

/// An instruction takes a total store to a total store.
pub proof fn lemma_transfer_total(ctx: ContextModel, inst: Instruction, store: StoreModel)
    requires
        is_total(store),
    ensures
        is_total(transfer(ctx, inst, store)),
{
    let t = transfer(ctx, inst, store);
    assert forall|x: Seq<char>| #[trigger] t.contains_key(x) by {
        assert(store.contains_key(x));
    }
}

/// Whether `name` is among `names`.
pub fn contains_name(names: &Vec<String>, name: &str) -> (r: bool)
    ensures
        r == names_contain(names@, name@),
{
    let mut i: usize = 0;
    while i < names.len()
        invariant
            i <= names.len(),
            forall|j: int| 0 <= j < i ==> (#[trigger] names@[j])@ != name@,
        decreases names.len() - i,
    {
        match compare_names(names[i].as_str(), name) {
            NameOrder::Same => {
                return true;
            },
            _ => {
                proof {
                    lemma_lex_lt_irreflexive(name@);
                }
            },
        }
        i += 1;
    }
    false
}

/// Binds every name of the list to `Top`.
pub fn set_all_top(store: &mut AbstractStore, names: &Vec<String>)
    ensures
        final(store)@ == Map::total(
            |x: Seq<char>|
                if names_contain(names@, x) {
                    IntConstAbsVal::Top
                } else {
                    old(store)@[x]
                },
        ),
        final(store).extends(old(store)),
{
    let ghost before = store@;
    let mut i: usize = 0;
    while i < names.len()
        invariant
            i <= names.len(),
            store.extends(old(store)),
            forall|x: Seq<char>|
                #![trigger store@[x]]
                store@.contains_key(x) && store@[x] == if names_contain(names@.take(i as int), x) {
                    IntConstAbsVal::Top
                } else {
                    before[x]
                },
        decreases names.len() - i,
    {
        let ghost prev = store@;
        store.insert(names[i].clone(), IntConstAbsVal::Top);
        proof {
            let t0 = names@.take(i as int);
            let t1 = names@.take(i + 1);
            assert forall|x: Seq<char>|
                #![trigger store@[x]]
                store@.contains_key(x) && store@[x] == if names_contain(t1, x) {
                    IntConstAbsVal::Top
                } else {
                    before[x]
                } by {
                assert(prev.contains_key(x) && prev[x] == if names_contain(t0, x) {
                    IntConstAbsVal::Top
                } else {
                    before[x]
                });
                if names_contain(t0, x) {
                    let j = choose|j: int| 0 <= j < t0.len() && (#[trigger] t0[j])@ == x;
                    assert(t1[j]@ == x);
                }
                if names_contain(t1, x) {
                    let j = choose|j: int| 0 <= j < t1.len() && (#[trigger] t1[j])@ == x;
                    if j < i {
                        assert(t0[j]@ == x);
                    }
                }
                if x == names@[i as int]@ {
                    assert(t1[i as int]@ == x);
                }
            }
        }
        i += 1;
    }
    proof {
        assert(names@.take(names@.len() as int) =~= names@);
        assert(store@ =~= Map::total(
            |x: Seq<char>|
                if names_contain(names@, x) {
                    IntConstAbsVal::Top
                } else {
                    before[x]
                },
        ));
    }
}

/// Whether some argument is a variable whose type reaches `Int` through
/// pointers.
pub fn some_arg_reaches_int(args: &Vec<Operand>) -> (r: bool)
    ensures
        r == any_arg_reaches_int(args@),
{
    let mut i: usize = 0;
    while i < args.len()
        invariant
            i <= args.len(),
            forall|j: int| 0 <= j < i ==> !argument_reaches_int(#[trigger] args@[j]),
        decreases args.len() - i,
    {
        match &args[i] {
            Operand::Var(v) => {
                if v.typ.is_pointer_to_int() {
                    return true;
                }
            },
            Operand::CInt(_) => {},
        }
        i += 1;
    }
    false
}

/// Applies the effect of a call to the store: integer globals, an integer
/// result variable and, where pointers may reach them, the integers whose
/// address is taken all become unknown.
pub fn solve_call(lhs: &Option<Variable>, args: &Vec<Operand>, store: &mut AbstractStore, ctx: &AnalysisContext)
    ensures
        final(store)@ == call_clobber(ctx@, *lhs, args@, old(store)@),
        final(store).extends(old(store)),
{
    set_all_top(store, &ctx.global_ints);
    if let Some(v) = lhs {
        if v.typ.is_int() {
            store.insert(v.name.clone(), IntConstAbsVal::Top);
        }
    }
    let reaches = some_arg_reaches_int(args);
    if reaches || ctx.global_ptr_reaches_int {
        set_all_top(store, &ctx.addr_taken_ints);
    }
    assert(store@ =~= call_clobber(ctx@, *lhs, args@, old(store)@));
}

/// Whether the operand is a variable whose type is not `Int`.
fn operand_is_non_int_variable(operand: &Operand) -> (r: bool)
    ensures
        r == is_non_int_variable(*operand),
{
    match operand {
        Operand::Var(v) => !v.typ.is_int(),
        Operand::CInt(_) => false,
    }
}

impl AbstractStore {
    /// Applies one instruction to the store.
    pub fn execute(&mut self, inst: &Instruction, ctx: &AnalysisContext)
        ensures
            final(self)@ == transfer(ctx@, *inst, old(self)@),
            final(self).extends(old(self)),
    {
        match inst {
            Instruction::Copy { lhs, op } => {
                if !lhs.typ.is_int() {
                    return ;
                }
                let value = self.resolve_operand(op);
                self.insert(lhs.name.clone(), value);
            },
            Instruction::Arith { lhs, aop, op1, op2 } => {
                if operand_is_non_int_variable(op1) || operand_is_non_int_variable(op2) {
                    self.insert(lhs.name.clone(), IntConstAbsVal::Top);
                } else {
                    let v1 = self.resolve_operand(op1);
                    let v2 = self.resolve_operand(op2);
                    let result = IntConstAbsVal::arith(&v1, &v2, aop);
                    self.insert(lhs.name.clone(), result);
                }
            },
            Instruction::Cmp { lhs, rop, op1, op2 } => {
                if operand_is_non_int_variable(op1) || operand_is_non_int_variable(op2) {
                    self.insert(lhs.name.clone(), IntConstAbsVal::Top);
                } else {
                    let v1 = self.resolve_operand(op1);
                    let v2 = self.resolve_operand(op2);
                    let result = IntConstAbsVal::cmp(&v1, &v2, rop);
                    self.insert(lhs.name.clone(), result);
                }
            },
            Instruction::Load { lhs, .. } => {
                if !lhs.typ.is_int() {
                    return ;
                }
                self.insert(lhs.name.clone(), IntConstAbsVal::Top);
            },
            Instruction::Store { dst, op } => {
                if !dst.typ.is_int() {
                    return ;
                }
                if contains_name(&ctx.addr_taken_ints, dst.name.as_str()) {
                    let value = self.resolve_operand(op);
                    let current = self.get(dst.name.as_str());
                    self.insert(dst.name.clone(), IntConstAbsVal::join(&current, &value));
                }
            },
            Instruction::CallExt { lhs, args, .. } => {
                solve_call(lhs, args, self, ctx);
            },
            Instruction::AddrOf { .. } => {},
            Instruction::Alloc { .. } => {},
            Instruction::Gep { .. } => {},
            Instruction::Gfp { .. } => {},
        }
    }
}

} // verus!
