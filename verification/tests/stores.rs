use constprop::context::AnalysisContext;
use constprop::lattice::IntConstAbsVal::{self, Bottom, IntConst, Top};
use constprop::lir::{ArithOp, Instruction, Operand, RelaOp, Type, Variable};
use constprop::store::AbstractStore;
use constprop::transfer::solve_call;

fn typed(name: &str, typ: Type) -> Variable {
    Variable { name: name.to_string(), typ, scope: None }
}

fn ivar(name: &str) -> Variable {
    typed(name, Type::Int)
}

fn ptr(name: &str) -> Variable {
    typed(name, Type::Pointer(Box::new(Type::Int)))
}

fn ptr_ptr(name: &str) -> Variable {
    typed(name, Type::Pointer(Box::new(Type::Pointer(Box::new(Type::Int)))))
}

fn struct_ptr(name: &str) -> Variable {
    typed(name, Type::Pointer(Box::new(Type::Struct("s".to_string()))))
}

fn store_of(bindings: &[(&str, IntConstAbsVal)]) -> AbstractStore {
    let mut s = AbstractStore::new();
    for (name, value) in bindings {
        s.insert(name.to_string(), *value);
    }
    s
}

fn no_context() -> AnalysisContext {
    AnalysisContext { global_ints: vec![], addr_taken_ints: vec![], global_ptr_reaches_int: false }
}

fn context(globals: &[&str], taken: &[&str], flag: bool) -> AnalysisContext {
    AnalysisContext {
        global_ints: globals.iter().map(|s| s.to_string()).collect(),
        addr_taken_ints: taken.iter().map(|s| s.to_string()).collect(),
        global_ptr_reaches_int: flag,
    }
}

fn le(a: IntConstAbsVal, b: IntConstAbsVal) -> bool {
    a == Bottom || b == Top || a == b
}

const NAMES: [&str; 6] = ["a", "b", "c", "g", "p", "zz"];

fn store_le(a: &AbstractStore, b: &AbstractStore) -> bool {
    NAMES.iter().all(|n| le(a.get(n), b.get(n)))
}

fn same(a: &AbstractStore, b: &AbstractStore) -> bool {
    NAMES.iter().all(|n| a.get(n) == b.get(n))
}

#[test]
fn absent_name_is_bottom() {
    let s = AbstractStore::new();
    assert_eq!(s.get("x"), Bottom);
    assert_eq!(s.len(), 0);
    let s = store_of(&[("x", IntConst(1))]);
    assert_eq!(s.get("y"), Bottom);
    assert_eq!(s.get(""), Bottom);
    assert_eq!(s.get("x"), IntConst(1));
}

#[test]
fn insert_replaces_the_binding() {
    let mut s = store_of(&[("x", IntConst(1)), ("y", Top)]);
    s.insert("x".to_string(), IntConst(2));
    assert_eq!(s.get("x"), IntConst(2));
    assert_eq!(s.get("y"), Top);
    assert_eq!(s.len(), 2);
    s.insert("x".to_string(), Bottom);
    assert_eq!(s.get("x"), Bottom);
}

#[test]
fn bindings_are_kept_in_order_of_their_names() {
    let s = store_of(&[("m", IntConst(1)), ("b", IntConst(2)), ("z", IntConst(3)), ("ba", IntConst(4)), ("", Top)]);
    let names: Vec<String> = (0..s.len()).map(|i| s.name_at(i).clone()).collect();
    assert_eq!(names, vec!["", "b", "ba", "m", "z"]);
    assert_eq!(s.value_at(2), IntConst(4));
}

#[test]
fn join_is_pointwise_and_reports_change() {
    let mut s = store_of(&[("a", IntConst(1)), ("b", IntConst(2)), ("c", Top)]);
    let t = store_of(&[("a", IntConst(1)), ("b", IntConst(3)), ("g", IntConst(9))]);
    assert!(s.join(&t));
    assert_eq!(s.get("a"), IntConst(1));
    assert_eq!(s.get("b"), Top);
    assert_eq!(s.get("c"), Top);
    assert_eq!(s.get("g"), IntConst(9));
    assert!(!s.join(&t));
}

#[test]
fn join_without_effect_reports_no_change() {
    let mut s = store_of(&[("a", IntConst(1)), ("b", Top)]);
    assert!(!s.join(&AbstractStore::new()));
    assert!(!s.join(&store_of(&[("a", Bottom), ("zz", Bottom)])));
    assert!(!s.join(&store_of(&[("a", IntConst(1)), ("b", IntConst(5))])));
    let copy = s.clone();
    assert!(!s.join(&copy));
    let mut empty = AbstractStore::new();
    assert!(!empty.join(&store_of(&[("a", Bottom)])));
    assert!(empty.join(&store_of(&[("a", IntConst(0))])));
}

#[test]
fn join_of_stores_is_least_upper_bound_on_samples() {
    let values = [Bottom, IntConst(1), IntConst(2), Top];
    let mut stores = vec![];
    for x in values {
        for y in values {
            stores.push(store_of(&[("a", x), ("b", y)]));
        }
    }
    for s in &stores {
        for t in &stores {
            let mut j = s.clone();
            j.join(t);
            assert!(store_le(s, &j) && store_le(t, &j));
            let mut k = t.clone();
            k.join(s);
            assert!(same(&j, &k));
            for u in &stores {
                if store_le(s, u) && store_le(t, u) {
                    assert!(store_le(&j, u));
                }
            }
        }
    }
}

#[test]
fn clone_keeps_the_bindings() {
    let s = store_of(&[("a", IntConst(1)), ("b", Top), ("c", Bottom)]);
    let mut t = s.clone();
    assert!(same(&s, &t));
    t.insert("a".to_string(), Top);
    assert_eq!(s.get("a"), IntConst(1));
}

#[test]
fn operands_resolve() {
    let s = store_of(&[("a", IntConst(4))]);
    assert_eq!(s.resolve_operand(&Operand::CInt(-3)), IntConst(-3));
    assert_eq!(s.resolve_operand(&Operand::Var(ivar("a"))), IntConst(4));
    assert_eq!(s.resolve_operand(&Operand::Var(ivar("b"))), Bottom);
    assert_eq!(s.resolve_operand(&Operand::Var(ptr("a"))), IntConst(4));
}

#[test]
fn copy_binds_an_int_target_only() {
    let mut s = store_of(&[("a", IntConst(4))]);
    s.execute(&Instruction::Copy { lhs: ivar("b"), op: Operand::Var(ivar("a")) }, &no_context());
    assert_eq!(s.get("b"), IntConst(4));
    s.execute(&Instruction::Copy { lhs: ptr("c"), op: Operand::CInt(1) }, &no_context());
    assert_eq!(s.get("c"), Bottom);
    s.execute(&Instruction::Copy { lhs: ivar("b"), op: Operand::Var(ivar("zz")) }, &no_context());
    assert_eq!(s.get("b"), Bottom);
}

#[test]
fn arith_and_cmp_bind_the_target() {
    let mut s = store_of(&[("a", IntConst(4)), ("b", IntConst(6))]);
    let ctx = no_context();
    s.execute(
        &Instruction::Arith {
            lhs: ivar("c"),
            aop: ArithOp::Multiply,
            op1: Operand::Var(ivar("a")),
            op2: Operand::Var(ivar("b")),
        },
        &ctx,
    );
    assert_eq!(s.get("c"), IntConst(24));
    s.execute(
        &Instruction::Cmp { lhs: ivar("g"), rop: RelaOp::Less, op1: Operand::Var(ivar("a")), op2: Operand::CInt(5) },
        &ctx,
    );
    assert_eq!(s.get("g"), IntConst(1));
    s.execute(
        &Instruction::Arith { lhs: ivar("c"), aop: ArithOp::Add, op1: Operand::Var(ptr("a")), op2: Operand::CInt(5) },
        &ctx,
    );
    assert_eq!(s.get("c"), Top);
    s.execute(
        &Instruction::Cmp { lhs: ivar("g"), rop: RelaOp::Eq, op1: Operand::CInt(5), op2: Operand::Var(ptr("q")) },
        &ctx,
    );
    assert_eq!(s.get("g"), Top);
    s.execute(
        &Instruction::Arith { lhs: ivar("c"), aop: ArithOp::Add, op1: Operand::Var(ivar("zz")), op2: Operand::CInt(5) },
        &ctx,
    );
    assert_eq!(s.get("c"), Bottom);
}

#[test]
fn load_makes_an_int_target_unknown() {
    let mut s = store_of(&[("a", IntConst(4))]);
    s.execute(&Instruction::Load { lhs: ivar("a"), src: ptr("p") }, &no_context());
    assert_eq!(s.get("a"), Top);
    s.execute(&Instruction::Load { lhs: ptr("b"), src: ptr_ptr("p") }, &no_context());
    assert_eq!(s.get("b"), Bottom);
}

#[test]
fn store_joins_into_an_address_taken_int_of_the_same_name() {
    let ctx = context(&[], &["p"], false);
    let mut s = store_of(&[("p", IntConst(4)), ("a", IntConst(4))]);
    s.execute(&Instruction::Store { dst: ivar("p"), op: Operand::CInt(4) }, &ctx);
    assert_eq!(s.get("p"), IntConst(4));
    s.execute(&Instruction::Store { dst: ivar("p"), op: Operand::CInt(5) }, &ctx);
    assert_eq!(s.get("p"), Top);
    s.execute(&Instruction::Store { dst: ivar("a"), op: Operand::CInt(5) }, &ctx);
    assert_eq!(s.get("a"), IntConst(4));
    let mut s = store_of(&[("p", IntConst(4))]);
    s.execute(&Instruction::Store { dst: ptr("p"), op: Operand::CInt(5) }, &ctx);
    assert_eq!(s.get("p"), IntConst(4));
    let mut s = AbstractStore::new();
    s.execute(&Instruction::Store { dst: ivar("p"), op: Operand::CInt(5) }, &ctx);
    assert_eq!(s.get("p"), IntConst(5));
}

#[test]
fn address_computations_leave_the_store_alone() {
    let before = store_of(&[("a", IntConst(4)), ("b", Top)]);
    for inst in [
        Instruction::AddrOf { lhs: ptr("a"), rhs: ivar("b") },
        Instruction::Alloc { lhs: ptr("a"), num: Operand::CInt(1), id: ivar("b") },
        Instruction::Gep { lhs: ptr("a"), src: ptr("b"), idx: Operand::CInt(0) },
        Instruction::Gfp { lhs: ptr("a"), src: struct_ptr("b"), field: ivar("c") },
    ] {
        let mut s = before.clone();
        s.execute(&inst, &context(&["a"], &["b"], true));
        assert!(same(&s, &before));
    }
}

#[test]
fn non_int_target_keeps_the_other_bindings() {
    let before = store_of(&[("a", IntConst(4)), ("b", Top), ("c", IntConst(1))]);
    let ctx = context(&["g"], &["p"], true);
    for inst in [
        Instruction::Copy { lhs: ptr("c"), op: Operand::CInt(9) },
        Instruction::Load { lhs: ptr("c"), src: ptr_ptr("p") },
        Instruction::Arith { lhs: ptr("c"), aop: ArithOp::Add, op1: Operand::CInt(1), op2: Operand::CInt(2) },
        Instruction::Cmp { lhs: ptr("c"), rop: RelaOp::Eq, op1: Operand::CInt(1), op2: Operand::CInt(2) },
    ] {
        let mut s = before.clone();
        s.execute(&inst, &ctx);
        assert_eq!(s.get("a"), IntConst(4));
        assert_eq!(s.get("b"), Top);
        assert_eq!(s.get("g"), Bottom);
        assert_eq!(s.get("p"), Bottom);
    }
    let mut s = before.clone();
    s.execute(&Instruction::Copy { lhs: ptr("c"), op: Operand::CInt(9) }, &ctx);
    assert_eq!(s.get("c"), IntConst(1));
    let mut s = before.clone();
    s.execute(
        &Instruction::Arith { lhs: ptr("c"), aop: ArithOp::Add, op1: Operand::CInt(1), op2: Operand::CInt(2) },
        &ctx,
    );
    assert_eq!(s.get("c"), IntConst(3));
}

#[test]
fn call_clobbers_by_the_context() {
    let before = store_of(&[("g", IntConst(5)), ("p", IntConst(9)), ("a", IntConst(1)), ("b", IntConst(2))]);
    let mut s = before.clone();
    solve_call(&Some(ivar("a")), &vec![], &mut s, &context(&["g"], &["p"], false));
    assert_eq!((s.get("g"), s.get("p"), s.get("a"), s.get("b")), (Top, IntConst(9), Top, IntConst(2)));
    let mut s = before.clone();
    solve_call(&Some(ptr("a")), &vec![], &mut s, &context(&["g"], &["p"], true));
    assert_eq!((s.get("g"), s.get("p"), s.get("a"), s.get("b")), (Top, Top, IntConst(1), IntConst(2)));
    let mut s = before.clone();
    solve_call(&None, &vec![Operand::CInt(1), Operand::Var(ptr_ptr("q"))], &mut s, &context(&[], &["p"], false));
    assert_eq!((s.get("g"), s.get("p"), s.get("a"), s.get("b")), (IntConst(5), Top, IntConst(1), IntConst(2)));
    let mut s = before.clone();
    solve_call(
        &None,
        &vec![Operand::Var(ivar("q")), Operand::Var(struct_ptr("r"))],
        &mut s,
        &context(&[], &["p"], false),
    );
    assert!(same(&s, &before));
    let mut s = before.clone();
    s.execute(
        &Instruction::CallExt { lhs: Some(ivar("b")), ext_callee: "f".to_string(), args: vec![] },
        &context(&["g", "zz"], &[], false),
    );
    assert_eq!((s.get("g"), s.get("p"), s.get("b"), s.get("zz")), (Top, IntConst(9), Top, Top));
}

#[test]
fn transfer_is_monotone_on_samples() {
    let values = [Bottom, IntConst(0), IntConst(3), Top];
    let ctx = context(&["g"], &["p"], false);
    let insts = vec![
        Instruction::Copy { lhs: ivar("c"), op: Operand::Var(ivar("a")) },
        Instruction::Arith { lhs: ivar("c"), aop: ArithOp::Divide, op1: Operand::Var(ivar("a")), op2: Operand::Var(ivar("b")) },
        Instruction::Cmp { lhs: ivar("c"), rop: RelaOp::LessEq, op1: Operand::Var(ivar("a")), op2: Operand::Var(ivar("b")) },
        Instruction::Load { lhs: ivar("a"), src: ptr("q") },
        Instruction::Store { dst: ivar("p"), op: Operand::Var(ivar("a")) },
        Instruction::CallExt { lhs: Some(ivar("a")), ext_callee: "f".to_string(), args: vec![Operand::Var(ptr("q"))] },
    ];
    let mut stores = vec![];
    for x in values {
        for y in values {
            for z in values {
                stores.push(store_of(&[("a", x), ("b", y), ("p", z)]));
            }
        }
    }
    for s in &stores {
        for t in &stores {
            if store_le(s, t) {
                for inst in &insts {
                    let mut s_after = s.clone();
                    let mut t_after = t.clone();
                    s_after.execute(inst, &ctx);
                    t_after.execute(inst, &ctx);
                    assert!(store_le(&s_after, &t_after));
                }
            }
        }
    }
}

#[test]
fn bound_names_only_grow() {
    let mut s = store_of(&[("a", IntConst(1))]);
    assert_eq!(s.len(), 1);
    s.join(&store_of(&[("zz", Bottom), ("a", IntConst(1))]));
    assert_eq!(s.len(), 2);
    assert_eq!(s.get("zz"), Bottom);
    s.insert("a".to_string(), Bottom);
    assert_eq!(s.len(), 2);
    s.join(&AbstractStore::new());
    assert_eq!(s.len(), 2);
    s.execute(&Instruction::Copy { lhs: ivar("b"), op: Operand::Var(ivar("nothing")) }, &no_context());
    assert_eq!(s.len(), 3);
    let names: Vec<String> = (0..s.len()).map(|i| s.name_at(i).clone()).collect();
    assert_eq!(names, vec!["a", "b", "zz"]);
}
