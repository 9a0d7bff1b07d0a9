use constprop::context::global_init;
use constprop::lattice::IntConstAbsVal::{self, Bottom, IntConst, Top};
use constprop::lir::{ArithOp, Block, Function, Instruction, Operand, Program, RelaOp, Terminal, Type, Variable};
use constprop::report::{print_store, report};
use constprop::solver::{analyze, check_body, int_const_analysis, BlockStores};

fn ivar(name: &str) -> Variable {
    Variable { name: name.to_string(), typ: Type::Int, scope: None }
}

fn ptr(name: &str) -> Variable {
    Variable { name: name.to_string(), typ: Type::Pointer(Box::new(Type::Int)), scope: None }
}

fn v(name: &str) -> Operand {
    Operand::Var(ivar(name))
}

fn block(id: &str, insts: Vec<Instruction>, term: Terminal) -> (String, Block) {
    (id.to_string(), Block { id: id.to_string(), insts, term })
}

fn copy(lhs: &str, op: Operand) -> Instruction {
    Instruction::Copy { lhs: ivar(lhs), op }
}

fn add(lhs: &str, a: Operand, b: Operand) -> Instruction {
    Instruction::Arith { lhs: ivar(lhs), aop: ArithOp::Add, op1: a, op2: b }
}

fn jump(target: &str) -> Terminal {
    Terminal::Jump(target.to_string())
}

fn branch(cond: Operand, tt: &str, ff: &str) -> Terminal {
    Terminal::Branch { cond, tt: tt.to_string(), ff: ff.to_string() }
}

fn function(params: Vec<Variable>, body: Vec<(String, Block)>) -> Function {
    Function { id: "f".to_string(), ret_ty: None, params, locals: vec![], body }
}

fn program(globals: Vec<Variable>, params: Vec<Variable>, body: Vec<(String, Block)>) -> Program {
    Program { structs: vec![], globals, functions: vec![("f".to_string(), function(params, body))], externs: vec![] }
}

fn value(stores: &BlockStores, block: &str, name: &str) -> IntConstAbsVal {
    stores.get(block).expect("block was not published").get(name)
}

fn ids(stores: &BlockStores) -> Vec<String> {
    (0..stores.len()).map(|i| stores.block_id_at(i).clone()).collect()
}

#[test]
fn return_has_no_successor() {
    let p = program(
        vec![],
        vec![],
        vec![
            block("entry", vec![copy("x", Operand::CInt(1))], Terminal::Ret(None)),
            block("other", vec![copy("x", Operand::CInt(2))], Terminal::Ret(None)),
        ],
    );
    let stores = analyze(&p, "f").unwrap();
    assert_eq!(ids(&stores), vec!["entry"]);
    assert_eq!(value(&stores, "entry", "x"), IntConst(1));
}

#[test]
fn branch_on_zero_takes_the_false_target() {
    let p = program(
        vec![],
        vec![],
        vec![
            block("entry", vec![copy("c", Operand::CInt(0))], branch(v("c"), "yes", "no")),
            block("yes", vec![], Terminal::Ret(None)),
            block("no", vec![], Terminal::Ret(None)),
        ],
    );
    let stores = analyze(&p, "f").unwrap();
    assert_eq!(ids(&stores), vec!["entry", "no"]);
}

#[test]
fn branch_on_nonzero_takes_the_true_target() {
    for c in [1, -1, 7, i32::MIN] {
        let p = program(
            vec![],
            vec![],
            vec![
                block("entry", vec![], branch(Operand::CInt(c), "yes", "no")),
                block("yes", vec![copy("x", Operand::CInt(1))], Terminal::Ret(None)),
                block("no", vec![], Terminal::Ret(None)),
            ],
        );
        let stores = analyze(&p, "f").unwrap();
        assert_eq!(ids(&stores), vec!["entry"]);
    }
    let p = program(
        vec![],
        vec![ivar("a")],
        vec![
            block("entry", vec![copy("c", Operand::CInt(3))], branch(v("c"), "yes", "no")),
            block("yes", vec![], Terminal::Ret(None)),
            block("no", vec![], Terminal::Ret(None)),
        ],
    );
    assert_eq!(ids(&analyze(&p, "f").unwrap()), vec!["entry", "yes"]);
}

#[test]
fn branch_on_top_takes_both_targets() {
    let p = program(
        vec![],
        vec![ivar("c")],
        vec![
            block("entry", vec![], branch(v("c"), "yes", "no")),
            block("yes", vec![], Terminal::Ret(None)),
            block("no", vec![], Terminal::Ret(None)),
        ],
    );
    assert_eq!(ids(&analyze(&p, "f").unwrap()), vec!["entry", "no", "yes"]);
}

#[test]
fn branch_on_bottom_takes_no_target() {
    let p = program(
        vec![],
        vec![ivar("a")],
        vec![
            block("entry", vec![], branch(v("c"), "yes", "no")),
            block("yes", vec![], Terminal::Ret(None)),
            block("no", vec![], Terminal::Ret(None)),
        ],
    );
    assert_eq!(ids(&analyze(&p, "f").unwrap()), vec!["entry"]);
}

#[test]
fn successor_of_an_empty_store_is_not_reached() {
    let p = program(
        vec![],
        vec![],
        vec![
            block("entry", vec![], jump("next")),
            block("next", vec![copy("x", Operand::CInt(5))], Terminal::Ret(None)),
        ],
    );
    let stores = analyze(&p, "f").unwrap();
    assert_eq!(ids(&stores), vec!["entry"]);
    assert_eq!(print_store(&stores), "entry:\n\n");
}

fn counting_loop() -> Program {
    program(
        vec![],
        vec![],
        vec![
            block("entry", vec![copy("i", Operand::CInt(0)), copy("k", Operand::CInt(4))], jump("head")),
            block(
                "head",
                vec![Instruction::Cmp { lhs: ivar("c"), rop: RelaOp::Less, op1: v("i"), op2: Operand::CInt(10) }],
                branch(v("c"), "body", "exit"),
            ),
            block("body", vec![add("i", v("i"), Operand::CInt(1))], jump("head")),
            block("exit", vec![], Terminal::Ret(Some(v("i")))),
        ],
    )
}

#[test]
fn loop_converges() {
    let stores = analyze(&counting_loop(), "f").unwrap();
    assert_eq!(ids(&stores), vec!["body", "entry", "exit", "head"]);
    assert_eq!(value(&stores, "entry", "i"), IntConst(0));
    assert_eq!(value(&stores, "head", "i"), Top);
    assert_eq!(value(&stores, "head", "c"), Top);
    assert_eq!(value(&stores, "head", "k"), IntConst(4));
    assert_eq!(value(&stores, "body", "i"), Top);
    assert_eq!(value(&stores, "exit", "i"), Top);
    assert_eq!(value(&stores, "exit", "k"), IntConst(4));
}

#[test]
fn self_loop_converges() {
    let p = program(
        vec![],
        vec![],
        vec![block("entry", vec![add("i", v("i"), Operand::CInt(1)), copy("j", Operand::CInt(1))], jump("entry"))],
    );
    let stores = analyze(&p, "f").unwrap();
    assert_eq!(value(&stores, "entry", "i"), Bottom);
    assert_eq!(value(&stores, "entry", "j"), IntConst(1));
}

#[test]
fn report_is_in_order_of_block_ids_and_names() {
    let p = program(
        vec![ivar("g")],
        vec![ivar("c")],
        vec![
            block("entry", vec![copy("b", Operand::CInt(-3))], branch(v("c"), "tt", "ff")),
            block("tt", vec![copy("z", Operand::CInt(10))], jump("end")),
            block("ff", vec![copy("z", Operand::CInt(20)), copy("a", v("nothing"))], jump("end")),
            block("end", vec![], Terminal::Ret(Some(v("z")))),
        ],
    );
    let expected = "end:\nb -> -3\nc -> Top\ng -> Top\nz -> Top\n\n\
                    entry:\nb -> -3\nc -> Top\ng -> Top\n\n\
                    ff:\nb -> -3\nc -> Top\ng -> Top\nz -> 20\n\n\
                    tt:\nb -> -3\nc -> Top\ng -> Top\nz -> 10\n\n";
    assert_eq!(report(&p, "f").unwrap(), expected);
    assert_eq!(print_store(&analyze(&p, "f").unwrap()), expected);
}

#[test]
fn two_runs_give_the_same_report() {
    let p = counting_loop();
    let first = report(&p, "f").unwrap();
    let second = report(&p, "f").unwrap();
    assert_eq!(first, second);
    assert_eq!(
        first,
        "body:\nc -> Top\ni -> Top\nk -> 4\n\nentry:\ni -> 0\nk -> 4\n\n\
         exit:\nc -> Top\ni -> Top\nk -> 4\n\nhead:\nc -> Top\ni -> Top\nk -> 4\n\n"
    );
}

#[test]
fn order_of_blocks_in_the_body_does_not_matter() {
    let mut p = counting_loop();
    let expected = report(&p, "f").unwrap();
    p.functions[0].1.body.reverse();
    assert_eq!(report(&p, "f").unwrap(), expected);
    p.functions[0].1.body.swap(0, 2);
    assert_eq!(report(&p, "f").unwrap(), expected);
}

#[test]
fn a_pass_over_the_result_changes_nothing() {
    let p = counting_loop();
    let ctx = global_init(&p, "f");
    let stores = int_const_analysis(&p, "f", &ctx);
    let body = &p.functions[0].1.body;
    let successors = [("entry", vec!["head"]), ("head", vec!["body", "exit"]), ("body", vec!["head"])];
    for (from, targets) in successors {
        for to in targets {
            let (_, target) = body.iter().find(|(id, _)| id == to).unwrap();
            let mut into = stores.get(from).unwrap().clone();
            for inst in &target.insts {
                into.execute(inst, &ctx);
            }
            let mut published = stores.get(to).unwrap().clone();
            assert!(!published.join(&into));
        }
    }
}

#[test]
fn call_terminator_clobbers_before_publishing() {
    let p = program(
        vec![ivar("g")],
        vec![],
        vec![
            block(
                "entry",
                vec![copy("g", Operand::CInt(1)), copy("x", Operand::CInt(2)), copy("r", Operand::CInt(3))],
                Terminal::CallDirect {
                    lhs: Some(ivar("r")),
                    callee: "h".to_string(),
                    args: vec![],
                    next_bb: "after".to_string(),
                },
            ),
            block(
                "after",
                vec![],
                Terminal::CallIndirect { lhs: None, callee: ptr("fp"), args: vec![v("x")], next_bb: "last".to_string() },
            ),
            block("last", vec![], Terminal::Ret(None)),
        ],
    );
    let stores = analyze(&p, "f").unwrap();
    assert_eq!(value(&stores, "entry", "g"), Top);
    assert_eq!(value(&stores, "entry", "r"), Top);
    assert_eq!(value(&stores, "entry", "x"), IntConst(2));
    assert_eq!(value(&stores, "last", "x"), IntConst(2));
    assert_eq!(ids(&stores), vec!["after", "entry", "last"]);
}

#[test]
fn unknown_function_has_no_result() {
    let p = counting_loop();
    assert!(analyze(&p, "g").is_none());
    assert!(report(&p, "").is_none());
    assert!(p.find_function("g").is_none());
    assert!(p.find_function("f").is_some());
}

#[test]
fn ill_formed_body_has_no_result() {
    let no_entry = vec![block("start", vec![], Terminal::Ret(None))];
    assert!(!check_body(&no_entry));
    assert!(analyze(&program(vec![], vec![], no_entry), "f").is_none());
    let dangling = vec![block("entry", vec![], jump("nowhere"))];
    assert!(!check_body(&dangling));
    assert!(analyze(&program(vec![], vec![], dangling), "f").is_none());
    let dead_dangling = vec![
        block("entry", vec![], Terminal::Ret(None)),
        block("dead", vec![], branch(Operand::CInt(1), "entry", "nowhere")),
    ];
    assert!(!check_body(&dead_dangling));
    assert!(report(&program(vec![], vec![], dead_dangling), "f").is_none());
    assert!(!check_body(&vec![]));
    assert!(check_body(&counting_loop().functions[0].1.body));
}

#[test]
fn first_function_of_a_name_is_analysed() {
    let mut p = counting_loop();
    let other = function(vec![], vec![block("entry", vec![copy("q", Operand::CInt(1))], Terminal::Ret(None))]);
    p.functions.push(("f".to_string(), other));
    assert_eq!(ids(&analyze(&p, "f").unwrap()).len(), 4);
}

#[test]
fn parameters_and_globals_start_unknown() {
    let p = program(
        vec![ivar("g"), ptr("gp")],
        vec![ivar("a"), ptr("b")],
        vec![block("entry", vec![], Terminal::Ret(None))],
    );
    let stores = analyze(&p, "f").unwrap();
    assert_eq!(value(&stores, "entry", "g"), Top);
    assert_eq!(value(&stores, "entry", "a"), Top);
    assert_eq!(value(&stores, "entry", "gp"), Bottom);
    assert_eq!(value(&stores, "entry", "b"), Bottom);
    assert_eq!(report(&p, "f").unwrap(), "entry:\na -> Top\ng -> Top\n\n");
}
