use constprop::context::{collect_addr_taken, collect_int_names, global_init};
use constprop::lir::{find_entry, Block, Field, Function, FunctionType, Instruction, Operand, Program, Terminal, Type, Variable};
use constprop::namemap::NameMap;
use constprop::stats::Stats;
use constprop::text::{compare_names, to_chars, NameOrder};

fn typed(name: &str, typ: Type) -> Variable {
    Variable { name: name.to_string(), typ, scope: None }
}

fn pointer(t: Type) -> Type {
    Type::Pointer(Box::new(t))
}

fn signature() -> Type {
    Type::Function(Box::new(FunctionType { ret_ty: Some(Type::Int), param_ty: vec![Type::Int, pointer(Type::Int)] }))
}

fn block(id: &str, insts: Vec<Instruction>) -> (String, Block) {
    (id.to_string(), Block { id: id.to_string(), insts, term: Terminal::Ret(None) })
}

fn addr_of(rhs: Variable) -> Instruction {
    Instruction::AddrOf { lhs: typed("t", pointer(Type::Int)), rhs }
}

#[test]
fn pointer_chains_reach_int() {
    assert!(!Type::Int.is_pointer_to_int());
    assert!(pointer(Type::Int).is_pointer_to_int());
    assert!(pointer(pointer(Type::Int)).is_pointer_to_int());
    assert!(pointer(pointer(pointer(Type::Int))).is_pointer_to_int());
    assert!(!Type::Struct("s".to_string()).is_pointer_to_int());
    assert!(!pointer(Type::Struct("s".to_string())).is_pointer_to_int());
    assert!(!pointer(pointer(Type::Struct("s".to_string()))).is_pointer_to_int());
    assert!(!signature().is_pointer_to_int());
    assert!(!pointer(signature()).is_pointer_to_int());
}

#[test]
fn helper_counts_a_pointer_already_seen() {
    assert!(Type::Int.is_pointer_to_int_helper(true));
    assert!(!Type::Int.is_pointer_to_int_helper(false));
    assert!(pointer(Type::Int).is_pointer_to_int_helper(false));
    assert!(pointer(Type::Int).is_pointer_to_int_helper(true));
    assert!(!Type::Struct("s".to_string()).is_pointer_to_int_helper(true));
    assert!(!pointer(Type::Struct("s".to_string())).is_pointer_to_int_helper(true));
    assert!(!signature().is_pointer_to_int_helper(true));
    assert!(Type::Int.is_int());
    assert!(!pointer(Type::Int).is_int());
}

#[test]
fn types_copy_and_compare() {
    let t = pointer(signature());
    assert_eq!(t.clone(), t);
    assert_ne!(t, pointer(Type::Int));
    let v = typed("x", t);
    assert_eq!(v.clone(), v);
}

#[test]
fn new_program_is_empty() {
    let p = Program::new();
    assert!(p.structs.is_empty() && p.globals.is_empty() && p.functions.is_empty() && p.externs.is_empty());
    assert_eq!(p.get_stats(), Stats::new());
    assert!(p.find_function("main").is_none());
}

#[test]
fn lookup_finds_the_first_entry() {
    let entries = vec![("a".to_string(), 1), ("b".to_string(), 2), ("a".to_string(), 3)];
    assert_eq!(find_entry(&entries, "a"), Some(0));
    assert_eq!(find_entry(&entries, "b"), Some(1));
    assert_eq!(find_entry(&entries, "c"), None);
    assert_eq!(find_entry(&entries, ""), None);
    assert_eq!(find_entry(&Vec::<(String, u8)>::new(), "a"), None);
}

#[test]
fn names_compare_lexicographically() {
    assert_eq!(compare_names("", ""), NameOrder::Same);
    assert_eq!(compare_names("", "a"), NameOrder::Before);
    assert_eq!(compare_names("a", ""), NameOrder::After);
    assert_eq!(compare_names("abc", "abc"), NameOrder::Same);
    assert_eq!(compare_names("ab", "abc"), NameOrder::Before);
    assert_eq!(compare_names("abd", "abc"), NameOrder::After);
    assert_eq!(compare_names("B", "a"), NameOrder::Before);
    assert_eq!(compare_names("bb10", "bb2"), NameOrder::Before);
    assert_eq!(compare_names("z", "\u{e9}"), NameOrder::Before);
    assert_eq!(compare_names("\u{10000}", "\u{ffff}"), NameOrder::After);
    let mut names = vec!["tt", "entry", "ff", "end", "bb10", "bb2", "_x", "Z", "\u{4e2d}"];
    let mut by_std = names.clone();
    by_std.sort();
    names.sort_by(|a, b| match compare_names(a, b) {
        NameOrder::Before => std::cmp::Ordering::Less,
        NameOrder::Same => std::cmp::Ordering::Equal,
        NameOrder::After => std::cmp::Ordering::Greater,
    });
    assert_eq!(names, by_std);
    assert_eq!(to_chars("a\u{e9}b"), vec!['a', '\u{e9}', 'b']);
}

#[test]
fn name_map_keeps_one_binding_per_name() {
    let mut m: NameMap<u32> = NameMap::new();
    assert_eq!(m.len(), 0);
    assert_eq!(m.get("a"), None);
    m.insert("b".to_string(), 2);
    m.insert("a".to_string(), 1);
    m.insert("c".to_string(), 3);
    m.insert("b".to_string(), 20);
    assert_eq!(m.len(), 3);
    assert_eq!(m.get("a"), Some(&1));
    assert_eq!(m.get("b"), Some(&20));
    assert_eq!(m.get("c"), Some(&3));
    assert_eq!(m.get("bb"), None);
    assert_eq!((m.name_at(0).as_str(), *m.value_at(0)), ("a", 1));
    assert_eq!((m.name_at(1).as_str(), *m.value_at(1)), ("b", 20));
    assert_eq!((m.name_at(2).as_str(), *m.value_at(2)), ("c", 3));
}

fn sample_program() -> Program {
    let body = vec![
        block("entry", vec![addr_of(typed("p", Type::Int)), addr_of(typed("s", Type::Struct("s".to_string())))]),
        block("b", vec![addr_of(typed("a", Type::Int)), addr_of(typed("p", Type::Int))]),
        block("c", vec![Instruction::Copy { lhs: typed("q", Type::Int), op: Operand::CInt(1) }]),
    ];
    let f = Function {
        id: "f".to_string(),
        ret_ty: Some(Type::Int),
        params: vec![typed("n", Type::Int)],
        locals: vec![
            typed("p", Type::Int),
            typed("a", Type::Int),
            typed("s", Type::Struct("s".to_string())),
            typed("pi", pointer(Type::Int)),
            typed("ps", pointer(Type::Struct("s".to_string()))),
            typed("pf", pointer(signature())),
            typed("pp", pointer(pointer(Type::Int))),
            typed("fn", signature()),
        ],
        body,
    };
    let g = Function {
        id: "g".to_string(),
        ret_ty: None,
        params: vec![typed("x", Type::Int), typed("y", pointer(Type::Int))],
        locals: vec![typed("pp2", pointer(pointer(Type::Struct("s".to_string()))))],
        body: vec![block("entry", vec![addr_of(typed("zz", Type::Int))])],
    };
    Program {
        structs: vec![
            ("s".to_string(), vec![Field { name: "a".to_string(), typ: Type::Int }, Field { name: "b".to_string(), typ: Type::Int }]),
            ("t".to_string(), vec![Field { name: "c".to_string(), typ: pointer(Type::Int) }]),
        ],
        globals: vec![
            typed("g2", Type::Int),
            typed("gs", Type::Struct("t".to_string())),
            typed("g1", Type::Int),
            typed("gf", pointer(signature())),
        ],
        functions: vec![("f".to_string(), f), ("g".to_string(), g)],
        externs: vec![("ext".to_string(), signature())],
    }
}

#[test]
fn stats_count_the_parts_of_a_program() {
    let expected = Stats {
        field_num: 3,
        function_returning_value_num: 1,
        func_param_num: 3,
        local_var_num: 9,
        block_num: 4,
        instr_num: 6,
        terminal_num: 4,
        int_type_num: 4,
        struct_type_num: 2,
        pointer_to_int_num: 1,
        pointer_to_struct_num: 1,
        pointer_to_function_num: 2,
        pointer_to_pointer_num: 2,
    };
    assert_eq!(sample_program().get_stats(), expected);
}

#[test]
fn context_collects_the_facts_of_a_function() {
    let mut p = sample_program();
    let ctx = global_init(&p, "f");
    assert_eq!(ctx.global_ints, vec!["g2", "g1"]);
    assert_eq!(ctx.addr_taken_ints, vec!["a", "p"]);
    assert!(!ctx.global_ptr_reaches_int);
    let ctx = global_init(&p, "g");
    assert_eq!(ctx.addr_taken_ints, vec!["zz"]);
    p.globals.push(typed("gp", pointer(pointer(Type::Int))));
    assert!(global_init(&p, "f").global_ptr_reaches_int);
    assert_eq!(collect_int_names(&p.globals), vec!["g2", "g1"]);
    assert!(collect_addr_taken(&vec![]).is_empty());
}

fn lines(text: &[&str]) -> Vec<String> {
    text.iter().map(|s| s.to_string()).collect()
}

#[test]
fn counts_are_read_from_lines() {
    let text = lines(&[
        "Number of fields across all struct types: 3",
        "Number of functions that return a value: 1",
        "Number of function parameters: 3",
        "Number of local variables: 9",
        "Number of basic blocks: 4",
        "Number of instructions: 6",
        "Number of terminals: 4",
        "Number of locals and globals with int type: 4",
        "Number of locals and globals with struct type: 2",
        "Number of locals and globals with pointer to int type: 1",
        "Number of locals and globals with pointer to struct type: 1",
        "Number of locals and globals with pointer to function type: 2",
        "Number of locals and globals with pointer to pointer type: 2",
    ]);
    assert_eq!(Stats::from_lines(&text), sample_program().get_stats());
    assert_eq!(Stats::from_lines(&vec![]), Stats::new());
}

#[test]
fn lines_without_a_number_or_a_label_are_passed_over() {
    let mut expected = Stats::new();
    expected.block_num = 7;
    let text = lines(&[
        "",
        "Number of basic blocks",
        "Number of basic blocks:7",
        "Number of basic blocks: seven",
        "Number of basic blocks: ",
        "Number of basic blocks: -1",
        "Number of basic blocks: 4294967296",
        "Number of basic blocks: 1 ",
        "Number of basic blocks:  1",
        "Number of blocks: 3",
        "number of basic blocks: 3",
        "  Number of basic blocks (all): 7",
    ]);
    assert_eq!(Stats::from_lines(&text), expected);
}

#[test]
fn number_is_the_second_piece_of_the_line() {
    let mut s = Stats::new();
    s.read_line("Number of terminals: 12: 13");
    assert_eq!(s.terminal_num, 12);
    s.read_line("note: 5: Number of terminals");
    assert_eq!(s.terminal_num, 5);
    s.read_line("Number of terminals: +8");
    assert_eq!(s.terminal_num, 8);
    s.read_line("Number of terminals: 0009");
    assert_eq!(s.terminal_num, 9);
    s.read_line("Number of terminals: 4294967295");
    assert_eq!(s.terminal_num, u32::MAX);
    s.read_line(": 3: Number of terminals");
    assert_eq!(s.terminal_num, 3);
    s.read_line("Number of terminals: : 4");
    assert_eq!(s.terminal_num, 3);
    s.read_line("Number of terminals:: 6");
    assert_eq!(s.terminal_num, 6);
}

#[test]
fn first_label_in_the_order_of_the_counts_wins() {
    let mut s = Stats::new();
    s.read_line("Number of terminals, Number of instructions: 2");
    assert_eq!((s.instr_num, s.terminal_num), (2, 0));
    s.read_line("Number of locals and globals with pointer to int type: 5");
    assert_eq!((s.int_type_num, s.pointer_to_int_num), (0, 5));
    s.read_line("Number of functions that return a value: 1");
    s.read_line("Number of fields across all struct types: 2");
    s.read_line("Number of function parameters: 3");
    s.read_line("Number of local variables: 4");
    s.read_line("Number of locals and globals with int type: 6");
    s.read_line("Number of locals and globals with struct type: 7");
    s.read_line("Number of locals and globals with pointer to struct type: 8");
    s.read_line("Number of locals and globals with pointer to function type: 9");
    s.read_line("Number of locals and globals with pointer to pointer type: 10");
    s.read_line("Number of basic blocks: 11");
    let expected = Stats {
        field_num: 2,
        function_returning_value_num: 1,
        func_param_num: 3,
        local_var_num: 4,
        block_num: 11,
        instr_num: 2,
        terminal_num: 0,
        int_type_num: 6,
        struct_type_num: 7,
        pointer_to_int_num: 5,
        pointer_to_struct_num: 8,
        pointer_to_function_num: 9,
        pointer_to_pointer_num: 10,
    };
    assert_eq!(s, expected);
}

#[test]
fn variables_are_ordered_by_name() {
    let a = typed("a", pointer(Type::Int));
    let b = typed("b", Type::Int);
    let a_int = typed("a", Type::Int);
    assert!(a < b);
    assert!(b > a);
    assert!(!(a < a_int) && !(a > a_int));
    assert_eq!(a.partial_cmp(&a_int), Some(std::cmp::Ordering::Equal));
    assert_eq!(b.partial_cmp(&a), Some(std::cmp::Ordering::Greater));
    assert!(typed("ab", Type::Int) > typed("a", Type::Int));
}

#[test]
fn blocks_are_found_by_id() {
    let p = sample_program();
    let f = p.find_function("f").unwrap();
    assert_eq!(f.find_block("b").unwrap().insts.len(), 2);
    assert_eq!(f.find_block("entry").unwrap().id, "entry");
    assert!(f.find_block("d").is_none());
    assert_eq!(p.find_function("g").unwrap().params.len(), 2);
}
