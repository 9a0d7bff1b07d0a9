//! The facts about a program and one of its functions that the transfer
//! function consults: which names are integer globals, which integer
//! variables have their address taken, and whether a global reaches an
//! integer through pointers.

use vstd::prelude::*;
use crate::lir::{Block, Instruction, Program, Variable};
use crate::namemap::{keys_sorted, lemma_entry_in_map, NameMap};
use crate::text::lex_lt;

verus! {

/// Some name in the list is `x`.
pub open spec fn names_contain(names: Seq<String>, x: Seq<char>) -> bool {
    exists|i: int| 0 <= i < names.len() && (#[trigger] names[i])@ == x
}

/// The names increase strictly in lexicographic order.
pub open spec fn names_sorted(names: Seq<String>) -> bool {
    forall|i: int, j: int| #![trigger names[i], names[j]] 0 <= i < j < names.len() ==> lex_lt(names[i]@, names[j]@)
}

/// The names of the variables of type `Int` among `vars`, in order.
pub open spec fn int_names(vars: Seq<Variable>) -> Seq<Seq<char>>
    decreases vars.len(),
{
    if vars.len() == 0 {
        Seq::empty()
    } else if vars.last().typ is Int {
        int_names(vars.drop_last()).push(vars.last().name@)
    } else {
        int_names(vars.drop_last())
    }
}

/// The instruction takes the address of an `Int` variable named `x`.
pub open spec fn takes_address_of(inst: Instruction, x: Seq<char>) -> bool {
    inst matches Instruction::AddrOf { rhs, .. } && rhs.typ is Int && rhs.name@ == x
}

/// Some instruction of the sequence takes the address of the `Int` variable `x`.
pub open spec fn address_taken_in(insts: Seq<Instruction>, x: Seq<char>) -> bool {
    exists|i: int| 0 <= i < insts.len() && takes_address_of(#[trigger] insts[i], x)
}

/// Some block of the body takes the address of the `Int` variable `x`.
pub open spec fn address_taken_in_body(body: Seq<(String, Block)>, x: Seq<char>) -> bool {
    exists|b: int| 0 <= b < body.len() && address_taken_in((#[trigger] body[b]).1.insts@, x)
}

/// Some variable of the list has type `Int` and the name `x`.
pub open spec fn has_int_variable(vars: Seq<Variable>, x: Seq<char>) -> bool {
    exists|i: int| 0 <= i < vars.len() && (#[trigger] vars[i]).typ is Int && vars[i].name@ == x
}

/// Some variable of the list has a type that reaches `Int` through pointers.
pub open spec fn any_reaches_int(vars: Seq<Variable>) -> bool {
    exists|i: int| 0 <= i < vars.len() && (#[trigger] vars[i]).typ.reaches_int_through_pointer()
}

/// What the analysis of one function knows about the program around it.
#[derive(Clone, Debug)]
pub struct AnalysisContext {
    /// The names of the globals of type `Int`.
    pub global_ints: Vec<String>,
    /// The names of the `Int` variables whose address the function takes.
    pub addr_taken_ints: Vec<String>,
    /// Whether the type of some global reaches `Int` through pointers.
    pub global_ptr_reaches_int: bool,
}

/// The context as the transfer function sees it: two sets of names and a
/// flag.
pub struct ContextModel {
    /// The names of the globals of type `Int`.
    pub global_ints: Set<Seq<char>>,
    /// The names of the `Int` variables whose address is taken.
    pub addr_taken: Set<Seq<char>>,
    /// Whether the type of some global reaches `Int` through pointers.
    pub global_ptr_reaches_int: bool,
}

impl ContextModel {
    /// Both sets of names are finite.
    pub open spec fn finite(self) -> bool {
        self.global_ints.finite() && self.addr_taken.finite()
    }
}

/// The names of a list, as a set of character sequences.
pub open spec fn name_set(names: Seq<String>) -> Set<Seq<char>> {
    Set::new(|x: Seq<char>| names_contain(names, x))
}

/// The context of the analysis of a function with the body `body` in a
/// program with the globals `globals`.
pub open spec fn context_of(globals: Seq<Variable>, body: Seq<(String, Block)>) -> ContextModel {
    ContextModel {
        global_ints: Set::new(|x: Seq<char>| has_int_variable(globals, x)),
        addr_taken: Set::new(|x: Seq<char>| address_taken_in_body(body, x)),
        global_ptr_reaches_int: any_reaches_int(globals),
    }
}

impl AnalysisContext {
    /// The context as two sets of names and a flag.
    pub open spec fn view(&self) -> ContextModel {
        ContextModel {
            global_ints: name_set(self.global_ints@),
            addr_taken: name_set(self.addr_taken_ints@),
            global_ptr_reaches_int: self.global_ptr_reaches_int,
        }
    }

    /// The sets of names of a context are finite.
    pub proof fn lemma_finite(&self)
        ensures
            self@.finite(),
    {
        lemma_name_set_finite(self.global_ints@);
        lemma_name_set_finite(self.addr_taken_ints@);
    }
}

/// The names of a list are finitely many.
pub proof fn lemma_name_set_finite(names: Seq<String>)
    ensures
        name_set(names).finite(),
{
    let views = Seq::new(names.len(), |i: int| names[i]@);
    vstd::seq_lib::seq_to_set_is_finite(views);
    assert forall|x: Seq<char>| name_set(names).contains(x) implies views.to_set().contains(x) by {
        let i = choose|i: int| 0 <= i < names.len() && (#[trigger] names[i])@ == x;
        assert(views[i] == x);
    }
    vstd::set_lib::lemma_set_subset_finite(views.to_set(), name_set(names));
}

/// Collects the names of the `Int` variables of a list, in order.
pub fn collect_int_names(vars: &Vec<Variable>) -> (names: Vec<String>)
    ensures
        names@.len() == int_names(vars@).len(),
        forall|i: int| 0 <= i < names@.len() ==> (#[trigger] names@[i])@ == int_names(vars@)[i],
        forall|x: Seq<char>| names_contain(names@, x) <==> has_int_variable(vars@, x),
{
    let mut names: Vec<String> = Vec::new();
    let mut k: usize = 0;
    while k < vars.len()
        invariant
            k <= vars.len(),
            names@.len() == int_names(vars@.take(k as int)).len(),
            forall|i: int|
                0 <= i < names@.len() ==> (#[trigger] names@[i])@ == int_names(vars@.take(k as int))[i],
            forall|x: Seq<char>|
                names_contain(names@, x) <==> exists|i: int|
                    0 <= i < k && (#[trigger] vars@[i]).typ is Int && vars@[i].name@ == x,
        decreases vars.len() - k,
    {
        let ghost before = names@;
        proof {
            assert(vars@.take(k + 1).drop_last() =~= vars@.take(k as int));
        }
        if vars[k].typ.is_int() {
            names.push(vars[k].name.clone());
            proof {
                assert forall|x: Seq<char>| names_contain(names@, x) <==> exists|i: int|
                    0 <= i < k + 1 && (#[trigger] vars@[i]).typ is Int && vars@[i].name@ == x by {
                    if names_contain(names@, x) {
                        let j = choose|j: int| 0 <= j < names@.len() && (#[trigger] names@[j])@ == x;
                        if j < before.len() {
                            assert(before[j]@ == x);
                            assert(names_contain(before, x));
                        } else {
                            assert(vars@[k as int].typ is Int);
                        }
                    }
                    if exists|i: int|
                        0 <= i < k + 1 && (#[trigger] vars@[i]).typ is Int && vars@[i].name@ == x {
                        let i = choose|i: int|
                            0 <= i < k + 1 && (#[trigger] vars@[i]).typ is Int && vars@[i].name@ == x;
                        if i < k {
                            assert(names_contain(before, x));
                            let j = choose|j: int| 0 <= j < before.len() && (#[trigger] before[j])@ == x;
                            assert(names@[j]@ == x);
                        } else {
                            assert(names@[before.len() as int]@ == x);
                        }
                    }
                }
            }
        } else {
            proof {
                assert forall|x: Seq<char>| names_contain(names@, x) <==> exists|i: int|
                    0 <= i < k + 1 && (#[trigger] vars@[i]).typ is Int && vars@[i].name@ == x by {
                    if exists|i: int|
                        0 <= i < k + 1 && (#[trigger] vars@[i]).typ is Int && vars@[i].name@ == x {
                        let i = choose|i: int|
                            0 <= i < k + 1 && (#[trigger] vars@[i]).typ is Int && vars@[i].name@ == x;
                        assert(i < k);
                    }
                }
            }
        }
        k += 1;
    }
    proof {
        assert(vars@.take(vars@.len() as int) =~= vars@);
    }
    names
}

/// Whether the type of some variable of the list reaches `Int` through pointers.
pub fn any_variable_reaches_int(vars: &Vec<Variable>) -> (r: bool)
    ensures
        r == any_reaches_int(vars@),
{
    let mut k: usize = 0;
    while k < vars.len()
        invariant
            k <= vars.len(),
            forall|i: int| 0 <= i < k ==> !(#[trigger] vars@[i]).typ.reaches_int_through_pointer(),
        decreases vars.len() - k,
    {
        if vars[k].typ.is_pointer_to_int() {
            return true;
        }
        k += 1;
    }
    false
}

/// Collects, sorted and without repetition, the names of the `Int` variables
/// whose address some block of the body takes.
pub fn collect_addr_taken(body: &Vec<(String, Block)>) -> (names: Vec<String>)
    ensures
        names_sorted(names@),
        forall|x: Seq<char>| names_contain(names@, x) <==> address_taken_in_body(body@, x),
{
    let mut seen: NameMap<bool> = NameMap::new();
    let mut b: usize = 0;
    while b < body.len()
        invariant
            b <= body.len(),
            forall|x: Seq<char>|
                #![trigger seen@.contains_key(x)]
                seen@.contains_key(x) <==> address_taken_in_body(body@.take(b as int), x),
        decreases body.len() - b,
    {
        let insts = &body[b].1.insts;
        let ghost done = body@.take(b as int);
        let mut i: usize = 0;
        while i < insts.len()
            invariant
                i <= insts.len(),
                b < body.len(),
                done == body@.take(b as int),
                insts == &body@[b as int].1.insts,
                forall|x: Seq<char>|
                    #![trigger seen@.contains_key(x)]
                    seen@.contains_key(x) <==> (address_taken_in_body(done, x) || address_taken_in(
                        insts@.take(i as int),
                        x,
                    )),
            decreases insts.len() - i,
        {
            let ghost before = seen@;
            match &insts[i] {
                Instruction::AddrOf { rhs, .. } => {
                    if rhs.typ.is_int() {
                        seen.insert(rhs.name.clone(), true);
                    }
                },
                _ => {},
            }
            proof {
                let t0 = insts@.take(i as int);
                let t1 = insts@.take(i + 1);
                assert forall|x: Seq<char>|
                    seen@.contains_key(x) <==> (before.contains_key(x) || takes_address_of(
                        insts@[i as int],
                        x,
                    )) by {}
                assert forall|x: Seq<char>|
                    seen@.contains_key(x) <==> (address_taken_in_body(done, x) || address_taken_in(
                        t1,
                        x,
                    )) by {
                    assert(seen@.contains_key(x) <==> (before.contains_key(x) || takes_address_of(
                        insts@[i as int],
                        x,
                    )));
                    assert(before.contains_key(x) <==> (address_taken_in_body(done, x)
                        || address_taken_in(t0, x)));
                    if address_taken_in(t0, x) {
                        let j = choose|j: int| 0 <= j < t0.len() && takes_address_of(#[trigger] t0[j], x);
                        assert(takes_address_of(t1[j], x));
                    }
                    if address_taken_in(t1, x) {
                        let j = choose|j: int| 0 <= j < t1.len() && takes_address_of(#[trigger] t1[j], x);
                        if j < i {
                            assert(takes_address_of(t0[j], x));
                        } else {
                            assert(t1[j] == insts@[i as int]);
                        }
                    }
                    if takes_address_of(insts@[i as int], x) {
                        assert(takes_address_of(t1[i as int], x));
                    }
                    assert(address_taken_in(t1, x) <==> (address_taken_in(t0, x) || takes_address_of(
                        insts@[i as int],
                        x,
                    )));
                }
            }
            i += 1;
        }
        proof {
            let t1 = body@.take(b + 1);
            assert(insts@.take(insts@.len() as int) =~= insts@);
            assert forall|x: Seq<char>| seen@.contains_key(x) <==> address_taken_in_body(t1, x) by {
                if address_taken_in_body(done, x) {
                    let j = choose|j: int|
                        0 <= j < done.len() && address_taken_in((#[trigger] done[j]).1.insts@, x);
                    assert(address_taken_in(t1[j].1.insts@, x));
                }
                if address_taken_in(insts@, x) {
                    assert(address_taken_in(t1[b as int].1.insts@, x));
                }
                if address_taken_in_body(t1, x) {
                    let j = choose|j: int|
                        0 <= j < t1.len() && address_taken_in((#[trigger] t1[j]).1.insts@, x);
                    if j < b {
                        assert(address_taken_in(done[j].1.insts@, x));
                    }
                }
            }
        }
        b += 1;
    }
    proof {
        assert(body@.take(body@.len() as int) =~= body@);
    }
    let mut names: Vec<String> = Vec::new();
    let n = seen.len();
    let mut k: usize = 0;
    while k < n
        invariant
            k <= n,
            n == seen.pairs().len(),
            keys_sorted(seen.pairs()),
            names@.len() == k,
            forall|i: int| 0 <= i < k ==> (#[trigger] names@[i])@ == seen.pairs()[i].0,
        decreases n - k,
    {
        names.push(seen.name_at(k).clone());
        k += 1;
    }
    proof {
        let p = seen.pairs();
        assert forall|i: int, j: int| #![trigger names@[i], names@[j]] 0 <= i < j < names@.len() implies lex_lt(
            names@[i]@,
            names@[j]@,
        ) by {
            assert(lex_lt(p[i].0, p[j].0));
        }
        assert forall|x: Seq<char>| names_contain(names@, x) <==> seen@.contains_key(x) by {
            if names_contain(names@, x) {
                let j = choose|j: int| 0 <= j < names@.len() && (#[trigger] names@[j])@ == x;
                lemma_entry_in_map(p, j);
            }
            if seen@.contains_key(x) {
                let j = crate::namemap::index_of_key(p, x);
                assert(p[j].0 == x);
                assert(names@[j]@ == x);
            }
        }
    }
    names
}

/// Collects the facts that the analysis of the function `function_name` needs.
pub fn global_init(program: &Program, function_name: &str) -> (ctx: AnalysisContext)
    requires
        program.has_function(function_name@),
    ensures
        ctx.global_ints@.len() == int_names(program.globals@).len(),
        forall|i: int|
            0 <= i < ctx.global_ints@.len() ==> (#[trigger] ctx.global_ints@[i])@ == int_names(
                program.globals@,
            )[i],
        names_sorted(ctx.addr_taken_ints@),
        ctx@ == context_of(program.globals@, program.function_named(function_name@).body@),
{
    let global_ints = collect_int_names(&program.globals);
    let function = program.find_function(function_name).unwrap();
    let addr_taken_ints = collect_addr_taken(&function.body);
    let global_ptr_reaches_int = any_variable_reaches_int(&program.globals);
    let ctx = AnalysisContext { global_ints, addr_taken_ints, global_ptr_reaches_int };
    proof {
        let model = context_of(program.globals@, program.function_named(function_name@).body@);
        assert(ctx@.global_ints =~= model.global_ints);
        assert(ctx@.addr_taken =~= model.addr_taken);
    }
    ctx
}

} // verus!
