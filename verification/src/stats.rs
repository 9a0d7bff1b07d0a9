//! Counts over a program: fields, functions, parameters, locals, blocks,
//! instructions, and variables by the class of their type.

use vstd::prelude::*;
use vstd::arithmetic::div_mod::lemma_add_mod_noop;
use crate::lir::{Block, Field, Function, Program, Type, Variable};

verus! {

/// The counts of a program. Each count is held in 32 bits: a count that does
/// not fit is held modulo 2^32.
#[derive(Clone, Copy, Debug, PartialEq, Eq, Structural)]
pub struct Stats {
    pub field_num: u32,
    pub function_returning_value_num: u32,
    pub func_param_num: u32,
    pub local_var_num: u32,
    pub block_num: u32,
    pub instr_num: u32,
    pub terminal_num: u32,
    pub int_type_num: u32,
    pub struct_type_num: u32,
    pub pointer_to_int_num: u32,
    pub pointer_to_struct_num: u32,
    pub pointer_to_function_num: u32,
    pub pointer_to_pointer_num: u32,
}

/// The classes of types that the counts tell apart.
#[derive(Clone, Copy, Debug, PartialEq, Eq, Structural)]
pub enum TypeClass {
    Int,
    Struct,
    PointerToInt,
    PointerToStruct,
    PointerToFunction,
    PointerToPointer,
}

/// Whether a type belongs to a class.
pub open spec fn in_class(t: Type, class: TypeClass) -> bool {
    match class {
        TypeClass::Int => t is Int,
        TypeClass::Struct => t is Struct,
        TypeClass::PointerToInt => t matches Type::Pointer(inner) && *inner is Int,
        TypeClass::PointerToStruct => t matches Type::Pointer(inner) && *inner is Struct,
        TypeClass::PointerToFunction => t matches Type::Pointer(inner) && *inner is Function,
        TypeClass::PointerToPointer => t matches Type::Pointer(inner) && *inner is Pointer,
    }
}

/// The sum of a measure over the items of a sequence.
pub open spec fn sum_of<T>(items: Seq<T>, measure: spec_fn(T) -> nat) -> nat
    decreases items.len(),
{
    if items.len() == 0 {
        0
    } else {
        sum_of(items.drop_last(), measure) + measure(items.last())
    }
}

/// A count as it is held in 32 bits.
pub open spec fn truncate32(n: nat) -> u32 {
    (n % 0x1_0000_0000) as u32
}

/// The number of fields of a struct definition.
pub open spec fn fields_of() -> spec_fn((String, Vec<Field>)) -> nat {
    |s: (String, Vec<Field>)| s.1@.len()
}

/// 1 for a function that returns a value, else 0.
pub open spec fn returns_value() -> spec_fn((String, Function)) -> nat {
    |f: (String, Function)|
        if f.1.ret_ty is Some {
            1nat
        } else {
            0nat
        }
}

/// The number of parameters of a function.
pub open spec fn params_of() -> spec_fn((String, Function)) -> nat {
    |f: (String, Function)| f.1.params@.len()
}

/// The number of locals of a function.
pub open spec fn locals_of() -> spec_fn((String, Function)) -> nat {
    |f: (String, Function)| f.1.locals@.len()
}

/// The number of blocks of a function.
pub open spec fn blocks_of() -> spec_fn((String, Function)) -> nat {
    |f: (String, Function)| f.1.body@.len()
}

/// The number of instructions of a block.
pub open spec fn insts_of_block() -> spec_fn((String, Block)) -> nat {
    |b: (String, Block)| b.1.insts@.len()
}

/// The number of instructions of a function.
pub open spec fn insts_of() -> spec_fn((String, Function)) -> nat {
    |f: (String, Function)| sum_of(f.1.body@, insts_of_block())
}

/// 1 for a variable whose type belongs to the class, else 0.
pub open spec fn of_class(class: TypeClass) -> spec_fn(Variable) -> nat {
    |v: Variable|
        if in_class(v.typ, class) {
            1nat
        } else {
            0nat
        }
}

/// The number of locals of a function whose type belongs to the class.
pub open spec fn locals_of_class(class: TypeClass) -> spec_fn((String, Function)) -> nat {
    |f: (String, Function)| sum_of(f.1.locals@, of_class(class))
}

/// The sum over the first `i + 1` items is the sum over the first `i` and the
/// measure of the next.
pub proof fn lemma_sum_step<T>(items: Seq<T>, i: int, measure: spec_fn(T) -> nat)
    requires
        0 <= i < items.len(),
    ensures
        sum_of(items.take(i + 1), measure) == sum_of(items.take(i), measure) + measure(items[i]),
        sum_of(items.take(0), measure) == 0,
{
    assert(items.take(i + 1).drop_last() =~= items.take(i));
}

/// Truncating the terms of a sum before adding them does not change the
/// truncated sum.
pub proof fn lemma_truncate_add(a: nat, b: nat)
    ensures
        truncate32(a + b) == truncate32((truncate32(a) + truncate32(b)) as nat),
{
    lemma_add_mod_noop(a as int, b as int, 0x1_0000_0000);
}

impl Program {
    /// The number of variables, locals of all functions and globals, whose
    /// type belongs to the class.
    pub open spec fn variables_of_class(&self, class: TypeClass) -> nat {
        sum_of(self.functions@, locals_of_class(class)) + sum_of(self.globals@, of_class(class))
    }

    /// The counts of the program.
    pub open spec fn stats_spec(&self) -> Stats {
        Stats {
            field_num: truncate32(sum_of(self.structs@, fields_of())),
            function_returning_value_num: truncate32(sum_of(self.functions@, returns_value())),
            func_param_num: truncate32(sum_of(self.functions@, params_of())),
            local_var_num: truncate32(sum_of(self.functions@, locals_of())),
            block_num: truncate32(sum_of(self.functions@, blocks_of())),
            instr_num: truncate32(sum_of(self.functions@, insts_of())),
            terminal_num: truncate32(sum_of(self.functions@, blocks_of())),
            int_type_num: truncate32(self.variables_of_class(TypeClass::Int)),
            struct_type_num: truncate32(self.variables_of_class(TypeClass::Struct)),
            pointer_to_int_num: truncate32(self.variables_of_class(TypeClass::PointerToInt)),
            pointer_to_struct_num: truncate32(self.variables_of_class(TypeClass::PointerToStruct)),
            pointer_to_function_num: truncate32(self.variables_of_class(TypeClass::PointerToFunction)),
            pointer_to_pointer_num: truncate32(self.variables_of_class(TypeClass::PointerToPointer)),
        }
    }
}

/// The counts that are all zero.
pub open spec fn zero_stats() -> Stats {
    Stats {
        field_num: 0,
        function_returning_value_num: 0,
        func_param_num: 0,
        local_var_num: 0,
        block_num: 0,
        instr_num: 0,
        terminal_num: 0,
        int_type_num: 0,
        struct_type_num: 0,
        pointer_to_int_num: 0,
        pointer_to_struct_num: 0,
        pointer_to_function_num: 0,
        pointer_to_pointer_num: 0,
    }
}

impl Stats {
    /// All counts zero.
    pub fn new() -> (s: Stats)
        ensures
            s == zero_stats(),
    {
        Stats {
            field_num: 0,
            function_returning_value_num: 0,
            func_param_num: 0,
            local_var_num: 0,
            block_num: 0,
            instr_num: 0,
            terminal_num: 0,
            int_type_num: 0,
            struct_type_num: 0,
            pointer_to_int_num: 0,
            pointer_to_struct_num: 0,
            pointer_to_function_num: 0,
            pointer_to_pointer_num: 0,
        }
    }
}

/// Adds a count to a count that is held in 32 bits.
fn add_count(total: u32, ghost_total: Ghost<nat>, n: usize) -> (r: u32)
    requires
        total == truncate32(ghost_total@),
    ensures
        r == truncate32(ghost_total@ + n as nat),
{
    let low: u32 = ((n as u64) % 0x1_0000_0000u64) as u32;
    proof {
        lemma_truncate_add(ghost_total@, n as nat);
    }
    total.wrapping_add(low)
}

/// Adds two counts that are held in 32 bits.
fn add_counts(a: u32, ghost_a: Ghost<nat>, b: u32, ghost_b: Ghost<nat>) -> (r: u32)
    requires
        a == truncate32(ghost_a@),
        b == truncate32(ghost_b@),
    ensures
        r == truncate32(ghost_a@ + ghost_b@),
{
    proof {
        lemma_truncate_add(ghost_a@, ghost_b@);
    }
    a.wrapping_add(b)
}

/// Whether a type belongs to a class.
pub fn type_in_class(t: &Type, class: TypeClass) -> (r: bool)
    ensures
        r == in_class(*t, class),
{
    match class {
        TypeClass::Int => match t {
            Type::Int => true,
            _ => false,
        },
        TypeClass::Struct => match t {
            Type::Struct(_) => true,
            _ => false,
        },
        TypeClass::PointerToInt => match t {
            Type::Pointer(inner) => match **inner {
                Type::Int => true,
                _ => false,
            },
            _ => false,
        },
        TypeClass::PointerToStruct => match t {
            Type::Pointer(inner) => match **inner {
                Type::Struct(_) => true,
                _ => false,
            },
            _ => false,
        },
        TypeClass::PointerToFunction => match t {
            Type::Pointer(inner) => match **inner {
                Type::Function(_) => true,
                _ => false,
            },
            _ => false,
        },
        TypeClass::PointerToPointer => match t {
            Type::Pointer(inner) => match **inner {
                Type::Pointer(_) => true,
                _ => false,
            },
            _ => false,
        },
    }
}

/// The number of variables of the list whose type belongs to the class, held
/// in 32 bits.
pub fn count_variables(vars: &Vec<Variable>, class: TypeClass) -> (r: u32)
    ensures
        r == truncate32(sum_of(vars@, of_class(class))),
{
    let mut count: u32 = 0;
    let mut i: usize = 0;
    while i < vars.len()
        invariant
            i <= vars.len(),
            count == truncate32(sum_of(vars@.take(i as int), of_class(class))),
        decreases vars.len() - i,
    {
        proof {
            lemma_sum_step(vars@, i as int, of_class(class));
        }
        let one: usize = if type_in_class(&vars[i].typ, class) {
            1
        } else {
            0
        };
        count = add_count(count, Ghost(sum_of(vars@.take(i as int), of_class(class))), one);
        i += 1;
    }
    proof {
        assert(vars@.take(vars@.len() as int) =~= vars@);
    }
    count
}

/// The number of instructions of the blocks of a body, held in 32 bits.
pub fn count_instructions(body: &Vec<(String, Block)>) -> (r: u32)
    ensures
        r == truncate32(sum_of(body@, insts_of_block())),
{
    let mut count: u32 = 0;
    let mut i: usize = 0;
    while i < body.len()
        invariant
            i <= body.len(),
            count == truncate32(sum_of(body@.take(i as int), insts_of_block())),
        decreases body.len() - i,
    {
        proof {
            lemma_sum_step(body@, i as int, insts_of_block());
        }
        count = add_count(count, Ghost(sum_of(body@.take(i as int), insts_of_block())), body[i].1.insts.len());
        i += 1;
    }
    proof {
        assert(body@.take(body@.len() as int) =~= body@);
    }
    count
}

/// The number of variables whose type belongs to the class, locals of all
/// functions and globals, held in 32 bits.
pub fn count_class(program: &Program, class: TypeClass) -> (r: u32)
    ensures
        r == truncate32(program.variables_of_class(class)),
{
    let mut count: u32 = 0;
    let mut i: usize = 0;
    while i < program.functions.len()
        invariant
            i <= program.functions.len(),
            count == truncate32(sum_of(program.functions@.take(i as int), locals_of_class(class))),
        decreases program.functions.len() - i,
    {
        proof {
            lemma_sum_step(program.functions@, i as int, locals_of_class(class));
        }
        let locals = count_variables(&program.functions[i].1.locals, class);
        count = add_counts(
            count,
            Ghost(sum_of(program.functions@.take(i as int), locals_of_class(class))),
            locals,
            Ghost(sum_of(program.functions@[i as int].1.locals@, of_class(class))),
        );
        i += 1;
    }
    proof {
        assert(program.functions@.take(program.functions@.len() as int) =~= program.functions@);
    }
    let globals = count_variables(&program.globals, class);
    add_counts(
        count,
        Ghost(sum_of(program.functions@, locals_of_class(class))),
        globals,
        Ghost(sum_of(program.globals@, of_class(class))),
    )
}

impl Program {
    /// Counts the parts of the program.
    pub fn get_stats(&self) -> (stats: Stats)
        ensures
            stats == self.stats_spec(),
    {
        let mut stats = Stats::new();
        let mut s: usize = 0;
        while s < self.structs.len()
            invariant
                s <= self.structs.len(),
                stats.field_num == truncate32(sum_of(self.structs@.take(s as int), fields_of())),
            decreases self.structs.len() - s,
        {
            proof {
                lemma_sum_step(self.structs@, s as int, fields_of());
            }
            stats.field_num = add_count(
                stats.field_num,
                Ghost(sum_of(self.structs@.take(s as int), fields_of())),
                self.structs[s].1.len(),
            );
            s += 1;
        }
        let mut returning: u32 = 0;
        let mut params: u32 = 0;
        let mut locals: u32 = 0;
        let mut blocks: u32 = 0;
        let mut insts: u32 = 0;
        let mut f: usize = 0;
        while f < self.functions.len()
            invariant
                f <= self.functions.len(),
                returning == truncate32(sum_of(self.functions@.take(f as int), returns_value())),
                params == truncate32(sum_of(self.functions@.take(f as int), params_of())),
                locals == truncate32(sum_of(self.functions@.take(f as int), locals_of())),
                blocks == truncate32(sum_of(self.functions@.take(f as int), blocks_of())),
                insts == truncate32(sum_of(self.functions@.take(f as int), insts_of())),
            decreases self.functions.len() - f,
        {
            let ghost done = self.functions@.take(f as int);
            proof {
                lemma_sum_step(self.functions@, f as int, returns_value());
                lemma_sum_step(self.functions@, f as int, params_of());
                lemma_sum_step(self.functions@, f as int, locals_of());
                lemma_sum_step(self.functions@, f as int, blocks_of());
                lemma_sum_step(self.functions@, f as int, insts_of());
            }
            let function = &self.functions[f].1;
            let one: usize = if function.ret_ty.is_some() {
                1
            } else {
                0
            };
            returning = add_count(returning, Ghost(sum_of(done, returns_value())), one);
            params = add_count(params, Ghost(sum_of(done, params_of())), function.params.len());
            locals = add_count(locals, Ghost(sum_of(done, locals_of())), function.locals.len());
            blocks = add_count(blocks, Ghost(sum_of(done, blocks_of())), function.body.len());
            let in_body = count_instructions(&function.body);
            insts = add_counts(
                insts,
                Ghost(sum_of(done, insts_of())),
                in_body,
                Ghost(sum_of(function.body@, insts_of_block())),
            );
            f += 1;
        }
        proof {
            assert(self.structs@.take(self.structs@.len() as int) =~= self.structs@);
            assert(self.functions@.take(self.functions@.len() as int) =~= self.functions@);
        }
        stats.function_returning_value_num = returning;
        stats.func_param_num = params;
        stats.local_var_num = locals;
        stats.block_num = blocks;
        stats.instr_num = insts;
        stats.terminal_num = blocks;
        stats.int_type_num = count_class(self, TypeClass::Int);
        stats.struct_type_num = count_class(self, TypeClass::Struct);
        stats.pointer_to_int_num = count_class(self, TypeClass::PointerToInt);
        stats.pointer_to_struct_num = count_class(self, TypeClass::PointerToStruct);
        stats.pointer_to_function_num = count_class(self, TypeClass::PointerToFunction);
        stats.pointer_to_pointer_num = count_class(self, TypeClass::PointerToPointer);
        stats
    }
}

} // verus!
