//! The low-level intermediate representation that the analysis reads:
//! programs, functions, basic blocks, instructions and types.
//!
//! Keyed tables (struct definitions, functions, externs, a function's blocks)
//! are association lists; a lookup finds the first entry with the key.

use vstd::prelude::*;

verus! {

/// A whole program.
#[derive(Clone, Debug, PartialEq, Eq)]
pub struct Program {
    /// Struct definitions, by struct name.
    pub structs: Vec<(String, Vec<Field>)>,
    /// Global variables.
    pub globals: Vec<Variable>,
    /// Function definitions, by function name.
    pub functions: Vec<(String, Function)>,
    /// External function declarations, by function name.
    pub externs: Vec<(String, Type)>,
}

/// A field of a struct definition.
#[derive(Clone, Debug, PartialEq, Eq, Hash)]
pub struct Field {
    pub name: String,
    pub typ: Type,
}

/// The type of a variable, a field or a function.
#[derive(Debug, PartialEq, Eq, Hash)]
pub enum Type {
    Int,
    Struct(String),
    Function(Box<FunctionType>),
    Pointer(Box<Type>),
}

/// A parameter, a local or a global variable. Within one analysis a variable
/// is identified by its name.
#[derive(Clone, Debug, PartialEq, Eq, Hash)]
pub struct Variable {
    pub name: String,
    pub typ: Type,
    pub scope: Option<String>,
}

/// A function definition.
#[derive(Clone, Debug, PartialEq, Eq)]
pub struct Function {
    pub id: String,
    pub ret_ty: Option<Type>,
    pub params: Vec<Variable>,
    pub locals: Vec<Variable>,
    /// The basic blocks, by block id.
    pub body: Vec<(String, Block)>,
}

/// The signature of a function.
#[derive(Clone, Debug, PartialEq, Eq, Hash)]
pub struct FunctionType {
    pub ret_ty: Option<Type>,
    pub param_ty: Vec<Type>,
}

/// A basic block: straight-line instructions closed by one terminator.
#[derive(Clone, Debug, PartialEq, Eq, Hash)]
pub struct Block {
    pub id: String,
    pub insts: Vec<Instruction>,
    pub term: Terminal,
}

/// The ten kinds of instruction.
#[derive(Clone, Debug, PartialEq, Eq, Hash)]
pub enum Instruction {
    AddrOf { lhs: Variable, rhs: Variable },
    Alloc { lhs: Variable, num: Operand, id: Variable },
    Copy { lhs: Variable, op: Operand },
    Gep { lhs: Variable, src: Variable, idx: Operand },
    Arith { lhs: Variable, aop: ArithOp, op1: Operand, op2: Operand },
    Load { lhs: Variable, src: Variable },
    Store { dst: Variable, op: Operand },
    Gfp { lhs: Variable, src: Variable, field: Variable },
    Cmp { lhs: Variable, rop: RelaOp, op1: Operand, op2: Operand },
    CallExt { lhs: Option<Variable>, ext_callee: String, args: Vec<Operand> },
}

/// Arithmetic operators.
#[derive(Clone, Copy, Debug, PartialEq, Eq, Hash, Structural)]
pub enum ArithOp {
    Add,
    Subtract,
    Multiply,
    Divide,
}

/// Relational operators.
#[derive(Clone, Copy, Debug, PartialEq, Eq, Hash, Structural)]
pub enum RelaOp {
    Neq,
    Eq,
    Less,
    LessEq,
    Greater,
    GreaterEq,
}

/// The instruction that ends a basic block.
#[derive(Clone, Debug, PartialEq, Eq, Hash)]
pub enum Terminal {
    Jump(String),
    Branch { cond: Operand, tt: String, ff: String },
    Ret(Option<Operand>),
    CallDirect { lhs: Option<Variable>, callee: String, args: Vec<Operand>, next_bb: String },
    CallIndirect { lhs: Option<Variable>, callee: Variable, args: Vec<Operand>, next_bb: String },
}

/// An operand: a variable or an integer literal.
#[derive(Clone, Debug, PartialEq, Eq, Hash)]
pub enum Operand {
    Var(Variable),
    CInt(i32),
}

/// Copies a type.
fn clone_type(t: &Type) -> (r: Type)
    ensures
        r@ == t@,
    decreases t,
{
    match t {
        Type::Int => Type::Int,
        Type::Struct(name) => Type::Struct(name.clone()),
        Type::Function(sig) => Type::Function(Box::new(clone_signature(sig))),
        Type::Pointer(inner) => Type::Pointer(Box::new(clone_type(inner))),
    }
}

/// Copies a function signature.
fn clone_signature(sig: &FunctionType) -> (r: FunctionType)
    ensures
        r@ == sig@,
    decreases sig,
{
    let ret_ty = match &sig.ret_ty {
        Some(t) => Some(clone_type(t)),
        None => None,
    };
    let mut param_ty: Vec<Type> = Vec::new();
    let mut i: usize = 0;
    while i < sig.param_ty.len()
        invariant
            i <= sig.param_ty.len(),
            param_ty@.len() == i,
            forall|j: int| 0 <= j < i ==> (#[trigger] param_ty[j]).view() == sig.param_ty[j].view(),
        decreases sig.param_ty.len() - i,
    {
        param_ty.push(clone_type(&sig.param_ty[i]));
        i += 1;
    }
    let r = FunctionType { ret_ty, param_ty };
    assert(r@.param_ty =~= sig@.param_ty);
    r
}

impl Clone for Type {
    /// A copy of the type: the same type, name for name.
    fn clone(&self) -> (r: Self)
        ensures
            r@ == self@,
    {
        clone_type(self)
    }
}

/// The mathematical model of a type: the type with its names taken as
/// character sequences and its parameter lists as sequences.
pub enum TypeModel {
    Int,
    Struct(Seq<char>),
    Function(Box<SignatureModel>),
    Pointer(Box<TypeModel>),
}

/// The mathematical model of a function signature.
pub struct SignatureModel {
    pub ret_ty: Option<TypeModel>,
    pub param_ty: Seq<TypeModel>,
}

impl FunctionType {
    /// The signature as a mathematical value.
    pub open spec fn view(&self) -> SignatureModel
        decreases self,
    {
        SignatureModel {
            ret_ty: match self.ret_ty {
                Some(t) => Some(t.view()),
                None => None,
            },
            param_ty: Seq::new(
                self.param_ty@.len(),
                |i: int|
                    if 0 <= i < self.param_ty@.len() {
                        self.param_ty[i].view()
                    } else {
                        TypeModel::Int
                    },
            ),
        }
    }
}

impl Type {
    /// The type as a mathematical value.
    pub open spec fn view(&self) -> TypeModel
        decreases self,
    {
        match self {
            Type::Int => TypeModel::Int,
            Type::Struct(name) => TypeModel::Struct(name@),
            Type::Function(sig) => TypeModel::Function(Box::new(sig.view())),
            Type::Pointer(inner) => TypeModel::Pointer(Box::new(inner.view())),
        }
    }

    /// A chain of one or more pointers whose innermost pointee is `Int`.
    pub open spec fn reaches_int_through_pointer(self) -> bool
        decreases self,
    {
        match self {
            Type::Pointer(inner) => *inner is Int || inner.reaches_int_through_pointer(),
            _ => false,
        }
    }

    /// Whether the type is `Int`.
    pub fn is_int(&self) -> (r: bool)
        ensures
            r == (self is Int),
    {
        match self {
            Type::Int => true,
            _ => false,
        }
    }

    /// Whether the type leads to `Int` through pointers alone, where
    /// `has_pt_before` says that a pointer has already been passed.
    pub fn is_pointer_to_int_helper(&self, has_pt_before: bool) -> (r: bool)
        ensures
            r == ((self is Int && has_pt_before) || self.reaches_int_through_pointer()),
        decreases self,
    {
        match self {
            Type::Pointer(t) => {
                match **t {
                    Type::Int => true,
                    _ => t.is_pointer_to_int_helper(true),
                }
            },
            Type::Int => has_pt_before,
            _ => false,
        }
    }

    /// Whether the type is a chain of one or more pointers that ends in `Int`.
    pub fn is_pointer_to_int(&self) -> (r: bool)
        ensures
            r == self.reaches_int_through_pointer(),
    {
        self.is_pointer_to_int_helper(false)
    }
}

impl Program {
    /// The empty program.
    pub fn new() -> (p: Program)
        ensures
            p.structs@.len() == 0,
            p.globals@.len() == 0,
            p.functions@.len() == 0,
            p.externs@.len() == 0,
    {
        Program { structs: Vec::new(), globals: Vec::new(), functions: Vec::new(), externs: Vec::new() }
    }
}

/// The keys of an association list, as character sequences.
pub open spec fn entry_keys<V>(entries: Seq<(String, V)>) -> Seq<Seq<char>> {
    Seq::new(entries.len(), |i: int| entries[i].0@)
}

/// Some entry has the key `k`.
pub open spec fn key_present(keys: Seq<Seq<char>>, k: Seq<char>) -> bool {
    exists|i: int| 0 <= i < keys.len() && #[trigger] keys[i] == k
}

/// `i` is the place of the first entry with the key `k`.
pub open spec fn is_first_index(keys: Seq<Seq<char>>, k: Seq<char>, i: int) -> bool {
    &&& 0 <= i < keys.len()
    &&& keys[i] == k
    &&& forall|j: int| 0 <= j < i ==> #[trigger] keys[j] != k
}

/// The place of the first entry with the key `k`, where there is one.
pub open spec fn first_index(keys: Seq<Seq<char>>, k: Seq<char>) -> int {
    choose|i: int| is_first_index(keys, k, i)
}

/// A key that is present has exactly one first place.
pub proof fn lemma_first_index(keys: Seq<Seq<char>>, k: Seq<char>, i: int)
    requires
        is_first_index(keys, k, i),
    ensures
        key_present(keys, k),
        first_index(keys, k) == i,
{
    let j = first_index(keys, k);
    assert(is_first_index(keys, k, j));
    if j < i {
        assert(keys[j] != k);
    } else if i < j {
        assert(keys[i] != k);
    }
}

/// Finds the first entry of an association list with the key `name`.
pub fn find_entry<V>(entries: &Vec<(String, V)>, name: &str) -> (r: Option<usize>)
    ensures
        match r {
            Some(i) => is_first_index(entry_keys(entries@), name@, i as int),
            None => !key_present(entry_keys(entries@), name@),
        },
{
    let mut i: usize = 0;
    while i < entries.len()
        invariant
            i <= entries.len(),
            forall|j: int| 0 <= j < i ==> #[trigger] entry_keys(entries@)[j] != name@,
        decreases entries.len() - i,
    {
        match crate::text::compare_names(entries[i].0.as_str(), name) {
            crate::text::NameOrder::Same => {
                return Some(i);
            },
            _ => {
                proof {
                    crate::text::lemma_lex_lt_irreflexive(name@);
                }
            },
        }
        i += 1;
    }
    None
}

impl Function {
    /// The function has a block with the id `id`.
    pub open spec fn has_block(&self, id: Seq<char>) -> bool {
        key_present(entry_keys(self.body@), id)
    }

    /// The block that a lookup of `id` finds.
    pub open spec fn block_named(&self, id: Seq<char>) -> Block {
        self.body@[first_index(entry_keys(self.body@), id)].1
    }

    /// Looks up the block with the id `id`.
    pub fn find_block(&self, id: &str) -> (r: Option<&Block>)
        ensures
            match r {
                Some(b) => self.has_block(id@) && *b == self.block_named(id@),
                None => !self.has_block(id@),
            },
    {
        match find_entry(&self.body, id) {
            Some(i) => {
                proof {
                    lemma_first_index(entry_keys(self.body@), id@, i as int);
                }
                Some(&self.body[i].1)
            },
            None => None,
        }
    }
}

impl Program {
    /// The program defines a function named `name`.
    pub open spec fn has_function(&self, name: Seq<char>) -> bool {
        key_present(entry_keys(self.functions@), name)
    }

    /// The function that a lookup of `name` finds.
    pub open spec fn function_named(&self, name: Seq<char>) -> Function {
        self.functions@[first_index(entry_keys(self.functions@), name)].1
    }

    /// Looks up the function named `name`.
    pub fn find_function(&self, name: &str) -> (r: Option<&Function>)
        ensures
            match r {
                Some(f) => self.has_function(name@) && *f == self.function_named(name@),
                None => !self.has_function(name@),
            },
    {
        match find_entry(&self.functions, name) {
            Some(i) => {
                proof {
                    lemma_first_index(entry_keys(self.functions@), name@, i as int);
                }
                Some(&self.functions[i].1)
            },
            None => None,
        }
    }
}

} // verus!
