//! The constant-propagation lattice: `Bottom` below every constant, every
//! constant below `Top`, distinct constants incomparable.

use vstd::prelude::*;
use vstd::string::StringExecFns;
use crate::lir::{ArithOp, RelaOp};
use crate::text::{
    append_integer, compare_names, int_text, lemma_nat_text_value, nat_text, parse_natural,
    read_natural, to_chars, NameOrder,
};

verus! {

/// An abstract integer: unknown, unreachable, or one known constant.
#[derive(Clone, Copy, Debug, PartialEq, Eq, Hash, Structural)]
pub enum IntConstAbsVal {
    Top,
    Bottom,
    IntConst(i32),
}

/// The signed 32-bit integer that is congruent to `x` modulo 2^32.
pub open spec fn wrap_i32(x: int) -> i32 {
    let m = x % 0x1_0000_0000;
    if m > 0x7fff_ffff {
        (m - 0x1_0000_0000) as i32
    } else {
        m as i32
    }
}

/// The quotient of `a` by `b` rounded toward zero, for `b != 0`.
pub open spec fn trunc_div(a: int, b: int) -> int {
    if a >= 0 && b > 0 {
        a / b
    } else if a < 0 && b > 0 {
        -((-a) / b)
    } else if a >= 0 && b < 0 {
        -(a / (-b))
    } else {
        (-a) / (-b)
    }
}

/// Whether the relation `rop` holds of two integers.
pub open spec fn relation_holds(rop: RelaOp, i: i32, j: i32) -> bool {
    match rop {
        RelaOp::Eq => i == j,
        RelaOp::Neq => i != j,
        RelaOp::Less => i < j,
        RelaOp::LessEq => i <= j,
        RelaOp::Greater => i > j,
        RelaOp::GreaterEq => i >= j,
    }
}

impl IntConstAbsVal {
    /// The partial order of the lattice.
    pub open spec fn le(self, other: IntConstAbsVal) -> bool {
        self is Bottom || other is Top || self == other
    }

    /// How far a value stands above `Bottom`: 0, 1 or 2.
    pub open spec fn rank(self) -> nat {
        match self {
            IntConstAbsVal::Bottom => 0,
            IntConstAbsVal::IntConst(_) => 1,
            IntConstAbsVal::Top => 2,
        }
    }

    /// The least upper bound of two abstract values.
    pub open spec fn join_spec(a: IntConstAbsVal, b: IntConstAbsVal) -> IntConstAbsVal {
        if a is Top || b is Top {
            IntConstAbsVal::Top
        } else if a is Bottom {
            b
        } else if b is Bottom {
            a
        } else if a == b {
            a
        } else {
            IntConstAbsVal::Top
        }
    }

    /// Abstract arithmetic: unreachable if an operand is unreachable; on two
    /// constants the 32-bit wrap-around result, except that division by zero
    /// is unknown; otherwise unknown.
    pub open spec fn arith_spec(a: IntConstAbsVal, b: IntConstAbsVal, aop: ArithOp) -> IntConstAbsVal {
        match (a, b) {
            (IntConstAbsVal::IntConst(i), IntConstAbsVal::IntConst(j)) => match aop {
                ArithOp::Add => IntConstAbsVal::IntConst(wrap_i32(i + j)),
                ArithOp::Subtract => IntConstAbsVal::IntConst(wrap_i32(i - j)),
                ArithOp::Multiply => IntConstAbsVal::IntConst(wrap_i32(i * j)),
                ArithOp::Divide => if j == 0 {
                    IntConstAbsVal::Top
                } else {
                    IntConstAbsVal::IntConst(wrap_i32(trunc_div(i as int, j as int)))
                },
            },
            (IntConstAbsVal::Bottom, _) => IntConstAbsVal::Bottom,
            (_, IntConstAbsVal::Bottom) => IntConstAbsVal::Bottom,
            _ => IntConstAbsVal::Top,
        }
    }

    /// Abstract comparison: unreachable if an operand is unreachable; on two
    /// constants 1 or 0 as the relation holds or not; otherwise unknown.
    pub open spec fn cmp_spec(a: IntConstAbsVal, b: IntConstAbsVal, rop: RelaOp) -> IntConstAbsVal {
        match (a, b) {
            (IntConstAbsVal::IntConst(i), IntConstAbsVal::IntConst(j)) => if relation_holds(rop, i, j) {
                IntConstAbsVal::IntConst(1)
            } else {
                IntConstAbsVal::IntConst(0)
            },
            (IntConstAbsVal::Bottom, _) => IntConstAbsVal::Bottom,
            (_, IntConstAbsVal::Bottom) => IntConstAbsVal::Bottom,
            _ => IntConstAbsVal::Top,
        }
    }

    /// The printed form of a value: `Top`, `Bottom`, or the constant in
    /// decimal.
    pub open spec fn text(self) -> Seq<char> {
        match self {
            IntConstAbsVal::Top => "Top"@,
            IntConstAbsVal::Bottom => "Bottom"@,
            IntConstAbsVal::IntConst(i) => int_text(i as int),
        }
    }

    /// The printed form of the value.
    pub fn as_string(&self) -> (r: String)
        ensures
            r@ == self.text(),
    {
        match self {
            IntConstAbsVal::Top => String::from_str("Top"),
            IntConstAbsVal::Bottom => String::from_str("Bottom"),
            IntConstAbsVal::IntConst(i) => {
                let mut r = String::new();
                append_integer(&mut r, *i);
                assert(r@ =~= int_text(*i as int));
                r
            },
        }
    }

    /// The value that a printed form stands for: `Top`, `Bottom`, or a
    /// decimal integer of 32 bits with an optional sign.
    pub open spec fn parse_text(s: Seq<char>) -> Option<IntConstAbsVal> {
        if s == "Top"@ {
            Some(IntConstAbsVal::Top)
        } else if s == "Bottom"@ {
            Some(IntConstAbsVal::Bottom)
        } else if s.len() > 0 && s[0] == '-' {
            match parse_natural(s.drop_first(), 0x8000_0000) {
                Some(n) => Some(IntConstAbsVal::IntConst((-(n as int)) as i32)),
                None => None,
            }
        } else if s.len() > 0 && s[0] == '+' {
            match parse_natural(s.drop_first(), 0x7fff_ffff) {
                Some(n) => Some(IntConstAbsVal::IntConst(n as i32)),
                None => None,
            }
        } else {
            match parse_natural(s, 0x7fff_ffff) {
                Some(n) => Some(IntConstAbsVal::IntConst(n as i32)),
                None => None,
            }
        }
    }

    /// Reads a value from its printed form.
    pub fn parse(text: &str) -> (r: Option<IntConstAbsVal>)
        ensures
            r == Self::parse_text(text@),
    {
        if compare_names(text, "Top") == NameOrder::Same {
            return Some(IntConstAbsVal::Top);
        }
        if compare_names(text, "Bottom") == NameOrder::Same {
            return Some(IntConstAbsVal::Bottom);
        }
        let chars = to_chars(text);
        let n = chars.len();
        proof {
            crate::text::lemma_lex_lt_irreflexive(text@);
        }
        if n > 0 && chars[0] == '-' {
            proof {
                assert(chars@.subrange(1, n as int) =~= text@.drop_first());
            }
            match read_natural(&chars, 1, n, 0x8000_0000) {
                Some(m) => Some(IntConstAbsVal::IntConst((-(m as i64)) as i32)),
                None => None,
            }
        } else if n > 0 && chars[0] == '+' {
            proof {
                assert(chars@.subrange(1, n as int) =~= text@.drop_first());
            }
            match read_natural(&chars, 1, n, 0x7fff_ffff) {
                Some(m) => Some(IntConstAbsVal::IntConst(m as i32)),
                None => None,
            }
        } else {
            proof {
                assert(chars@.subrange(0, n as int) =~= text@);
            }
            match read_natural(&chars, 0, n, 0x7fff_ffff) {
                Some(m) => Some(IntConstAbsVal::IntConst(m as i32)),
                None => None,
            }
        }
    }

    /// Joins two abstract values.
    pub fn join(a: &IntConstAbsVal, b: &IntConstAbsVal) -> (r: IntConstAbsVal)
        ensures
            r == Self::join_spec(*a, *b),
    {
        match (a, b) {
            (IntConstAbsVal::Top, _) => IntConstAbsVal::Top,
            (_, IntConstAbsVal::Top) => IntConstAbsVal::Top,
            (IntConstAbsVal::Bottom, _) => *b,
            (_, IntConstAbsVal::Bottom) => *a,
            (IntConstAbsVal::IntConst(i), IntConstAbsVal::IntConst(j)) => {
                if *i == *j {
                    IntConstAbsVal::IntConst(*i)
                } else {
                    IntConstAbsVal::Top
                }
            },
        }
    }

    /// Applies an arithmetic operator to two abstract values.
    pub fn arith(op1: &IntConstAbsVal, op2: &IntConstAbsVal, aop: &ArithOp) -> (r: IntConstAbsVal)
        ensures
            r == Self::arith_spec(*op1, *op2, *aop),
            (*op1 is Bottom || *op2 is Bottom) ==> r is Bottom,
    {
        match (op1, op2) {
            (IntConstAbsVal::IntConst(i), IntConstAbsVal::IntConst(j)) => {
                match aop {
                    ArithOp::Add => IntConstAbsVal::IntConst(i.wrapping_add(*j)),
                    ArithOp::Subtract => IntConstAbsVal::IntConst(i.wrapping_sub(*j)),
                    ArithOp::Multiply => IntConstAbsVal::IntConst(i.wrapping_mul(*j)),
                    ArithOp::Divide => {
                        if *j == 0 {
                            IntConstAbsVal::Top
                        } else {
                            match i.checked_div(*j) {
                                Some(q) => IntConstAbsVal::IntConst(q),
                                None => IntConstAbsVal::IntConst(i32::MIN),
                            }
                        }
                    },
                }
            },
            (IntConstAbsVal::Bottom, _) => IntConstAbsVal::Bottom,
            (_, IntConstAbsVal::Bottom) => IntConstAbsVal::Bottom,
            _ => IntConstAbsVal::Top,
        }
    }

    /// Applies a relational operator to two abstract values.
    pub fn cmp(op1: &IntConstAbsVal, op2: &IntConstAbsVal, rop: &RelaOp) -> (r: IntConstAbsVal)
        ensures
            r == Self::cmp_spec(*op1, *op2, *rop),
            (*op1 is Bottom || *op2 is Bottom) ==> r is Bottom,
    {
        match (op1, op2) {
            (IntConstAbsVal::IntConst(i), IntConstAbsVal::IntConst(j)) => {
                let holds = match rop {
                    RelaOp::Eq => *i == *j,
                    RelaOp::Neq => *i != *j,
                    RelaOp::Less => *i < *j,
                    RelaOp::LessEq => *i <= *j,
                    RelaOp::Greater => *i > *j,
                    RelaOp::GreaterEq => *i >= *j,
                };
                if holds {
                    IntConstAbsVal::IntConst(1)
                } else {
                    IntConstAbsVal::IntConst(0)
                }
            },
            (IntConstAbsVal::Bottom, _) => IntConstAbsVal::Bottom,
            (_, IntConstAbsVal::Bottom) => IntConstAbsVal::Bottom,
            _ => IntConstAbsVal::Top,
        }
    }
}

/// The order is reflexive, antisymmetric and transitive.
pub proof fn lemma_le_is_partial_order(a: IntConstAbsVal, b: IntConstAbsVal, c: IntConstAbsVal)
    ensures
        a.le(a),
        a.le(b) && b.le(a) ==> a == b,
        a.le(b) && b.le(c) ==> a.le(c),
{
}

/// `Bottom` is the least element and `Top` the greatest.
pub proof fn lemma_bounds(a: IntConstAbsVal)
    ensures
        IntConstAbsVal::Bottom.le(a),
        a.le(IntConstAbsVal::Top),
{
}

/// The join of two values is their least upper bound.
pub proof fn lemma_join_is_lub(a: IntConstAbsVal, b: IntConstAbsVal, c: IntConstAbsVal)
    ensures
        a.le(IntConstAbsVal::join_spec(a, b)),
        b.le(IntConstAbsVal::join_spec(a, b)),
        a.le(c) && b.le(c) ==> IntConstAbsVal::join_spec(a, b).le(c),
{
}

/// Join is idempotent, commutative and associative.
pub proof fn lemma_join_laws(a: IntConstAbsVal, b: IntConstAbsVal, c: IntConstAbsVal)
    ensures
        IntConstAbsVal::join_spec(a, a) == a,
        IntConstAbsVal::join_spec(a, b) == IntConstAbsVal::join_spec(b, a),
        IntConstAbsVal::join_spec(IntConstAbsVal::join_spec(a, b), c) == IntConstAbsVal::join_spec(
            a,
            IntConstAbsVal::join_spec(b, c),
        ),
{
}

/// A value lies below another exactly if joining it in changes nothing, and a
/// larger value has a larger rank.
pub proof fn lemma_le_by_join(a: IntConstAbsVal, b: IntConstAbsVal)
    ensures
        a.le(b) <==> IntConstAbsVal::join_spec(b, a) == b,
        a.le(b) ==> a.rank() <= b.rank(),
        a.le(b) && a != b ==> a.rank() < b.rank(),
{
}

/// Abstract arithmetic is monotone in both operands.
pub proof fn lemma_arith_monotone(
    a1: IntConstAbsVal,
    b1: IntConstAbsVal,
    a2: IntConstAbsVal,
    b2: IntConstAbsVal,
    aop: ArithOp,
)
    requires
        a1.le(a2),
        b1.le(b2),
    ensures
        IntConstAbsVal::arith_spec(a1, b1, aop).le(IntConstAbsVal::arith_spec(a2, b2, aop)),
{
}

/// Abstract comparison is monotone in both operands.
pub proof fn lemma_cmp_monotone(
    a1: IntConstAbsVal,
    b1: IntConstAbsVal,
    a2: IntConstAbsVal,
    b2: IntConstAbsVal,
    rop: RelaOp,
)
    requires
        a1.le(a2),
        b1.le(b2),
    ensures
        IntConstAbsVal::cmp_spec(a1, b1, rop).le(IntConstAbsVal::cmp_spec(a2, b2, rop)),
{
}

/// An unreachable operand makes the result unreachable; an unknown operand
/// beside a reachable one makes it unknown.
pub proof fn lemma_operand_extremes(a: IntConstAbsVal, b: IntConstAbsVal, aop: ArithOp, rop: RelaOp)
    ensures
        (a is Bottom || b is Bottom) ==> IntConstAbsVal::arith_spec(a, b, aop) is Bottom
            && IntConstAbsVal::cmp_spec(a, b, rop) is Bottom,
        (a is Top || b is Top) && !(a is Bottom) && !(b is Bottom) ==> IntConstAbsVal::arith_spec(
            a,
            b,
            aop,
        ) is Top && IntConstAbsVal::cmp_spec(a, b, rop) is Top,
{
}

/// Division by the constant 0 is unknown, whatever the dividend.
pub proof fn lemma_division_by_zero(a: IntConstAbsVal)
    ensures
        a is IntConst ==> IntConstAbsVal::arith_spec(a, IntConstAbsVal::IntConst(0), ArithOp::Divide) is Top,
{
}

/// Reading the printed form of a value gives the value back.
pub proof fn lemma_text_round_trip(v: IntConstAbsVal)
    ensures
        IntConstAbsVal::parse_text(v.text()) == Some(v),
{
    reveal_strlit("Top");
    reveal_strlit("Bottom");
    match v {
        IntConstAbsVal::Top => {},
        IntConstAbsVal::Bottom => {},
        IntConstAbsVal::IntConst(i) => {
            let s = v.text();
            if i < 0 {
                let m = (-i) as nat;
                lemma_nat_text_value(m);
                assert(s[0] == '-');
                assert(s.drop_first() =~= nat_text(m));
            } else {
                lemma_nat_text_value(i as nat);
                assert(s == nat_text(i as nat));
            }
        },
    }
}

} // verus!
